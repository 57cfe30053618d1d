use rfstat::cli::{create_file_filters, has_active_filters, should_use_colors};
use rfstat::{Cli, CliOutputFormat, CliSortBy, FileFilters, OutputFormat, RfstatError, SortBy};

#[test]
fn test_parse_size() {
    assert_eq!(Cli::parse_size("1024").unwrap(), 1024);
    assert_eq!(Cli::parse_size("1KB").unwrap(), 1000);
    assert_eq!(Cli::parse_size("1KiB").unwrap(), 1024);
    assert_eq!(Cli::parse_size("1MB").unwrap(), 1_000_000);
    assert_eq!(Cli::parse_size("1.5GB").unwrap(), 1_500_000_000);

    assert!(Cli::parse_size("invalid").is_err());
    assert!(Cli::parse_size("1XB").is_err());
}

#[test]
fn test_parse_extensions() {
    let cli = Cli {
        extensions: Some("txt,log,conf".to_string()),
        ..Default::default()
    };

    let extensions = cli.parse_extensions().unwrap();
    assert_eq!(extensions, vec!["txt", "log", "conf"]);
}

#[test]
fn test_create_file_filters_empty() {
    let cli = Cli {
        extensions: None,
        min_size: None,
        max_size: None,
        ..Default::default()
    };

    let filters = create_file_filters(&cli).unwrap();
    assert!(filters.extensions.is_none());
    assert!(filters.min_size.is_none());
    assert!(filters.max_size.is_none());
}

#[test]
fn test_create_file_filters_with_values() {
    let cli = Cli {
        extensions: Some("txt,log".to_string()),
        min_size: Some("1KB".to_string()),
        max_size: Some("1MB".to_string()),
        ..Default::default()
    };

    let filters = create_file_filters(&cli).unwrap();
    assert_eq!(filters.extensions, Some(vec!["txt".to_string(), "log".to_string()]));
    assert_eq!(filters.min_size, Some(1000));
    assert_eq!(filters.max_size, Some(1_000_000));
}

#[test]
fn test_has_active_filters() {
    let empty_filters = FileFilters::default();
    assert!(!has_active_filters(&empty_filters));

    let filters_with_extension = FileFilters {
        extensions: Some(vec!["txt".to_string()]),
        ..Default::default()
    };
    assert!(has_active_filters(&filters_with_extension));
}

#[test]
fn test_should_use_colors() {
    let cli = Cli {
        quiet: true,
        ..Default::default()
    };
    assert!(!should_use_colors(&cli, true));

    let cli = Cli {
        format: CliOutputFormat::Json,
        ..Default::default()
    };
    assert!(!should_use_colors(&cli, true));
}

#[test]
fn colors_follow_the_terminal_for_table_output() {
    let cli = Cli::default();
    assert!(should_use_colors(&cli, true));
    assert!(!should_use_colors(&cli, false));
    let cli = Cli { format: CliOutputFormat::Csv, ..Default::default() };
    assert!(!should_use_colors(&cli, true));
}

#[test]
fn parse_size_fractions_are_exact_and_truncated() {
    assert_eq!(Cli::parse_size("0.5KB").unwrap(), 500);
    assert_eq!(Cli::parse_size("1.0005KB").unwrap(), 1000);
    assert_eq!(Cli::parse_size("0.29KB").unwrap(), 290);
    assert_eq!(Cli::parse_size(".5KiB").unwrap(), 512);
    assert_eq!(Cli::parse_size("5.").unwrap(), 5);
    assert_eq!(Cli::parse_size("2TiB").unwrap(), 2_199_023_255_552);
    assert_eq!(Cli::parse_size("3TB").unwrap(), 3_000_000_000_000);
    assert_eq!(Cli::parse_size("7GiB").unwrap(), 7_516_192_768);
    assert_eq!(Cli::parse_size("12B").unwrap(), 12);
}

#[test]
fn parse_size_units_ignore_case() {
    assert_eq!(Cli::parse_size("1kb").unwrap(), 1000);
    assert_eq!(Cli::parse_size("1mib").unwrap(), 1_048_576);
    assert_eq!(Cli::parse_size("+4Kb").unwrap(), 4000);
}

#[test]
fn parse_size_signs_and_limits() {
    assert_eq!(Cli::parse_size("-5").unwrap(), 0);
    assert_eq!(Cli::parse_size("-0.5KB").unwrap(), 0);
    assert_eq!(Cli::parse_size("99999999999999999999999TB").unwrap(), u64::MAX);
    assert_eq!(Cli::parse_size("18446744073709551615").unwrap(), u64::MAX);
    assert_eq!(Cli::parse_size("18446744073709551616").unwrap(), u64::MAX);
}

#[test]
fn parse_size_error_messages() {
    assert_eq!(Cli::parse_size("invalid").unwrap_err(), "Invalid number: ");
    assert_eq!(Cli::parse_size("1XB").unwrap_err(), "Unknown unit: XB");
    assert_eq!(Cli::parse_size("1 KB").unwrap_err(), "Invalid number: 1 ");
    assert_eq!(Cli::parse_size("").unwrap_err(), "Invalid number: ");
    assert_eq!(Cli::parse_size(".").unwrap_err(), "Invalid number: .");
    assert_eq!(Cli::parse_size("1.2.3MB").unwrap_err(), "Invalid number: 1.2.3");
    assert_eq!(Cli::parse_size("1e3").unwrap_err(), "Unknown unit: E3");
    assert!(Cli::parse_size("1KB\u{e9}").is_err());
    assert!(Cli::parse_size("\u{bd}KB").is_err());
}

#[test]
fn parse_extensions_trims_lowers_and_drops_empty_items() {
    let cli = Cli { extensions: Some(" TXT , ,Log,,".to_string()), ..Default::default() };
    assert_eq!(cli.parse_extensions().unwrap(), vec!["txt", "log"]);
    let cli = Cli { extensions: Some(String::new()), ..Default::default() };
    assert_eq!(cli.parse_extensions().unwrap(), Vec::<String>::new());
    let cli = Cli::default();
    assert!(cli.parse_extensions().is_none());
}

#[test]
fn create_file_filters_reports_bad_sizes() {
    let cli = Cli { min_size: Some("12QB".to_string()), ..Default::default() };
    match create_file_filters(&cli) {
        Err(RfstatError::Config { message }) => {
            assert_eq!(message, "Invalid min-size: Unknown unit: QB")
        }
        other => panic!("unexpected result: {:?}", other),
    }
    let cli = Cli { max_size: Some("big".to_string()), ..Default::default() };
    match create_file_filters(&cli) {
        Err(RfstatError::Config { message }) => assert_eq!(message, "Invalid max-size: Invalid number: "),
        other => panic!("unexpected result: {:?}", other),
    }
}

#[test]
fn min_and_max_size_settings() {
    let cli = Cli { min_size: Some("2KB".to_string()), ..Default::default() };
    assert_eq!(cli.get_min_size_bytes(), Ok(Some(2000)));
    assert_eq!(cli.get_max_size_bytes(), Ok(None));
    let cli = Cli { max_size: Some("x".to_string()), ..Default::default() };
    assert!(cli.get_max_size_bytes().is_err());
}

#[test]
fn to_config_maps_every_setting() {
    let cli = Cli {
        format: CliOutputFormat::Csv,
        sort: CliSortBy::Modified,
        all: true,
        no_recursive: true,
        depth: Some(3),
        ..Default::default()
    };
    let config = cli.to_config();
    assert_eq!(config.format, OutputFormat::Csv);
    assert_eq!(config.sort_by, SortBy::Modified);
    assert!(config.show_hidden);
    assert!(!config.recursive);
    assert_eq!(config.max_depth, Some(3));
    let config = Cli::default().to_config();
    assert_eq!(config.format, OutputFormat::Table);
    assert_eq!(config.sort_by, SortBy::Name);
    assert!(!config.show_hidden);
    assert!(config.recursive);
    assert_eq!(config.max_depth, None);
}

#[test]
fn cli_enums_convert() {
    assert_eq!(OutputFormat::from(CliOutputFormat::Summary), OutputFormat::Summary);
    assert_eq!(OutputFormat::from(CliOutputFormat::Json), OutputFormat::Json);
    assert_eq!(SortBy::from(CliSortBy::Type), SortBy::Type);
    assert_eq!(SortBy::from(CliSortBy::Size), SortBy::Size);
}

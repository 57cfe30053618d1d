use rfstat::{
    apply_filters, calculate_stats, filter_entries, format_number, get_largest_files, get_top_file_types,
    size_total_fits, sort_entries, FileEntry, FileFilters, FileStats, FormatterOptions, RfstatError, SortBy,
    Timestamp, TypeStats, SizeDistribution,
};

fn create_test_entry(name: &str, size: u64, is_dir: bool, file_type: Option<&str>) -> FileEntry {
    FileEntry {
        path: name.to_string(),
        size,
        is_dir,
        modified: Timestamp { secs: 1_700_000_000, nanos: 0 },
        permissions: 0o644,
        file_type: file_type.map(|s| s.to_string()),
    }
}

fn timed(name: &str, secs: i64, nanos: u32) -> FileEntry {
    FileEntry { modified: Timestamp { secs, nanos }, ..create_test_entry(name, 1, false, None) }
}

fn paths(entries: &[FileEntry]) -> Vec<String> {
    entries.iter().map(|e| e.path.clone()).collect()
}

#[test]
fn test_calculate_stats_empty() {
    let entries = vec![];
    let stats = calculate_stats(&entries);

    assert_eq!(stats.total_files, 0);
    assert_eq!(stats.total_dirs, 0);
    assert_eq!(stats.total_size, 0);
}

#[test]
fn test_calculate_stats_with_files() {
    let entries = vec![
        create_test_entry("file1.txt", 1000, false, Some("txt")),
        create_test_entry("file2.txt", 2000, false, Some("txt")),
        create_test_entry("dir1", 0, true, None),
    ];

    let stats = calculate_stats(&entries);

    assert_eq!(stats.total_files, 2);
    assert_eq!(stats.total_dirs, 1);
    assert_eq!(stats.total_size, 3000);
    assert_eq!(stats.avg_file_size, 1500);
    assert_eq!(stats.max_file_size, 2000);
    assert_eq!(stats.min_file_size, 1000);

    let txt_stats = stats.type_stats("txt").unwrap();
    assert_eq!(txt_stats.count, 2);
    assert_eq!(txt_stats.total_size, 3000);
    assert_eq!(txt_stats.avg_size, 1500);
}

#[test]
fn test_get_largest_files() {
    let entries = vec![
        create_test_entry("small.txt", 100, false, Some("txt")),
        create_test_entry("large.txt", 1000, false, Some("txt")),
        create_test_entry("medium.txt", 500, false, Some("txt")),
        create_test_entry("dir", 0, true, None),
    ];

    let largest = get_largest_files(&entries, 2);

    assert_eq!(largest.len(), 2);
    assert_eq!(largest[0].size, 1000);
    assert_eq!(largest[1].size, 500);
}

#[test]
fn test_size_distribution() {
    let entries = vec![
        create_test_entry("tiny.txt", 500, false, Some("txt")),
        create_test_entry("small.txt", 50000, false, Some("txt")),
        create_test_entry("medium.txt", 5000000, false, Some("txt")),
        create_test_entry("large.txt", 500000000, false, Some("txt")),
        create_test_entry("huge.txt", 5000000000, false, Some("txt")),
    ];

    let stats = calculate_stats(&entries);

    assert_eq!(stats.size_distribution.tiny, 1);
    assert_eq!(stats.size_distribution.small, 1);
    assert_eq!(stats.size_distribution.medium, 1);
    assert_eq!(stats.size_distribution.large, 1);
    assert_eq!(stats.size_distribution.huge, 1);
}

#[test]
fn bucket_boundaries() {
    let sizes = [0u64, 1023, 1024, 1_048_575, 1_048_576, 104_857_599, 104_857_600, 1_073_741_823, 1_073_741_824, u64::MAX];
    let mut d = SizeDistribution::new();
    for s in sizes {
        d.add_size(s);
    }
    assert_eq!((d.tiny, d.small, d.medium, d.large, d.huge), (2, 2, 2, 2, 2));
}

#[test]
fn counts_add_up_and_extremes_bound_every_file() {
    let entries = vec![
        create_test_entry("a.rs", 10, false, Some("rs")),
        create_test_entry("b", 0, true, None),
        create_test_entry("c.md", 7000, false, Some("md")),
        create_test_entry("Makefile", 300, false, None),
        create_test_entry("d.rs", 5, false, Some("rs")),
        create_test_entry("e", 0, true, None),
    ];
    let stats = calculate_stats(&entries);
    assert_eq!(stats.total_files + stats.total_dirs, entries.len() as u64);
    let d = stats.size_distribution;
    assert_eq!(d.tiny + d.small + d.medium + d.large + d.huge, stats.total_files);
    assert_eq!(stats.avg_file_size, 7315 / 4);
    assert_eq!(stats.max_file_size, 7000);
    assert_eq!(stats.min_file_size, 5);
    let count: u64 = stats.file_types.iter().map(|(_, t)| t.count).sum();
    let size: u64 = stats.file_types.iter().map(|(_, t)| t.total_size).sum();
    assert_eq!(count, stats.total_files);
    assert_eq!(size, stats.total_size);
    let keys: Vec<&str> = stats.file_types.iter().map(|(k, _)| k.as_str()).collect();
    assert_eq!(keys, vec!["rs", "md", "no_extension"]);
    assert_eq!(stats.type_stats("rs"), Some(TypeStats { count: 2, total_size: 15, avg_size: 7 }));
    assert_eq!(stats.type_stats("no_extension").unwrap().count, 1);
    assert_eq!(stats.type_stats("zip"), None);
    assert_eq!(paths(&stats.entries), paths(&entries));
}

#[test]
fn directories_only_give_zero_extremes() {
    let entries = vec![create_test_entry("x", 0, true, None), create_test_entry("y", 0, true, None)];
    let stats = calculate_stats(&entries);
    assert_eq!(stats.total_files, 0);
    assert_eq!(stats.total_dirs, 2);
    assert_eq!(stats.avg_file_size, 0);
    assert_eq!(stats.min_file_size, 0);
    assert_eq!(stats.max_file_size, 0);
    assert!(stats.file_types.is_empty());
    let empty = FileStats::new();
    assert_eq!(empty.min_file_size, 0);
    assert_eq!(empty.total_size_human(), "0 B");
}

#[test]
fn size_total_must_fit() {
    let big = vec![
        create_test_entry("a", u64::MAX - 1, false, None),
        create_test_entry("b", 1, false, None),
    ];
    assert!(size_total_fits(&big));
    let too_big = vec![
        create_test_entry("a", u64::MAX - 1, false, None),
        create_test_entry("b", 2, false, None),
        create_test_entry("c", 9, true, None),
    ];
    assert!(!size_total_fits(&too_big));
    assert_eq!(calculate_stats(&big).total_size, u64::MAX);
}

#[test]
fn human_sizes() {
    let e = create_test_entry("test.txt", 2048, false, Some("txt"));
    assert_eq!(e.size_human(), "2.05 kB");
    let e = create_test_entry("document.txt", 1024, false, Some("txt"));
    assert_eq!(e.size_human(), "1.02 kB");
    let mut stats = FileStats::new();
    stats.total_size = 1048576;
    assert_eq!(stats.total_size_human(), "1.05 MB");
    stats.avg_file_size = 999;
    assert_eq!(stats.avg_file_size_human(), "999 B");
    let t = TypeStats { count: 1, total_size: 5_000_000_000, avg_size: 0 };
    assert_eq!(t.total_size_human(), "5 GB");
}

#[test]
fn test_format_number() {
    assert_eq!(format_number(1234), "1,234");
    assert_eq!(format_number(1234567), "1,234,567");
    assert_eq!(format_number(123), "123");
}

#[test]
fn format_number_edges() {
    assert_eq!(format_number(0), "0");
    assert_eq!(format_number(1000), "1,000");
    assert_eq!(format_number(999_999), "999,999");
    assert_eq!(format_number(u64::MAX), "18,446,744,073,709,551,615");
}

#[test]
fn formatter_defaults() {
    let o = FormatterOptions::default();
    assert!(o.use_colors && o.show_file_types);
    assert!(!o.summary_only && !o.show_permissions && !o.show_times);
    assert_eq!(o.limit, None);
}

#[test]
fn test_filter_by_extension() {
    let entries = vec![
        create_test_entry("test.txt", 100, false, Some("txt")),
        create_test_entry("test.log", 200, false, Some("log")),
    ];

    let filters = FileFilters { extensions: Some(vec!["txt".to_string()]), ..Default::default() };

    let filtered = filter_entries(&entries, &filters);
    assert_eq!(filtered.len(), 1);
    assert_eq!(filtered[0].file_type, Some("txt".to_string()));
}

#[test]
fn filters_by_class_and_size() {
    let entries = vec![
        create_test_entry("a.txt", 10, false, Some("txt")),
        create_test_entry("dir", 0, true, None),
        create_test_entry("b", 5000, false, None),
        create_test_entry("c.txt", 20000, false, Some("txt")),
    ];
    let sized = FileFilters { min_size: Some(100), max_size: Some(10000), ..Default::default() };
    assert_eq!(paths(&filter_entries(&entries, &sized)), vec!["dir", "b"]);
    let files = FileFilters { files_only: true, ..Default::default() };
    assert_eq!(paths(&filter_entries(&entries, &files)), vec!["a.txt", "b", "c.txt"]);
    let dirs = FileFilters { dirs_only: true, ..Default::default() };
    assert_eq!(paths(&filter_entries(&entries, &dirs)), vec!["dir"]);
    let ext = FileFilters { extensions: Some(vec!["txt".to_string()]), ..Default::default() };
    assert_eq!(paths(&filter_entries(&entries, &ext)), vec!["a.txt", "dir", "c.txt"]);
    assert!(!apply_filters(&entries[2], &ext));
    assert!(apply_filters(&entries[1], &sized));
}

#[test]
fn filtering_twice_changes_nothing() {
    let entries = vec![
        create_test_entry("a.txt", 10, false, Some("txt")),
        create_test_entry("dir", 0, true, None),
        create_test_entry("c.log", 20000, false, Some("log")),
    ];
    let f = FileFilters { extensions: Some(vec!["log".to_string()]), min_size: Some(5), ..Default::default() };
    let once = filter_entries(&entries, &f);
    let twice = filter_entries(&once, &f);
    assert_eq!(paths(&once), paths(&twice));
}

#[test]
fn sort_by_name_orders_paths_component_wise() {
    let mut entries = vec![
        create_test_entry("root/foo.txt", 1, false, Some("txt")),
        create_test_entry("root/foo/bar.txt", 1, false, Some("txt")),
        create_test_entry("root/foo", 0, true, None),
        create_test_entry("root/Zeta", 1, false, None),
        create_test_entry("root/alpha", 1, false, None),
    ];
    sort_entries(&mut entries, SortBy::Name);
    assert_eq!(paths(&entries), vec!["root/Zeta", "root/alpha", "root/foo", "root/foo/bar.txt", "root/foo.txt"]);
    let before = paths(&entries);
    sort_entries(&mut entries, SortBy::Name);
    assert_eq!(paths(&entries), before);
}

#[test]
fn sort_by_size_is_stable_and_largest_first() {
    let mut entries = vec![
        create_test_entry("d1", 0, true, None),
        create_test_entry("a", 10, false, None),
        create_test_entry("b", 300, false, None),
        create_test_entry("c", 10, false, None),
        create_test_entry("e", 0, false, None),
    ];
    sort_entries(&mut entries, SortBy::Size);
    assert_eq!(paths(&entries), vec!["b", "a", "c", "d1", "e"]);
}

#[test]
fn sort_by_modified_newest_first() {
    let mut entries = vec![timed("old", 100, 0), timed("newest", 200, 5), timed("newer", 200, 1)];
    sort_entries(&mut entries, SortBy::Modified);
    assert_eq!(paths(&entries), vec!["newest", "newer", "old"]);
}

#[test]
fn sort_by_type_puts_untyped_last_by_path() {
    let mut entries = vec![
        create_test_entry("z", 0, true, None),
        create_test_entry("b.txt", 1, false, Some("txt")),
        create_test_entry("a", 1, false, None),
        create_test_entry("c.log", 1, false, Some("log")),
        create_test_entry("a.txt", 1, false, Some("txt")),
    ];
    sort_entries(&mut entries, SortBy::Type);
    assert_eq!(paths(&entries), vec!["c.log", "b.txt", "a.txt", "a", "z"]);
}

#[test]
fn top_file_types_by_count() {
    let entries = vec![
        create_test_entry("a.md", 1, false, Some("md")),
        create_test_entry("b.rs", 1, false, Some("rs")),
        create_test_entry("c.rs", 1, false, Some("rs")),
        create_test_entry("d.toml", 1, false, Some("toml")),
    ];
    let stats = calculate_stats(&entries);
    let top = get_top_file_types(&stats, 2);
    let names: Vec<&str> = top.iter().map(|(k, _)| k.as_str()).collect();
    assert_eq!(names, vec!["rs", "md"]);
    assert_eq!(top[0].1.count, 2);
    assert_eq!(get_top_file_types(&stats, 10).len(), 3);
}

#[test]
fn test_error_creation() {
    let error = RfstatError::path_not_found("/nonexistent");
    match error {
        RfstatError::PathNotFound { path } => assert_eq!(path, "/nonexistent"),
        _ => panic!("Wrong error type"),
    }
}

#[test]
fn test_error_display() {
    let error = RfstatError::generic("Test error message");
    assert_eq!(error.to_message(), "Error: Test error message");
}

#[test]
fn error_messages() {
    assert_eq!(RfstatError::permission_denied("/x").to_message(), "Permission denied accessing: /x");
    assert_eq!(RfstatError::invalid_path("??").to_message(), "Invalid path: ??");
    assert_eq!(RfstatError::config("bad").to_message(), "Configuration error: bad");
    assert_eq!(RfstatError::path_not_found("/p").to_message(), "Path not found: /p");
    assert_eq!(RfstatError::Io { message: "eof".to_string() }.to_message(), "I/O error: eof");
    assert_eq!(RfstatError::Csv { message: "w".to_string() }.to_message(), "CSV error: w");
    assert_eq!(RfstatError::Serialization { message: "s".to_string() }.to_message(), "Serialization error: s");
}

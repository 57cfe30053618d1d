use rfstat::{
    calculate_stats, create_file_entry, filter_entries, is_hidden, process_dir_entry, scan_step, sort_entries,
    start_scan, walk_depth_limit, Config, EntryMeta, FileEntry, FileFilters, RfstatError, RootProbe, ScanStart,
    SortBy, StepOutcome, Timestamp, WalkEvent, WalkItem,
};

fn file_meta(len: u64) -> EntryMeta {
    EntryMeta {
        is_file: true,
        is_dir: false,
        len,
        modified: Timestamp { secs: 1_700_000_000, nanos: 0 },
        permissions: 0o644,
    }
}

fn dir_meta() -> EntryMeta {
    EntryMeta {
        is_file: false,
        is_dir: true,
        len: 4096,
        modified: Timestamp { secs: 1_700_000_000, nanos: 0 },
        permissions: 0o755,
    }
}

fn found(path: &str, depth: usize, meta: EntryMeta) -> WalkEvent {
    WalkEvent::Found(WalkItem { path: path.to_string(), depth, meta: Ok(meta) })
}

fn walk(events: Vec<WalkEvent>, config: &Config) -> Vec<FileEntry> {
    let mut entries = Vec::new();
    for event in events {
        scan_step(&mut entries, event, config);
    }
    entries
}

fn sample_tree() -> Vec<WalkEvent> {
    vec![
        found("root", 0, dir_meta()),
        found("root/a.txt", 1, file_meta(500)),
        found("root/b.log", 1, file_meta(2_000)),
        found("root/d", 1, dir_meta()),
        found("root/d/c.txt", 2, file_meta(2_000_000)),
    ]
}

#[test]
fn test_is_hidden() {
    assert!(is_hidden(".hidden"));
    assert!(is_hidden("/path/to/.hidden"));
    assert!(!is_hidden("visible"));
    assert!(!is_hidden("/path/to/visible"));
}

#[test]
fn hidden_names_follow_the_final_component() {
    assert!(!is_hidden("."));
    assert!(!is_hidden(".."));
    assert!(!is_hidden("./visible"));
    assert!(is_hidden("dir/.git/"));
    assert!(is_hidden("dir/.git/."));
    assert!(!is_hidden(".config/settings"));
    assert!(!is_hidden(""));
}

#[test]
fn file_names_and_extensions() {
    assert_eq!(rfstat::file_name("/a/b/report.TXT"), "report.TXT");
    assert_eq!(rfstat::file_name("a/b/"), "b");
    assert_eq!(rfstat::file_name("a/.."), "");
    assert_eq!(rfstat::extension("dir/archive.tar.gz"), Some("gz".to_string()));
    assert_eq!(rfstat::extension("dir/.bashrc"), None);
    assert_eq!(rfstat::extension("dir/.config.json"), Some("json".to_string()));
    assert_eq!(rfstat::extension("dir/file."), Some(String::new()));
    assert_eq!(rfstat::extension("dir.d/README"), None);
}

#[test]
fn entries_are_built_from_metadata() {
    let e = create_file_entry("docs/Report.PDF", &file_meta(1234));
    assert_eq!(e.path, "docs/Report.PDF");
    assert_eq!(e.size, 1234);
    assert!(!e.is_dir);
    assert_eq!(e.file_type, Some("pdf".to_string()));
    assert_eq!(e.permissions, 0o644);
    assert_eq!(e.name(), "Report.PDF");

    let d = create_file_entry("docs/sub.d", &dir_meta());
    assert!(d.is_dir);
    assert_eq!(d.size, 0);
    assert_eq!(d.file_type, None);

    let special = EntryMeta { is_file: false, is_dir: false, ..file_meta(77) };
    let s = create_file_entry("run/app.sock", &special);
    assert_eq!(s.size, 0);
    assert!(!s.is_dir);
    assert_eq!(s.file_type, None);
}

#[test]
fn hidden_file_is_left_out_unless_shown() {
    let events = || vec![found("root", 0, dir_meta()), found("root/.secret", 1, file_meta(10))];
    let hidden_off = Config::default();
    assert_eq!(walk(events(), &hidden_off).len(), 0);
    let hidden_on = Config { show_hidden: true, ..Config::default() };
    let entries = walk(events(), &hidden_on);
    assert_eq!(entries.len(), 1);
    assert_eq!(entries[0].path, "root/.secret");
}

#[test]
fn depth_limit_leaves_out_deeper_files() {
    let limited = Config { max_depth: Some(1), ..Config::default() };
    let entries = walk(sample_tree(), &limited);
    assert!(entries.iter().all(|e| e.path != "root/d/c.txt"));
    assert_eq!(entries.len(), 3);

    let flat = Config { recursive: false, max_depth: Some(10), ..Config::default() };
    let entries = walk(sample_tree(), &flat);
    assert!(entries.iter().all(|e| e.path != "root/d/c.txt"));
    assert_eq!(walk_depth_limit(&flat), Some(1));
    assert_eq!(walk_depth_limit(&Config::default()), None);
    assert_eq!(walk_depth_limit(&limited), Some(1));
}

#[test]
fn scan_steps_report_what_they_did() {
    let config = Config::default();
    let mut entries = Vec::new();
    assert_eq!(scan_step(&mut entries, found("root", 0, dir_meta()), &config), StepOutcome::Skipped);
    assert_eq!(scan_step(&mut entries, found("root/x.rs", 1, file_meta(5)), &config), StepOutcome::Added);
    let broken = WalkEvent::Found(WalkItem {
        path: "root/broken".to_string(),
        depth: 1,
        meta: Err("No such file or directory".to_string()),
    });
    assert_eq!(
        scan_step(&mut entries, broken, &config),
        StepOutcome::Degraded { message: "No such file or directory".to_string() }
    );
    let failed = WalkEvent::Failed { message: "Permission denied".to_string() };
    assert_eq!(
        scan_step(&mut entries, failed, &config),
        StepOutcome::Degraded { message: "Permission denied".to_string() }
    );
    assert_eq!(entries.len(), 1);
}

#[test]
fn process_dir_entry_policy() {
    let config = Config::default();
    let item = WalkItem { path: "r/.hidden".to_string(), depth: 1, meta: Ok(file_meta(3)) };
    assert_eq!(process_dir_entry(&item, &config).unwrap().is_none(), true);
    let item = WalkItem { path: "r".to_string(), depth: 0, meta: Ok(dir_meta()) };
    assert!(process_dir_entry(&item, &config).unwrap().is_none());
    let item = WalkItem { path: "r/f.md".to_string(), depth: 1, meta: Ok(file_meta(3)) };
    assert_eq!(process_dir_entry(&item, &config).unwrap().unwrap().file_type, Some("md".to_string()));
    let item = WalkItem { path: "r/f.md".to_string(), depth: 1, meta: Err("gone".to_string()) };
    assert_eq!(process_dir_entry(&item, &config).unwrap_err(), "gone");
}

#[test]
fn missing_root_is_fatal() {
    match start_scan("/nonexistent/path", RootProbe::Missing) {
        Err(RfstatError::PathNotFound { path }) => assert_eq!(path, "/nonexistent/path"),
        other => panic!("unexpected result: {:?}", other),
    }
}

#[test]
fn root_file_and_directory() {
    match start_scan("notes.txt", RootProbe::File(Ok(file_meta(42)))) {
        Ok(ScanStart::Single(e)) => {
            assert_eq!(e.size, 42);
            assert_eq!(e.file_type, Some("txt".to_string()));
        }
        other => panic!("unexpected result: {:?}", other),
    }
    assert!(matches!(start_scan("d", RootProbe::Directory), Ok(ScanStart::Walk)));
    match start_scan("f", RootProbe::File(Err("denied".to_string()))) {
        Err(RfstatError::Io { message }) => assert_eq!(message, "denied"),
        other => panic!("unexpected result: {:?}", other),
    }
}

#[test]
fn scenario_recursive_scan_without_filters() {
    let mut entries = walk(sample_tree(), &Config::default());
    sort_entries(&mut entries, SortBy::Name);
    let stats = calculate_stats(&entries);
    assert_eq!(stats.total_files, 3);
    assert_eq!(stats.total_dirs, 1);
    assert_eq!(stats.total_size, 2_002_500);
    assert_eq!(stats.size_distribution.tiny, 1);
    assert_eq!(stats.size_distribution.small, 1);
    assert_eq!(stats.size_distribution.medium, 1);
    assert_eq!(stats.size_distribution.large, 0);
    assert_eq!(stats.size_distribution.huge, 0);
    assert_eq!(stats.type_stats("txt").unwrap().count, 2);
}

#[test]
fn scenario_extension_filter_keeps_only_logs() {
    let entries = walk(sample_tree(), &Config::default());
    let filters = FileFilters { extensions: Some(vec!["log".to_string()]), files_only: true, ..Default::default() };
    let kept = filter_entries(&entries, &filters);
    assert_eq!(kept.len(), 1);
    assert_eq!(kept[0].path, "root/b.log");
    let stats = calculate_stats(&kept);
    assert_eq!(stats.total_files, 1);

    let only_ext = FileFilters { extensions: Some(vec!["log".to_string()]), ..Default::default() };
    let kept = filter_entries(&entries, &only_ext);
    let files: Vec<_> = kept.iter().filter(|e| !e.is_dir).collect();
    assert_eq!(files.len(), 1);
    assert_eq!(files[0].path, "root/b.log");
    assert_eq!(calculate_stats(&kept).total_files, 1);
}

#[test]
fn scan_of_empty_directory_yields_nothing() {
    let entries = walk(vec![found("tmp", 0, dir_meta())], &Config::default());
    assert_eq!(entries.len(), 0);
}

#[test]
fn scan_finds_both_files() {
    let events = vec![
        found("tmp", 0, dir_meta()),
        found("tmp/test1.txt", 1, file_meta(0)),
        found("tmp/test2.log", 1, file_meta(0)),
    ];
    let entries = walk(events, &Config::default());
    assert_eq!(entries.len(), 2);
    assert_eq!(entries[1].file_type, Some("log".to_string()));
}

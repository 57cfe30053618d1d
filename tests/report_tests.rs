use rfstat::{
    calculate_directory_stats, calculate_stats, generate_summary_report, path_components, DirectoryStats, FileEntry,
    Timestamp,
};

fn entry(path: &str, size: u64, is_dir: bool, file_type: Option<&str>) -> FileEntry {
    FileEntry {
        path: path.to_string(),
        size,
        is_dir,
        modified: Timestamp { secs: 0, nanos: 0 },
        permissions: 0o644,
        file_type: file_type.map(|s| s.to_string()),
    }
}

#[test]
fn component_counts() {
    assert_eq!(path_components("/a/b"), 3);
    assert_eq!(path_components("./a"), 2);
    assert_eq!(path_components("."), 1);
    assert_eq!(path_components(""), 0);
    assert_eq!(path_components("a//b/"), 2);
    assert_eq!(path_components("a/./b"), 2);
    assert_eq!(path_components("../x"), 2);
    assert_eq!(path_components("/"), 1);
    assert_eq!(path_components(".hidden/x"), 2);
}

#[test]
fn directory_stats_find_the_fullest_directory() {
    let entries = vec![
        entry("root/a.txt", 500, false, Some("txt")),
        entry("root/b.log", 2000, false, Some("log")),
        entry("root/d", 0, true, None),
        entry("root/d/c.txt", 2_000_000, false, Some("txt")),
    ];
    let d = calculate_directory_stats(&entries);
    assert_eq!(d.total_directories, 1);
    assert_eq!(d.max_depth, 2);
    assert_eq!(d.largest_directory, Some("root/d".to_string()));
    assert_eq!(d.largest_directory_size, 2_000_000);
    assert_eq!(d.largest_directory_size_human(), "2 MB");
}

#[test]
fn directory_entry_resets_its_size() {
    let entries = vec![entry("r/d/x", 10, false, None), entry("r/d", 0, true, None)];
    let d = calculate_directory_stats(&entries);
    assert_eq!(d.largest_directory, Some("r/d".to_string()));
    assert_eq!(d.largest_directory_size, 0);
}

#[test]
fn directory_ties_go_to_the_last() {
    let entries = vec![entry("a/x", 5, false, None), entry("b/y", 5, false, None)];
    let d = calculate_directory_stats(&entries);
    assert_eq!(d.largest_directory, Some("b".to_string()));
    assert_eq!(d.total_directories, 0);
    let empty = calculate_directory_stats(&[]);
    assert_eq!(empty.largest_directory, None);
    assert_eq!(empty.largest_directory_size, DirectoryStats::new().largest_directory_size);
}

#[test]
fn summary_report_values() {
    let entries = vec![
        entry("p/a.rs", 300, false, Some("rs")),
        entry("p/b.rs", 100, false, Some("rs")),
        entry("p/c.md", 200, false, Some("md")),
        entry("p/d.md", 400, false, Some("md")),
        entry("p/e.md", 50, false, Some("md")),
        entry("p/sub", 0, true, None),
    ];
    let stats = calculate_stats(&entries);
    let r = generate_summary_report(&stats);
    assert_eq!(r.total_files, 5);
    assert_eq!(r.total_directories, 1);
    assert_eq!(r.total_size, 1050);
    assert_eq!(r.avg_file_size, 210);
    assert_eq!(r.median_file_size, 200);
    assert_eq!(r.largest_file_size, 400);
    assert_eq!(r.smallest_file_size, 50);
    assert_eq!(r.most_common_type, Some("md".to_string()));
    let sizes: Vec<u64> = r.largest_files.iter().map(|e| e.size).collect();
    assert_eq!(sizes, vec![400, 300, 200, 100, 50]);
    assert_eq!(r.top_file_types.len(), 2);
    assert_eq!(r.total_size_human(), "1.05 kB");
    assert_eq!(r.median_file_size_human(), "200 B");
    assert_eq!(r.avg_file_size_human(), "210 B");
}

#[test]
fn summary_report_of_nothing() {
    let stats = calculate_stats(&[]);
    let r = generate_summary_report(&stats);
    assert_eq!(r.median_file_size, 0);
    assert_eq!(r.smallest_file_size, 0);
    assert_eq!(r.most_common_type, None);
    assert!(r.largest_files.is_empty());
}

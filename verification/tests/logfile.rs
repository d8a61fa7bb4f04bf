use procmon::logfile::dated_path;
use procmon::logfile::RotatingLogWriter;
use procmon::logfile::RotatingWriter;
use procmon::paths::extension_of;

#[test]
fn dated_paths_have_prefix_date_and_extension() {
    assert_eq!(dated_path("/d", "procs", "jsonl", "2025-01-01"), "/d/procs-2025-01-01.jsonl");
}

#[test]
fn the_log_changes_its_file_with_the_day() {
    let (mut log, path) = RotatingLogWriter::new("/logs", 7, "2025-01-01");
    assert_eq!(path, "/logs/monitor-2025-01-01.log");
    assert_eq!(log.rotate_if_needed("2025-01-01"), None);
    assert_eq!(log.rotate_if_needed("2025-01-02"), Some("/logs/monitor-2025-01-02.log".to_string()));
    // Until the new file is open, the old one stays.
    assert_eq!(log.rotate_if_needed("2025-01-02"), Some("/logs/monitor-2025-01-02.log".to_string()));
    assert!(log.rotated("2025-01-02"));
    assert_eq!(log.rotate_if_needed("2025-01-02"), None);
    let (mut forever, _) = RotatingLogWriter::new("/logs", 0, "2025-01-01");
    assert!(!forever.rotated("2025-01-02"));
}

#[test]
fn log_files_are_found_by_their_extension() {
    assert_eq!(extension_of("monitor-2025-01-01.log"), Some("log".to_string()));
    assert_eq!(extension_of("monitor.2025-01-01.log"), Some("log".to_string()));
}

#[test]
fn a_given_path_never_changes() {
    let (fixed, path) = RotatingWriter::open("/d", "procs", "jsonl", Some("/x.jsonl".to_string()), "2025-01-01");
    assert_eq!(path, "/x.jsonl");
    assert_eq!(fixed.maybe_rotate("2025-01-02"), None);
    let (mut daily, path) = RotatingWriter::open("/d", "procs", "jsonl", None, "2025-01-01");
    assert_eq!(path, "/d/procs-2025-01-01.jsonl");
    assert_eq!(daily.maybe_rotate("2025-01-01"), None);
    assert_eq!(daily.maybe_rotate("2025-01-02"), Some("/d/procs-2025-01-02.jsonl".to_string()));
    daily.rotated("2025-01-02");
    assert_eq!(daily.maybe_rotate("2025-01-02"), None);
}

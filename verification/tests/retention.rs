use procmon::retention::purge_old_files;
use procmon::retention::DailyRetention;
use procmon::retention::FileEntry;

fn entry(name: &str, mtime: Option<u64>) -> FileEntry {
    FileEntry { name: name.to_string(), mtime }
}

#[test]
fn old_files_of_the_extension_are_found() {
    let now = 10 * 86400;
    let files = vec![
        entry("a.parquet", Some(0)),
        entry("b.log", Some(0)),
        entry("c.parquet", Some(3 * 86400 - 1)),
        entry("d.parquet", Some(3 * 86400)),
        entry("e.parquet", None),
        entry("parquet", Some(0)),
        entry(".parquet", Some(0)),
    ];
    assert_eq!(purge_old_files(&files, "parquet", now, 7), vec![0, 2]);
    assert_eq!(purge_old_files(&files, "log", now, 7), vec![1]);
}

#[test]
fn a_retention_longer_than_the_epoch_removes_nothing() {
    let files = vec![entry("a.parquet", Some(0))];
    assert!(purge_old_files(&files, "parquet", 5 * 86400, 7).is_empty());
    let longest = u64::MAX / 86400;
    assert_eq!(purge_old_files(&files, "parquet", u64::MAX, longest), vec![0]);
    assert!(purge_old_files(&files, "parquet", u64::MAX, longest + 1).is_empty());
    assert!(purge_old_files(&files, "parquet", u64::MAX, u64::MAX).is_empty());
}

#[test]
fn old_files_are_looked_for_once_a_day() {
    let mut retention = DailyRetention::new(7, "2025-01-01".to_string());
    assert!(!retention.due("2025-01-01"));
    assert!(retention.due("2025-01-02"));
    assert!(!retention.due("2025-01-02"));
    assert!(retention.due("2025-01-03"));
}

#[test]
fn zero_days_keep_files_forever() {
    let mut retention = DailyRetention::new(0, "2025-01-01".to_string());
    assert!(!retention.due("2025-01-02"));
    assert_eq!(retention.last_date, "2025-01-01");
}

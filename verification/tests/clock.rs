use procmon::clock::current_hour;
use procmon::clock::hour_at;
use procmon::clock::today;

#[test]
fn hours_are_labelled_in_utc() {
    assert_eq!(current_hour(0), Some("1970-01-01T00".to_string()));
    assert_eq!(current_hour(3599), Some("1970-01-01T00".to_string()));
    assert_eq!(current_hour(3600), Some("1970-01-01T01".to_string()));
    assert_eq!(current_hour(1735689600), Some("2025-01-01T00".to_string()));
    assert_eq!(current_hour(951868799), Some("2000-02-29T23".to_string()));
    assert_eq!(current_hour(253402300799), Some("9999-12-31T23".to_string()));
    assert_eq!(current_hour(i64::MAX), None);
}

#[test]
fn the_local_date_is_near_the_utc_date() {
    let date = today(1735732800).unwrap();
    assert!(["2024-12-31", "2025-01-01", "2025-01-02"].contains(&date.as_str()));
    assert_eq!(date.len(), 10);
}

#[test]
fn dates_and_hours_beyond_the_calendar_have_no_label() {
    assert_eq!(today(i64::MAX), None);
    assert_eq!(hour_at(u128::MAX), None);
    assert_eq!(hour_at(3_599_999_999_999), Some("1970-01-01T00".to_string()));
    assert_eq!(hour_at(3_600_000_000_000), Some("1970-01-01T01".to_string()));
}

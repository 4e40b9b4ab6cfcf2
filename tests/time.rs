use diary::clock::{is_today, now_iso8601, today_jst};
use diary::{calculate_weekday, is_valid_date, parse_date};

#[test]
fn test_parse_date_valid() {
    let result = parse_date("2025-01-15");
    assert!(result.is_some());
    assert_eq!(result.unwrap().to_string(), "2025-01-15");
}

#[test]
fn test_parse_date_valid_leap_year() {
    assert!(parse_date("2024-02-29").is_some());
}

#[test]
fn test_parse_date_invalid_format() {
    assert!(parse_date("2025/01/15").is_none());
    assert!(parse_date("15-01-2025").is_none());
    assert!(parse_date("not-a-date").is_none());
    assert!(parse_date("").is_none());
}

#[test]
fn test_parse_date_invalid_values() {
    assert!(parse_date("2025-13-01").is_none());
    assert!(parse_date("2025-02-30").is_none());
    assert!(parse_date("2025-00-15").is_none());
    assert!(parse_date("2025-02-29").is_none());
}

#[test]
fn test_is_valid_date_valid() {
    assert!(is_valid_date("2025-01-15"));
    assert!(is_valid_date("2024-02-29"));
    assert!(is_valid_date("2000-12-31"));
}

#[test]
fn test_is_valid_date_invalid() {
    assert!(!is_valid_date("invalid"));
    assert!(!is_valid_date("2025-02-29"));
    assert!(!is_valid_date(""));
    assert!(!is_valid_date("2025-13-01"));
}

#[test]
fn century_leap_rule_and_shape() {
    assert!(is_valid_date("2000-02-29"));
    assert!(!is_valid_date("1900-02-29"));
    assert!(!is_valid_date("2025-1-15"));
    assert!(!is_valid_date("2025-01-15 "));
    assert!(!is_valid_date("+2025-01-15"));
    assert!(!is_valid_date("2025-04-31"));
    assert!(is_valid_date("0000-01-01"));
    let d = parse_date("2024-02-29").unwrap();
    assert_eq!((d.year, d.month, d.day), (2024, 2, 29));
}

#[test]
fn weekdays_across_centuries() {
    assert_eq!(calculate_weekday(2025, 1, 15), 3);
    assert_eq!(calculate_weekday(1900, 1, 1), 1);
    assert_eq!(calculate_weekday(2000, 1, 1), 6);
    assert_eq!(calculate_weekday(1776, 7, 4), 4);
    assert_eq!(calculate_weekday(1969, 7, 20), 0);
    assert_eq!(calculate_weekday(2100, 12, 31), 5);
    assert_eq!(calculate_weekday(1600, 3, 1), 3);
    assert_eq!(calculate_weekday(1, 1, 1), 1);
    assert_eq!(calculate_weekday(2024, 2, 29), 4);
}

#[test]
fn today_changes_at_midnight_in_the_fixed_zone() {
    // 2025-01-15T14:59:59Z is 23:59:59 on the 15th in UTC+9.
    let before = 1736953199;
    assert_eq!(today_jst(before), "2025-01-15");
    assert_eq!(today_jst(before + 1), "2025-01-16");
    assert!(is_today("2025-01-15", before));
    assert!(!is_today("2025-01-15", before + 1));
    assert!(is_today("2025-01-16", before + 1));
    assert!(!is_today("2025-1-16", before + 1));
    // Still the 15th at 00:00 UTC, which is 09:00 in UTC+9.
    assert_eq!(today_jst(1736899200), "2025-01-15");
    assert_eq!(today_jst(1736899200 - 32401), "2025-01-14");
}

#[test]
fn stored_timestamps_are_utc() {
    assert_eq!(now_iso8601(1736953199), "2025-01-15T14:59:59Z");
    assert_eq!(now_iso8601(0), "1970-01-01T00:00:00Z");
    assert_eq!(now_iso8601(-1), "1969-12-31T23:59:59Z");
}

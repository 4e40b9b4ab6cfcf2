use diary::rate_limit::{next_count, parse_count, rate_limit_key};
use diary::{is_rate_limited, MAX_REQUESTS, WINDOW_SECONDS};

#[test]
fn test_max_requests_constant() {
    assert_eq!(MAX_REQUESTS, 60);
}

#[test]
fn test_window_seconds_constant() {
    assert_eq!(WINDOW_SECONDS, 3600);
}

#[test]
fn test_is_rate_limited_under_limit() {
    assert!(!is_rate_limited(0));
    assert!(!is_rate_limited(59));
}

#[test]
fn test_is_rate_limited_at_limit() {
    assert!(is_rate_limited(60));
}

#[test]
fn test_is_rate_limited_over_limit() {
    assert!(is_rate_limited(61));
    assert!(is_rate_limited(100));
    assert!(is_rate_limited(u32::MAX));
}

#[test]
fn stored_count_reads_like_u32_from_str() {
    assert_eq!(parse_count(None), 0);
    assert_eq!(parse_count(Some("17")), 17);
    assert_eq!(parse_count(Some("+17")), 17);
    assert_eq!(parse_count(Some("4294967295")), u32::MAX);
    assert_eq!(parse_count(Some("4294967296")), 0);
    assert_eq!(parse_count(Some("")), 0);
    assert_eq!(parse_count(Some("+")), 0);
    assert_eq!(parse_count(Some("-1")), 0);
    assert_eq!(parse_count(Some("1a")), 0);
}

#[test]
fn count_key_and_increment() {
    assert_eq!(rate_limit_key("192.168.1.1"), "rate:192.168.1.1");
    assert_eq!(next_count(59), 60);
    assert_eq!(next_count(u32::MAX), u32::MAX);
}

use diary::requests::{date_param, parse_version_number, version_params, RequestError};

#[test]
fn version_numbers_read_like_i32_from_str() {
    assert_eq!(parse_version_number("3"), Some(3));
    assert_eq!(parse_version_number("+3"), Some(3));
    assert_eq!(parse_version_number("-3"), Some(-3));
    assert_eq!(parse_version_number("2147483647"), Some(i32::MAX));
    assert_eq!(parse_version_number("-2147483648"), Some(i32::MIN));
    assert_eq!(parse_version_number("2147483648"), None);
    assert_eq!(parse_version_number(""), None);
    assert_eq!(parse_version_number("-"), None);
    assert_eq!(parse_version_number("3a"), None);
    assert_eq!(parse_version_number(" 3"), None);
}

#[test]
fn request_parameters_are_checked_in_order() {
    assert_eq!(date_param(None), Err(RequestError::MissingDate));
    assert_eq!(date_param(Some("2025-02-29")), Err(RequestError::InvalidDate));
    assert_eq!(date_param(Some("2024-02-29")), Ok(()));
    assert_eq!(version_params(None, Some("x")), Err(RequestError::MissingDate));
    assert_eq!(version_params(Some("bad"), Some("x")), Err(RequestError::InvalidVersion));
    assert_eq!(version_params(Some("bad"), None), Err(RequestError::InvalidVersion));
    assert_eq!(version_params(Some("bad"), Some("2")), Err(RequestError::InvalidDate));
    assert_eq!(version_params(Some("2025-01-15"), Some("2")), Ok(2));
    assert_eq!(RequestError::InvalidDate.message(), "Invalid date format. Use YYYY-MM-DD.");
    assert_eq!(RequestError::MissingDate.message(), "Date parameter required");
    assert_eq!(RequestError::InvalidVersion.message(), "Invalid version number");
}

use diary::{
    check_bearer_token, check_cookie_token, create_auth_cookie, create_logout_cookie,
    extract_cookie_token,
};

#[test]
fn test_check_bearer_token_valid() {
    assert!(check_bearer_token(Some("Bearer secret123"), "secret123"));
}

#[test]
fn test_check_bearer_token_invalid_token() {
    assert!(!check_bearer_token(Some("Bearer wrong"), "secret123"));
}

#[test]
fn test_check_bearer_token_no_header() {
    assert!(!check_bearer_token(None, "secret123"));
}

#[test]
fn test_check_bearer_token_wrong_scheme() {
    assert!(!check_bearer_token(Some("Basic secret123"), "secret123"));
}

#[test]
fn test_check_bearer_token_no_space() {
    assert!(!check_bearer_token(Some("Bearersecret123"), "secret123"));
}

#[test]
fn test_check_bearer_token_empty() {
    assert!(!check_bearer_token(Some("Bearer "), "secret123"));
}

#[test]
fn test_extract_cookie_token_valid() {
    let cookie = "admin_token=secret123";
    assert_eq!(
        extract_cookie_token(Some(cookie), "admin_token"),
        Some("secret123")
    );
}

#[test]
fn test_extract_cookie_token_multiple() {
    let cookie = "other=value; admin_token=secret123; another=thing";
    assert_eq!(
        extract_cookie_token(Some(cookie), "admin_token"),
        Some("secret123")
    );
}

#[test]
fn test_extract_cookie_token_not_found() {
    let cookie = "other=value";
    assert_eq!(extract_cookie_token(Some(cookie), "admin_token"), None);
}

#[test]
fn test_extract_cookie_token_none() {
    assert_eq!(extract_cookie_token(None, "admin_token"), None);
}

#[test]
fn test_check_cookie_token_valid() {
    assert!(check_cookie_token(Some("admin_token=secret123"), "secret123"));
}

#[test]
fn test_check_cookie_token_invalid() {
    assert!(!check_cookie_token(Some("admin_token=wrong"), "secret123"));
}

#[test]
fn test_check_cookie_token_no_cookie() {
    assert!(!check_cookie_token(None, "secret123"));
}

#[test]
fn test_check_cookie_token_wrong_name() {
    assert!(!check_cookie_token(Some("other=secret123"), "secret123"));
}

#[test]
fn test_create_auth_cookie_secure() {
    let cookie = create_auth_cookie("mytoken", true);
    assert!(cookie.contains("admin_token=mytoken"));
    assert!(cookie.contains("HttpOnly"));
    assert!(cookie.contains("SameSite=Strict"));
    assert!(cookie.contains("Path=/admin"));
    assert!(cookie.contains("Secure"));
}

#[test]
fn test_create_auth_cookie_insecure() {
    let cookie = create_auth_cookie("mytoken", false);
    assert!(cookie.contains("admin_token=mytoken"));
    assert!(!cookie.contains("Secure"));
}

#[test]
fn test_create_logout_cookie() {
    let cookie = create_logout_cookie();
    assert!(cookie.contains("admin_token="));
    assert!(cookie.contains("Max-Age=0"));
}

#[test]
fn cookie_value_keeps_first_match_and_trims_unicode_space() {
    let cookie = "\u{3000}admin_token=first ;admin_token=second";
    assert_eq!(extract_cookie_token(Some(cookie), "admin_token"), Some("first"));
}

#[test]
fn cookie_value_may_hold_equals_signs() {
    assert_eq!(
        extract_cookie_token(Some("admin_token=a=b"), "admin_token"),
        Some("a=b")
    );
}

#[test]
fn auth_cookie_exact_text() {
    assert_eq!(
        create_auth_cookie("t", true),
        "admin_token=t; HttpOnly; SameSite=Strict; Path=/admin; Max-Age=86400; Secure"
    );
    assert_eq!(
        create_logout_cookie(),
        "admin_token=; HttpOnly; SameSite=Strict; Path=/admin; Max-Age=0"
    );
}

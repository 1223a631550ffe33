use kiro_auth::extract_url_from_args;
use kiro_auth::normalize_payload;
use kiro_auth::parse_callback;
use kiro_auth::AuthError;

fn args(v: &[&str]) -> Vec<String> {
    v.iter().map(|s| String::from(*s)).collect()
}

#[test]
fn flag_separator_url_layout() {
    let a = args(&["exe", "--open-url", "--", "kiro://cb?state=abc"]);
    assert_eq!(extract_url_from_args(&a), Some(String::from("kiro://cb?state=abc")));
}

#[test]
fn flag_url_layout() {
    let a = args(&["exe", "--open-url", "kiro://cb?state=xyz"]);
    assert_eq!(extract_url_from_args(&a), Some(String::from("kiro://cb?state=xyz")));
}

#[test]
fn sole_url_layout() {
    let a = args(&["exe", "kiro://cb?state=1"]);
    assert_eq!(extract_url_from_args(&a), Some(String::from("kiro://cb?state=1")));
}

#[test]
fn no_url_among_args() {
    let a = args(&["exe", "--minimized", "other"]);
    assert_eq!(extract_url_from_args(&a), None);
    let empty = args(&["exe"]);
    assert_eq!(extract_url_from_args(&empty), None);
}

#[test]
fn longest_layout_wins() {
    let a = args(&["exe", "kiro://short", "--", "kiro://long?state=z"]);
    assert_eq!(extract_url_from_args(&a), Some(String::from("kiro://long?state=z")));
}

#[test]
fn json_wrapped_payload_is_unwrapped() {
    let p = "\"kiro://cb?state=abc\"";
    assert_eq!(normalize_payload(p), String::from("kiro://cb?state=abc"));
}

#[test]
fn raw_payload_is_kept_literally() {
    let p = "kiro://cb?state=abc";
    assert_eq!(normalize_payload(p), String::from("kiro://cb?state=abc"));
}

#[test]
fn escaped_json_payload_decodes() {
    let p = "\"kiro://cb?state=a\\u0062c\"";
    assert_eq!(normalize_payload(p), String::from("kiro://cb?state=abc"));
}

#[test]
fn callback_token_extracted() {
    assert_eq!(parse_callback("kiro://cb?state=abc"), Ok(String::from("abc")));
    assert_eq!(parse_callback("kiro://cb?a=1&state=xyz&b=2"), Ok(String::from("xyz")));
    assert_eq!(parse_callback("kiro://cb?code=9&state="), Ok(String::from("")));
}

#[test]
fn callback_without_scheme_is_malformed() {
    assert_eq!(parse_callback("https://cb?state=abc"), Err(AuthError::ParseError));
}

#[test]
fn callback_without_token_is_malformed() {
    assert_eq!(parse_callback("kiro://cb"), Err(AuthError::ParseError));
    assert_eq!(parse_callback("kiro://cb?code=1&other=2"), Err(AuthError::ParseError));
    assert_eq!(parse_callback("kiro://cb?statex=1"), Err(AuthError::ParseError));
}

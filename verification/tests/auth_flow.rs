use kiro_auth::constant_time_eq;
use kiro_auth::AuthError;
use kiro_auth::AuthState;
use kiro_auth::Provider;
use kiro_auth::LOGIN_TIMEOUT_MS;

#[test]
fn begin_while_pending_fails_then_cancel_clears() {
    let mut auth = AuthState::new();
    let r = auth.begin_login(Provider::SocialLogin, String::from("tok-1"), 1000);
    assert_eq!(r, Ok(String::from("tok-1")));
    let again = auth.begin_login(Provider::SocialLogin, String::from("tok-2"), 2000);
    assert_eq!(again, Err(AuthError::AlreadyPending));
    assert!(auth.cancel_login());
    let after = auth.begin_login(Provider::IdentityCenter, String::from("tok-3"), 3000);
    assert_eq!(after, Ok(String::from("tok-3")));
}

#[test]
fn expired_pending_is_replaced() {
    let mut auth = AuthState::new();
    auth.begin_login(Provider::SocialLogin, String::from("tok-1"), 1000).unwrap();
    let later = 1000 + LOGIN_TIMEOUT_MS + 1;
    let r = auth.begin_login(Provider::SocialLogin, String::from("tok-2"), later);
    assert_eq!(r, Ok(String::from("tok-2")));
}

#[test]
fn mismatched_correlation_token_is_rejected() {
    let mut auth = AuthState::new();
    auth.begin_login(Provider::SocialLogin, String::from("right"), 1000).unwrap();
    let r = auth.complete_login("kiro://cb?state=wrong", 2000);
    assert!(matches!(r, Err(AuthError::CorrelationMismatch)));
    // The pending login is untouched by the rejected callback.
    let p = auth.current_pending().unwrap();
    assert_eq!(p.correlation_token, String::from("right"));
}

#[test]
fn expired_pending_is_rejected_even_with_right_token() {
    let mut auth = AuthState::new();
    auth.begin_login(Provider::SocialLogin, String::from("tok"), 1000).unwrap();
    let late = 1000 + LOGIN_TIMEOUT_MS + 1;
    let r = auth.complete_login("kiro://cb?state=tok", late);
    assert!(matches!(r, Err(AuthError::Expired)));
    assert!(auth.current_pending().is_none());
}

#[test]
fn matching_callback_consumes_the_slot() {
    let mut auth = AuthState::new();
    auth.begin_login(Provider::SocialLogin, String::from("tok"), 1000).unwrap();
    let m = auth.complete_login("kiro://cb?code=9&state=tok", 2000).unwrap();
    assert_eq!(m.provider, Provider::SocialLogin);
    assert_eq!(m.callback_url, String::from("kiro://cb?code=9&state=tok"));
    // Duplicate delivery of the same callback finds no pending login.
    let dup = auth.complete_login("kiro://cb?code=9&state=tok", 2001);
    assert!(matches!(dup, Err(AuthError::NoPendingLogin)));
}

#[test]
fn malformed_callback_never_disturbs_the_slot() {
    let mut auth = AuthState::new();
    auth.begin_login(Provider::SocialLogin, String::from("tok"), 1000).unwrap();
    let r = auth.complete_login("not-a-callback", 2000);
    assert!(matches!(r, Err(AuthError::ParseError)));
    assert!(auth.current_pending().is_some());
}

#[test]
fn constant_time_comparison_is_plain_equality() {
    assert!(constant_time_eq("abc", "abc"));
    assert!(!constant_time_eq("abc", "abd"));
    assert!(!constant_time_eq("abc", "ab"));
    assert!(constant_time_eq("", ""));
}

#[test]
fn cancellation_and_completion_resolve_by_slot_ownership() {
    // Completion first: the later cancellation observes an empty slot.
    let mut auth = AuthState::new();
    auth.begin_login(Provider::SocialLogin, String::from("tok"), 1000).unwrap();
    assert!(auth.complete_login("kiro://cb?state=tok", 2000).is_ok());
    assert!(!auth.cancel_login());

    // Cancellation first: the later completion finds no pending login.
    auth.begin_login(Provider::SocialLogin, String::from("tok"), 3000).unwrap();
    assert!(auth.cancel_login());
    let r = auth.complete_login("kiro://cb?state=tok", 3500);
    assert!(matches!(r, Err(AuthError::NoPendingLogin)));
}

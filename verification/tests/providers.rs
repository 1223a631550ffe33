use kiro_auth::begin_request;
use kiro_auth::device_poll_step;
use kiro_auth::finish_login;
use kiro_auth::validate_direct_token;
use kiro_auth::AuthError;
use kiro_auth::BeginAction;
use kiro_auth::Credentials;
use kiro_auth::DevicePollAction;
use kiro_auth::DevicePollResponse;
use kiro_auth::DevicePollState;
use kiro_auth::Provider;
use kiro_auth::SLOW_DOWN_STEP_MS;

fn creds(token: &str) -> Credentials {
    Credentials {
        access_token: String::from(token),
        refresh_token: None,
        expires_at: 50_000,
    }
}

#[test]
fn social_login_opens_the_authorization_page() {
    let r = begin_request(
        Provider::SocialLogin,
        &String::from("kiro://authorize"),
        &String::from("tok"),
    );
    match r {
        BeginAction::OpenAuthorizationPage(u) => {
            assert_eq!(u, String::from("kiro://authorize?state=tok"))
        },
        _ => panic!("expected a browser page"),
    }
    assert!(matches!(
        begin_request(Provider::IdentityCenter, &String::from("x"), &String::from("t")),
        BeginAction::StartDeviceFlow
    ));
    assert!(matches!(
        begin_request(Provider::DirectImport, &String::from("x"), &String::from("t")),
        BeginAction::ValidateDirectly
    ));
}

#[test]
fn device_poll_waits_and_slows_down() {
    let s = DevicePollState { interval_ms: 2000, deadline: 100_000 };
    let (s, a) = device_poll_step(s, DevicePollResponse::AuthorizationPending, 1000);
    assert!(matches!(a, DevicePollAction::Wait(2000)));
    let (s, a) = device_poll_step(s, DevicePollResponse::SlowDown, 2000);
    assert_eq!(s.interval_ms, 2000 + SLOW_DOWN_STEP_MS);
    assert!(matches!(a, DevicePollAction::Wait(w) if w == 2000 + SLOW_DOWN_STEP_MS));
}

#[test]
fn device_poll_resolves_each_terminal_answer() {
    let s = DevicePollState { interval_ms: 2000, deadline: 100_000 };
    let (s, a) = device_poll_step(s, DevicePollResponse::Approved(creds("ok-token")), 3000);
    match a {
        DevicePollAction::Done(Ok(c)) => assert_eq!(c.access_token, String::from("ok-token")),
        _ => panic!("expected a successful finish"),
    }
    let (s, a) = device_poll_step(s, DevicePollResponse::Approved(creds("")), 3000);
    assert!(matches!(a, DevicePollAction::Done(Err(AuthError::InvalidFormat))));
    let (s, a) = device_poll_step(s, DevicePollResponse::Denied, 3000);
    assert!(matches!(
        a,
        DevicePollAction::Done(Err(AuthError::ProviderError {
            provider: Provider::IdentityCenter,
            retriable: false,
        }))
    ));
    // Past the deadline every answer resolves to expiry.
    let (_, a) = device_poll_step(s, DevicePollResponse::AuthorizationPending, 200_000);
    assert!(matches!(a, DevicePollAction::Done(Err(AuthError::Expired))));
}

#[test]
fn direct_tokens_are_validated() {
    assert!(validate_direct_token("AoaBcD123"));
    assert!(!validate_direct_token(""));
    assert!(!validate_direct_token("has space"));
    assert!(!validate_direct_token("line\nbreak"));
}

#[test]
fn finished_exchange_builds_an_active_account() {
    let a = finish_login(
        Provider::DirectImport,
        String::from("acct-1"),
        String::from("Imported"),
        Ok(creds("token-1")),
        4000,
    )
    .unwrap();
    assert_eq!(a.id, String::from("acct-1"));
    assert_eq!(a.provider, Provider::DirectImport);
    assert_eq!(a.status, kiro_auth::AccountStatus::Active);
    assert_eq!(a.bound_machine_id, None);
    assert_eq!(a.last_verified_at, 4000);
}

#[test]
fn failed_exchange_carries_provider_and_retriability() {
    let r = finish_login(
        Provider::SocialLogin,
        String::from("acct-1"),
        String::from("X"),
        Err(true),
        4000,
    );
    match r {
        Err(e) => assert_eq!(
            e,
            AuthError::ProviderError { provider: Provider::SocialLogin, retriable: true }
        ),
        Ok(_) => panic!("expected a provider error"),
    }
    let empty = finish_login(
        Provider::SocialLogin,
        String::from("acct-1"),
        String::from("X"),
        Ok(creds("")),
        4000,
    );
    match empty {
        Err(e) => assert_eq!(e, AuthError::InvalidFormat),
        Ok(_) => panic!("expected a format error"),
    }
}

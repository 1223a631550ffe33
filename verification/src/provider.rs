//! The provider-exchange abstraction: one closed set of providers behind a
//! shared contract. The network legs of each flow run outside the library;
//! every decision about their outcomes is made here. The bodies those legs
//! carry are encoded and decoded by the binary map codec, which reports a
//! malformed payload as an error rather than crashing.

use vstd::prelude::*;

use crate::account::Account;
use crate::account::AccountStatus;
use crate::account::AccountV;
use crate::account::Credentials;
use crate::errors::AuthError;
use crate::errors::Provider;

verus! {

/// How much longer a polling interval grows when the provider asks the
/// client to slow down, in milliseconds.
pub const SLOW_DOWN_STEP_MS: u64 = 5000;

/// What starting a login requires of the surrounding application.
pub enum BeginAction {
    /// Open this authorization page in a browser; the callback returns
    /// through the deep-link router.
    OpenAuthorizationPage(String),
    /// Run the device-authorization flow: obtain a verification code and
    /// poll, driving `device_poll_step`.
    StartDeviceFlow,
    /// No interactive step: validate the supplied token directly.
    ValidateDirectly,
}

/// Builds the instruction for starting a login against `provider`, with
/// `base_url` the provider's authorization endpoint and `token` the fresh
/// correlation token to embed.
pub fn begin_request(provider: Provider, base_url: &String, token: &String) -> (r: BeginAction)
    ensures
        match provider {
            Provider::SocialLogin => (r matches BeginAction::OpenAuthorizationPage(u) && u@
                == base_url@ + "?state="@ + token@),
            Provider::IdentityCenter => r is StartDeviceFlow,
            Provider::DirectImport => r is ValidateDirectly,
        },
{
    match provider {
        Provider::SocialLogin => {
            let url = base_url.clone().concat("?state=").concat(token.as_str());
            BeginAction::OpenAuthorizationPage(url)
        },
        Provider::IdentityCenter => BeginAction::StartDeviceFlow,
        Provider::DirectImport => BeginAction::ValidateDirectly,
    }
}

/// One answer of the provider while the device-authorization flow polls.
pub enum DevicePollResponse {
    /// The user has not finished authorizing yet.
    AuthorizationPending,
    /// The provider asks the client to poll less often.
    SlowDown,
    /// The exchange finished with these credentials.
    Approved(Credentials),
    /// The user or the provider denied the authorization.
    Denied,
}

/// The running state of a device-authorization poll.
pub struct DevicePollState {
    /// How long to wait between polls, in milliseconds.
    pub interval_ms: u64,
    /// Absolute deadline after which the flow gives up.
    pub deadline: u64,
}

/// What the poll loop does next.
pub enum DevicePollAction {
    /// Wait this many milliseconds, poll again, and hand the answer back.
    Wait(u64),
    /// The flow is over, with this outcome.
    Done(Result<Credentials, AuthError>),
}

/// Advances the device-authorization poll by one provider answer. The wait
/// is bounded by the absolute deadline; a slow-down answer widens the
/// interval; an approval with an empty token is a malformed payload, a
/// provider error rather than a success; a denial is a non-retriable
/// provider error.
pub fn device_poll_step(state: DevicePollState, response: DevicePollResponse, now: u64) -> (r: (
    DevicePollState,
    DevicePollAction,
))
    ensures
        r.0.deadline == state.deadline,
        now > state.deadline ==> (r.1 matches DevicePollAction::Done(o) && o == Err::<
            Credentials,
            AuthError,
        >(AuthError::Expired)),
        now <= state.deadline ==> match response {
            DevicePollResponse::AuthorizationPending => r.0.interval_ms == state.interval_ms && (
            r.1 matches DevicePollAction::Wait(w) && w == state.interval_ms),
            DevicePollResponse::SlowDown => r.0.interval_ms == (if state.interval_ms
                <= u64::MAX - SLOW_DOWN_STEP_MS {
                (state.interval_ms + SLOW_DOWN_STEP_MS) as u64
            } else {
                state.interval_ms
            }) && (r.1 matches DevicePollAction::Wait(w) && w == r.0.interval_ms),
            DevicePollResponse::Approved(c) => (r.1 matches DevicePollAction::Done(o) && (if c@.access_token.len()
                > 0 {
                o == Ok::<Credentials, AuthError>(c)
            } else {
                o == Err::<Credentials, AuthError>(AuthError::InvalidFormat)
            })),
            DevicePollResponse::Denied => (r.1 matches DevicePollAction::Done(o) && o == Err::<
                Credentials,
                AuthError,
            >(
                AuthError::ProviderError { provider: Provider::IdentityCenter, retriable: false },
            )),
        },
{
    if now > state.deadline {
        return (state, DevicePollAction::Done(Err(AuthError::Expired)));
    }
    match response {
        DevicePollResponse::AuthorizationPending => {
            let w = state.interval_ms;
            (state, DevicePollAction::Wait(w))
        },
        DevicePollResponse::SlowDown => {
            let widened = if state.interval_ms <= u64::MAX - SLOW_DOWN_STEP_MS {
                state.interval_ms + SLOW_DOWN_STEP_MS
            } else {
                state.interval_ms
            };
            let next = DevicePollState { interval_ms: widened, deadline: state.deadline };
            (next, DevicePollAction::Wait(widened))
        },
        DevicePollResponse::Approved(c) => {
            if c.access_token.as_str().is_empty() {
                (state, DevicePollAction::Done(Err(AuthError::InvalidFormat)))
            } else {
                (state, DevicePollAction::Done(Ok(c)))
            }
        },
        DevicePollResponse::Denied => {
            (
                state,
                DevicePollAction::Done(
                    Err(
                        AuthError::ProviderError {
                            provider: Provider::IdentityCenter,
                            retriable: false,
                        },
                    ),
                ),
            )
        },
    }
}

/// Whether `t` is acceptable as a directly imported token: non-empty, with
/// no blank or control character.
pub open spec fn direct_token_ok(t: Seq<char>) -> bool {
    t.len() > 0 && forall|i: int| 0 <= i < t.len() ==> #[trigger] t[i] > ' '
}

/// Checks a directly supplied token against `direct_token_ok`.
pub fn validate_direct_token(t: &str) -> (r: bool)
    ensures
        r == direct_token_ok(t@),
{
    let n = t.unicode_len();
    if n == 0 {
        return false;
    }
    let mut i: usize = 0;
    while i < n
        invariant
            0 <= i <= n,
            n == t@.len(),
            forall|j: int| 0 <= j < i ==> #[trigger] t@[j] > ' ',
        decreases n - i,
    {
        if t.get_char(i) <= ' ' {
            return false;
        }
        i = i + 1;
    }
    true
}

/// Builds the account a finished token exchange yields. A failed exchange
/// carries the provider and whether a retry may help; a success with an
/// empty access token is a malformed provider payload; a fresh identifier
/// must be non-empty.
pub fn finish_login(
    provider: Provider,
    id: String,
    display_name: String,
    outcome: Result<Credentials, bool>,
    now: u64,
) -> (r: Result<Account, AuthError>)
    ensures
        match r {
            Ok(a) => {
                &&& outcome is Ok
                &&& id@.len() > 0
                &&& outcome->Ok_0@.access_token.len() > 0
                &&& a@ == (AccountV {
                    id: id@,
                    provider,
                    display_name: display_name@,
                    credentials: outcome->Ok_0@,
                    bound_machine_id: None,
                    status: AccountStatus::Active,
                    last_verified_at: now,
                })
                &&& a@.valid()
            },
            Err(e) => {
                &&& (outcome matches Err(retriable) ==> e == (AuthError::ProviderError {
                    provider,
                    retriable,
                }))
                &&& (outcome is Ok ==> e == AuthError::InvalidFormat && (id@.len() == 0
                    || outcome->Ok_0@.access_token.len() == 0))
            },
        },
{
    let creds = match outcome {
        Ok(c) => c,
        Err(retriable) => {
            return Err(AuthError::ProviderError { provider, retriable });
        },
    };
    if id.as_str().is_empty() || creds.access_token.as_str().is_empty() {
        return Err(AuthError::InvalidFormat);
    }
    Ok(
        Account {
            id,
            provider,
            display_name,
            credentials: creds,
            bound_machine_id: None,
            status: AccountStatus::Active,
            last_verified_at: now,
        },
    )
}

} // verus!

//! The single-slot pending-login state machine and the callback
//! correlation protocol.

use vstd::prelude::*;

use crate::deep_link::callback_token;
use crate::deep_link::parse_callback;
use crate::errors::AuthError;
use crate::errors::Provider;

verus! {

/// How long a pending login stays acceptable, in milliseconds.
pub const LOGIN_TIMEOUT_MS: u64 = 300000;

/// The single in-flight login handshake.
pub struct PendingLogin {
    /// Unguessable value embedded in the outgoing authorization request and
    /// echoed back in its callback.
    pub correlation_token: String,
    /// The provider the handshake addresses.
    pub provider: Provider,
    /// When the handshake was started, in milliseconds since the epoch.
    pub created_at: u64,
    /// Absolute deadline after which the handshake is rejected.
    pub expires_at: u64,
}

/// The model of a pending login.
pub ghost struct PendingLoginV {
    pub correlation_token: Seq<char>,
    pub provider: Provider,
    pub created_at: u64,
    pub expires_at: u64,
}

impl View for PendingLogin {
    type V = PendingLoginV;

    open spec fn view(&self) -> PendingLoginV {
        PendingLoginV {
            correlation_token: self.correlation_token@,
            provider: self.provider,
            created_at: self.created_at,
            expires_at: self.expires_at,
        }
    }
}

impl PendingLogin {
    /// An independent copy whose model is the same.
    pub fn duplicate(&self) -> (r: PendingLogin)
        ensures
            r@ == self@,
    {
        PendingLogin {
            correlation_token: self.correlation_token.clone(),
            provider: self.provider,
            created_at: self.created_at,
            expires_at: self.expires_at,
        }
    }
}

/// A correlated callback, ready for the provider exchange: the provider of
/// the consumed pending login and the canonical callback URL that carries
/// the provider's authorization response.
pub struct LoginMatch {
    pub provider: Provider,
    pub callback_url: String,
}

/// The model of a correlated callback.
pub ghost struct LoginMatchV {
    pub provider: Provider,
    pub callback_url: Seq<char>,
}

impl View for LoginMatch {
    type V = LoginMatchV;

    open spec fn view(&self) -> LoginMatchV {
        LoginMatchV { provider: self.provider, callback_url: self.callback_url@ }
    }
}

/// Owner of the pending-login slot. At most one login is in flight
/// system-wide.
pub struct AuthState {
    pending: Option<PendingLogin>,
}

/// The model of the authentication state: the slot alone.
pub ghost struct AuthStateV {
    pub pending: Option<PendingLoginV>,
}

impl View for AuthState {
    type V = AuthStateV;

    closed spec fn view(&self) -> AuthStateV {
        AuthStateV {
            pending: match self.pending {
                Some(p) => Some(p@),
                None => None,
            },
        }
    }
}

/// Whether the slot holds a login that is still acceptable at `now`.
pub open spec fn pending_unexpired(v: AuthStateV, now: u64) -> bool {
    match v.pending {
        Some(p) => now <= p.expires_at,
        None => false,
    }
}

/// Whether `begin_login` accepts a request at `now`: the slot must be
/// empty, or hold only an expired login.
pub open spec fn begin_accepts(v: AuthStateV, now: u64) -> bool {
    !pending_unexpired(v, now)
}

/// Compares two texts without an early exit on the first difference, so the
/// time taken does not depend on where the texts disagree; the result is
/// plain equality.
pub fn constant_time_eq(a: &str, b: &str) -> (r: bool)
    ensures
        r == (a@ == b@),
{
    let n = a.unicode_len();
    let m = b.unicode_len();
    if n != m {
        return false;
    }
    let mut diff = false;
    let mut i: usize = 0;
    while i < n
        invariant
            0 <= i <= n,
            n == a@.len(),
            n == b@.len(),
            diff == !(forall|j: int| 0 <= j < i ==> a@[j] == b@[j]),
        decreases n - i,
    {
        if a.get_char(i) != b.get_char(i) {
            diff = true;
        }
        i = i + 1;
    }
    if diff {
        proof {
            if a@ == b@ {
                assert(forall|j: int| 0 <= j < a@.len() ==> a@[j] == b@[j]);
            }
        }
        false
    } else {
        proof {
            assert(a@ =~= b@);
        }
        true
    }
}

impl AuthState {
    /// Creates the state with an empty slot.
    pub fn new() -> (r: AuthState)
        ensures
            r@.pending is None,
    {
        AuthState { pending: None }
    }

    /// The pending login, as an independent copy, if one exists.
    pub fn current_pending(&self) -> (r: Option<PendingLogin>)
        ensures
            match r {
                Some(p) => self@.pending == Some(p@),
                None => self@.pending is None,
            },
    {
        match &self.pending {
            Some(p) => Some(p.duplicate()),
            None => None,
        }
    }

    /// Clears the slot; returns whether a login was cancelled.
    ///
    /// A cancellation that races a completion resolves by slot ownership:
    /// whichever call takes the lock first consumes the slot, and the
    /// later call observes it empty — a completion after a cancellation
    /// fails with `NoPendingLogin`, a cancellation after a completion
    /// returns `false`. Neither order leaves the slot half-updated.
    pub fn cancel_login(&mut self) -> (r: bool)
        ensures
            final(self)@.pending is None,
            r == (old(self)@.pending is Some),
    {
        let had = self.pending.is_some();
        self.pending = None;
        had
    }

    /// Starts a login handshake with the given fresh correlation token.
    ///
    /// Fails with `AlreadyPending` while an unexpired login occupies the
    /// slot; an expired one is reaped and replaced. On success the slot
    /// holds the new handshake, due `LOGIN_TIMEOUT_MS` from `now`, and the
    /// accepted token is echoed back.
    pub fn begin_login(&mut self, provider: Provider, token: String, now: u64) -> (r: Result<
        String,
        AuthError,
    >)
        requires
            token@.len() > 0,
            now + LOGIN_TIMEOUT_MS <= u64::MAX,
        ensures
            match r {
                Ok(t) => {
                    &&& begin_accepts(old(self)@, now)
                    &&& t@ == token@
                    &&& final(self)@.pending == Some(
                        PendingLoginV {
                            correlation_token: token@,
                            provider,
                            created_at: now,
                            expires_at: (now + LOGIN_TIMEOUT_MS) as u64,
                        },
                    )
                },
                Err(e) => {
                    &&& e == AuthError::AlreadyPending
                    &&& !begin_accepts(old(self)@, now)
                    &&& final(self)@ == old(self)@
                },
            },
    {
        match &self.pending {
            Some(p) => {
                if now <= p.expires_at {
                    return Err(AuthError::AlreadyPending);
                }
            },
            None => {},
        }
        let echoed = token.clone();
        self.pending = Some(
            PendingLogin {
                correlation_token: token,
                provider,
                created_at: now,
                expires_at: now + LOGIN_TIMEOUT_MS,
            },
        );
        Ok(echoed)
    }

    /// Correlates a delivered callback URL with the pending login.
    ///
    /// The URL must parse (`ParseError` otherwise); a login must be pending
    /// (`NoPendingLogin`); the embedded token must equal the pending one
    /// (`CorrelationMismatch`, slot untouched — the anti-replay gate); the
    /// login must be unexpired (`Expired`, slot reaped). On the one
    /// remaining path the slot is consumed and the provider and canonical
    /// URL are handed back for the token exchange.
    pub fn complete_login(&mut self, url: &str, now: u64) -> (r: Result<LoginMatch, AuthError>)
        ensures
            match r {
                Ok(m) => {
                    &&& old(self)@.pending is Some
                    &&& callback_token(url@) == Some(
                        old(self)@.pending->Some_0.correlation_token,
                    )
                    &&& now <= old(self)@.pending->Some_0.expires_at
                    &&& m@.provider == old(self)@.pending->Some_0.provider
                    &&& m@.callback_url == url@
                    &&& final(self)@.pending is None
                },
                Err(e) => {
                    &&& (e == AuthError::ParseError <==> callback_token(url@) is None)
                    &&& (e == AuthError::ParseError ==> final(self)@ == old(self)@)
                    &&& (e == AuthError::NoPendingLogin <==> callback_token(url@) is Some && old(
                        self,
                    )@.pending is None)
                    &&& (e == AuthError::NoPendingLogin ==> final(self)@ == old(self)@)
                    &&& (e == AuthError::CorrelationMismatch <==> callback_token(url@) is Some
                        && old(self)@.pending is Some && callback_token(url@) != Some(
                        old(self)@.pending->Some_0.correlation_token,
                    ))
                    &&& (e == AuthError::CorrelationMismatch ==> final(self)@ == old(self)@)
                    &&& (e == AuthError::Expired <==> callback_token(url@) == Some(
                        old(self)@.pending->Some_0.correlation_token,
                    ) && old(self)@.pending is Some && now > old(self)@.pending->Some_0.expires_at)
                    &&& (e == AuthError::Expired ==> final(self)@.pending is None)
                    &&& (e == AuthError::ParseError || e == AuthError::NoPendingLogin || e
                        == AuthError::CorrelationMismatch || e == AuthError::Expired)
                },
            },
    {
        let token = match parse_callback(url) {
            Ok(t) => t,
            Err(_) => {
                return Err(AuthError::ParseError);
            },
        };
        let (matches, expires_at, provider) = match &self.pending {
            None => {
                return Err(AuthError::NoPendingLogin);
            },
            Some(p) => {
                (
                    constant_time_eq(token.as_str(), p.correlation_token.as_str()),
                    p.expires_at,
                    p.provider,
                )
            },
        };
        if !matches {
            return Err(AuthError::CorrelationMismatch);
        }
        if now > expires_at {
            self.pending = None;
            return Err(AuthError::Expired);
        }
        self.pending = None;
        Ok(LoginMatch { provider, callback_url: url.to_owned() })
    }
}

/// After an explicit `cancel_login` the slot is empty, and `begin_login`
/// accepts a new login in every state whose slot is empty — together with
/// `cancel_login`'s postcondition: cancel, then begin, always succeeds.
pub proof fn lemma_cancel_then_begin_accepts(v: AuthStateV, now: u64)
    requires
        v.pending is None,
    ensures
        begin_accepts(v, now),
{
}

} // verus!

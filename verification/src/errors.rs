//! The error taxonomy shared by every component of the library.

use vstd::prelude::*;

verus! {

/// The identity providers the library knows how to authenticate against.
/// The set is closed: dispatch over it is by `match`, never open-ended.
#[derive(Clone, Copy, PartialEq, Eq, Structural, Debug)]
pub enum Provider {
    /// Authorization-code style browser login.
    SocialLogin,
    /// Device-authorization style SSO flow.
    IdentityCenter,
    /// Non-interactive import of an externally issued token.
    DirectImport,
}

/// Typed failures of the core operations.
///
/// `ParseError` is swallowed at the router boundary; every other variant
/// propagates to the caller of the operation that produced it.
#[derive(Clone, Copy, PartialEq, Eq, Structural, Debug)]
pub enum AuthError {
    /// A malformed callback URL: missing scheme or missing correlation token.
    ParseError,
    /// A callback whose correlation token does not match the pending login.
    CorrelationMismatch,
    /// A login is already in flight and has not expired.
    AlreadyPending,
    /// The pending login, or a token, is past its deadline.
    Expired,
    /// A callback arrived while no login was pending (e.g. duplicate delivery).
    NoPendingLogin,
    /// The provider side failed; `retriable` says whether the caller may retry.
    ProviderError { provider: Provider, retriable: bool },
    /// The machine identifier is already bound to a different account.
    GuidConflict,
    /// A malformed custom identifier or a malformed provider payload.
    InvalidFormat,
    /// The persistence layer failed; in-memory state was rolled back.
    StoreIOError,
    /// An account with the same identifier already exists.
    DuplicateId,
    /// No account with the requested identifier exists.
    NotFound,
}

} // verus!

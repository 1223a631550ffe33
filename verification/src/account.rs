//! The identity records the store owns: credentials and accounts, together
//! with their mathematical models.

use vstd::prelude::*;

use crate::errors::Provider;

verus! {

/// A normalized credential set as every provider exchange returns it.
pub struct Credentials {
    /// The bearer token presented to the provider. Non-empty on any account
    /// whose status is `Active`.
    pub access_token: String,
    /// The token used to obtain a fresh access token, when the provider
    /// issues one.
    pub refresh_token: Option<String>,
    /// Absolute expiry of `access_token`, in milliseconds since the epoch.
    pub expires_at: u64,
}

/// The model of a credential set: the token texts and the expiry.
pub ghost struct CredentialsV {
    pub access_token: Seq<char>,
    pub refresh_token: Option<Seq<char>>,
    pub expires_at: u64,
}

impl View for Credentials {
    type V = CredentialsV;

    open spec fn view(&self) -> CredentialsV {
        CredentialsV {
            access_token: self.access_token@,
            refresh_token: match self.refresh_token {
                Some(t) => Some(t@),
                None => None,
            },
            expires_at: self.expires_at,
        }
    }
}

impl Credentials {
    /// An independent copy whose model is the same.
    pub fn duplicate(&self) -> (r: Credentials)
        ensures
            r@ == self@,
    {
        Credentials {
            access_token: self.access_token.clone(),
            refresh_token: match &self.refresh_token {
                Some(t) => Some(t.clone()),
                None => None,
            },
            expires_at: self.expires_at,
        }
    }
}

/// Freshness of a stored account, as last observed.
#[derive(Clone, Copy, PartialEq, Eq, Structural, Debug)]
pub enum AccountStatus {
    /// The credentials were accepted by the provider when last checked.
    Active,
    /// The credentials are past their deadline.
    Expired,
    /// The provider rejected the credentials.
    Invalid,
}

/// A stored identity record. Owned exclusively by the account store and
/// mutated only through its operations.
pub struct Account {
    /// Unique, stable identifier of the record.
    pub id: String,
    /// The provider that issued the credentials.
    pub provider: Provider,
    /// Human-readable name shown for the account.
    pub display_name: String,
    /// The current credential set.
    pub credentials: Credentials,
    /// The machine identifier this account is bound to, if any. Mirrored by
    /// the machine-identifier binder.
    pub bound_machine_id: Option<String>,
    /// Freshness of the credentials as last observed.
    pub status: AccountStatus,
    /// When `status` was last confirmed, in milliseconds since the epoch.
    pub last_verified_at: u64,
}

/// The model of an account record.
pub ghost struct AccountV {
    pub id: Seq<char>,
    pub provider: Provider,
    pub display_name: Seq<char>,
    pub credentials: CredentialsV,
    pub bound_machine_id: Option<Seq<char>>,
    pub status: AccountStatus,
    pub last_verified_at: u64,
}

impl View for Account {
    type V = AccountV;

    open spec fn view(&self) -> AccountV {
        AccountV {
            id: self.id@,
            provider: self.provider,
            display_name: self.display_name@,
            credentials: self.credentials@,
            bound_machine_id: match self.bound_machine_id {
                Some(g) => Some(g@),
                None => None,
            },
            status: self.status,
            last_verified_at: self.last_verified_at,
        }
    }
}

impl AccountV {
    /// The field invariant of a single record: the identifier is non-empty,
    /// and an active account always carries a usable access token.
    pub open spec fn valid(self) -> bool {
        &&& self.id.len() > 0
        &&& self.status == AccountStatus::Active ==> self.credentials.access_token.len() > 0
    }
}

impl Account {
    /// An independent copy whose model is the same.
    pub fn duplicate(&self) -> (r: Account)
        ensures
            r@ == self@,
    {
        Account {
            id: self.id.clone(),
            provider: self.provider,
            display_name: self.display_name.clone(),
            credentials: self.credentials.duplicate(),
            bound_machine_id: match &self.bound_machine_id {
                Some(g) => Some(g.clone()),
                None => None,
            },
            status: self.status,
            last_verified_at: self.last_verified_at,
        }
    }
}

} // verus!

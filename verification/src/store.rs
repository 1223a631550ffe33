//! The durable account store: the collection of identity records, their
//! credential freshness, and the operations that mutate them. Bindings to
//! machine identifiers are changed only through the combined operations
//! that also update the binder, so that the two sides stay mirrored.

use vstd::prelude::*;

use crate::account::Account;
use crate::account::AccountStatus;
use crate::account::AccountV;
use crate::account::Credentials;
use crate::errors::AuthError;
use crate::export::contains_id;
use crate::export::export_account;
use crate::export::export_model;
use crate::export::export_valid;
use crate::export::exports_view;
use crate::export::import_model;
use crate::export::import_one;
use crate::export::import_skipped;
use crate::export::id_listed;
use crate::export::import_skips;
use crate::export::ExportedAccount;
use crate::machine::account_bound;
use crate::machine::bindings_unique;
use crate::machine::pair_bound;
use crate::machine::BindingV;
use crate::machine::MachineGuidBinder;

verus! {

/// Whether some record in `s` carries identifier `id`.
pub open spec fn has_id(s: Seq<AccountV>, id: Seq<char>) -> bool {
    exists|i: int| 0 <= i < s.len() && s[i].id == id
}

/// The store invariant: identifiers are unique, every record is valid, and
/// no machine identifier is bound by two records.
pub open spec fn store_wf(s: Seq<AccountV>) -> bool {
    &&& forall|i: int| 0 <= i < s.len() ==> #[trigger] s[i].valid()
    &&& forall|i: int, j: int|
        0 <= i < s.len() && 0 <= j < s.len() && i != j ==> s[i].id != s[j].id && !(
        s[i].bound_machine_id is Some && s[i].bound_machine_id == s[j].bound_machine_id)
}

/// The mutual-consistency invariant between the store and the binder:
/// a record bound to `g` has the binding `(g, id)` in the binder, an
/// unbound record has none, and every binding belongs to a record bound to
/// its machine identifier.
pub open spec fn binding_backed(s: Seq<AccountV>, b: BindingV) -> bool {
    exists|i: int|
        0 <= i < s.len() && (#[trigger] s[i].id) == b.account_id && s[i].bound_machine_id
            == Some(b.machine_id)
}

pub open spec fn mirrors(s: Seq<AccountV>, bs: Seq<BindingV>) -> bool {
    &&& forall|i: int|
        0 <= i < s.len() ==> match #[trigger] s[i].bound_machine_id {
            Some(g) => pair_bound(bs, g, s[i].id),
            None => !account_bound(bs, s[i].id),
        }
    &&& forall|j: int| 0 <= j < bs.len() ==> binding_backed(s, #[trigger] bs[j])
}

/// Whether record `a` occurs in `s`.
pub open spec fn occurs_in(s: Seq<AccountV>, a: AccountV) -> bool {
    exists|i: int| 0 <= i < s.len() && (#[trigger] s[i]) == a
}

/// Whether `a` is a record of `s0` whose identifier is not listed in `ids`.
pub open spec fn survivor_of(s0: Seq<AccountV>, ids: Seq<Seq<char>>, a: AccountV) -> bool {
    exists|i: int| 0 <= i < s0.len() && (#[trigger] s0[i]) == a && !id_listed(ids, s0[i].id)
}

/// Whether setting the record carrying `id` to `status` would break the
/// record invariant: an `Active` status over an empty stored access token.
pub open spec fn status_change_invalid(s: Seq<AccountV>, id: Seq<char>, status: AccountStatus) -> bool {
    status == AccountStatus::Active && exists|i: int|
        0 <= i < s.len() && (#[trigger] s[i].id) == id && s[i].credentials.access_token.len() == 0
}

/// The durable collection of accounts.
pub struct AccountStore {
    accounts: Vec<Account>,
}

impl View for AccountStore {
    type V = Seq<AccountV>;

    closed spec fn view(&self) -> Seq<AccountV> {
        Seq::new(self.accounts@.len(), |i: int| self.accounts@[i]@)
    }
}

impl AccountStore {
    /// Creates an empty store.
    pub fn new() -> (r: AccountStore)
        ensures
            r@.len() == 0,
            store_wf(r@),
    {
        AccountStore { accounts: Vec::new() }
    }

    /// How many records the store holds.
    pub fn len(&self) -> (r: usize)
        ensures
            r == self@.len(),
    {
        self.accounts.len()
    }

    /// All records, as independent copies, in store order.
    pub fn list(&self) -> (r: Vec<Account>)
        ensures
            r@.len() == self@.len(),
            forall|i: int| 0 <= i < r@.len() ==> r@[i]@ == self@[i],
    {
        let mut out: Vec<Account> = Vec::new();
        let mut i: usize = 0;
        while i < self.accounts.len()
            invariant
                0 <= i <= self.accounts@.len(),
                self@.len() == self.accounts@.len(),
                out@.len() == i,
                forall|j: int| 0 <= j < i ==> out@[j]@ == self@[j],
                forall|j: int| 0 <= j < self.accounts@.len() ==> self@[j] == self.accounts@[j]@,
            decreases self.accounts@.len() - i,
        {
            out.push(self.accounts[i].duplicate());
            i = i + 1;
        }
        out
    }

    /// Index of the record carrying `id`, if any.
    fn find(&self, id: &String) -> (r: Option<usize>)
        ensures
            match r {
                Some(i) => i < self@.len() && self@[i as int].id == id@,
                None => !has_id(self@, id@),
            },
    {
        let mut i: usize = 0;
        while i < self.accounts.len()
            invariant
                0 <= i <= self.accounts@.len(),
                self@.len() == self.accounts@.len(),
                forall|j: int| 0 <= j < i ==> self@[j].id != id@,
                forall|j: int| 0 <= j < self.accounts@.len() ==> self@[j] == self.accounts@[j]@,
            decreases self.accounts@.len() - i,
        {
            if self.accounts[i].id == *id {
                return Some(i);
            }
            i = i + 1;
        }
        None
    }

    /// A copy of the record carrying `id`, if any.
    pub fn get(&self, id: &String) -> (r: Option<Account>)
        ensures
            match r {
                Some(a) => exists|i: int| 0 <= i < self@.len() && #[trigger] self@[i] == a@
                    && a@.id == id@,
                None => !has_id(self@, id@),
            },
    {
        match self.find(id) {
            Some(i) => {
                let a = self.accounts[i].duplicate();
                proof {
                    assert(self@[i as int] == a@);
                }
                Some(a)
            },
            None => None,
        }
    }

    /// Adds a record. A duplicate identifier is rejected; an empty
    /// identifier and an active record without a token are malformed. The
    /// stored record starts unbound: bindings are made only through
    /// `bind_account`. `persist_ok` is the outcome of the host's durable
    /// write of the new record; a failed write leaves memory untouched.
    pub fn add(&mut self, account: Account, persist_ok: bool) -> (r: Result<(), AuthError>)
        requires
            store_wf(old(self)@),
        ensures
            store_wf(final(self)@),
            match r {
                Ok(()) => {
                    &&& persist_ok
                    &&& !has_id(old(self)@, account@.id)
                    &&& account@.id.len() > 0
                    &&& account@.valid()
                    &&& final(self)@ == old(self)@.push(
                        AccountV { bound_machine_id: None, ..account@ },
                    )
                },
                Err(e) => {
                    &&& final(self)@ == old(self)@
                    &&& (e == AuthError::DuplicateId <==> has_id(old(self)@, account@.id))
                    &&& (e == AuthError::InvalidFormat <==> !has_id(old(self)@, account@.id) && (
                    account@.id.len() == 0 || !account@.valid()))
                    &&& (e == AuthError::StoreIOError <==> !persist_ok && !has_id(
                        old(self)@,
                        account@.id,
                    ) && account@.id.len() > 0 && account@.valid())
                    &&& (e == AuthError::DuplicateId || e == AuthError::InvalidFormat || e
                        == AuthError::StoreIOError)
                },
            },
    {
        if self.find(&account.id).is_some() {
            return Err(AuthError::DuplicateId);
        }
        if account.id.as_str().is_empty() {
            return Err(AuthError::InvalidFormat);
        }
        if matches!(account.status, AccountStatus::Active) && account.credentials.access_token.as_str().is_empty() {
            return Err(AuthError::InvalidFormat);
        }
        if !persist_ok {
            return Err(AuthError::StoreIOError);
        }
        let mut stored = account;
        stored.bound_machine_id = None;
        let ghost entry = stored@;
        self.accounts.push(stored);
        proof {
            assert(self@ =~= old(self)@.push(entry));
            let s = self@;
            let n = old(self)@.len() as int;
            assert forall|i: int, j: int|
                0 <= i < s.len() && 0 <= j < s.len() && i != j implies s[i].id != s[j].id && !(
            s[i].bound_machine_id is Some && s[i].bound_machine_id == s[j].bound_machine_id) by {
                if i < n && j < n {
                    assert(old(self)@[i] == s[i] && old(self)@[j] == s[j]);
                } else if i == n {
                    assert(old(self)@[j] == s[j]);
                    assert(!has_id(old(self)@, entry.id));
                } else if j == n {
                    assert(old(self)@[i] == s[i]);
                    assert(!has_id(old(self)@, entry.id));
                }
            }
        }
        Ok(())
    }

    /// Rewrites the profile fields of the record carrying `id`: its display
    /// name and status, leaving identifier, tokens and binding untouched.
    /// A status of `Active` over an empty token is malformed. `persist_ok`
    /// is the outcome of the host's durable write of this change: a failed
    /// write leaves memory untouched and fails with `StoreIOError`.
    pub fn update(
        &mut self,
        id: &String,
        display_name: String,
        status: AccountStatus,
        persist_ok: bool,
    ) -> (r: Result<(), AuthError>)
        requires
            store_wf(old(self)@),
        ensures
            store_wf(final(self)@),
            match r {
                Ok(()) => persist_ok && exists|i: int|
                    0 <= i < old(self)@.len() && (#[trigger] old(self)@[i].id) == id@
                        && final(self)@ == old(self)@.update(
                        i,
                        AccountV { display_name: display_name@, status, ..old(self)@[i] },
                    ),
                Err(e) => {
                    &&& final(self)@ == old(self)@
                    &&& (e == AuthError::NotFound <==> !has_id(old(self)@, id@))
                    &&& (e == AuthError::InvalidFormat <==> status_change_invalid(
                        old(self)@,
                        id@,
                        status,
                    ))
                    &&& (e == AuthError::StoreIOError <==> !persist_ok && has_id(old(self)@, id@)
                        && !status_change_invalid(old(self)@, id@, status))
                    &&& (e == AuthError::NotFound || e == AuthError::InvalidFormat || e
                        == AuthError::StoreIOError)
                },
            },
    {
        let i = match self.find(id) {
            Some(i) => i,
            None => {
                return Err(AuthError::NotFound);
            },
        };
        if matches!(status, AccountStatus::Active)
            && self.accounts[i].credentials.access_token.as_str().is_empty() {
            proof {
                assert(self@[i as int].credentials.access_token.len() == 0);
                assert(status_change_invalid(self@, id@, status));
            }
            return Err(AuthError::InvalidFormat);
        }
        proof {
            lemma_unique_id_settles_invalidity(self@, id@, status, i as int);
        }
        if !persist_ok {
            return Err(AuthError::StoreIOError);
        }
        let mut a = self.accounts[i].duplicate();
        a.display_name = display_name;
        a.status = status;
        let ghost entry = a@;
        self.accounts.set(i, a);
        proof {
            assert(self@ =~= old(self)@.update(i as int, entry));
            assert(old(self)@[i as int].valid());
            lemma_update_keeps_wf(old(self)@, i as int, entry);
        }
        Ok(())
    }

    /// Removes the record carrying `id`, first releasing its machine-id
    /// binding in the binder, so that the two sides stay mirrored.
    /// `persist_ok` is the outcome of the host's durable write of the
    /// removal; a failed write leaves both sides untouched.
    #[verifier::rlimit(100)]
    pub fn delete(&mut self, id: &String, binder: &mut MachineGuidBinder, persist_ok: bool) -> (r:
        Result<(), AuthError>)
        requires
            store_wf(old(self)@),
            old(binder)@.wf(),
            mirrors(old(self)@, old(binder)@.bindings),
        ensures
            store_wf(final(self)@),
            final(binder)@.wf(),
            mirrors(final(self)@, final(binder)@.bindings),
            final(binder)@.current_id == old(binder)@.current_id,
            final(binder)@.original_backup == old(binder)@.original_backup,
            final(binder)@.backup_slot == old(binder)@.backup_slot,
            match r {
                Ok(()) => {
                    &&& persist_ok
                    &&& exists|i: int|
                        0 <= i < old(self)@.len() && (#[trigger] old(self)@[i].id) == id@
                            && final(self)@ == old(self)@.remove(i)
                    &&& !has_id(final(self)@, id@)
                    &&& !account_bound(final(binder)@.bindings, id@)
                },
                Err(e) => {
                    &&& final(self)@ == old(self)@
                    &&& final(binder)@ == old(binder)@
                    &&& (e == AuthError::NotFound <==> !has_id(old(self)@, id@))
                    &&& (e == AuthError::StoreIOError <==> !persist_ok && has_id(old(self)@, id@))
                    &&& (e == AuthError::NotFound || e == AuthError::StoreIOError)
                },
            },
    {
        let i = match self.find(id) {
            Some(i) => i,
            None => {
                return Err(AuthError::NotFound);
            },
        };
        if !persist_ok {
            return Err(AuthError::StoreIOError);
        }
        binder.unbind(id);
        self.accounts.remove(i);
        proof {
            assert(self@ =~= old(self)@.remove(i as int));
            lemma_remove_keeps_wf(old(self)@, i as int);
            lemma_delete_mirrors(
                old(self)@,
                old(binder)@.bindings,
                binder@.bindings,
                i as int,
                id@,
            );
        }
        Ok(())
    }

    /// Removes every record whose identifier stands in `ids`, releasing
    /// each one's machine-id binding first; identifiers with no record are
    /// passed over. `persist_ok` is the outcome of the host's durable
    /// write of the whole removal; a failed write leaves both sides
    /// untouched.
    #[verifier::rlimit(100)]
    pub fn delete_many(
        &mut self,
        ids: &Vec<String>,
        binder: &mut MachineGuidBinder,
        persist_ok: bool,
    ) -> (r: Result<(), AuthError>)
        requires
            store_wf(old(self)@),
            old(binder)@.wf(),
            mirrors(old(self)@, old(binder)@.bindings),
        ensures
            store_wf(final(self)@),
            final(binder)@.wf(),
            mirrors(final(self)@, final(binder)@.bindings),
            final(binder)@.current_id == old(binder)@.current_id,
            final(binder)@.original_backup == old(binder)@.original_backup,
            final(binder)@.backup_slot == old(binder)@.backup_slot,
            match r {
                Ok(()) => {
                    &&& persist_ok
                    &&& forall|k: int|
                        0 <= k < ids.deep_view().len() ==> !has_id(
                            final(self)@,
                            #[trigger] ids.deep_view()[k],
                        )
                    &&& forall|j: int|
                        0 <= j < final(self)@.len() ==> survivor_of(
                            old(self)@,
                            ids.deep_view(),
                            #[trigger] final(self)@[j],
                        )
                    &&& forall|i: int|
                        0 <= i < old(self)@.len() && !id_listed(
                            ids.deep_view(),
                            (#[trigger] old(self)@[i]).id,
                        ) ==> occurs_in(final(self)@, old(self)@[i])
                },
                Err(e) => {
                    &&& e == AuthError::StoreIOError
                    &&& !persist_ok
                    &&& final(self)@ == old(self)@
                    &&& final(binder)@ == old(binder)@
                },
            },
    {
        if !persist_ok {
            return Err(AuthError::StoreIOError);
        }
        let ghost s0 = self@;
        let ghost idsv = ids.deep_view();
        proof {
            assert(forall|j: int| 0 <= j < ids@.len() ==> idsv[j] == ids@[j]@);
            assert forall|j: int|
                0 <= j < self@.len() implies occurs_in(s0, #[trigger] self@[j]) by {
                assert(s0[j] == self@[j]);
            }
            assert forall|i: int|
                0 <= i < s0.len() implies occurs_in(self@, #[trigger] s0[i]) by {
                assert(self@[i] == s0[i]);
            }
        }
        let mut k: usize = 0;
        while k < ids.len()
            invariant
                0 <= k <= ids@.len(),
                idsv == ids.deep_view(),
                idsv.len() == ids@.len(),
                store_wf(self@),
                binder@.wf(),
                mirrors(self@, binder@.bindings),
                binder@.current_id == old(binder)@.current_id,
                binder@.original_backup == old(binder)@.original_backup,
                binder@.backup_slot == old(binder)@.backup_slot,
                store_wf(s0),
                s0 == old(self)@,
                forall|m: int| 0 <= m < k ==> !has_id(self@, #[trigger] idsv[m]),
                forall|j: int| 0 <= j < self@.len() ==> occurs_in(s0, #[trigger] self@[j]),
                forall|i: int|
                    0 <= i < s0.len() && !id_listed(
                        idsv.subrange(0, k as int),
                        (#[trigger] s0[i]).id,
                    ) ==> occurs_in(self@, s0[i]),
            decreases ids@.len() - k,
        {
            let ghost pre = self@;
            let r = self.delete(&ids[k], binder, true);
            proof {
                assert(idsv[k as int] == ids@[k as int]@);
                match r {
                    Ok(()) => {
                        let i_del = choose|i_del: int|
                            0 <= i_del < pre.len() && pre[i_del].id == idsv[k as int] && self@
                                == pre.remove(i_del);
                        lemma_delete_many_step(s0, pre, self@, idsv, k as int, i_del);
                    },
                    Err(_) => {
                        assert(self@ == pre);
                        assert(!has_id(pre, idsv[k as int]));
                        assert forall|m: int|
                            0 <= m < k + 1 implies !has_id(self@, #[trigger] idsv[m]) by {}
                        assert forall|i: int|
                            0 <= i < s0.len() && !id_listed(
                                idsv.subrange(0, k as int + 1),
                                (#[trigger] s0[i]).id,
                            ) implies occurs_in(self@, s0[i]) by {
                            assert forall|m: int|
                                0 <= m < k + 1 implies idsv.subrange(0, k as int + 1)[m] == (
                                #[trigger] idsv[m]) by {}
                            assert(!id_listed(idsv.subrange(0, k as int), s0[i].id));
                        }
                    },
                }
            }
            k = k + 1;
        }
        proof {
            assert(idsv.subrange(0, idsv.len() as int) =~= idsv);
            lemma_delete_many_post(s0, self@, idsv);
        }
        Ok(())
    }

    /// Binds the record carrying `id` to machine identifier `g`, in the
    /// binder and in the record at once. Fails with `GuidConflict` when `g`
    /// already belongs to a different account; re-binding the same pair
    /// succeeds; a record bound elsewhere moves to `g`. `persist_ok` is
    /// the outcome of the host's durable write of the binding; a failed
    /// write leaves both sides untouched.
    #[verifier::rlimit(100)]
    pub fn bind_account(
        &mut self,
        id: &String,
        g: &String,
        binder: &mut MachineGuidBinder,
        persist_ok: bool,
    ) -> (r: Result<(), AuthError>)
        requires
            store_wf(old(self)@),
            old(binder)@.wf(),
            mirrors(old(self)@, old(binder)@.bindings),
        ensures
            store_wf(final(self)@),
            final(binder)@.wf(),
            mirrors(final(self)@, final(binder)@.bindings),
            match r {
                Ok(()) => {
                    &&& persist_ok
                    &&& exists|i: int|
                        0 <= i < old(self)@.len() && (#[trigger] old(self)@[i].id) == id@
                            && final(self)@ == old(self)@.update(
                            i,
                            AccountV { bound_machine_id: Some(g@), ..old(self)@[i] },
                        )
                    &&& pair_bound(final(binder)@.bindings, g@, id@)
                },
                Err(e) => {
                    &&& final(self)@ == old(self)@
                    &&& final(binder)@ == old(binder)@
                    &&& (e == AuthError::NotFound <==> !has_id(old(self)@, id@))
                    &&& (e == AuthError::GuidConflict <==> has_id(old(self)@, id@) && (exists|
                        m: int,
                    |
                        0 <= m < old(binder)@.bindings.len()
                            && (#[trigger] old(binder)@.bindings[m].machine_id) == g@ && old(
                            binder,
                        )@.bindings[m].account_id != id@))
                    &&& (e == AuthError::StoreIOError <==> !persist_ok && has_id(old(self)@, id@)
                        && !(exists|m: int|
                        0 <= m < old(binder)@.bindings.len()
                            && (#[trigger] old(binder)@.bindings[m].machine_id) == g@ && old(
                            binder,
                        )@.bindings[m].account_id != id@))
                    &&& (e == AuthError::NotFound || e == AuthError::GuidConflict || e
                        == AuthError::StoreIOError)
                },
            },
    {
        let i = match self.find(id) {
            Some(i) => i,
            None => {
                return Err(AuthError::NotFound);
            },
        };
        // Conflict is decided before anything is written, so that a failed
        // durable write can leave both sides exactly as they were.
        match binder.bound_account_for(g) {
            Some(a) => {
                if a != *id {
                    proof {
                        let bs = old(binder)@.bindings;
                        let m = choose|m: int|
                            0 <= m < bs.len() && bs[m].machine_id == g@ && bs[m].account_id == a@;
                        assert(bs[m].account_id != id@);
                    }
                    return Err(AuthError::GuidConflict);
                }
                proof {
                    lemma_unique_machine_settles_conflict(old(binder)@.bindings, g@, id@);
                }
            },
            None => {},
        }
        if !persist_ok {
            return Err(AuthError::StoreIOError);
        }
        match binder.bind(id, g) {
            Err(_) => {
                proof {
                    assert(false);
                }
                Err(AuthError::GuidConflict)
            },
            Ok(()) => {
                let mut a = self.accounts[i].duplicate();
                a.bound_machine_id = Some(g.clone());
                let ghost entry = a@;
                self.accounts.set(i, a);
                proof {
                    assert(self@ =~= old(self)@.update(i as int, entry));
                    lemma_bind_mirrors(
                        old(self)@,
                        old(binder)@.bindings,
                        binder@.bindings,
                        i as int,
                        id@,
                        g@,
                    );
                }
                Ok(())
            },
        }
    }

    /// Releases the machine-id binding of the record carrying `id`, in the
    /// binder and in the record at once. `persist_ok` is the outcome of
    /// the host's durable write of the release; a failed write leaves both
    /// sides untouched.
    #[verifier::rlimit(100)]
    pub fn unbind_account(
        &mut self,
        id: &String,
        binder: &mut MachineGuidBinder,
        persist_ok: bool,
    ) -> (r: Result<(), AuthError>)
        requires
            store_wf(old(self)@),
            old(binder)@.wf(),
            mirrors(old(self)@, old(binder)@.bindings),
        ensures
            store_wf(final(self)@),
            final(binder)@.wf(),
            mirrors(final(self)@, final(binder)@.bindings),
            match r {
                Ok(()) => {
                    &&& persist_ok
                    &&& exists|i: int|
                        0 <= i < old(self)@.len() && (#[trigger] old(self)@[i].id) == id@
                            && final(self)@ == old(self)@.update(
                            i,
                            AccountV { bound_machine_id: None, ..old(self)@[i] },
                        )
                    &&& !account_bound(final(binder)@.bindings, id@)
                },
                Err(e) => {
                    &&& final(self)@ == old(self)@
                    &&& final(binder)@ == old(binder)@
                    &&& (e == AuthError::NotFound <==> !has_id(old(self)@, id@))
                    &&& (e == AuthError::StoreIOError <==> !persist_ok && has_id(old(self)@, id@))
                    &&& (e == AuthError::NotFound || e == AuthError::StoreIOError)
                },
            },
    {
        let i = match self.find(id) {
            Some(i) => i,
            None => {
                return Err(AuthError::NotFound);
            },
        };
        if !persist_ok {
            return Err(AuthError::StoreIOError);
        }
        binder.unbind(id);
        let mut a = self.accounts[i].duplicate();
        a.bound_machine_id = None;
        let ghost entry = a@;
        self.accounts.set(i, a);
        proof {
            assert(self@ =~= old(self)@.update(i as int, entry));
            lemma_unbind_mirrors(
                old(self)@,
                old(binder)@.bindings,
                binder@.bindings,
                i as int,
                id@,
            );
        }
        Ok(())
    }

    /// What `refresh` should do for the record carrying `id` at `now`: a
    /// token still valid for at least `grace` more milliseconds on an
    /// active account makes the refresh a no-op; otherwise the stored
    /// refresh token is to be exchanged; without one, an interactive login
    /// is required.
    pub fn refresh_plan(&self, id: &String, now: u64, grace: u64) -> (r: Result<
        RefreshPlan,
        AuthError,
    >)
        ensures
            match r {
                Ok(p) => exists|i: int|
                    0 <= i < self@.len() && (#[trigger] self@[i].id) == id@ && match p {
                        RefreshPlan::StillValid => self@[i].status == AccountStatus::Active
                            && now + grace <= self@[i].credentials.expires_at,
                        RefreshPlan::Exchange(t) => !(self@[i].status == AccountStatus::Active
                            && now + grace <= self@[i].credentials.expires_at)
                            && self@[i].credentials.refresh_token == Some(t@),
                        RefreshPlan::NoRefreshToken => !(self@[i].status == AccountStatus::Active
                            && now + grace <= self@[i].credentials.expires_at)
                            && self@[i].credentials.refresh_token is None,
                    },
                Err(e) => e == AuthError::NotFound && !has_id(self@, id@),
            },
    {
        let i = match self.find(id) {
            Some(i) => i,
            None => {
                return Err(AuthError::NotFound);
            },
        };
        let a = &self.accounts[i];
        proof {
            assert(self@[i as int] == self.accounts@[i as int]@);
        }
        let exp = a.credentials.expires_at;
        if matches!(a.status, AccountStatus::Active) && exp >= grace && now <= exp - grace {
            return Ok(RefreshPlan::StillValid);
        }
        match &a.credentials.refresh_token {
            Some(t) => Ok(RefreshPlan::Exchange(t.clone())),
            None => Ok(RefreshPlan::NoRefreshToken),
        }
    }

    /// Applies the outcome of a provider token exchange to the record
    /// carrying `id`. A successful exchange atomically replaces the
    /// credentials and marks the record active and verified at `now`; a
    /// failed exchange, and a malformed result, leave the record exactly as
    /// it was — a failed refresh never clears existing credentials.
    /// `persist_ok` is the outcome of the host's durable write of the
    /// replacement; a failed write leaves memory untouched.
    pub fn apply_refresh(
        &mut self,
        id: &String,
        outcome: Result<Credentials, bool>,
        now: u64,
        persist_ok: bool,
    ) -> (r: Result<(), AuthError>)
        requires
            store_wf(old(self)@),
        ensures
            store_wf(final(self)@),
            final(self)@.len() == old(self)@.len(),
            forall|i: int|
                0 <= i < final(self)@.len() ==> (#[trigger] final(self)@[i]).id == old(self)@[i].id
                    && final(self)@[i].bound_machine_id == old(self)@[i].bound_machine_id,
            match r {
                Ok(()) => {
                    &&& persist_ok
                    &&& outcome is Ok
                    &&& outcome->Ok_0@.access_token.len() > 0
                    &&& exists|i: int|
                        0 <= i < old(self)@.len() && (#[trigger] old(self)@[i].id) == id@
                            && final(self)@ == old(self)@.update(
                            i,
                            AccountV {
                                credentials: outcome->Ok_0@,
                                status: AccountStatus::Active,
                                last_verified_at: now,
                                ..old(self)@[i]
                            },
                        )
                },
                Err(e) => {
                    &&& final(self)@ == old(self)@
                    &&& (e == AuthError::NotFound <==> !has_id(old(self)@, id@))
                    &&& (e is ProviderError <==> has_id(old(self)@, id@) && outcome is Err)
                    &&& (has_id(old(self)@, id@) && outcome is Err ==> exists|i: int|
                        0 <= i < old(self)@.len() && (#[trigger] old(self)@[i].id) == id@ && e == (
                        AuthError::ProviderError {
                            provider: old(self)@[i].provider,
                            retriable: outcome->Err_0,
                        }))
                    &&& (e == AuthError::InvalidFormat <==> has_id(old(self)@, id@) && outcome is Ok
                        && outcome->Ok_0@.access_token.len() == 0)
                    &&& (e == AuthError::StoreIOError <==> !persist_ok && has_id(old(self)@, id@)
                        && outcome is Ok && outcome->Ok_0@.access_token.len() > 0)
                    &&& (e == AuthError::NotFound || e is ProviderError || e
                        == AuthError::InvalidFormat || e == AuthError::StoreIOError)
                },
            },
    {
        let i = match self.find(id) {
            Some(i) => i,
            None => {
                return Err(AuthError::NotFound);
            },
        };
        let creds = match outcome {
            Ok(c) => c,
            Err(retriable) => {
                let provider = self.accounts[i].provider;
                return Err(AuthError::ProviderError { provider, retriable });
            },
        };
        if creds.access_token.as_str().is_empty() {
            return Err(AuthError::InvalidFormat);
        }
        if !persist_ok {
            return Err(AuthError::StoreIOError);
        }
        let mut a = self.accounts[i].duplicate();
        a.credentials = creds;
        a.status = AccountStatus::Active;
        a.last_verified_at = now;
        let ghost entry = a@;
        self.accounts.set(i, a);
        proof {
            assert(self@ =~= old(self)@.update(i as int, entry));
            assert(old(self)@[i as int].valid());
            lemma_update_keeps_wf(old(self)@, i as int, entry);
        }
        Ok(())
    }

    /// Applies a re-fetched provider profile to the record carrying `id`:
    /// the display name, the status and the verification time change,
    /// never the tokens or the binding. An `Active` status over an empty
    /// stored token is malformed. `persist_ok` is the outcome of the
    /// host's durable write of this change; a failed write leaves memory
    /// untouched.
    pub fn apply_sync(
        &mut self,
        id: &String,
        display_name: String,
        status: AccountStatus,
        now: u64,
        persist_ok: bool,
    ) -> (r: Result<(), AuthError>)
        requires
            store_wf(old(self)@),
        ensures
            store_wf(final(self)@),
            match r {
                Ok(()) => persist_ok && exists|i: int|
                    0 <= i < old(self)@.len() && (#[trigger] old(self)@[i].id) == id@
                        && final(self)@ == old(self)@.update(
                        i,
                        AccountV {
                            display_name: display_name@,
                            status,
                            last_verified_at: now,
                            ..old(self)@[i]
                        },
                    ),
                Err(e) => {
                    &&& final(self)@ == old(self)@
                    &&& (e == AuthError::NotFound <==> !has_id(old(self)@, id@))
                    &&& (e == AuthError::InvalidFormat <==> status_change_invalid(
                        old(self)@,
                        id@,
                        status,
                    ))
                    &&& (e == AuthError::StoreIOError <==> !persist_ok && has_id(old(self)@, id@)
                        && !status_change_invalid(old(self)@, id@, status))
                    &&& (e == AuthError::NotFound || e == AuthError::InvalidFormat || e
                        == AuthError::StoreIOError)
                },
            },
    {
        let i = match self.find(id) {
            Some(i) => i,
            None => {
                return Err(AuthError::NotFound);
            },
        };
        if matches!(status, AccountStatus::Active)
            && self.accounts[i].credentials.access_token.as_str().is_empty() {
            proof {
                assert(self@[i as int].credentials.access_token.len() == 0);
                assert(status_change_invalid(self@, id@, status));
            }
            return Err(AuthError::InvalidFormat);
        }
        proof {
            lemma_unique_id_settles_invalidity(self@, id@, status, i as int);
        }
        if !persist_ok {
            return Err(AuthError::StoreIOError);
        }
        let mut a = self.accounts[i].duplicate();
        a.display_name = display_name;
        a.status = status;
        a.last_verified_at = now;
        let ghost entry = a@;
        self.accounts.set(i, a);
        proof {
            assert(self@ =~= old(self)@.update(i as int, entry));
            assert(old(self)@[i as int].valid());
            lemma_update_keeps_wf(old(self)@, i as int, entry);
        }
        Ok(())
    }

    /// Applies the outcome of a provider probe to the record carrying
    /// `id`: only the status and the verification time change, never the
    /// tokens. An `Active` outcome over an empty stored token is
    /// malformed. `persist_ok` is the outcome of the host's durable write
    /// of this change; a failed write leaves memory untouched.
    pub fn apply_verify(
        &mut self,
        id: &String,
        status: AccountStatus,
        now: u64,
        persist_ok: bool,
    ) -> (r: Result<(), AuthError>)
        requires
            store_wf(old(self)@),
        ensures
            store_wf(final(self)@),
            match r {
                Ok(()) => persist_ok && exists|i: int|
                    0 <= i < old(self)@.len() && (#[trigger] old(self)@[i].id) == id@
                        && final(self)@ == old(self)@.update(
                        i,
                        AccountV { status, last_verified_at: now, ..old(self)@[i] },
                    ),
                Err(e) => {
                    &&& final(self)@ == old(self)@
                    &&& (e == AuthError::NotFound <==> !has_id(old(self)@, id@))
                    &&& (e == AuthError::InvalidFormat <==> status_change_invalid(
                        old(self)@,
                        id@,
                        status,
                    ))
                    &&& (e == AuthError::StoreIOError <==> !persist_ok && has_id(old(self)@, id@)
                        && !status_change_invalid(old(self)@, id@, status))
                    &&& (e == AuthError::NotFound || e == AuthError::InvalidFormat || e
                        == AuthError::StoreIOError)
                },
            },
    {
        let i = match self.find(id) {
            Some(i) => i,
            None => {
                return Err(AuthError::NotFound);
            },
        };
        if matches!(status, AccountStatus::Active)
            && self.accounts[i].credentials.access_token.as_str().is_empty() {
            proof {
                assert(self@[i as int].credentials.access_token.len() == 0);
                assert(status_change_invalid(self@, id@, status));
            }
            return Err(AuthError::InvalidFormat);
        }
        proof {
            lemma_unique_id_settles_invalidity(self@, id@, status, i as int);
        }
        if !persist_ok {
            return Err(AuthError::StoreIOError);
        }
        let mut a = self.accounts[i].duplicate();
        a.status = status;
        a.last_verified_at = now;
        let ghost entry = a@;
        self.accounts.set(i, a);
        proof {
            assert(self@ =~= old(self)@.update(i as int, entry));
            assert(old(self)@[i as int].valid());
            lemma_update_keeps_wf(old(self)@, i as int, entry);
        }
        Ok(())
    }
}

impl AccountStore {
    /// Serializes the records whose identifiers stand in `ids`, in store
    /// order, redacting the tokens when asked.
    pub fn export(&self, ids: &Vec<String>, redact: bool) -> (r: Vec<ExportedAccount>)
        ensures
            exports_view(r@) == export_model(self@, ids.deep_view(), redact),
    {
        let ghost idsv = ids.deep_view();
        let ghost full = export_model(self@, idsv, redact);
        let mut out: Vec<ExportedAccount> = Vec::new();
        let mut i: usize = 0;
        proof {
            assert(self@.subrange(0, self@.len() as int) =~= self@);
            assert(exports_view(out@) =~= Seq::<crate::export::ExportedAccountV>::empty());
            assert(exports_view(out@) + export_model(self@, idsv, redact) =~= full);
        }
        while i < self.accounts.len()
            invariant
                0 <= i <= self.accounts@.len(),
                self@.len() == self.accounts@.len(),
                full == export_model(self@, idsv, redact),
                idsv == ids.deep_view(),
                exports_view(out@) + export_model(
                    self@.subrange(i as int, self@.len() as int),
                    idsv,
                    redact,
                ) == full,
            decreases self.accounts@.len() - i,
        {
            let ghost pre = out@;
            let ghost suf = self@.subrange(i as int, self@.len() as int);
            let a = &self.accounts[i];
            proof {
                assert(self@[i as int] == self.accounts@[i as int]@);
                assert(suf[0] == self@[i as int]);
                assert(suf.drop_first() =~= self@.subrange(i as int + 1, self@.len() as int));
            }
            if contains_id(ids, &a.id) {
                out.push(export_account(a, redact));
                proof {
                    assert(exports_view(out@) =~= exports_view(pre).push(
                        crate::export::export_of(self@[i as int], redact),
                    ));
                    assert(export_model(suf, idsv, redact) =~= seq![
                        crate::export::export_of(suf[0], redact),
                    ] + export_model(suf.drop_first(), idsv, redact));
                    assert(exports_view(out@) + export_model(suf.drop_first(), idsv, redact)
                        =~= exports_view(pre) + export_model(suf, idsv, redact));
                }
            } else {
                proof {
                    assert(export_model(suf, idsv, redact) == export_model(
                        suf.drop_first(),
                        idsv,
                        redact,
                    ));
                }
            }
            i = i + 1;
        }
        proof {
            let suf = self@.subrange(self@.len() as int, self@.len() as int);
            assert(suf =~= Seq::<AccountV>::empty());
            assert(export_model(suf, idsv, redact) =~= Seq::<
                crate::export::ExportedAccountV,
            >::empty());
            assert(exports_view(out@) + export_model(suf, idsv, redact) =~= exports_view(out@));
        }
        out
    }

    /// Merges `records` into the store, left to right. An invalid record is
    /// skipped; a record whose identifier is already present rewrites that
    /// record in place (keeping its machine binding) only under the
    /// overwrite flag, and is skipped and reported otherwise; a fresh
    /// record is appended, unbound. Returns the skipped identifiers.
    /// `persist_ok` is the outcome of the host's durable write of the
    /// merged collection; a failed write leaves memory untouched.
    pub fn import(&mut self, records: &Vec<ExportedAccount>, overwrite: bool, persist_ok: bool) -> (r:
        Result<Vec<String>, AuthError>)
        requires
            store_wf(old(self)@),
        ensures
            store_wf(final(self)@),
            match r {
                Ok(skipped) => {
                    &&& persist_ok
                    &&& final(self)@ == import_model(old(self)@, exports_view(records@), overwrite)
                    &&& skipped.deep_view() == import_skipped(
                        old(self)@,
                        exports_view(records@),
                        overwrite,
                    )
                },
                Err(e) => {
                    &&& e == AuthError::StoreIOError
                    &&& !persist_ok
                    &&& final(self)@ == old(self)@
                },
            },
    {
        if !persist_ok {
            return Err(AuthError::StoreIOError);
        }
        let ghost recs = exports_view(records@);
        let mut skipped: Vec<String> = Vec::new();
        let mut k: usize = 0;
        proof {
            assert(recs.subrange(0, 0) =~= Seq::<crate::export::ExportedAccountV>::empty());
            assert(skipped.deep_view() =~= Seq::<Seq<char>>::empty());
        }
        while k < records.len()
            invariant
                0 <= k <= records@.len(),
                recs == exports_view(records@),
                recs.len() == records@.len(),
                store_wf(self@),
                self@ == import_model(old(self)@, recs.subrange(0, k as int), overwrite),
                skipped.deep_view() == import_skipped(
                    old(self)@,
                    recs.subrange(0, k as int),
                    overwrite,
                ),
            decreases records@.len() - k,
        {
            let ghost pre = self@;
            let ghost prefix = recs.subrange(0, k as int);
            let e = &records[k];
            proof {
                assert(recs[k as int] == e@);
                assert(recs.subrange(0, k as int + 1) =~= prefix.push(e@));
                crate::export::lemma_import_snoc(old(self)@, prefix, e@, overwrite);
                crate::export::lemma_import_one_wf(pre, e@, overwrite);
            }
            let valid = !e.id.as_str().is_empty() && !(matches!(e.status, AccountStatus::Active)
                && e.access_token.as_str().is_empty());
            if !valid {
                skipped.push(e.id.clone());
                proof {
                    assert(!export_valid(e@));
                    assert(import_one(pre, e@, overwrite) == pre);
                    assert(import_skips(pre, e@, overwrite));
                    assert(skipped.deep_view() =~= import_skipped(
                        old(self)@,
                        prefix,
                        overwrite,
                    ).push(e@.id));
                    assert(import_skipped(old(self)@, prefix.push(e@), overwrite)
                        =~= import_skipped(old(self)@, prefix, overwrite).push(e@.id));
                }
            } else {
                proof {
                    assert(export_valid(e@));
                }
                match self.find(&e.id) {
                    Some(i) => {
                        if overwrite {
                            let bound = match &self.accounts[i].bound_machine_id {
                                Some(g) => Some(g.clone()),
                                None => None,
                            };
                            let na = e.to_account(bound);
                            self.accounts.set(i, na);
                            proof {
                                assert(has_id(pre, e@.id));
                                assert forall|j: int|
                                    0 <= j < self@.len() implies self@[j] == import_one(
                                    pre,
                                    e@,
                                    overwrite,
                                )[j] by {
                                    if j != i {
                                        assert(pre[j].id != pre[i as int].id);
                                        assert(self@[j] == pre[j]);
                                    }
                                }
                                assert(self@ =~= import_one(pre, e@, overwrite));
                                assert(!import_skips(pre, e@, overwrite));
                                assert(import_skipped(old(self)@, prefix.push(e@), overwrite)
                                    =~= import_skipped(old(self)@, prefix, overwrite));
                            }
                        } else {
                            skipped.push(e.id.clone());
                            proof {
                                assert(has_id(pre, e@.id));
                                assert(import_one(pre, e@, overwrite) == pre);
                                assert(import_skips(pre, e@, overwrite));
                                assert(skipped.deep_view() =~= import_skipped(
                                    old(self)@,
                                    prefix,
                                    overwrite,
                                ).push(e@.id));
                                assert(import_skipped(old(self)@, prefix.push(e@), overwrite)
                                    =~= import_skipped(old(self)@, prefix, overwrite).push(e@.id));
                            }
                        }
                    },
                    None => {
                        let na = e.to_account(None);
                        self.accounts.push(na);
                        proof {
                            assert(!has_id(pre, e@.id));
                            assert(self@ =~= pre.push(crate::export::as_account(e@)));
                            assert(self@ =~= import_one(pre, e@, overwrite));
                            assert(!import_skips(pre, e@, overwrite));
                            assert(import_skipped(old(self)@, prefix.push(e@), overwrite)
                                =~= import_skipped(old(self)@, prefix, overwrite));
                        }
                    },
                }
            }
            k = k + 1;
        }
        proof {
            assert(recs.subrange(0, recs.len() as int) =~= recs);
        }
        Ok(skipped)
    }
}

/// What `refresh` should do next for one record.
pub enum RefreshPlan {
    /// The stored token is valid well past the grace window: a no-op.
    StillValid,
    /// Exchange this refresh token for fresh credentials.
    Exchange(String),
    /// The record has no refresh token: an interactive login is required.
    NoRefreshToken,
}

/// A transition that renames nothing and rebinds nothing — `apply_refresh`,
/// `apply_verify` and `update` are such transitions — keeps the store
/// mirrored with an untouched binder. With `delete`'s own postcondition this
/// covers both serialized orders of a `delete` and a `refresh` of the same
/// record: either the refresh comes first and this lemma carries the
/// invariant to the deletion, or the deletion comes first, the refresh finds
/// nothing and changes nothing. In both orders no record ever points at a
/// binding absent from the binder.
pub proof fn lemma_refresh_preserves_mirrors(
    s: Seq<AccountV>,
    t: Seq<AccountV>,
    bs: Seq<BindingV>,
)
    requires
        mirrors(s, bs),
        t.len() == s.len(),
        forall|i: int|
            0 <= i < t.len() ==> (#[trigger] t[i]).id == s[i].id && t[i].bound_machine_id
                == s[i].bound_machine_id,
    ensures
        mirrors(t, bs),
{
    assert forall|k: int|
        0 <= k < t.len() implies match #[trigger] t[k].bound_machine_id {
        Some(g) => pair_bound(bs, g, t[k].id),
        None => !account_bound(bs, t[k].id),
    } by {
        assert(s[k].bound_machine_id == t[k].bound_machine_id && s[k].id == t[k].id);
    }
    assert forall|m: int| 0 <= m < bs.len() implies binding_backed(t, #[trigger] bs[m]) by {
        let k = choose|k: int|
            0 <= k < s.len() && (#[trigger] s[k].id) == bs[m].account_id && s[k].bound_machine_id
                == Some(bs[m].machine_id);
        assert(t[k].id == bs[m].account_id && t[k].bound_machine_id == Some(bs[m].machine_id));
    }
}

/// Binding record `i` to `g` on both sides keeps the two mirrored, given
/// the binder reports the shape of its new table as `bind` promises it.
proof fn lemma_bind_mirrors(
    s0: Seq<AccountV>,
    bs0: Seq<BindingV>,
    bs1: Seq<BindingV>,
    i: int,
    id: Seq<char>,
    g: Seq<char>,
)
    requires
        store_wf(s0),
        bindings_unique(bs0),
        bindings_unique(bs1),
        mirrors(s0, bs0),
        0 <= i < s0.len(),
        s0[i].id == id,
        pair_bound(bs1, g, id),
        forall|m: int|
            0 <= m < bs0.len() && (#[trigger] bs0[m]).machine_id == g ==> bs0[m].account_id == id,
        forall|m1: int|
            0 <= m1 < bs1.len() && (#[trigger] bs1[m1]).account_id != id ==> exists|m0: int|
                0 <= m0 < bs0.len() && (#[trigger] bs0[m0]) == bs1[m1],
        forall|m0: int|
            0 <= m0 < bs0.len() && (#[trigger] bs0[m0]).account_id != id ==> exists|m1: int|
                0 <= m1 < bs1.len() && (#[trigger] bs1[m1]) == bs0[m0],
    ensures
        mirrors(s0.update(i, AccountV { bound_machine_id: Some(g), ..s0[i] }), bs1),
        store_wf(s0.update(i, AccountV { bound_machine_id: Some(g), ..s0[i] })),
{
    let s1 = s0.update(i, AccountV { bound_machine_id: Some(g), ..s0[i] });
    assert forall|p: int| 0 <= p < s1.len() implies #[trigger] s1[p].valid() by {
        if p != i {
            assert(s1[p] == s0[p]);
        } else {
            assert(s0[i].valid());
        }
    }
    assert forall|p: int, q: int|
        0 <= p < s1.len() && 0 <= q < s1.len() && p != q implies s1[p].id != s1[q].id && !(
    s1[p].bound_machine_id is Some && s1[p].bound_machine_id == s1[q].bound_machine_id) by {
        assert(s1[p].id == s0[p].id && s1[q].id == s0[q].id);
        if p == i && s0[q].bound_machine_id == Some(g) {
            assert(pair_bound(bs0, g, s0[q].id));
            let m = choose|m: int|
                0 <= m < bs0.len() && bs0[m].machine_id == g && bs0[m].account_id == s0[q].id;
            assert(bs0[m].account_id == id);
        } else if q == i && s0[p].bound_machine_id == Some(g) {
            assert(pair_bound(bs0, g, s0[p].id));
            let m = choose|m: int|
                0 <= m < bs0.len() && bs0[m].machine_id == g && bs0[m].account_id == s0[p].id;
            assert(bs0[m].account_id == id);
        } else if p != i && q != i {
            assert(s1[p].bound_machine_id == s0[p].bound_machine_id);
            assert(s1[q].bound_machine_id == s0[q].bound_machine_id);
        }
    }
    assert forall|k: int|
        0 <= k < s1.len() implies match #[trigger] s1[k].bound_machine_id {
        Some(g2) => pair_bound(bs1, g2, s1[k].id),
        None => !account_bound(bs1, s1[k].id),
    } by {
        if k == i {
            assert(pair_bound(bs1, g, id));
        } else {
            assert(s1[k] == s0[k]);
            assert(s0[k].id != id);
            match s0[k].bound_machine_id {
                Some(g2) => {
                    let m0 = choose|m0: int|
                        0 <= m0 < bs0.len() && bs0[m0].machine_id == g2 && bs0[m0].account_id
                            == s0[k].id;
                    let m1 = choose|m1: int| 0 <= m1 < bs1.len() && bs1[m1] == bs0[m0];
                    assert(bs1[m1].machine_id == g2 && bs1[m1].account_id == s1[k].id);
                },
                None => {
                    if account_bound(bs1, s0[k].id) {
                        let m1 = choose|m1: int|
                            0 <= m1 < bs1.len() && bs1[m1].account_id == s0[k].id;
                        let m0 = choose|m0: int| 0 <= m0 < bs0.len() && bs0[m0] == bs1[m1];
                        assert(account_bound(bs0, s0[k].id));
                    }
                },
            }
        }
    }
    assert forall|m: int| 0 <= m < bs1.len() implies binding_backed(s1, #[trigger] bs1[m]) by {
        if bs1[m].account_id == id {
            let p = choose|p: int|
                0 <= p < bs1.len() && bs1[p].machine_id == g && bs1[p].account_id == id;
            assert(m == p);
            assert(s1[i].id == id && s1[i].bound_machine_id == Some(g));
        } else {
            let m0 = choose|m0: int| 0 <= m0 < bs0.len() && bs0[m0] == bs1[m];
            let k = choose|k: int|
                0 <= k < s0.len() && (#[trigger] s0[k].id) == bs0[m0].account_id
                    && s0[k].bound_machine_id == Some(bs0[m0].machine_id);
            assert(k != i);
            assert(s1[k] == s0[k]);
            assert(s1[k].id == bs1[m].account_id);
        }
    }
}

/// Releasing record `i`'s binding on both sides keeps the two mirrored.
proof fn lemma_unbind_mirrors(
    s0: Seq<AccountV>,
    bs0: Seq<BindingV>,
    bs1: Seq<BindingV>,
    i: int,
    id: Seq<char>,
)
    requires
        store_wf(s0),
        bindings_unique(bs0),
        mirrors(s0, bs0),
        0 <= i < s0.len(),
        s0[i].id == id,
        (exists|j: int| 0 <= j < bs0.len() && bs0[j].account_id == id && bs1 == bs0.remove(j))
            || (bs1 == bs0 && !account_bound(bs0, id)),
        !account_bound(bs1, id),
    ensures
        mirrors(s0.update(i, AccountV { bound_machine_id: None, ..s0[i] }), bs1),
        store_wf(s0.update(i, AccountV { bound_machine_id: None, ..s0[i] })),
{
    let s1 = s0.update(i, AccountV { bound_machine_id: None, ..s0[i] });
    assert forall|p: int| 0 <= p < s1.len() implies #[trigger] s1[p].valid() by {
        if p != i {
            assert(s1[p] == s0[p]);
        } else {
            assert(s0[i].valid());
        }
    }
    assert forall|p: int, q: int|
        0 <= p < s1.len() && 0 <= q < s1.len() && p != q implies s1[p].id != s1[q].id && !(
    s1[p].bound_machine_id is Some && s1[p].bound_machine_id == s1[q].bound_machine_id) by {
        assert(s1[p].id == s0[p].id && s1[q].id == s0[q].id);
        if p != i {
            assert(s1[p].bound_machine_id == s0[p].bound_machine_id);
        }
        if q != i {
            assert(s1[q].bound_machine_id == s0[q].bound_machine_id);
        }
    }
    assert forall|m: int|
        0 <= m < bs1.len() implies exists|m0: int|
        0 <= m0 < bs0.len() && (#[trigger] bs0[m0]) == (#[trigger] bs1[m]) && bs0[m0].account_id
            != id by {
        if account_bound(bs0, id) {
            let j = choose|j: int|
                0 <= j < bs0.len() && bs0[j].account_id == id && bs1 == bs0.remove(j);
            if m < j {
                assert(bs1[m] == bs0[m]);
                assert(bs0[m].account_id != id);
            } else {
                assert(bs1[m] == bs0[m + 1]);
                assert(bs0[m + 1].account_id != id);
            }
        } else {
            assert(bs1 == bs0);
            assert(bs0[m].account_id != id);
        }
    }
    assert forall|m0: int|
        0 <= m0 < bs0.len() && (#[trigger] bs0[m0].account_id) != id implies exists|m: int|
        0 <= m < bs1.len() && (#[trigger] bs1[m]) == bs0[m0] by {
        if account_bound(bs0, id) {
            let j = choose|j: int|
                0 <= j < bs0.len() && bs0[j].account_id == id && bs1 == bs0.remove(j);
            if m0 < j {
                assert(bs1[m0] == bs0[m0]);
            } else {
                assert(m0 != j);
                assert(bs1[m0 - 1] == bs0[m0]);
            }
        } else {
            assert(bs1 == bs0);
            assert(bs1[m0] == bs0[m0]);
        }
    }
    assert forall|k: int|
        0 <= k < s1.len() implies match #[trigger] s1[k].bound_machine_id {
        Some(g2) => pair_bound(bs1, g2, s1[k].id),
        None => !account_bound(bs1, s1[k].id),
    } by {
        if k == i {
            assert(!account_bound(bs1, id));
        } else {
            assert(s1[k] == s0[k]);
            assert(s0[k].id != id);
            match s0[k].bound_machine_id {
                Some(g2) => {
                    let m0 = choose|m0: int|
                        0 <= m0 < bs0.len() && bs0[m0].machine_id == g2 && bs0[m0].account_id
                            == s0[k].id;
                    assert(bs0[m0].account_id != id);
                    let m = choose|m: int| 0 <= m < bs1.len() && bs1[m] == bs0[m0];
                    assert(bs1[m].machine_id == g2 && bs1[m].account_id == s1[k].id);
                },
                None => {
                    if account_bound(bs1, s0[k].id) {
                        let m = choose|m: int|
                            0 <= m < bs1.len() && bs1[m].account_id == s0[k].id;
                        let m0 = choose|m0: int|
                            0 <= m0 < bs0.len() && bs0[m0] == bs1[m] && bs0[m0].account_id != id;
                        assert(account_bound(bs0, s0[k].id));
                    }
                },
            }
        }
    }
    assert forall|m: int| 0 <= m < bs1.len() implies binding_backed(s1, #[trigger] bs1[m]) by {
        let m0 = choose|m0: int|
            0 <= m0 < bs0.len() && bs0[m0] == bs1[m] && bs0[m0].account_id != id;
        let k0 = choose|k0: int|
            0 <= k0 < s0.len() && (#[trigger] s0[k0].id) == bs0[m0].account_id
                && s0[k0].bound_machine_id == Some(bs0[m0].machine_id);
        assert(s0[k0].id != id);
        assert(k0 != i);
        assert(s1[k0] == s0[k0]);
        assert(s1[k0].id == bs1[m].account_id);
        assert(s1[k0].bound_machine_id == Some(bs1[m].machine_id));
    }
}

/// One step of a batch deletion: removing the record that carries the
/// identifier at position `k` keeps the earlier identifiers absent, keeps
/// every survivor a record of the initial store, and keeps every record
/// whose identifier is not among the first `k + 1` present.
proof fn lemma_delete_many_step(
    s0: Seq<AccountV>,
    pre: Seq<AccountV>,
    cur: Seq<AccountV>,
    idsv: Seq<Seq<char>>,
    k: int,
    i_del: int,
)
    requires
        store_wf(pre),
        0 <= k < idsv.len(),
        0 <= i_del < pre.len(),
        pre[i_del].id == idsv[k],
        cur == pre.remove(i_del),
        !has_id(cur, idsv[k]),
        forall|m: int| 0 <= m < k ==> !has_id(pre, #[trigger] idsv[m]),
        forall|j: int| 0 <= j < pre.len() ==> occurs_in(s0, #[trigger] pre[j]),
        forall|i: int|
            0 <= i < s0.len() && !id_listed(idsv.subrange(0, k), (#[trigger] s0[i]).id)
                ==> occurs_in(pre, s0[i]),
    ensures
        forall|m: int| 0 <= m < k + 1 ==> !has_id(cur, #[trigger] idsv[m]),
        forall|j: int| 0 <= j < cur.len() ==> occurs_in(s0, #[trigger] cur[j]),
        forall|i: int|
            0 <= i < s0.len() && !id_listed(idsv.subrange(0, k + 1), (#[trigger] s0[i]).id)
                ==> occurs_in(cur, s0[i]),
{
    assert forall|j: int| 0 <= j < cur.len() implies occurs_in(s0, #[trigger] cur[j]) by {
        if j < i_del {
            assert(cur[j] == pre[j]);
        } else {
            assert(cur[j] == pre[j + 1]);
        }
    }
    assert forall|m: int| 0 <= m < k + 1 implies !has_id(cur, #[trigger] idsv[m]) by {
        if m < k {
            if has_id(cur, idsv[m]) {
                let j = choose|j: int| 0 <= j < cur.len() && cur[j].id == idsv[m];
                if j < i_del {
                    assert(cur[j] == pre[j]);
                } else {
                    assert(cur[j] == pre[j + 1]);
                }
                assert(has_id(pre, idsv[m]));
            }
        } else {
            assert(!has_id(cur, idsv[k]));
        }
    }
    assert forall|i: int|
        0 <= i < s0.len() && !id_listed(idsv.subrange(0, k + 1), (#[trigger] s0[i]).id)
            implies occurs_in(cur, s0[i]) by {
        assert forall|m: int|
            0 <= m < k + 1 implies idsv.subrange(0, k + 1)[m] == (#[trigger] idsv[m]) by {}
        assert(!id_listed(idsv.subrange(0, k), s0[i].id));
        assert(occurs_in(pre, s0[i]));
        let j = choose|j: int| 0 <= j < pre.len() && pre[j] == s0[i];
        assert(s0[i].id != idsv[k]);
        assert(pre[j].id != pre[i_del].id);
        assert(j != i_del);
        if j < i_del {
            assert(cur[j] == pre[j]);
        } else {
            assert(cur[j - 1] == pre[j]);
        }
    }
}

/// After a batch deletion, every survivor is a record of the initial
/// store whose identifier was not on the list.
proof fn lemma_delete_many_post(s0: Seq<AccountV>, cur: Seq<AccountV>, idsv: Seq<Seq<char>>)
    requires
        forall|m: int| 0 <= m < idsv.len() ==> !has_id(cur, #[trigger] idsv[m]),
        forall|j: int| 0 <= j < cur.len() ==> occurs_in(s0, #[trigger] cur[j]),
    ensures
        forall|j: int| 0 <= j < cur.len() ==> survivor_of(s0, idsv, #[trigger] cur[j]),
{
    assert forall|j: int| 0 <= j < cur.len() implies survivor_of(s0, idsv, #[trigger] cur[j]) by {
        assert(occurs_in(s0, cur[j]));
        let i = choose|i: int| 0 <= i < s0.len() && (#[trigger] s0[i]) == cur[j];
        if id_listed(idsv, s0[i].id) {
            let m = choose|m: int| 0 <= m < idsv.len() && idsv[m] == s0[i].id;
            assert(!has_id(cur, idsv[m]));
            assert(cur[j].id == idsv[m]);
        }
    }
}

/// With unique machine identifiers, the one binding that claims `g` for
/// account `a` settles the conflict question: no binding claims `g` for
/// anyone else.
proof fn lemma_unique_machine_settles_conflict(bs: Seq<BindingV>, g: Seq<char>, a: Seq<char>)
    requires
        bindings_unique(bs),
        pair_bound(bs, g, a),
    ensures
        !(exists|m: int|
            0 <= m < bs.len() && (#[trigger] bs[m].machine_id) == g && bs[m].account_id != a),
{
    let p = choose|p: int| 0 <= p < bs.len() && bs[p].machine_id == g && bs[p].account_id == a;
    assert forall|m: int|
        0 <= m < bs.len() && (#[trigger] bs[m].machine_id) == g implies bs[m].account_id == a by {
        if m != p {
            assert(bs[m].machine_id != bs[p].machine_id);
        }
    }
}

/// With unique identifiers, the found record settles whether a status
/// change is malformed: when its own token is usable, no record carrying
/// the same identifier has an empty one.
proof fn lemma_unique_id_settles_invalidity(
    s: Seq<AccountV>,
    id: Seq<char>,
    status: AccountStatus,
    i: int,
)
    requires
        store_wf(s),
        0 <= i < s.len(),
        s[i].id == id,
        !(status == AccountStatus::Active && s[i].credentials.access_token.len() == 0),
    ensures
        !status_change_invalid(s, id, status),
{
    if status_change_invalid(s, id, status) {
        let j = choose|j: int|
            0 <= j < s.len() && s[j].id == id && s[j].credentials.access_token.len() == 0;
        if j != i {
            assert(s[j].id != s[i].id);
        }
    }
}

/// Replacing one record by another with the same identifier and binding
/// keeps the store invariant, provided the new record is valid.
proof fn lemma_update_keeps_wf(s: Seq<AccountV>, i: int, a: AccountV)
    requires
        store_wf(s),
        0 <= i < s.len(),
        a.valid(),
        a.id == s[i].id,
        a.bound_machine_id == s[i].bound_machine_id,
    ensures
        store_wf(s.update(i, a)),
{
    let t = s.update(i, a);
    assert forall|p: int, q: int|
        0 <= p < t.len() && 0 <= q < t.len() && p != q implies t[p].id != t[q].id && !(
    t[p].bound_machine_id is Some && t[p].bound_machine_id == t[q].bound_machine_id) by {
        assert(t[p].id == s[p].id && t[p].bound_machine_id == s[p].bound_machine_id);
        assert(t[q].id == s[q].id && t[q].bound_machine_id == s[q].bound_machine_id);
    }
    assert forall|p: int| 0 <= p < t.len() implies #[trigger] t[p].valid() by {
        if p != i {
            assert(t[p] == s[p]);
        }
    }
}

/// Removing a record keeps the store invariant.
proof fn lemma_remove_keeps_wf(s: Seq<AccountV>, i: int)
    requires
        store_wf(s),
        0 <= i < s.len(),
    ensures
        store_wf(s.remove(i)),
{
    let t = s.remove(i);
    assert forall|p: int| 0 <= p < t.len() implies #[trigger] t[p].valid() by {
        if p < i {
            assert(t[p] == s[p]);
        } else {
            assert(t[p] == s[p + 1]);
        }
    }
    assert forall|p: int, q: int|
        0 <= p < t.len() && 0 <= q < t.len() && p != q implies t[p].id != t[q].id && !(
    t[p].bound_machine_id is Some && t[p].bound_machine_id == t[q].bound_machine_id) by {
        let p0: int = if p < i { p } else { p + 1 };
        let q0: int = if q < i { q } else { q + 1 };
        assert(t[p] == s[p0] && t[q] == s[q0]);
    }
}

/// Removing record `i` from a mirrored store, together with its binding
/// (when it had one), leaves the two sides mirrored, and no trace of the
/// removed identifier remains on either side.
proof fn lemma_delete_mirrors(s0: Seq<AccountV>, bs0: Seq<BindingV>, bs1: Seq<BindingV>, i: int, id: Seq<char>)
    requires
        store_wf(s0),
        bindings_unique(bs0),
        mirrors(s0, bs0),
        0 <= i < s0.len(),
        s0[i].id == id,
        (exists|j: int| 0 <= j < bs0.len() && bs0[j].account_id == id && bs1 == bs0.remove(j))
            || (bs1 == bs0 && !account_bound(bs0, id)),
    ensures
        mirrors(s0.remove(i), bs1),
        !has_id(s0.remove(i), id),
        !account_bound(bs1, id),
{
    let s1 = s0.remove(i);
    assert forall|k: int| 0 <= k < s1.len() implies !(#[trigger] s1[k].id == id) by {
        if k < i {
            assert(s1[k] == s0[k]);
        } else {
            assert(s1[k] == s0[k + 1]);
        }
    }
    // Every remaining binding came from the old table and does not belong
    // to `id`; every old binding of another account is still in the table.
    assert forall|m: int|
        0 <= m < bs1.len() implies exists|m0: int|
        0 <= m0 < bs0.len() && (#[trigger] bs0[m0]) == (#[trigger] bs1[m]) && bs0[m0].account_id
            != id by {
        if account_bound(bs0, id) {
            let j = choose|j: int|
                0 <= j < bs0.len() && bs0[j].account_id == id && bs1 == bs0.remove(j);
            if m < j {
                assert(bs1[m] == bs0[m]);
                assert(bs0[m].account_id != id);
            } else {
                assert(bs1[m] == bs0[m + 1]);
                assert(bs0[m + 1].account_id != id);
            }
        } else {
            assert(bs1 == bs0);
            assert(bs0[m].account_id != id);
        }
    }
    assert forall|m0: int|
        0 <= m0 < bs0.len() && (#[trigger] bs0[m0].account_id) != id implies exists|m: int|
        0 <= m < bs1.len() && (#[trigger] bs1[m]) == bs0[m0] by {
        if account_bound(bs0, id) {
            let j = choose|j: int|
                0 <= j < bs0.len() && bs0[j].account_id == id && bs1 == bs0.remove(j);
            if m0 < j {
                assert(bs1[m0] == bs0[m0]);
            } else {
                assert(m0 != j);
                assert(bs1[m0 - 1] == bs0[m0]);
            }
        } else {
            assert(bs1 == bs0);
            assert(bs1[m0] == bs0[m0]);
        }
    }
    assert forall|k: int|
        0 <= k < s1.len() implies match #[trigger] s1[k].bound_machine_id {
        Some(g) => pair_bound(bs1, g, s1[k].id),
        None => !account_bound(bs1, s1[k].id),
    } by {
        let k0: int = if k < i {
            k
        } else {
            k + 1
        };
        assert(s1[k] == s0[k0]);
        match s1[k].bound_machine_id {
            Some(g) => {
                let m0 = choose|m0: int|
                    0 <= m0 < bs0.len() && bs0[m0].machine_id == g && bs0[m0].account_id
                        == s0[k0].id;
                assert(bs0[m0].account_id != id);
                let m = choose|m: int| 0 <= m < bs1.len() && bs1[m] == bs0[m0];
                assert(bs1[m].machine_id == g && bs1[m].account_id == s1[k].id);
            },
            None => {
                if account_bound(bs1, s1[k].id) {
                    let m = choose|m: int| 0 <= m < bs1.len() && bs1[m].account_id == s1[k].id;
                    let m0 = choose|m0: int|
                        0 <= m0 < bs0.len() && bs0[m0] == bs1[m] && bs0[m0].account_id != id;
                    assert(account_bound(bs0, s0[k0].id));
                }
            },
        }
    }
    assert forall|m: int| 0 <= m < bs1.len() implies binding_backed(s1, #[trigger] bs1[m]) by {
        let m0 = choose|m0: int|
            0 <= m0 < bs0.len() && bs0[m0] == bs1[m] && bs0[m0].account_id != id;
        let k0 = choose|k0: int|
            0 <= k0 < s0.len() && s0[k0].id == bs0[m0].account_id && s0[k0].bound_machine_id
                == Some(bs0[m0].machine_id);
        assert(s0[k0].id != id);
        assert(s0[i].id == id);
        assert(k0 != i);
        let k: int = if k0 < i {
            k0
        } else {
            k0 - 1
        };
        assert(s1[k] == s0[k0]);
        assert(s1[k].id == bs1[m].account_id);
        assert(s1[k].bound_machine_id == Some(bs1[m].machine_id));
    }
}

} // verus!

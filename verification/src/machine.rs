//! The machine-identifier binder: owns the system-level machine identifier
//! (read, backup, restore, reset, custom override) and the one-to-one
//! binding between machine identifiers and account identifiers.

use vstd::prelude::*;

use crate::errors::AuthError;

verus! {

/// One machine-identifier-to-account binding.
pub struct Binding {
    pub machine_id: String,
    pub account_id: String,
}

/// The model of a binding: the two identifier texts.
pub ghost struct BindingV {
    pub machine_id: Seq<char>,
    pub account_id: Seq<char>,
}

impl View for Binding {
    type V = BindingV;

    open spec fn view(&self) -> BindingV {
        BindingV { machine_id: self.machine_id@, account_id: self.account_id@ }
    }
}

/// Whether `s` is a well-formed machine identifier: the canonical
/// `8-4-4-4-12` form, hexadecimal digits in the four groups and hyphens at
/// positions 8, 13, 18 and 23.
pub open spec fn is_guid_text(s: Seq<char>) -> bool {
    &&& s.len() == 36
    &&& forall|i: int|
        0 <= i < 36 ==> if i == 8 || i == 13 || i == 18 || i == 23 {
            s[i] == '-'
        } else {
            is_hex_digit(s[i])
        }
}

/// Whether `c` is a hexadecimal digit, either case.
pub open spec fn is_hex_digit(c: char) -> bool {
    ('0' <= c && c <= '9') || ('a' <= c && c <= 'f') || ('A' <= c && c <= 'F')
}

/// Checks a single character against `is_hex_digit`.
pub fn check_hex_digit(c: char) -> (r: bool)
    ensures
        r == is_hex_digit(c),
{
    ('0' <= c && c <= '9') || ('a' <= c && c <= 'f') || ('A' <= c && c <= 'F')
}

/// Checks a machine identifier against `is_guid_text`.
pub fn check_guid_text(s: &str) -> (r: bool)
    ensures
        r == is_guid_text(s@),
{
    let n = s.unicode_len();
    if n != 36 {
        return false;
    }
    let mut i: usize = 0;
    while i < 36
        invariant
            0 <= i <= 36,
            s@.len() == 36,
            forall|j: int|
                0 <= j < i ==> if j == 8 || j == 13 || j == 18 || j == 23 {
                    s@[j] == '-'
                } else {
                    is_hex_digit(s@[j])
                },
        decreases 36 - i,
    {
        let c = s.get_char(i);
        if i == 8 || i == 13 || i == 18 || i == 23 {
            if c != '-' {
                return false;
            }
        } else {
            if !check_hex_digit(c) {
                return false;
            }
        }
        i = i + 1;
    }
    true
}

/// The binder. One exists per installation; its state is the current system
/// identifier, the factory value captured when the binder was created, an
/// optional saved snapshot, and the account bindings.
pub struct MachineGuidBinder {
    current_id: String,
    original_backup: String,
    backup_slot: Option<String>,
    bindings: Vec<Binding>,
}

/// The model of the binder.
pub ghost struct BinderV {
    pub current_id: Seq<char>,
    pub original_backup: Seq<char>,
    pub backup_slot: Option<Seq<char>>,
    pub bindings: Seq<BindingV>,
}

impl View for MachineGuidBinder {
    type V = BinderV;

    closed spec fn view(&self) -> BinderV {
        BinderV {
            current_id: self.current_id@,
            original_backup: self.original_backup@,
            backup_slot: match self.backup_slot {
                Some(s) => Some(s@),
                None => None,
            },
            bindings: Seq::new(self.bindings@.len(), |i: int| self.bindings@[i]@),
        }
    }
}

/// Whether some binding in `bs` claims machine identifier `g`.
pub open spec fn machine_bound(bs: Seq<BindingV>, g: Seq<char>) -> bool {
    exists|i: int| 0 <= i < bs.len() && bs[i].machine_id == g
}

/// Whether some binding in `bs` belongs to account `a`.
pub open spec fn account_bound(bs: Seq<BindingV>, a: Seq<char>) -> bool {
    exists|i: int| 0 <= i < bs.len() && bs[i].account_id == a
}

/// Whether binding `(g, a)` is present in `bs`.
pub open spec fn pair_bound(bs: Seq<BindingV>, g: Seq<char>, a: Seq<char>) -> bool {
    exists|i: int| 0 <= i < bs.len() && bs[i].machine_id == g && bs[i].account_id == a
}

/// The binding table is one-to-one: no machine identifier and no account
/// identifier occurs twice.
pub open spec fn bindings_unique(bs: Seq<BindingV>) -> bool {
    forall|i: int, j: int|
        0 <= i < bs.len() && 0 <= j < bs.len() && i != j ==> bs[i].machine_id
            != bs[j].machine_id && bs[i].account_id != bs[j].account_id
}

impl BinderV {
    /// The binding table is one-to-one.
    pub open spec fn wf(self) -> bool {
        bindings_unique(self.bindings)
    }
}

impl MachineGuidBinder {
    /// Creates the binder around the factory identifier, capturing it as the
    /// original backup.
    pub fn new(factory_id: String) -> (r: MachineGuidBinder)
        ensures
            r@.current_id == factory_id@,
            r@.original_backup == factory_id@,
            r@.backup_slot is None,
            r@.bindings.len() == 0,
            r@.wf(),
    {
        let original = factory_id.clone();
        MachineGuidBinder {
            current_id: factory_id,
            original_backup: original,
            backup_slot: None,
            bindings: Vec::new(),
        }
    }

    /// The current system machine identifier.
    pub fn current(&self) -> (r: String)
        ensures
            r@ == self@.current_id,
    {
        self.current_id.clone()
    }

    /// The factory identifier captured when the binder was created.
    pub fn original(&self) -> (r: String)
        ensures
            r@ == self@.original_backup,
    {
        self.original_backup.clone()
    }

    /// Saves the current identifier into the snapshot slot and returns it.
    pub fn backup(&mut self) -> (r: String)
        ensures
            r@ == old(self)@.current_id,
            final(self)@ == (BinderV { backup_slot: Some(old(self)@.current_id), ..old(self)@ }),
    {
        let snap = self.current_id.clone();
        self.backup_slot = Some(snap.clone());
        snap
    }

    /// Reverts the current identifier to a previously captured snapshot.
    /// Rejects a snapshot that is not a well-formed machine identifier.
    pub fn restore(&mut self, snapshot: &String) -> (r: Result<(), AuthError>)
        ensures
            match r {
                Ok(()) => is_guid_text(snapshot@) && final(self)@ == (BinderV {
                    current_id: snapshot@,
                    ..old(self)@
                }),
                Err(e) => e == AuthError::InvalidFormat && !is_guid_text(snapshot@)
                    && final(self)@ == old(self)@,
            },
    {
        if !check_guid_text(snapshot.as_str()) {
            return Err(AuthError::InvalidFormat);
        }
        self.current_id = snapshot.clone();
        Ok(())
    }

    /// The saved snapshot, if one was taken.
    pub fn backup_snapshot(&self) -> (r: Option<String>)
        ensures
            match r {
                Some(s) => self@.backup_slot == Some(s@),
                None => self@.backup_slot is None,
            },
    {
        match &self.backup_slot {
            Some(s) => Some(s.clone()),
            None => None,
        }
    }

    /// Installs a caller-generated fresh identifier as the current one. The
    /// identifier must be well-formed, differ from the previous value and
    /// from every currently bound identifier; the caller regenerates and
    /// retries on `GuidConflict`.
    pub fn reset(&mut self, fresh: String) -> (r: Result<String, AuthError>)
        ensures
            match r {
                Ok(id) => {
                    &&& id@ == fresh@
                    &&& is_guid_text(fresh@)
                    &&& fresh@ != old(self)@.current_id
                    &&& !machine_bound(old(self)@.bindings, fresh@)
                    &&& final(self)@ == (BinderV { current_id: fresh@, ..old(self)@ })
                },
                Err(e) => {
                    &&& final(self)@ == old(self)@
                    &&& (e == AuthError::InvalidFormat || e == AuthError::GuidConflict)
                    &&& (e == AuthError::InvalidFormat <==> !is_guid_text(fresh@))
                    &&& (e == AuthError::GuidConflict <==> is_guid_text(fresh@) && (fresh@
                        == old(self)@.current_id || machine_bound(old(self)@.bindings, fresh@)))
                },
            },
    {
        if !check_guid_text(fresh.as_str()) {
            return Err(AuthError::InvalidFormat);
        }
        if fresh == self.current_id {
            return Err(AuthError::GuidConflict);
        }
        if self.find_machine(&fresh).is_some() {
            return Err(AuthError::GuidConflict);
        }
        self.current_id = fresh.clone();
        Ok(fresh)
    }

    /// Installs a caller-supplied identifier after validating its format.
    pub fn set_custom(&mut self, id: String) -> (r: Result<(), AuthError>)
        ensures
            match r {
                Ok(()) => is_guid_text(id@) && final(self)@ == (BinderV {
                    current_id: id@,
                    ..old(self)@
                }),
                Err(e) => e == AuthError::InvalidFormat && !is_guid_text(id@) && final(self)@
                    == old(self)@,
            },
    {
        if !check_guid_text(id.as_str()) {
            return Err(AuthError::InvalidFormat);
        }
        self.current_id = id;
        Ok(())
    }

    /// Index of the binding that claims machine identifier `g`, if any.
    fn find_machine(&self, g: &String) -> (r: Option<usize>)
        ensures
            match r {
                Some(i) => i < self@.bindings.len() && self@.bindings[i as int].machine_id == g@,
                None => !machine_bound(self@.bindings, g@),
            },
    {
        let mut i: usize = 0;
        while i < self.bindings.len()
            invariant
                0 <= i <= self@.bindings.len(),
                self@.bindings.len() == self.bindings@.len(),
                forall|j: int| 0 <= j < i ==> self@.bindings[j].machine_id != g@,
                forall|j: int| 0 <= j < self.bindings@.len() ==> self@.bindings[j]
                    == self.bindings@[j]@,
            decreases self.bindings@.len() - i,
        {
            if self.bindings[i].machine_id == *g {
                return Some(i);
            }
            i = i + 1;
        }
        None
    }

    /// Index of the binding that belongs to account `a`, if any.
    fn find_account(&self, a: &String) -> (r: Option<usize>)
        ensures
            match r {
                Some(i) => i < self@.bindings.len() && self@.bindings[i as int].account_id == a@,
                None => !account_bound(self@.bindings, a@),
            },
    {
        let mut i: usize = 0;
        while i < self.bindings.len()
            invariant
                0 <= i <= self@.bindings.len(),
                self@.bindings.len() == self.bindings@.len(),
                forall|j: int| 0 <= j < i ==> self@.bindings[j].account_id != a@,
                forall|j: int| 0 <= j < self.bindings@.len() ==> self@.bindings[j]
                    == self.bindings@[j]@,
            decreases self.bindings@.len() - i,
        {
            if self.bindings[i].account_id == *a {
                return Some(i);
            }
            i = i + 1;
        }
        None
    }

    /// The account bound to machine identifier `g`, if any.
    pub fn bound_account_for(&self, g: &String) -> (r: Option<String>)
        ensures
            match r {
                Some(a) => pair_bound(self@.bindings, g@, a@),
                None => !machine_bound(self@.bindings, g@),
            },
    {
        match self.find_machine(g) {
            Some(i) => Some(self.bindings[i].account_id.clone()),
            None => None,
        }
    }

    /// The machine identifier account `a` is bound to, if any.
    pub fn bound_machine_for(&self, a: &String) -> (r: Option<String>)
        ensures
            match r {
                Some(g) => pair_bound(self@.bindings, g@, a@),
                None => !account_bound(self@.bindings, a@),
            },
    {
        match self.find_account(a) {
            Some(i) => Some(self.bindings[i].machine_id.clone()),
            None => None,
        }
    }

    /// All bindings, as independent copies.
    pub fn all_bindings(&self) -> (r: Vec<Binding>)
        ensures
            r@.len() == self@.bindings.len(),
            forall|i: int| 0 <= i < r@.len() ==> r@[i]@ == self@.bindings[i],
    {
        let mut out: Vec<Binding> = Vec::new();
        let mut i: usize = 0;
        while i < self.bindings.len()
            invariant
                0 <= i <= self.bindings@.len(),
                self@.bindings.len() == self.bindings@.len(),
                out@.len() == i,
                forall|j: int| 0 <= j < i ==> out@[j]@ == self@.bindings[j],
                forall|j: int| 0 <= j < self.bindings@.len() ==> self@.bindings[j]
                    == self.bindings@[j]@,
            decreases self.bindings@.len() - i,
        {
            let b = &self.bindings[i];
            out.push(Binding {
                machine_id: b.machine_id.clone(),
                account_id: b.account_id.clone(),
            });
            i = i + 1;
        }
        out
    }

    /// Binds account `a` to machine identifier `g`.
    ///
    /// Fails with `GuidConflict` when `g` is already claimed by a different
    /// account; re-binding the same pair is a no-op success; an account
    /// already bound elsewhere moves to `g`.
    pub fn bind(&mut self, a: &String, g: &String) -> (r: Result<(), AuthError>)
        requires
            old(self)@.wf(),
        ensures
            final(self)@.wf(),
            final(self)@.current_id == old(self)@.current_id,
            final(self)@.original_backup == old(self)@.original_backup,
            final(self)@.backup_slot == old(self)@.backup_slot,
            match r {
                Ok(()) => {
                    &&& !(exists|i: int|
                        0 <= i < old(self)@.bindings.len() && old(self)@.bindings[i].machine_id
                            == g@ && old(self)@.bindings[i].account_id != a@)
                    &&& pair_bound(final(self)@.bindings, g@, a@)
                    &&& forall|i: int|
                        0 <= i < final(self)@.bindings.len()
                            && final(self)@.bindings[i].account_id != a@ ==> exists|j: int|
                            0 <= j < old(self)@.bindings.len()
                                && old(self)@.bindings[j] == final(self)@.bindings[i]
                    &&& forall|j: int|
                        0 <= j < old(self)@.bindings.len() && old(self)@.bindings[j].account_id
                            != a@ ==> exists|i: int|
                            0 <= i < final(self)@.bindings.len()
                                && final(self)@.bindings[i] == old(self)@.bindings[j]
                },
                Err(e) => {
                    &&& e == AuthError::GuidConflict
                    &&& final(self)@ == old(self)@
                    &&& exists|i: int|
                        0 <= i < old(self)@.bindings.len() && old(self)@.bindings[i].machine_id
                            == g@ && old(self)@.bindings[i].account_id != a@
                },
            },
    {
        match self.find_machine(g) {
            Some(i) => {
                if self.bindings[i].account_id == *a {
                    proof {
                        let bs = self@.bindings;
                        assert(bs[i as int].machine_id == g@ && bs[i as int].account_id == a@);
                        assert(pair_bound(bs, g@, a@));
                        assert forall|j: int|
                            0 <= j < bs.len() && bs[j].machine_id == g@ implies bs[j].account_id
                            == a@ by {
                            if j != i {
                                assert(bs[j].machine_id != bs[i as int].machine_id);
                            }
                        }
                        assert forall|k: int|
                            0 <= k < bs.len() && bs[k].account_id != a@ implies exists|j: int|
                            0 <= j < bs.len() && bs[j] == bs[k] by {
                            assert(bs[k] == bs[k]);
                        }
                    }
                    Ok(())
                } else {
                    proof {
                        let bs = self@.bindings;
                        assert(bs[i as int].machine_id == g@ && bs[i as int].account_id != a@);
                    }
                    Err(AuthError::GuidConflict)
                }
            },
            None => {
                match self.find_account(a) {
                    Some(i) => {
                        let moved = Binding { machine_id: g.clone(), account_id: a.clone() };
                        self.bindings.set(i, moved);
                        proof {
                            let oldbs = old(self)@.bindings;
                            let bs = self@.bindings;
                            assert(bs.len() == oldbs.len());
                            assert(bs[i as int].machine_id == g@ && bs[i as int].account_id
                                == a@);
                            assert(pair_bound(bs, g@, a@));
                            assert forall|k: int|
                                0 <= k < bs.len() && k != i implies bs[k] == oldbs[k] by {}
                            assert forall|p: int, q: int|
                                0 <= p < bs.len() && 0 <= q < bs.len() && p != q implies bs[p].machine_id
                                != bs[q].machine_id && bs[p].account_id != bs[q].account_id by {
                                if p == i {
                                    assert(oldbs[q].machine_id != g@);
                                    assert(oldbs[q].account_id != oldbs[i as int].account_id);
                                } else if q == i {
                                    assert(oldbs[p].machine_id != g@);
                                    assert(oldbs[p].account_id != oldbs[i as int].account_id);
                                }
                            }
                            assert forall|k: int|
                                0 <= k < bs.len() && bs[k].account_id != a@ implies exists|j: int|
                                0 <= j < oldbs.len() && oldbs[j] == bs[k] by {
                                assert(oldbs[k] == bs[k]);
                            }
                            assert forall|j: int|
                                0 <= j < oldbs.len() && oldbs[j].account_id != a@ implies exists|
                                k: int,
                            |
                                0 <= k < bs.len() && bs[k] == oldbs[j] by {
                                assert(oldbs[i as int].account_id == a@);
                                assert(bs[j] == oldbs[j]);
                            }
                        }
                        Ok(())
                    },
                    None => {
                        let fresh = Binding { machine_id: g.clone(), account_id: a.clone() };
                        self.bindings.push(fresh);
                        proof {
                            let oldbs = old(self)@.bindings;
                            let bs = self@.bindings;
                            let n = oldbs.len() as int;
                            assert(bs.len() == n + 1);
                            assert forall|k: int| 0 <= k < n implies bs[k] == oldbs[k] by {}
                            assert(bs[n].machine_id == g@ && bs[n].account_id == a@);
                            assert(pair_bound(bs, g@, a@));
                            assert forall|p: int, q: int|
                                0 <= p < bs.len() && 0 <= q < bs.len() && p != q implies bs[p].machine_id
                                != bs[q].machine_id && bs[p].account_id != bs[q].account_id by {
                                if p == n {
                                    assert(oldbs[q].machine_id != g@);
                                    assert(oldbs[q].account_id != a@);
                                } else if q == n {
                                    assert(oldbs[p].machine_id != g@);
                                    assert(oldbs[p].account_id != a@);
                                }
                            }
                            assert forall|k: int|
                                0 <= k < bs.len() && bs[k].account_id != a@ implies exists|j: int|
                                0 <= j < oldbs.len() && oldbs[j] == bs[k] by {
                                assert(k != n);
                                assert(oldbs[k] == bs[k]);
                            }
                            assert forall|j: int|
                                0 <= j < oldbs.len() && oldbs[j].account_id != a@ implies exists|
                                k: int,
                            |
                                0 <= k < bs.len() && bs[k] == oldbs[j] by {
                                assert(bs[j] == oldbs[j]);
                            }
                        }
                        Ok(())
                    },
                }
            },
        }
    }

    /// Removes the binding of account `a`, if one exists. Returns whether a
    /// binding was removed.
    pub fn unbind(&mut self, a: &String) -> (r: bool)
        requires
            old(self)@.wf(),
        ensures
            final(self)@.wf(),
            final(self)@.current_id == old(self)@.current_id,
            final(self)@.original_backup == old(self)@.original_backup,
            final(self)@.backup_slot == old(self)@.backup_slot,
            !account_bound(final(self)@.bindings, a@),
            if r {
                exists|i: int|
                    0 <= i < old(self)@.bindings.len() && old(self)@.bindings[i].account_id == a@
                        && final(self)@.bindings == old(self)@.bindings.remove(i)
            } else {
                final(self)@ == old(self)@ && !account_bound(old(self)@.bindings, a@)
            },
    {
        match self.find_account(a) {
            Some(i) => {
                self.bindings.remove(i);
                proof {
                    assert(final(self)@.bindings =~= old(self)@.bindings.remove(i as int));
                    assert forall|k: int|
                        0 <= k < self@.bindings.len() implies self@.bindings[k].account_id
                        != a@ by {
                        if k < i {
                            assert(self@.bindings[k] == old(self)@.bindings[k]);
                        } else {
                            assert(self@.bindings[k] == old(self)@.bindings[k + 1]);
                        }
                    }
                }
                true
            },
            None => false,
        }
    }
}

/// What `unbind` leaves behind frees the machine identifier: once the one
/// binding that claimed `g` is removed, no binding claims it, so `bind`'s
/// conflict case cannot arise — together with `bind`'s postcondition:
/// unbind one account, and binding any other account to the freed
/// identifier succeeds.
pub proof fn lemma_unbind_frees_machine(bs: Seq<BindingV>, i: int, g: Seq<char>)
    requires
        bindings_unique(bs),
        0 <= i < bs.len(),
        bs[i].machine_id == g,
    ensures
        !machine_bound(bs.remove(i), g),
{
    let t = bs.remove(i);
    assert forall|k: int| 0 <= k < t.len() implies (#[trigger] t[k]).machine_id != g by {
        if k < i {
            assert(t[k] == bs[k]);
        } else {
            assert(t[k] == bs[k + 1]);
        }
    }
}

} // verus!

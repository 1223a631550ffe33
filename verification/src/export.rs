//! Export and import of account records: a serialized collection of
//! accounts, filtered to a subset of identifiers on export, merged by
//! identifier on import under an explicit overwrite flag.

use vstd::prelude::*;

use crate::account::Account;
use crate::account::AccountStatus;
use crate::account::AccountV;
use crate::account::Credentials;
use crate::account::CredentialsV;
use crate::errors::Provider;
use crate::store::has_id;
use crate::store::store_wf;

verus! {

/// One account record as it travels in an export: the fields of the
/// account without its machine binding, which never leaves the machine.
pub struct ExportedAccount {
    pub id: String,
    pub provider: Provider,
    pub display_name: String,
    pub access_token: String,
    pub refresh_token: Option<String>,
    pub expires_at: u64,
    pub status: AccountStatus,
    pub last_verified_at: u64,
}

/// The model of an exported record.
pub ghost struct ExportedAccountV {
    pub id: Seq<char>,
    pub provider: Provider,
    pub display_name: Seq<char>,
    pub access_token: Seq<char>,
    pub refresh_token: Option<Seq<char>>,
    pub expires_at: u64,
    pub status: AccountStatus,
    pub last_verified_at: u64,
}

impl View for ExportedAccount {
    type V = ExportedAccountV;

    open spec fn view(&self) -> ExportedAccountV {
        ExportedAccountV {
            id: self.id@,
            provider: self.provider,
            display_name: self.display_name@,
            access_token: self.access_token@,
            refresh_token: match self.refresh_token {
                Some(t) => Some(t@),
                None => None,
            },
            expires_at: self.expires_at,
            status: self.status,
            last_verified_at: self.last_verified_at,
        }
    }
}

/// The snapshot a record leaves in an export. Redaction blanks the tokens.
pub open spec fn export_of(a: AccountV, redact: bool) -> ExportedAccountV {
    ExportedAccountV {
        id: a.id,
        provider: a.provider,
        display_name: a.display_name,
        access_token: if redact {
            Seq::<char>::empty()
        } else {
            a.credentials.access_token
        },
        refresh_token: if redact {
            None
        } else {
            a.credentials.refresh_token
        },
        expires_at: a.credentials.expires_at,
        status: a.status,
        last_verified_at: a.last_verified_at,
    }
}

/// The account an imported record becomes: it enters unbound.
pub open spec fn as_account(e: ExportedAccountV) -> AccountV {
    AccountV {
        id: e.id,
        provider: e.provider,
        display_name: e.display_name,
        credentials: CredentialsV {
            access_token: e.access_token,
            refresh_token: e.refresh_token,
            expires_at: e.expires_at,
        },
        bound_machine_id: None,
        status: e.status,
        last_verified_at: e.last_verified_at,
    }
}

/// The schema check import applies to a record.
pub open spec fn export_valid(e: ExportedAccountV) -> bool {
    as_account(e).valid()
}

/// Whether `x` occurs in the identifier list `ids`.
pub open spec fn id_listed(ids: Seq<Seq<char>>, x: Seq<char>) -> bool {
    exists|k: int| 0 <= k < ids.len() && ids[k] == x
}

/// The records an export of `s` filtered to `ids` produces, in store order.
pub open spec fn export_model(s: Seq<AccountV>, ids: Seq<Seq<char>>, redact: bool) -> Seq<
    ExportedAccountV,
>
    decreases s.len(),
{
    if s.len() == 0 {
        Seq::empty()
    } else {
        (if id_listed(ids, s[0].id) {
            seq![export_of(s[0], redact)]
        } else {
            Seq::empty()
        }) + export_model(s.drop_first(), ids, redact)
    }
}

/// What importing one record does to the store: an invalid record is
/// skipped; a known identifier is rewritten in place (keeping its machine
/// binding) only under the overwrite flag, and skipped otherwise; a fresh
/// identifier is appended, unbound.
pub open spec fn import_one(s: Seq<AccountV>, e: ExportedAccountV, overwrite: bool) -> Seq<
    AccountV,
> {
    if !export_valid(e) {
        s
    } else if has_id(s, e.id) {
        if overwrite {
            Seq::new(
                s.len(),
                |i: int|
                    if s[i].id == e.id {
                        AccountV { bound_machine_id: s[i].bound_machine_id, ..as_account(e) }
                    } else {
                        s[i]
                    },
            )
        } else {
            s
        }
    } else {
        s.push(as_account(e))
    }
}

/// Whether importing one record is a skip to be reported.
pub open spec fn import_skips(s: Seq<AccountV>, e: ExportedAccountV, overwrite: bool) -> bool {
    !export_valid(e) || (has_id(s, e.id) && !overwrite)
}

/// The store after importing `recs` left to right.
pub open spec fn import_model(
    s: Seq<AccountV>,
    recs: Seq<ExportedAccountV>,
    overwrite: bool,
) -> Seq<AccountV>
    decreases recs.len(),
{
    if recs.len() == 0 {
        s
    } else {
        import_model(import_one(s, recs[0], overwrite), recs.drop_first(), overwrite)
    }
}

/// The identifiers import reports as skipped, in delivery order.
pub open spec fn import_skipped(
    s: Seq<AccountV>,
    recs: Seq<ExportedAccountV>,
    overwrite: bool,
) -> Seq<Seq<char>>
    decreases recs.len(),
{
    if recs.len() == 0 {
        Seq::empty()
    } else {
        (if import_skips(s, recs[0], overwrite) {
            seq![recs[0].id]
        } else {
            Seq::empty()
        }) + import_skipped(import_one(s, recs[0], overwrite), recs.drop_first(), overwrite)
    }
}

/// The models of a sequence of exported records, elementwise.
pub open spec fn exports_view(rs: Seq<ExportedAccount>) -> Seq<ExportedAccountV> {
    Seq::new(rs.len(), |i: int| rs[i]@)
}

/// Importing one more record at the end is importing the rest, then it;
/// likewise for the reported skips.
pub proof fn lemma_import_snoc(
    s: Seq<AccountV>,
    recs: Seq<ExportedAccountV>,
    e: ExportedAccountV,
    overwrite: bool,
)
    ensures
        import_model(s, recs.push(e), overwrite) == import_one(
            import_model(s, recs, overwrite),
            e,
            overwrite,
        ),
        import_skipped(s, recs.push(e), overwrite) == if import_skips(
            import_model(s, recs, overwrite),
            e,
            overwrite,
        ) {
            import_skipped(s, recs, overwrite).push(e.id)
        } else {
            import_skipped(s, recs, overwrite)
        },
    decreases recs.len(),
{
    if recs.len() == 0 {
        let tail = recs.push(e).drop_first();
        assert(recs.push(e)[0] == e);
        assert(tail =~= Seq::<ExportedAccountV>::empty());
        assert(import_model(import_one(s, e, overwrite), tail, overwrite) == import_one(
            s,
            e,
            overwrite,
        ));
        assert(import_skipped(import_one(s, e, overwrite), tail, overwrite) == Seq::<
            Seq<char>,
        >::empty());
        assert(import_model(s, recs, overwrite) == s);
        assert(import_skipped(s, recs, overwrite) == Seq::<Seq<char>>::empty());
        if import_skips(s, e, overwrite) {
            assert(import_skipped(s, recs.push(e), overwrite) =~= Seq::<
                Seq<char>,
            >::empty().push(e.id));
        } else {
            assert(import_skipped(s, recs.push(e), overwrite) =~= Seq::<Seq<char>>::empty());
        }
    } else {
        let tail = recs.push(e).drop_first();
        let s1 = import_one(s, recs[0], overwrite);
        assert(recs.push(e)[0] == recs[0]);
        assert(tail =~= recs.drop_first().push(e));
        lemma_import_snoc(s1, recs.drop_first(), e, overwrite);
        assert(import_model(s, recs.push(e), overwrite) == import_model(s1, tail, overwrite));
        assert(import_model(s, recs, overwrite) == import_model(
            s1,
            recs.drop_first(),
            overwrite,
        ));
        let head_skip: Seq<Seq<char>> = if import_skips(s, recs[0], overwrite) {
            seq![recs[0].id]
        } else {
            Seq::empty()
        };
        assert(import_skipped(s, recs.push(e), overwrite) == head_skip + import_skipped(
            s1,
            tail,
            overwrite,
        ));
        assert(import_skipped(s, recs, overwrite) == head_skip + import_skipped(
            s1,
            recs.drop_first(),
            overwrite,
        ));
        if import_skips(import_model(s, recs, overwrite), e, overwrite) {
            assert(head_skip + import_skipped(s1, recs.drop_first(), overwrite).push(e.id) =~= (
            head_skip + import_skipped(s1, recs.drop_first(), overwrite)).push(e.id));
        }
    }
}

/// Importing one record keeps the store invariant.
pub proof fn lemma_import_one_wf(s: Seq<AccountV>, e: ExportedAccountV, overwrite: bool)
    requires
        store_wf(s),
    ensures
        store_wf(import_one(s, e, overwrite)),
{
    let t = import_one(s, e, overwrite);
    if export_valid(e) && has_id(s, e.id) && overwrite {
        assert forall|p: int| 0 <= p < t.len() implies #[trigger] t[p].valid() by {
            if s[p].id == e.id {
                assert(t[p].id == e.id);
            } else {
                assert(t[p] == s[p]);
            }
        }
        assert forall|p: int, q: int|
            0 <= p < t.len() && 0 <= q < t.len() && p != q implies t[p].id != t[q].id && !(
        t[p].bound_machine_id is Some && t[p].bound_machine_id == t[q].bound_machine_id) by {
            assert(t[p].id == s[p].id && t[p].bound_machine_id == s[p].bound_machine_id);
            assert(t[q].id == s[q].id && t[q].bound_machine_id == s[q].bound_machine_id);
        }
    } else if export_valid(e) && !has_id(s, e.id) {
        let n = s.len() as int;
        assert forall|p: int| 0 <= p < t.len() implies #[trigger] t[p].valid() by {
            if p < n {
                assert(t[p] == s[p]);
            } else {
                assert(t[p] == as_account(e));
            }
        }
        assert forall|p: int, q: int|
            0 <= p < t.len() && 0 <= q < t.len() && p != q implies t[p].id != t[q].id && !(
        t[p].bound_machine_id is Some && t[p].bound_machine_id == t[q].bound_machine_id) by {
            if p < n && q < n {
                assert(t[p] == s[p] && t[q] == s[q]);
            } else if p == n {
                assert(t[q] == s[q]);
                assert(!has_id(s, e.id));
            } else if q == n {
                assert(t[p] == s[p]);
                assert(!has_id(s, e.id));
            }
        }
    }
}

/// Importing valid records whose identifiers are fresh and mutually
/// distinct appends them all, in order, as unbound accounts.
proof fn lemma_import_fresh(t: Seq<AccountV>, recs: Seq<ExportedAccountV>, overwrite: bool)
    requires
        forall|m: int| 0 <= m < recs.len() ==> export_valid(#[trigger] recs[m]),
        forall|m: int| 0 <= m < recs.len() ==> !has_id(t, (#[trigger] recs[m]).id),
        forall|m1: int, m2: int|
            0 <= m1 < recs.len() && 0 <= m2 < recs.len() && m1 != m2 ==> recs[m1].id
                != recs[m2].id,
    ensures
        import_model(t, recs, overwrite) == t + Seq::new(
            recs.len(),
            |m: int| as_account(recs[m]),
        ),
    decreases recs.len(),
{
    if recs.len() == 0 {
        assert(t + Seq::new(0, |m: int| as_account(recs[m])) =~= t);
    } else {
        let e = recs[0];
        let t1 = t.push(as_account(e));
        assert(import_one(t, e, overwrite) == t1);
        let rest = recs.drop_first();
        assert forall|m: int| 0 <= m < rest.len() implies !has_id(t1, (#[trigger] rest[m]).id) by {
            assert(rest[m] == recs[m + 1]);
            if has_id(t1, rest[m].id) {
                let k = choose|k: int| 0 <= k < t1.len() && t1[k].id == rest[m].id;
                if k < t.len() {
                    assert(t1[k] == t[k]);
                    assert(has_id(t, recs[m + 1].id));
                } else {
                    assert(t1[k] == as_account(e));
                    assert(recs[m + 1].id == recs[0].id);
                }
            }
        }
        assert forall|m: int| 0 <= m < rest.len() implies export_valid(#[trigger] rest[m]) by {
            assert(rest[m] == recs[m + 1]);
        }
        assert forall|m1: int, m2: int|
            0 <= m1 < rest.len() && 0 <= m2 < rest.len() && m1 != m2 implies rest[m1].id
            != rest[m2].id by {
            assert(rest[m1] == recs[m1 + 1] && rest[m2] == recs[m2 + 1]);
        }
        lemma_import_fresh(t1, rest, overwrite);
        assert(t1 + Seq::new(rest.len(), |m: int| as_account(rest[m])) =~= t + Seq::new(
            recs.len(),
            |m: int| as_account(recs[m]),
        ));
    }
}

/// When every identifier of the store stands in `ids`, a full export emits
/// every record, in store order.
proof fn lemma_export_all(s: Seq<AccountV>, ids: Seq<Seq<char>>, redact: bool)
    requires
        forall|i: int| 0 <= i < s.len() ==> id_listed(ids, (#[trigger] s[i]).id),
    ensures
        export_model(s, ids, redact) == Seq::new(s.len(), |i: int| export_of(s[i], redact)),
    decreases s.len(),
{
    if s.len() == 0 {
        assert(export_model(s, ids, redact) =~= Seq::new(
            s.len(),
            |i: int| export_of(s[i], redact),
        ));
    } else {
        let rest = s.drop_first();
        assert forall|i: int| 0 <= i < rest.len() implies id_listed(ids, (#[trigger] rest[i]).id) by {
            assert(rest[i] == s[i + 1]);
        }
        lemma_export_all(rest, ids, redact);
        assert(id_listed(ids, s[0].id));
        assert(seq![export_of(s[0], redact)] + Seq::new(
            rest.len(),
            |i: int| export_of(rest[i], redact),
        ) =~= Seq::new(s.len(), |i: int| export_of(s[i], redact)));
    }
}

/// The export/import round trip: exporting a well-formed store without
/// redaction, to an identifier list that covers it, and importing the
/// records into an empty store reproduces every account, in order, equal
/// in every field but the machine binding, which never travels.
pub proof fn lemma_export_import_round_trip(s: Seq<AccountV>, ids: Seq<Seq<char>>)
    requires
        store_wf(s),
        forall|i: int| 0 <= i < s.len() ==> id_listed(ids, (#[trigger] s[i]).id),
    ensures
        ({
            let out = import_model(Seq::empty(), export_model(s, ids, false), true);
            &&& out.len() == s.len()
            &&& forall|i: int|
                0 <= i < s.len() ==> out[i] == (AccountV {
                    bound_machine_id: None,
                    ..#[trigger] s[i]
                })
        }),
{
    lemma_export_all(s, ids, false);
    let recs = export_model(s, ids, false);
    assert(recs.len() == s.len());
    assert forall|m: int| 0 <= m < recs.len() implies export_valid(#[trigger] recs[m]) by {
        assert(recs[m] == export_of(s[m], false));
        assert(s[m].valid());
    }
    assert forall|m: int|
        0 <= m < recs.len() implies !has_id(Seq::<AccountV>::empty(), (#[trigger] recs[m]).id) by {}
    assert forall|m1: int, m2: int|
        0 <= m1 < recs.len() && 0 <= m2 < recs.len() && m1 != m2 implies recs[m1].id
        != recs[m2].id by {
        assert(recs[m1] == export_of(s[m1], false));
        assert(recs[m2] == export_of(s[m2], false));
    }
    lemma_import_fresh(Seq::<AccountV>::empty(), recs, true);
    let out = import_model(Seq::empty(), recs, true);
    assert(out =~= Seq::<AccountV>::empty() + Seq::new(recs.len(), |m: int| as_account(recs[m])));
    assert forall|i: int|
        0 <= i < s.len() implies out[i] == (AccountV {
        bound_machine_id: None,
        ..#[trigger] s[i]
    }) by {
        assert(out[i] == as_account(export_of(s[i], false)));
    }
}

impl ExportedAccount {
    /// The account this record becomes on import, carrying the given
    /// machine binding.
    pub fn to_account(&self, bound_machine_id: Option<String>) -> (r: Account)
        ensures
            r@ == (AccountV {
                bound_machine_id: match bound_machine_id {
                    Some(g) => Some(g@),
                    None => None,
                },
                ..as_account(self@)
            }),
    {
        Account {
            id: self.id.clone(),
            provider: self.provider,
            display_name: self.display_name.clone(),
            credentials: Credentials {
                access_token: self.access_token.clone(),
                refresh_token: match &self.refresh_token {
                    Some(t) => Some(t.clone()),
                    None => None,
                },
                expires_at: self.expires_at,
            },
            bound_machine_id,
            status: self.status,
            last_verified_at: self.last_verified_at,
        }
    }
}

/// Builds the export snapshot of one account.
pub fn export_account(a: &Account, redact: bool) -> (r: ExportedAccount)
    ensures
        r@ == export_of(a@, redact),
{
    ExportedAccount {
        id: a.id.clone(),
        provider: a.provider,
        display_name: a.display_name.clone(),
        access_token: if redact {
            String::new()
        } else {
            a.credentials.access_token.clone()
        },
        refresh_token: if redact {
            None
        } else {
            match &a.credentials.refresh_token {
                Some(t) => Some(t.clone()),
                None => None,
            }
        },
        expires_at: a.credentials.expires_at,
        status: a.status,
        last_verified_at: a.last_verified_at,
    }
}

/// Whether `x` occurs in `ids`.
pub fn contains_id(ids: &Vec<String>, x: &String) -> (r: bool)
    ensures
        r == id_listed(ids.deep_view(), x@),
{
    proof {
        assert(forall|k: int| 0 <= k < ids@.len() ==> ids.deep_view()[k] == ids@[k]@);
    }
    let mut k: usize = 0;
    while k < ids.len()
        invariant
            0 <= k <= ids@.len(),
            ids.deep_view().len() == ids@.len(),
            forall|j: int| 0 <= j < ids@.len() ==> ids.deep_view()[j] == ids@[j]@,
            forall|j: int| 0 <= j < k ==> ids.deep_view()[j] != x@,
        decreases ids@.len() - k,
    {
        if ids[k] == *x {
            proof {
                assert(ids.deep_view()[k as int] == ids@[k as int]@);
            }
            return true;
        }
        k = k + 1;
    }
    false
}

} // verus!

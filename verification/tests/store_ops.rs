use kiro_auth::AccountStatus;
use kiro_auth::AccountStore;
use kiro_auth::AuthError;
use kiro_auth::Credentials;
use kiro_auth::MachineGuidBinder;
use kiro_auth::Provider;
use kiro_auth::RefreshPlan;
use kiro_auth::finish_login;

const G0: &str = "00000000-0000-0000-0000-000000000000";
const G1: &str = "12345678-abcd-ef01-2345-67890abcdef0";

fn sample(id: &str, token: &str) -> kiro_auth::Account {
    finish_login(
        Provider::SocialLogin,
        String::from(id),
        String::from("Sample"),
        Ok(Credentials {
            access_token: String::from(token),
            refresh_token: Some(String::from("refresh")),
            expires_at: 10_000,
        }),
        1000,
    )
    .unwrap()
}

#[test]
fn add_rejects_duplicates_and_invalid_records() {
    let mut store = AccountStore::new();
    assert_eq!(store.add(sample("a", "t1"), true), Ok(()));
    assert_eq!(store.add(sample("a", "t2"), true), Err(AuthError::DuplicateId));
    let mut empty_id = sample("x", "t3");
    empty_id.id = String::new();
    assert_eq!(store.add(empty_id, true), Err(AuthError::InvalidFormat));
    let mut blank_token = sample("y", "t4");
    blank_token.credentials.access_token = String::new();
    assert_eq!(store.add(blank_token, true), Err(AuthError::InvalidFormat));
    assert_eq!(store.len(), 1);
}

#[test]
fn failed_refresh_leaves_the_record_unchanged() {
    let mut store = AccountStore::new();
    store.add(sample("a", "token-a"), true).unwrap();
    let before = store.get(&String::from("a")).unwrap();
    let r = store.apply_refresh(&String::from("a"), Err(true), 5000, true);
    assert_eq!(
        r,
        Err(AuthError::ProviderError { provider: Provider::SocialLogin, retriable: true })
    );
    let after = store.get(&String::from("a")).unwrap();
    assert_eq!(before.credentials.access_token, after.credentials.access_token);
    assert_eq!(before.credentials.refresh_token, after.credentials.refresh_token);
    assert_eq!(before.credentials.expires_at, after.credentials.expires_at);
    assert_eq!(before.status, after.status);
    assert_eq!(before.last_verified_at, after.last_verified_at);
}

#[test]
fn empty_replacement_token_is_rejected_fail_safe() {
    let mut store = AccountStore::new();
    store.add(sample("a", "token-a"), true).unwrap();
    let bad = Credentials {
        access_token: String::new(),
        refresh_token: None,
        expires_at: 99_999,
    };
    let r = store.apply_refresh(&String::from("a"), Ok(bad), 5000, true);
    assert_eq!(r, Err(AuthError::InvalidFormat));
    let after = store.get(&String::from("a")).unwrap();
    assert_eq!(after.credentials.access_token, String::from("token-a"));
}

#[test]
fn successful_refresh_replaces_credentials_atomically() {
    let mut store = AccountStore::new();
    store.add(sample("a", "old-token"), true).unwrap();
    let fresh = Credentials {
        access_token: String::from("new-token"),
        refresh_token: Some(String::from("new-refresh")),
        expires_at: 99_999,
    };
    assert_eq!(store.apply_refresh(&String::from("a"), Ok(fresh), 5000, true), Ok(()));
    let after = store.get(&String::from("a")).unwrap();
    assert_eq!(after.credentials.access_token, String::from("new-token"));
    assert_eq!(after.status, AccountStatus::Active);
    assert_eq!(after.last_verified_at, 5000);
}

#[test]
fn refresh_plan_honours_the_grace_window() {
    let mut store = AccountStore::new();
    store.add(sample("a", "t"), true).unwrap();  // expires_at 10_000
    assert!(matches!(
        store.refresh_plan(&String::from("a"), 1000, 2000),
        Ok(RefreshPlan::StillValid)
    ));
    match store.refresh_plan(&String::from("a"), 9000, 2000) {
        Ok(RefreshPlan::Exchange(t)) => assert_eq!(t, String::from("refresh")),
        other => panic!("unexpected plan: {:?}", other.is_ok()),
    }
    assert!(matches!(
        store.refresh_plan(&String::from("missing"), 0, 0),
        Err(AuthError::NotFound)
    ));
}

#[test]
fn verify_touches_only_status_and_timestamp() {
    let mut store = AccountStore::new();
    store.add(sample("a", "t"), true).unwrap();
    assert_eq!(store.apply_verify(&String::from("a"), AccountStatus::Invalid, 7000, true), Ok(()));
    let after = store.get(&String::from("a")).unwrap();
    assert_eq!(after.status, AccountStatus::Invalid);
    assert_eq!(after.last_verified_at, 7000);
    assert_eq!(after.credentials.access_token, String::from("t"));
}

#[test]
fn delete_unbinds_before_removal() {
    let mut store = AccountStore::new();
    let mut binder = MachineGuidBinder::new(String::from(G0));
    store.add(sample("a", "t"), true).unwrap();
    let g = String::from(G1);
    store.bind_account(&String::from("a"), &g, &mut binder, true).unwrap();
    assert_eq!(binder.bound_account_for(&g), Some(String::from("a")));
    assert_eq!(store.delete(&String::from("a"), &mut binder, true), Ok(()));
    assert_eq!(binder.bound_account_for(&g), None);
    assert!(store.get(&String::from("a")).is_none());
    // A refresh racing the delete finds nothing and changes nothing.
    assert_eq!(
        store.apply_refresh(&String::from("a"), Err(false), 8000, true),
        Err(AuthError::NotFound)
    );
}

#[test]
fn bind_account_conflicts_are_reported() {
    let mut store = AccountStore::new();
    let mut binder = MachineGuidBinder::new(String::from(G0));
    store.add(sample("a", "t"), true).unwrap();
    store.add(sample("b", "u"), true).unwrap();
    let g = String::from(G1);
    assert_eq!(store.bind_account(&String::from("a"), &g, &mut binder, true), Ok(()));
    assert_eq!(
        store.bind_account(&String::from("b"), &g, &mut binder, true),
        Err(AuthError::GuidConflict)
    );
    assert_eq!(store.unbind_account(&String::from("a"), &mut binder, true), Ok(()));
    assert_eq!(store.bind_account(&String::from("b"), &g, &mut binder, true), Ok(()));
    let b = store.get(&String::from("b")).unwrap();
    assert_eq!(b.bound_machine_id, Some(String::from(G1)));
}

#[test]
fn export_import_round_trip_reproduces_the_store() {
    let mut store = AccountStore::new();
    store.add(sample("a", "token-a"), true).unwrap();
    store.add(sample("b", "token-b"), true).unwrap();
    let ids = vec![String::from("a"), String::from("b")];
    let records = store.export(&ids, false);
    assert_eq!(records.len(), 2);

    let mut other = AccountStore::new();
    let skipped = other.import(&records, true, true).unwrap();
    assert!(skipped.is_empty());
    let originals = store.list();
    let copies = other.list();
    assert_eq!(copies.len(), originals.len());
    for (o, c) in originals.iter().zip(copies.iter()) {
        assert_eq!(o.id, c.id);
        assert_eq!(o.provider, c.provider);
        assert_eq!(o.display_name, c.display_name);
        assert_eq!(o.credentials.access_token, c.credentials.access_token);
        assert_eq!(o.credentials.refresh_token, c.credentials.refresh_token);
        assert_eq!(o.credentials.expires_at, c.credentials.expires_at);
        assert_eq!(o.status, c.status);
        assert_eq!(c.bound_machine_id, None);
    }
}

#[test]
fn export_filters_and_redacts() {
    let mut store = AccountStore::new();
    store.add(sample("a", "token-a"), true).unwrap();
    store.add(sample("b", "token-b"), true).unwrap();
    let only_b = store.export(&vec![String::from("b")], true);
    assert_eq!(only_b.len(), 1);
    assert_eq!(only_b[0].id, String::from("b"));
    assert_eq!(only_b[0].access_token, String::new());
    assert_eq!(only_b[0].refresh_token, None);
}

#[test]
fn import_skips_existing_unless_overwritten() {
    let mut store = AccountStore::new();
    store.add(sample("a", "original"), true).unwrap();
    let records = store.export(&vec![String::from("a")], false);

    let mut target = AccountStore::new();
    target.add(sample("a", "resident"), true).unwrap();
    let skipped = target.import(&records, false, true).unwrap();
    assert_eq!(skipped, vec![String::from("a")]);
    assert_eq!(
        target.get(&String::from("a")).unwrap().credentials.access_token,
        String::from("resident")
    );

    let none_skipped = target.import(&records, true, true).unwrap();
    assert!(none_skipped.is_empty());
    assert_eq!(
        target.get(&String::from("a")).unwrap().credentials.access_token,
        String::from("original")
    );
}

#[test]
fn sync_updates_profile_but_not_tokens() {
    let mut store = AccountStore::new();
    store.add(sample("a", "t"), true).unwrap();
    assert_eq!(
        store.apply_sync(&String::from("a"), String::from("Renamed"), AccountStatus::Expired, 6000, true),
        Ok(())
    );
    let after = store.get(&String::from("a")).unwrap();
    assert_eq!(after.display_name, String::from("Renamed"));
    assert_eq!(after.status, AccountStatus::Expired);
    assert_eq!(after.last_verified_at, 6000);
    assert_eq!(after.credentials.access_token, String::from("t"));
    assert_eq!(
        store.apply_sync(&String::from("nobody"), String::from("X"), AccountStatus::Invalid, 0, true),
        Err(AuthError::NotFound)
    );
}

#[test]
fn update_rewrites_display_name_and_status() {
    let mut store = AccountStore::new();
    store.add(sample("a", "t"), true).unwrap();
    assert_eq!(
        store.update(&String::from("a"), String::from("Named"), AccountStatus::Invalid, true),
        Ok(())
    );
    let after = store.get(&String::from("a")).unwrap();
    assert_eq!(after.display_name, String::from("Named"));
    assert_eq!(after.status, AccountStatus::Invalid);
    assert_eq!(
        store.update(&String::from("missing"), String::from("X"), AccountStatus::Invalid, true),
        Err(AuthError::NotFound)
    );
}


#[test]
fn delete_many_removes_listed_records_only() {
    let mut store = AccountStore::new();
    let mut binder = MachineGuidBinder::new(String::from(G0));
    store.add(sample("a", "t"), true).unwrap();
    store.add(sample("b", "u"), true).unwrap();
    store.add(sample("c", "v"), true).unwrap();
    store.bind_account(&String::from("a"), &String::from(G1), &mut binder, true).unwrap();
    let ids = vec![String::from("a"), String::from("missing"), String::from("c")];
    assert_eq!(store.delete_many(&ids, &mut binder, true), Ok(()));
    assert!(store.get(&String::from("a")).is_none());
    assert!(store.get(&String::from("c")).is_none());
    assert!(store.get(&String::from("b")).is_some());
    assert_eq!(store.len(), 1);
    assert_eq!(binder.bound_account_for(&String::from(G1)), None);
}

#[test]
fn failed_durable_write_rolls_back_every_operation() {
    let mut store = AccountStore::new();
    let mut binder = MachineGuidBinder::new(String::from(G0));
    assert_eq!(store.add(sample("a", "t"), false), Err(AuthError::StoreIOError));
    assert_eq!(store.len(), 0);

    store.add(sample("a", "t"), true).unwrap();
    let fresh = Credentials {
        access_token: String::from("new"),
        refresh_token: None,
        expires_at: 99_999,
    };
    assert_eq!(
        store.apply_refresh(&String::from("a"), Ok(fresh), 5000, false),
        Err(AuthError::StoreIOError)
    );
    assert_eq!(
        store.get(&String::from("a")).unwrap().credentials.access_token,
        String::from("t")
    );
    assert_eq!(
        store.update(&String::from("a"), String::from("X"), AccountStatus::Invalid, false),
        Err(AuthError::StoreIOError)
    );
    assert_eq!(
        store.bind_account(&String::from("a"), &String::from(G1), &mut binder, false),
        Err(AuthError::StoreIOError)
    );
    assert_eq!(binder.bound_account_for(&String::from(G1)), None);
    assert_eq!(
        store.delete(&String::from("a"), &mut binder, false),
        Err(AuthError::StoreIOError)
    );
    assert_eq!(store.len(), 1);
    assert_eq!(store.import(&Vec::new(), true, false), Err(AuthError::StoreIOError));
}

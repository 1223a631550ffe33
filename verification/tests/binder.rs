use kiro_auth::AuthError;
use kiro_auth::MachineGuidBinder;

const G1: &str = "12345678-abcd-ef01-2345-67890abcdef0";
const G2: &str = "0a0b0c0d-1111-2222-3333-444455556666";

#[test]
fn bind_conflict_then_unbind_frees_the_guid() {
    let mut b = MachineGuidBinder::new(String::from(G1));
    let a1 = String::from("acct-a");
    let a2 = String::from("acct-b");
    let g = String::from(G2);
    assert_eq!(b.bind(&a1, &g), Ok(()));
    assert_eq!(b.bind(&a2, &g), Err(AuthError::GuidConflict));
    assert!(b.unbind(&a1));
    assert_eq!(b.bind(&a2, &g), Ok(()));
    assert_eq!(b.bound_account_for(&g), Some(String::from("acct-b")));
}

#[test]
fn rebinding_same_pair_is_a_noop_success() {
    let mut b = MachineGuidBinder::new(String::from(G1));
    let a = String::from("acct-a");
    let g = String::from(G2);
    assert_eq!(b.bind(&a, &g), Ok(()));
    assert_eq!(b.bind(&a, &g), Ok(()));
    assert_eq!(b.all_bindings().len(), 1);
}

#[test]
fn account_moves_to_new_guid() {
    let mut b = MachineGuidBinder::new(String::from(G1));
    let a = String::from("acct-a");
    let g1 = String::from(G1);
    let g2 = String::from(G2);
    b.bind(&a, &g1).unwrap();
    b.bind(&a, &g2).unwrap();
    assert_eq!(b.bound_account_for(&g1), None);
    assert_eq!(b.bound_machine_for(&a), Some(String::from(G2)));
    assert_eq!(b.all_bindings().len(), 1);
}

#[test]
fn custom_guid_must_be_well_formed() {
    let mut b = MachineGuidBinder::new(String::from(G1));
    assert_eq!(b.set_custom(String::from("not-a-guid")), Err(AuthError::InvalidFormat));
    assert_eq!(b.set_custom(String::from("12345678-abcd-ef01-2345-67890abcdefg")),
        Err(AuthError::InvalidFormat));
    assert_eq!(b.set_custom(String::from(G2)), Ok(()));
    assert_eq!(b.current(), String::from(G2));
}

#[test]
fn reset_rejects_reused_identifiers() {
    let mut b = MachineGuidBinder::new(String::from(G1));
    assert_eq!(b.reset(String::from(G1)), Err(AuthError::GuidConflict));
    assert_eq!(b.reset(String::from("short")), Err(AuthError::InvalidFormat));
    assert_eq!(b.reset(String::from(G2)), Ok(String::from(G2)));
    assert_eq!(b.current(), String::from(G2));
}

#[test]
fn backup_and_restore_round_trip() {
    let mut b = MachineGuidBinder::new(String::from(G1));
    let snap = b.backup();
    assert_eq!(snap, String::from(G1));
    b.set_custom(String::from(G2)).unwrap();
    assert_eq!(b.current(), String::from(G2));
    let stored = b.backup_snapshot().unwrap();
    assert_eq!(b.restore(&stored), Ok(()));
    assert_eq!(b.current(), String::from(G1));
    assert_eq!(b.original(), String::from(G1));
}

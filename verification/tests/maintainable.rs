use ledgerkeep::address::Address;
use ledgerkeep::maintainable::{
    lk_state, maintenance_authorizer, maintenance_step, MaintainableError, Maintenance,
};

fn addr(name: &str) -> Address {
    Address::from_bytes(name.as_bytes().to_vec())
}

/// A network maximum TTL, as a test network reports it.
const MAX_TTL: u32 = 6_312_000;

/// A host adopting the standard: threshold 100, target 10_000, two
/// persistent keys.
fn host() -> Maintenance {
    Maintenance::new(100, 10_000, 2)
}

#[test]
fn extend_all_extends_ttl_and_records_keeper() {
    let mut m = host();
    let keeper = addr("GKEEPER");
    let sequence: u32 = 0;

    let ev = m.extend_all(addr("GKEEPER"), sequence, MAX_TTL).unwrap();
    let returned = ev.ledger;
    assert_eq!(returned, sequence);

    let state = m.lk_state().ok().unwrap();
    assert!(state.last_keeper.same(&keeper));
    assert_eq!(state.last_maintained, sequence);

    // The extension the host performs: both persistent keys, to the terms.
    assert_eq!(ev.key_count, 2);
    assert_eq!(m.threshold(), 100);
    assert_eq!(m.extend_to(), 10_000);
}

#[test]
fn lk_state_errors_before_any_maintenance() {
    let m = host();
    let result = m.lk_state();
    assert_eq!(result.err(), Some(MaintainableError::NotMaintained));
}

#[test]
fn extend_all_errors_when_extend_to_above_max_ttl() {
    let mut m = Maintenance::new(100, u32::MAX, 1);
    let result = m.extend_all(addr("GKEEPER"), 0, MAX_TTL);
    assert_eq!(result.err(), Some(MaintainableError::ExtendTooLarge));
    // Nothing was recorded.
    assert_eq!(m.lk_state().err(), Some(MaintainableError::NotMaintained));
}

#[test]
fn later_run_replaces_the_record() {
    let mut m = host();
    m.extend_all(addr("GA"), 10, MAX_TTL).unwrap();
    m.extend_all(addr("GB"), 25, MAX_TTL).unwrap();
    let state = m.lk_state().ok().unwrap();
    assert_eq!(state.last_maintained, 25);
    assert!(state.last_keeper.same(&addr("GB")));
    assert!(!state.last_keeper.same(&addr("GA")));
}

#[test]
fn extend_to_equal_to_max_ttl_is_allowed() {
    let mut m = Maintenance::new(1, MAX_TTL, 0);
    assert_eq!(m.extend_all(addr("GA"), 3, MAX_TTL).unwrap().ledger, 3);
    assert!(m.extend_all(addr("GA"), 4, MAX_TTL - 1).is_err());
}

#[test]
fn maintenance_step_over_stored_values() {
    let (state, ev) = maintenance_step(500, 1000, addr("GK"), 12, 4).ok().unwrap();
    assert_eq!(state.last_maintained, 12);
    assert!(state.last_keeper.same(&addr("GK")));
    assert_eq!(ev.ledger, 12);
    assert_eq!(ev.key_count, 4);
    assert!(ev.keeper.same(&addr("GK")));
    assert_eq!(
        maintenance_step(1001, 1000, addr("GK"), 12, 4).err(),
        Some(MaintainableError::ExtendTooLarge)
    );

    assert_eq!(lk_state(&None).err(), Some(MaintainableError::NotMaintained));
    let read = lk_state(&Some(state)).ok().unwrap();
    assert_eq!(read.last_maintained, 12);
}

#[test]
fn maintainable_error_codes_are_permanent() {
    assert_eq!(MaintainableError::ExtendTooLarge.code(), 301);
    assert_eq!(MaintainableError::NotMaintained.code(), 302);
}

#[test]
fn keeper_authorizes_maintenance() {
    assert!(maintenance_authorizer(&addr("GK")).same(&addr("GK")));
}

use std::collections::HashMap;

use ledgerkeep::address::Address;
use ledgerkeep::maintainable::{Maintenance, MaintenanceState};
use ledgerkeep::rent_vault::{
    claim_authorizer, claim_is_defined, fund_authorizer, fund_is_defined, open_authorizer,
    owner_authorizer, check_initialize, claim_vault, fund_vault, open_vault, require_vault, set_vault_terms,
    withdraw_vault, RentVault, VaultError, VaultState,
};

fn addr(name: &str) -> Address {
    Address::from_bytes(name.as_bytes().to_vec())
}

const MAX_TTL: u32 = 6_312_000;

/// Token balances as the tip token contract would hold them, moved exactly as
/// the vault's operations direct.
struct Tokens {
    balances: HashMap<Vec<u8>, i128>,
}

impl Tokens {
    fn new() -> Tokens {
        Tokens { balances: HashMap::new() }
    }
    fn balance(&self, who: &str) -> i128 {
        *self.balances.get(who.as_bytes()).unwrap_or(&0)
    }
    fn mint(&mut self, who: &str, amount: i128) {
        *self.balances.entry(who.as_bytes().to_vec()).or_insert(0) += amount;
    }
    fn transfer(&mut self, from: &[u8], to: &[u8], amount: i128) {
        let f = self.balances.entry(from.to_vec()).or_insert(0);
        assert!(*f >= amount);
        *f -= amount;
        *self.balances.entry(to.to_vec()).or_insert(0) += amount;
    }
}

/// The vault contract's own address, which holds the funds.
const VAULT: &str = "CVAULT";

/// A vault contract initialized with a tip token, a maintainable target with
/// one persistent key, and the ledger sequence.
struct Fixture {
    vault: RentVault,
    target: Maintenance,
    target_id: Address,
    tokens: Tokens,
    ledger: u32,
}

fn setup() -> Fixture {
    let mut vault = RentVault::new();
    vault.initialize(addr("CTOKEN")).unwrap();
    Fixture {
        vault,
        target: Maintenance::new(100, 10_000, 1),
        target_id: addr("CTARGET"),
        tokens: Tokens::new(),
        ledger: 0,
    }
}

impl Fixture {
    fn fund(&mut self, from: &str, amount: i128) {
        let ev = self.vault.fund(&self.target_id, &addr(from), amount).unwrap();
        self.tokens.transfer(ev.from.as_bytes(), VAULT.as_bytes(), ev.amount);
    }
    fn maintain(&mut self, keeper: &str) {
        self.target.extend_all(addr(keeper), self.ledger, MAX_TTL).unwrap();
    }
    fn claim(&mut self, keeper: &str) -> Result<i128, VaultError> {
        let state = self.target.lk_state().ok().unwrap();
        let ev = self.vault.claim(&self.target_id, &addr(keeper), &state, self.ledger)?;
        self.tokens.transfer(VAULT.as_bytes(), ev.keeper.as_bytes(), ev.tip);
        Ok(ev.tip)
    }
    fn withdraw(&mut self, to: &str, amount: i128) -> Result<(), VaultError> {
        let ev = self.vault.withdraw(&self.target_id, &addr(to), amount)?;
        self.tokens.transfer(VAULT.as_bytes(), ev.to.as_bytes(), ev.amount);
        Ok(())
    }
    fn balance(&self) -> i128 {
        self.vault.get_vault(&self.target_id).unwrap().balance
    }
}

#[test]
fn initialize_sets_token_once() {
    let mut f = setup();
    // Already initialized in setup; a second call fails.
    assert_eq!(
        f.vault.initialize(addr("COTHER")).err(),
        Some(VaultError::AlreadyInitialized)
    );
}

#[test]
fn open_requires_initialization() {
    let mut vault = RentVault::new();
    assert_eq!(
        vault.open(addr("CT"), addr("GOWNER"), 100, 10, 0).err(),
        Some(VaultError::NotInitialized)
    );
}

#[test]
fn open_rejects_bad_terms_and_duplicates() {
    let mut f = setup();
    let t = f.target_id.copy();
    assert_eq!(
        f.vault.open(t.copy(), addr("GOWNER"), 0, 10, 0).err(),
        Some(VaultError::InvalidTerms)
    );
    assert_eq!(
        f.vault.open(t.copy(), addr("GOWNER"), 100, 0, 0).err(),
        Some(VaultError::InvalidTerms)
    );

    f.vault.open(t.copy(), addr("GOWNER"), 100, 10, 0).unwrap();
    assert_eq!(
        f.vault.open(t.copy(), addr("GOWNER"), 100, 10, 0).err(),
        Some(VaultError::VaultExists)
    );
}

#[test]
fn full_claim_path() {
    let mut f = setup();
    f.tokens.mint("GOWNER", 1_000);

    let t = f.target_id.copy();
    f.vault.open(t, addr("GOWNER"), 100, 10, f.ledger).unwrap();
    f.fund("GOWNER", 500);
    assert_eq!(f.balance(), 500);

    // Advance a full interval, then the keeper maintains the target.
    f.ledger += 10;
    f.maintain("GKEEPER");

    let paid = f.claim("GKEEPER").unwrap();
    assert_eq!(paid, 100);
    assert_eq!(f.tokens.balance("GKEEPER"), 100);

    let v = f.vault.get_vault(&f.target_id).unwrap();
    assert_eq!(v.balance, 400);
    assert_eq!(v.last_claim, f.ledger);
}

#[test]
fn claim_rejects_not_the_keeper() {
    let mut f = setup();
    f.tokens.mint("GOWNER", 1_000);

    let t = f.target_id.copy();
    f.vault.open(t, addr("GOWNER"), 100, 10, f.ledger).unwrap();
    f.fund("GOWNER", 500);

    f.ledger += 10;
    f.maintain("GMAINTAINER");

    // A bystander who did not maintain cannot claim.
    assert_eq!(f.claim("GBYSTANDER").err(), Some(VaultError::NotTheKeeper));
}

#[test]
fn claim_rejects_too_soon() {
    let mut f = setup();
    f.tokens.mint("GOWNER", 1_000);

    // Large interval; advance far less than it.
    let t = f.target_id.copy();
    f.vault.open(t, addr("GOWNER"), 100, 1_000, f.ledger).unwrap();
    f.fund("GOWNER", 500);

    f.ledger += 5;
    f.maintain("GKEEPER");

    assert_eq!(f.claim("GKEEPER").err(), Some(VaultError::TooSoon));
}

#[test]
fn claim_rejects_no_maintenance() {
    let mut f = setup();
    f.tokens.mint("GOWNER", 1_000);

    // Maintain first, then open the vault so last_claim is after last_maintained.
    f.maintain("GKEEPER");

    f.ledger += 10;
    let t = f.target_id.copy();
    f.vault.open(t, addr("GOWNER"), 100, 10, f.ledger).unwrap();
    f.fund("GOWNER", 500);

    assert_eq!(f.claim("GKEEPER").err(), Some(VaultError::NoMaintenance));
}

#[test]
fn balance_accounting_across_fund_claim_withdraw() {
    let mut f = setup();
    f.tokens.mint("GOWNER", 1_000);

    let t = f.target_id.copy();
    f.vault.open(t, addr("GOWNER"), 100, 10, f.ledger).unwrap();
    f.fund("GOWNER", 500);
    assert_eq!(f.tokens.balance("GOWNER"), 500);
    assert_eq!(f.tokens.balance(VAULT), 500);

    f.ledger += 10;
    f.maintain("GKEEPER");
    f.claim("GKEEPER").unwrap();
    assert_eq!(f.balance(), 400);
    assert_eq!(f.tokens.balance(VAULT), 400);
    assert_eq!(f.tokens.balance("GKEEPER"), 100);

    // Withdraw the rest back to the owner.
    f.withdraw("GOWNER", 400).unwrap();
    assert_eq!(f.balance(), 0);
    assert_eq!(f.tokens.balance(VAULT), 0);
    assert_eq!(f.tokens.balance("GOWNER"), 900);

    // Nothing left to withdraw.
    assert_eq!(f.withdraw("GOWNER", 1).err(), Some(VaultError::InsufficientBalance));
}

#[test]
fn one_tip_per_interval() {
    let mut f = setup();
    let t = f.target_id.copy();
    f.vault.open(t, addr("GOWNER"), 100, 10, f.ledger).unwrap();
    f.tokens.mint("GOWNER", 1_000);
    f.fund("GOWNER", 500);

    f.ledger += 10;
    f.maintain("GKEEPER");
    assert_eq!(f.claim("GKEEPER"), Ok(100));

    // Fresh maintenance one ledger later, still inside the interval.
    f.ledger += 1;
    f.maintain("GKEEPER");
    assert_eq!(f.claim("GKEEPER").err(), Some(VaultError::TooSoon));

    // The same record a full interval later earns nothing more.
    f.ledger += 9;
    let stale = MaintenanceState { last_maintained: 10, last_keeper: addr("GKEEPER") };
    assert_eq!(
        f.vault.claim(&f.target_id, &addr("GKEEPER"), &stale, f.ledger).err(),
        Some(VaultError::NoMaintenance)
    );
    // The fresh record does.
    assert_eq!(f.claim("GKEEPER"), Ok(100));
    assert_eq!(f.balance(), 300);
}

#[test]
fn claim_needs_balance_for_the_tip() {
    let mut f = setup();
    let t = f.target_id.copy();
    f.vault.open(t, addr("GOWNER"), 100, 10, f.ledger).unwrap();
    f.tokens.mint("GOWNER", 1_000);
    f.fund("GOWNER", 99);
    f.ledger += 10;
    f.maintain("GKEEPER");
    assert_eq!(f.claim("GKEEPER").err(), Some(VaultError::InsufficientBalance));
    assert_eq!(f.balance(), 99);
}

#[test]
fn missing_vault_and_bad_amounts() {
    let mut f = setup();
    let state = MaintenanceState { last_maintained: 1, last_keeper: addr("GK") };
    assert_eq!(
        f.vault.fund(&addr("CNONE"), &addr("GOWNER"), 5).err(),
        Some(VaultError::VaultMissing)
    );
    assert_eq!(
        f.vault.withdraw(&addr("CNONE"), &addr("GOWNER"), 5).err(),
        Some(VaultError::VaultMissing)
    );
    assert_eq!(
        f.vault.set_terms(&addr("CNONE"), 5, 5).err(),
        Some(VaultError::VaultMissing)
    );
    assert_eq!(
        f.vault.claim(&addr("CNONE"), &addr("GK"), &state, 3).err(),
        Some(VaultError::VaultMissing)
    );
    assert!(f.vault.get_vault(&addr("CNONE")).is_none());

    let t = f.target_id.copy();
    f.vault.open(t, addr("GOWNER"), 100, 10, 0).unwrap();
    assert_eq!(
        f.vault.fund(&f.target_id, &addr("GOWNER"), 0).err(),
        Some(VaultError::InvalidAmount)
    );
    assert_eq!(
        f.vault.withdraw(&f.target_id, &addr("GOWNER"), -1).err(),
        Some(VaultError::InvalidAmount)
    );
}

#[test]
fn set_terms_changes_tip_and_interval() {
    let mut f = setup();
    let t = f.target_id.copy();
    f.vault.open(t, addr("GOWNER"), 100, 10, 0).unwrap();
    assert_eq!(
        f.vault.set_terms(&f.target_id, -5, 10).err(),
        Some(VaultError::InvalidTerms)
    );
    let ev = f.vault.set_terms(&f.target_id, 7, 3).unwrap();
    assert_eq!(ev.tip, 7);
    assert_eq!(ev.interval, 3);
    let v = f.vault.get_vault(&f.target_id).unwrap();
    assert_eq!(v.tip, 7);
    assert_eq!(v.interval, 3);
    assert!(v.owner.same(&addr("GOWNER")));
}

#[test]
fn vault_steps_over_stored_values() {
    assert_eq!(check_initialize(true), Err(VaultError::AlreadyInitialized));
    assert_eq!(check_initialize(false), Ok(()));
    assert_eq!(
        open_vault(true, true, addr("CT"), addr("GO"), 1, 1, 0).err(),
        Some(VaultError::VaultExists)
    );
    let (v, ev) = open_vault(true, false, addr("CT"), addr("GO"), 50, 4, 8).ok().unwrap();
    assert_eq!(v.balance, 0);
    assert_eq!(v.last_claim, 8);
    assert_eq!(ev.tip, 50);

    let (v, token, ev) = fund_vault(&addr("CT"), Some(v), &addr("GF"), 120, Some(addr("CTOKEN")))
        .ok()
        .unwrap();
    assert!(token.same(&addr("CTOKEN")));
    assert_eq!(v.balance, 120);
    assert_eq!(ev.balance, 120);
    assert_eq!(
        fund_vault(&addr("CT"), Some(v.copy()), &addr("GF"), 1, None).err(),
        Some(VaultError::NotInitialized)
    );

    let v = require_vault(Some(v)).ok().unwrap();
    assert_eq!(require_vault(None).err(), Some(VaultError::VaultMissing));

    let (v, _, ev) = withdraw_vault(&addr("CT"), v, &addr("GW"), 20, Some(addr("CTOKEN")))
        .ok()
        .unwrap();
    assert_eq!(v.balance, 100);
    assert_eq!(ev.balance, 100);

    let (v, _) = set_vault_terms(&addr("CT"), v, 60, 4).ok().unwrap();
    assert_eq!(v.tip, 60);

    let state = MaintenanceState { last_maintained: 10, last_keeper: addr("GK") };
    let (paid, _, ev): (VaultState, Address, _) =
        claim_vault(&addr("CT"), v, &state, &addr("GK"), 12, Some(addr("CTOKEN")))
            .ok()
            .unwrap();
    assert_eq!(paid.balance, 40);
    assert_eq!(paid.last_claim, 12);
    assert_eq!(ev.tip, 60);
    assert_eq!(ev.ledger, 12);
}

#[test]
fn vault_error_codes_are_permanent() {
    let all = [
        (VaultError::AlreadyInitialized, 201),
        (VaultError::NotInitialized, 202),
        (VaultError::VaultExists, 203),
        (VaultError::VaultMissing, 204),
        (VaultError::InvalidTerms, 205),
        (VaultError::InvalidAmount, 206),
        (VaultError::InsufficientBalance, 207),
        (VaultError::NotTheKeeper, 208),
        (VaultError::NoMaintenance, 209),
        (VaultError::TooSoon, 210),
    ];
    for (e, code) in all {
        assert_eq!(e.code(), code);
    }
}

#[test]
fn open_then_get_vault() {
    let mut f = setup();
    let t = f.target_id.copy();
    let ev = f.vault.open(t, addr("GOWNER"), 250, 12, 33).unwrap();
    assert!(ev.target.same(&f.target_id));
    assert!(ev.owner.same(&addr("GOWNER")));
    let v = f.vault.get_vault(&f.target_id).unwrap();
    assert!(v.target.same(&f.target_id));
    assert!(v.owner.same(&addr("GOWNER")));
    assert_eq!(v.balance, 0);
    assert_eq!(v.tip, 250);
    assert_eq!(v.interval, 12);
    assert_eq!(v.last_claim, 33);
    // Another target still has no vault, and the token cannot change.
    assert!(f.vault.get_vault(&addr("COTHER")).is_none());
    assert_eq!(
        f.vault.initialize(addr("CNEWTOKEN")).err(),
        Some(VaultError::AlreadyInitialized)
    );
}

#[test]
fn bystander_before_last_claim_is_not_the_keeper() {
    let mut f = setup();
    let t = f.target_id.copy();
    f.vault.open(t, addr("GOWNER"), 100, 10, 50).unwrap();
    f.ledger = 60;
    f.maintain("GKEEPER");
    let state = f.target.lk_state().ok().unwrap();
    // A ledger before the vault's last claim: the keeper check answers first.
    assert_eq!(
        f.vault.claim(&f.target_id, &addr("GBYSTANDER"), &state, 10).err(),
        Some(VaultError::NotTheKeeper)
    );
    let stale = MaintenanceState { last_maintained: 40, last_keeper: addr("GKEEPER") };
    assert_eq!(
        f.vault.claim(&f.target_id, &addr("GKEEPER"), &stale, 10).err(),
        Some(VaultError::NoMaintenance)
    );
}

#[test]
fn steps_answer_before_overflow_matters() {
    // A vault at the top of the balance range: without a token the funding is
    // refused before any addition.
    let full = VaultState {
        target: addr("CT"),
        owner: addr("GO"),
        balance: i128::MAX,
        tip: 1,
        interval: 1,
        last_claim: 0,
    };
    assert_eq!(
        fund_vault(&addr("CT"), Some(full), &addr("GF"), 1, None).err(),
        Some(VaultError::NotInitialized)
    );
    // A stored negative tip is paid as the claim step computes it.
    let odd = VaultState {
        target: addr("CT"),
        owner: addr("GO"),
        balance: 10,
        tip: -5,
        interval: 1,
        last_claim: 0,
    };
    let state = MaintenanceState { last_maintained: 3, last_keeper: addr("GK") };
    let (v, _, ev) = claim_vault(&addr("CT"), odd, &state, &addr("GK"), 4, Some(addr("CTOKEN")))
        .ok()
        .unwrap();
    assert_eq!(v.balance, 15);
    assert_eq!(ev.tip, -5);
}

#[test]
fn tips_across_intervening_calls() {
    let mut f = setup();
    let t = f.target_id.copy();
    f.vault.open(t, addr("GOWNER"), 100, 10, 0).unwrap();
    f.tokens.mint("GOWNER", 1_000);
    f.fund("GOWNER", 500);
    f.ledger = 10;
    f.maintain("GKEEPER");
    assert_eq!(f.claim("GKEEPER"), Ok(100));
    // Intervening calls do not move the clock.
    f.fund("GOWNER", 100);
    f.vault.set_terms(&f.target_id, 100, 20).unwrap();
    f.withdraw("GOWNER", 50).unwrap();
    assert_eq!(f.vault.get_vault(&f.target_id).unwrap().last_claim, 10);
    f.ledger = 25;
    f.maintain("GKEEPER");
    assert_eq!(f.claim("GKEEPER").err(), Some(VaultError::TooSoon));
    f.ledger = 30;
    f.maintain("GKEEPER");
    assert_eq!(f.claim("GKEEPER"), Ok(100));
    // The recorded balance matches the tokens the vault contract holds.
    assert_eq!(f.balance(), f.tokens.balance(VAULT));
    assert_eq!(f.balance(), 350);
}

#[test]
fn who_authorizes_and_when_calls_are_defined() {
    let v = VaultState {
        target: addr("CT"),
        owner: addr("GO"),
        balance: i128::MAX - 5,
        tip: 10,
        interval: 4,
        last_claim: 20,
    };
    assert!(open_authorizer(&addr("GO")).same(&addr("GO")));
    assert!(fund_authorizer(&addr("GF")).same(&addr("GF")));
    assert!(owner_authorizer(&v).same(&addr("GO")));
    assert!(!owner_authorizer(&v).same(&addr("CT")));
    assert!(claim_authorizer(&addr("GK")).same(&addr("GK")));

    let stored = Some(v.copy());
    assert!(fund_is_defined(&stored, 5, true));
    assert!(!fund_is_defined(&stored, 6, true));
    assert!(fund_is_defined(&stored, 6, false));
    assert!(fund_is_defined(&stored, -1, true));
    assert!(fund_is_defined(&None, 6, true));

    let fresh = MaintenanceState { last_maintained: 21, last_keeper: addr("GK") };
    // Before the last claim: undefined for the recorded keeper only.
    assert!(!claim_is_defined(&v, &fresh, &addr("GK"), 10, true));
    assert!(claim_is_defined(&v, &fresh, &addr("GB"), 10, true));
    assert!(claim_is_defined(&v, &fresh, &addr("GK"), 24, true));
    let odd = VaultState { tip: -10, ..v.copy() };
    assert!(!claim_is_defined(&odd, &fresh, &addr("GK"), 24, true));
    assert!(claim_is_defined(&odd, &fresh, &addr("GK"), 24, false));
}

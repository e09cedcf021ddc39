//! Laws of the rent vault: the token is set once, what reads give back
//! after writes, balance accounting, and the limits on payouts.

use vstd::prelude::*;

use crate::maintainable::{spec_extend_all, spec_lk_state, MaintenanceStateView, MaintenanceView};
use crate::rent_vault::{
    claim_defined, fund_defined, has_vault, lemma_replace_keeps_wf, lemma_vault_slot_unique, rent_vault_wf, spec_claim,
    spec_fund, spec_initialize, spec_open, spec_set_terms, spec_withdraw, vault_of, vault_slot,
    vault_wf, with_vault, ClaimedView, RentVaultView, VaultError, VaultView,
};

verus! {

/// Replacing `target`'s vault by `v` (for the same target) is what a read
/// then returns, and no other target's vault changes.
pub proof fn lemma_with_vault(r: RentVaultView, target: Seq<u8>, v: VaultView)
    requires
        rent_vault_wf(r),
        has_vault(r.vaults, target),
        v.target == target,
    ensures
        vault_of(with_vault(r, target, v).vaults, target) == Some(v),
        forall|t: Seq<u8>| t != target ==> #[trigger] vault_of(with_vault(r, target, v).vaults, t) == vault_of(
            r.vaults,
            t,
        ),
        with_vault(r, target, v).token == r.token,
        vault_wf(v) ==> rent_vault_wf(with_vault(r, target, v)),
{
    let k = vault_slot(r.vaults, target);
    let r2 = with_vault(r, target, v);
    lemma_vault_slot_unique(r, target, k);
    if vault_wf(v) {
        lemma_replace_keeps_wf(r, k, v);
        lemma_vault_slot_unique(r2, target, k);
    }
    assert(r2.vaults[k] == v);
    assert forall|a: int, b: int|
        0 <= a < r2.vaults.len() && 0 <= b < r2.vaults.len() && a != b implies (#[trigger] r2.vaults[a]).target
        != (#[trigger] r2.vaults[b]).target by {
        assert(r.vaults[a].target != r.vaults[b].target);
    }
    assert(has_vault(r2.vaults, target));
    let j = vault_slot(r2.vaults, target);
    assert(j == k);
    assert forall|t: Seq<u8>| t != target implies #[trigger] vault_of(r2.vaults, t) == vault_of(r.vaults, t) by {
        if has_vault(r.vaults, t) {
            let i = vault_slot(r.vaults, t);
            assert(r2.vaults[i] == r.vaults[i]);
            assert(has_vault(r2.vaults, t));
            let i2 = vault_slot(r2.vaults, t);
            assert(i2 == i);
        } else if has_vault(r2.vaults, t) {
            let i = vault_slot(r2.vaults, t);
            assert(r2.vaults[i].target == r.vaults[i].target);
        }
    }
}

/// The tip token is set once: after a successful `initialize`, every later
/// `initialize` is refused with `AlreadyInitialized` and changes nothing, and
/// no other operation ever changes the token.
pub proof fn lemma_initialize_once(
    r: RentVaultView,
    token: Seq<u8>,
    other: Seq<u8>,
    target: Seq<u8>,
    party: Seq<u8>,
    tip: i128,
    interval: u32,
    amount: i128,
    state: MaintenanceStateView,
    ledger: u32,
)
    requires
        spec_initialize(r, token).1 is Ok,
    ensures
        ({
            let r2 = spec_initialize(r, token).0;
            &&& r2.token == Some(token)
            &&& spec_initialize(r2, other) == (r2, Err::<(), VaultError>(VaultError::AlreadyInitialized))
        }),
        spec_open(r, target, party, tip, interval, ledger).0.token == r.token,
        spec_fund(r, target, party, amount).0.token == r.token,
        spec_withdraw(r, target, party, amount).0.token == r.token,
        spec_set_terms(r, target, tip, interval).0.token == r.token,
        spec_claim(r, target, party, state, ledger).0.token == r.token,
{
}

/// What an opening writes is what a read then returns: a vault for the
/// target, owned by the opener, with a zero balance, the given terms, and the
/// opening ledger as its last claim. No other vault changes.
pub proof fn lemma_open_then_get(r: RentVaultView, target: Seq<u8>, owner: Seq<u8>, tip: i128, interval: u32, ledger: u32)
    requires
        rent_vault_wf(r),
        spec_open(r, target, owner, tip, interval, ledger).1 is Ok,
    ensures
        ({
            let r2 = spec_open(r, target, owner, tip, interval, ledger).0;
            &&& vault_of(r2.vaults, target) == Some(
                VaultView { target, owner, balance: 0, tip, interval, last_claim: ledger },
            )
            &&& forall|t: Seq<u8>| t != target ==> #[trigger] vault_of(r2.vaults, t) == vault_of(r.vaults, t)
            &&& r2.vaults == r.vaults.push(VaultView { target, owner, balance: 0, tip, interval, last_claim: ledger })
            &&& r2.token == r.token
            &&& rent_vault_wf(r2)
        }),
{
    let r2 = spec_open(r, target, owner, tip, interval, ledger).0;
    let n = r.vaults.len() as int;
    assert(r2.vaults == r.vaults.push(r2.vaults[n]));
    assert forall|a: int, b: int|
        0 <= a < r2.vaults.len() && 0 <= b < r2.vaults.len() && a != b implies (#[trigger] r2.vaults[a]).target
        != (#[trigger] r2.vaults[b]).target by {
        if a == n {
            assert(r2.vaults[b] == r.vaults[b]);
        } else if b == n {
            assert(r2.vaults[a] == r.vaults[a]);
        } else {
            assert(r.vaults[a].target != r.vaults[b].target);
        }
    }
    assert forall|a: int| 0 <= a < r2.vaults.len() implies vault_wf(#[trigger] r2.vaults[a]) by {
        if a < n {
            assert(r2.vaults[a] == r.vaults[a]);
        }
    }
    assert(has_vault(r2.vaults, target));
    let j = vault_slot(r2.vaults, target);
    assert(j == n);
    assert forall|t: Seq<u8>| t != target implies #[trigger] vault_of(r2.vaults, t) == vault_of(r.vaults, t) by {
        if has_vault(r.vaults, t) {
            let i = vault_slot(r.vaults, t);
            assert(r2.vaults[i] == r.vaults[i]);
            assert(has_vault(r2.vaults, t));
            let i2 = vault_slot(r2.vaults, t);
            assert(i2 == i);
        } else if has_vault(r2.vaults, t) {
            let i = vault_slot(r2.vaults, t);
            if i < n {
                assert(r2.vaults[i] == r.vaults[i]);
            }
        }
    }
}

/// Balance accounting: a funding adds its amount, a withdrawal takes its
/// amount, a claim takes exactly the tip and pays it out; each reports the
/// new balance or tip, and nothing else of the vault changes but the claim's
/// restart of the clock.
pub proof fn lemma_balance_accounting(
    r: RentVaultView,
    target: Seq<u8>,
    party: Seq<u8>,
    amount: i128,
    state: MaintenanceStateView,
    ledger: u32,
)
    requires
        rent_vault_wf(r),
        has_vault(r.vaults, target),
    ensures
        ({
            let v = vault_of(r.vaults, target)->0;
            let (rf, ef) = spec_fund(r, target, party, amount);
            ef is Ok && v.balance + amount <= i128::MAX ==> vault_of(rf.vaults, target) == Some(
                VaultView { balance: (v.balance + amount) as i128, ..v },
            ) && ef->Ok_0.balance == v.balance + amount && ef->Ok_0.amount == amount && amount > 0
        }),
        ({
            let v = vault_of(r.vaults, target)->0;
            let (rw, ew) = spec_withdraw(r, target, party, amount);
            ew is Ok ==> vault_of(rw.vaults, target) == Some(VaultView { balance: (v.balance - amount) as i128, ..v })
                && ew->Ok_0.balance == v.balance - amount && ew->Ok_0.amount == amount && amount <= v.balance
        }),
        ({
            let v = vault_of(r.vaults, target)->0;
            let (rc, ec) = spec_claim(r, target, party, state, ledger);
            ec is Ok ==> vault_of(rc.vaults, target) == Some(
                VaultView { balance: (v.balance - v.tip) as i128, last_claim: ledger, ..v },
            ) && ec->Ok_0.tip == v.tip && ec->Ok_0.keeper == party && v.tip <= v.balance
        }),
{
    let v = vault_of(r.vaults, target)->0;
    lemma_vault_slot_unique(r, target, vault_slot(r.vaults, target));
    lemma_with_vault(r, target, VaultView { balance: (v.balance + amount) as i128, ..v });
    lemma_with_vault(r, target, VaultView { balance: (v.balance - amount) as i128, ..v });
    lemma_with_vault(r, target, VaultView { balance: (v.balance - v.tip) as i128, last_claim: ledger, ..v });
}

/// A claim is paid only when all of the vault's conditions hold: the record
/// names the claimant, it is newer than the last claim, a full interval has
/// passed since the last claim, and the balance covers the tip.
pub proof fn lemma_claim_conditions(
    r: RentVaultView,
    target: Seq<u8>,
    keeper: Seq<u8>,
    state: MaintenanceStateView,
    ledger: u32,
)
    requires
        spec_claim(r, target, keeper, state, ledger).1 is Ok,
    ensures
        ({
            let v = vault_of(r.vaults, target)->0;
            &&& vault_of(r.vaults, target) is Some
            &&& state.last_keeper == keeper
            &&& state.last_maintained > v.last_claim
            &&& ledger - v.last_claim >= v.interval
            &&& v.balance >= v.tip
            &&& r.token is Some
        }),
{
}


/// The first claim waits a full interval: right after an opening at
/// `ledger`, every claim less than one interval later is refused.
pub proof fn lemma_first_claim_waits(
    r: RentVaultView,
    target: Seq<u8>,
    owner: Seq<u8>,
    tip: i128,
    interval: u32,
    ledger: u32,
    keeper: Seq<u8>,
    state: MaintenanceStateView,
    later: u32,
)
    requires
        rent_vault_wf(r),
        spec_open(r, target, owner, tip, interval, ledger).1 is Ok,
        ledger <= later,
        later - ledger < interval,
    ensures
        spec_claim(spec_open(r, target, owner, tip, interval, ledger).0, target, keeper, state, later).1 is Err,
{
    lemma_open_then_get(r, target, owner, tip, interval, ledger);
}

/// At most one tip per interval: after a claim paid at `first`, every claim on
/// the same vault at a ledger less than one interval later is refused,
/// whoever claims and whatever the maintenance record says.
pub proof fn lemma_one_tip_per_interval(
    r: RentVaultView,
    target: Seq<u8>,
    keeper: Seq<u8>,
    state: MaintenanceStateView,
    first: u32,
    keeper2: Seq<u8>,
    state2: MaintenanceStateView,
    second: u32,
)
    requires
        rent_vault_wf(r),
        spec_claim(r, target, keeper, state, first).1 is Ok,
        first <= second,
        second - first < vault_of(r.vaults, target)->0.interval,
    ensures
        spec_claim(spec_claim(r, target, keeper, state, first).0, target, keeper2, state2, second).1 is Err,
{
    let v = vault_of(r.vaults, target)->0;
    let paid = VaultView { balance: (v.balance - v.tip) as i128, last_claim: first, ..v };
    lemma_with_vault(r, target, paid);
}

/// No batching: the record that earned one tip cannot earn another. A second
/// claim presenting the same maintenance record, which is no newer than the
/// first payout, is refused.
pub proof fn lemma_no_second_tip_for_same_work(
    r: RentVaultView,
    target: Seq<u8>,
    keeper: Seq<u8>,
    state: MaintenanceStateView,
    first: u32,
    keeper2: Seq<u8>,
    second: u32,
)
    requires
        rent_vault_wf(r),
        spec_claim(r, target, keeper, state, first).1 is Ok,
        state.last_maintained <= first,
        first <= second,
    ensures
        spec_claim(spec_claim(r, target, keeper, state, first).0, target, keeper2, state, second).1 is Err,
{
    let v = vault_of(r.vaults, target)->0;
    let paid = VaultView { balance: (v.balance - v.tip) as i128, last_claim: first, ..v };
    lemma_with_vault(r, target, paid);
}

/// A refused operation changes nothing.
pub proof fn lemma_vault_refusals_change_nothing(
    r: RentVaultView,
    target: Seq<u8>,
    party: Seq<u8>,
    tip: i128,
    interval: u32,
    amount: i128,
    state: MaintenanceStateView,
    ledger: u32,
)
    ensures
        spec_initialize(r, party).1 is Err ==> spec_initialize(r, party).0 == r,
        spec_open(r, target, party, tip, interval, ledger).1 is Err ==> spec_open(r, target, party, tip, interval, ledger).0
            == r,
        spec_fund(r, target, party, amount).1 is Err ==> spec_fund(r, target, party, amount).0 == r,
        spec_withdraw(r, target, party, amount).1 is Err ==> spec_withdraw(r, target, party, amount).0 == r,
        spec_set_terms(r, target, tip, interval).1 is Err ==> spec_set_terms(r, target, tip, interval).0 == r,
        spec_claim(r, target, party, state, ledger).1 is Err ==> spec_claim(r, target, party, state, ledger).0 == r,
{
}

/// Maintenance earns its tip: when a keeper runs the target's maintenance
/// after the vault's last claim, and later, at least one interval after that
/// claim, claims with the record the target then reports, the vault pays it
/// exactly the tip if the balance covers it; a bystander presenting the same
/// record is refused with `NotTheKeeper`.
pub proof fn lemma_maintenance_earns_tip(
    m: MaintenanceView,
    r: RentVaultView,
    target: Seq<u8>,
    keeper: Seq<u8>,
    bystander: Seq<u8>,
    maintained_at: u32,
    claimed_at: u32,
    max_ttl: u32,
)
    requires
        rent_vault_wf(r),
        r.token is Some,
        vault_of(r.vaults, target) is Some,
        m.extend_to <= max_ttl,
        maintained_at > vault_of(r.vaults, target)->0.last_claim,
        claimed_at >= maintained_at,
        claimed_at - vault_of(r.vaults, target)->0.last_claim >= vault_of(r.vaults, target)->0.interval,
        vault_of(r.vaults, target)->0.balance >= vault_of(r.vaults, target)->0.tip,
        bystander != keeper,
    ensures
        ({
            let m2 = spec_extend_all(m, keeper, maintained_at, max_ttl).0;
            let state = spec_lk_state(m2.state)->Ok_0;
            let v = vault_of(r.vaults, target)->0;
            &&& spec_lk_state(m2.state) is Ok
            &&& spec_claim(r, target, keeper, state, claimed_at).1 == Ok::<ClaimedView, VaultError>(
                ClaimedView { target, keeper, tip: v.tip, ledger: claimed_at },
            )
            &&& spec_claim(r, target, bystander, state, claimed_at).1 == Err::<ClaimedView, VaultError>(
                VaultError::NotTheKeeper,
            )
        }),
{
}


/// No vault's last claim is after `now`.
pub open spec fn claims_dated(s: Seq<VaultView>, now: u32) -> bool {
    forall|i: int| 0 <= i < s.len() ==> (#[trigger] s[i]).last_claim <= now
}

/// The sum of the vaults' balances.
pub open spec fn total_balance(s: Seq<VaultView>) -> int
    decreases s.len(),
{
    if s.len() == 0 {
        0
    } else {
        total_balance(s.drop_last()) + s.last().balance
    }
}

/// Replacing one vault changes the sum of balances by the difference.
pub proof fn lemma_total_update(s: Seq<VaultView>, i: int, v: VaultView)
    requires
        0 <= i < s.len(),
    ensures
        total_balance(s.update(i, v)) == total_balance(s) - s[i].balance + v.balance,
    decreases s.len(),
{
    let u = s.update(i, v);
    if i == s.len() - 1 {
        assert(u.drop_last() =~= s.drop_last());
    } else {
        assert(u.drop_last() =~= s.drop_last().update(i, v));
        lemma_total_update(s.drop_last(), i, v);
    }
}

/// Replacing `target`'s vault by a well-formed `v`, whose last claim is no
/// earlier than the old one and no later than `now2 >= now`: the contract
/// stays well formed and dated by `now2`, the sum of balances changes by the
/// balance difference, no vault disappears or appears, no other vault changes,
/// and the token stays.
pub proof fn lemma_replace_facts(r: RentVaultView, target: Seq<u8>, v: VaultView, now: u32, now2: u32)
    requires
        rent_vault_wf(r),
        has_vault(r.vaults, target),
        v.target == target,
        vault_wf(v),
        claims_dated(r.vaults, now),
        now <= now2,
        vault_of(r.vaults, target)->0.last_claim <= v.last_claim <= now2,
    ensures
        ({
            let r2 = with_vault(r, target, v);
            &&& rent_vault_wf(r2)
            &&& claims_dated(r2.vaults, now2)
            &&& total_balance(r2.vaults) == total_balance(r.vaults) - vault_of(r.vaults, target)->0.balance
                + v.balance
            &&& vault_of(r2.vaults, target) == Some(v)
            &&& forall|t: Seq<u8>| t != target ==> #[trigger] vault_of(r2.vaults, t) == vault_of(r.vaults, t)
            &&& forall|t: Seq<u8>| #[trigger] has_vault(r2.vaults, t) == has_vault(r.vaults, t)
            &&& r2.token == r.token
        }),
{
    let k = vault_slot(r.vaults, target);
    lemma_vault_slot_unique(r, target, k);
    lemma_with_vault(r, target, v);
    let r2 = with_vault(r, target, v);
    lemma_total_update(r.vaults, k, v);
    assert forall|i: int| 0 <= i < r2.vaults.len() implies (#[trigger] r2.vaults[i]).last_claim <= now2 by {
        if i != k {
            assert(r2.vaults[i] == r.vaults[i]);
        }
    }
    assert forall|t: Seq<u8>| #[trigger] has_vault(r2.vaults, t) == has_vault(r.vaults, t) by {
        if t != target {
            assert(vault_of(r2.vaults, t) == vault_of(r.vaults, t));
        }
    }
}

/// A call on the vault contract, with its arguments as the contract receives
/// them (and, for a claim, the target's maintenance record and the ledger).
pub enum VaultCall {
    Initialize { token: Seq<u8> },
    Open { target: Seq<u8>, owner: Seq<u8>, tip: i128, interval: u32, ledger: u32 },
    Fund { target: Seq<u8>, from: Seq<u8>, amount: i128 },
    Withdraw { target: Seq<u8>, to: Seq<u8>, amount: i128 },
    SetTerms { target: Seq<u8>, tip: i128, interval: u32 },
    Claim { target: Seq<u8>, keeper: Seq<u8>, state: MaintenanceStateView, ledger: u32 },
}

/// Whether the call traps on an arithmetic overflow (and so changes nothing).
pub open spec fn call_traps(r: RentVaultView, c: VaultCall) -> bool {
    match c {
        VaultCall::Fund { target, amount, .. } => !fund_defined(vault_of(r.vaults, target), amount, r.token is Some),
        VaultCall::Claim { target, keeper, state, ledger } => vault_of(r.vaults, target) matches Some(v)
            && !claim_defined(v, state, keeper, ledger, r.token is Some),
        _ => false,
    }
}

/// The vault contract after a call.
pub open spec fn apply_vault_call(r: RentVaultView, c: VaultCall) -> RentVaultView {
    if call_traps(r, c) {
        r
    } else {
        match c {
            VaultCall::Initialize { token } => spec_initialize(r, token).0,
            VaultCall::Open { target, owner, tip, interval, ledger } => spec_open(
                r,
                target,
                owner,
                tip,
                interval,
                ledger,
            ).0,
            VaultCall::Fund { target, from, amount } => spec_fund(r, target, from, amount).0,
            VaultCall::Withdraw { target, to, amount } => spec_withdraw(r, target, to, amount).0,
            VaultCall::SetTerms { target, tip, interval } => spec_set_terms(r, target, tip, interval).0,
            VaultCall::Claim { target, keeper, state, ledger } => spec_claim(r, target, keeper, state, ledger).0,
        }
    }
}

/// The tokens a call moves into the vault contract (negative: out of it):
/// a funding's amount in, a withdrawal's amount out, a claim's tip out.
pub open spec fn vault_inflow(r: RentVaultView, c: VaultCall) -> int {
    if call_traps(r, c) {
        0
    } else {
        match c {
            VaultCall::Fund { target, from, amount } => if spec_fund(r, target, from, amount).1 is Ok {
                amount as int
            } else {
                0
            },
            VaultCall::Withdraw { target, to, amount } => if spec_withdraw(r, target, to, amount).1 is Ok {
                -amount
            } else {
                0
            },
            VaultCall::Claim { target, keeper, state, ledger } => if spec_claim(
                r,
                target,
                keeper,
                state,
                ledger,
            ).1 is Ok {
                -vault_of(r.vaults, target)->0.tip
            } else {
                0
            },
            _ => 0,
        }
    }
}

/// Whether the call is an opening of a vault for `t`.
pub open spec fn opens(c: VaultCall, t: Seq<u8>) -> bool {
    c matches VaultCall::Open { target, .. } && target == t
}

/// Whether the call is a claim on `t`'s vault.
pub open spec fn claims_on(c: VaultCall, t: Seq<u8>) -> bool {
    c matches VaultCall::Claim { target, .. } && target == t
}

/// Whether the call runs at a ledger of its own (an opening or a claim).
pub open spec fn has_ledger(c: VaultCall) -> bool {
    c is Open || c is Claim
}

/// The ledger an opening or a claim runs at.
pub open spec fn ledger_of(c: VaultCall) -> u32 {
    match c {
        VaultCall::Open { ledger, .. } => ledger,
        VaultCall::Claim { ledger, .. } => ledger,
        _ => 0,
    }
}

/// One call keeps the contract well formed and dated by the current ledger;
/// the sum of balances moves by exactly the call's inflow; no vault
/// disappears, only an opening of a target adds that target's vault, and no
/// last claim goes back, nor moves at all except by a claim.
pub proof fn lemma_vault_call(r: RentVaultView, c: VaultCall, now: u32)
    requires
        rent_vault_wf(r),
        claims_dated(r.vaults, now),
        has_ledger(c) ==> now <= ledger_of(c),
    ensures
        ({
            let r2 = apply_vault_call(r, c);
            let now2 = if has_ledger(c) { ledger_of(c) } else { now };
            &&& rent_vault_wf(r2)
            &&& claims_dated(r2.vaults, now2)
            &&& total_balance(r2.vaults) == total_balance(r.vaults) + vault_inflow(r, c)
            &&& forall|t: Seq<u8>| #[trigger] has_vault(r.vaults, t) ==> has_vault(r2.vaults, t)
                && vault_of(r2.vaults, t)->0.last_claim >= vault_of(r.vaults, t)->0.last_claim && (!claims_on(c, t)
                ==> vault_of(r2.vaults, t)->0.last_claim == vault_of(r.vaults, t)->0.last_claim)
            &&& forall|t: Seq<u8>| #[trigger] has_vault(r2.vaults, t) && !has_vault(r.vaults, t) ==> opens(c, t)
            &&& r.token is Some ==> r2.token == r.token
        }),
{
    let r2 = apply_vault_call(r, c);
    if call_traps(r, c) {
        return;
    }
    match c {
        VaultCall::Initialize { token } => {},
        VaultCall::Open { target, owner, tip, interval, ledger } => {
            if spec_open(r, target, owner, tip, interval, ledger).1 is Ok {
                lemma_open_then_get(r, target, owner, tip, interval, ledger);
                let n = r.vaults.len() as int;
                let nv = VaultView { target, owner, balance: 0, tip, interval, last_claim: ledger };
                assert(r2.vaults.drop_last() =~= r.vaults);
                assert forall|i: int| 0 <= i < r2.vaults.len() implies (#[trigger] r2.vaults[i]).last_claim
                    <= ledger by {
                    if i < n {
                        assert(r2.vaults[i] == r.vaults[i]);
                    }
                }
                assert(!has_vault(r.vaults, target));
                assert forall|t: Seq<u8>| #[trigger] has_vault(r.vaults, t) implies has_vault(r2.vaults, t)
                    && vault_of(r2.vaults, t) == vault_of(r.vaults, t) by {
                    assert(t != target);
                    assert(vault_of(r2.vaults, t) == vault_of(r.vaults, t));
                }
                assert forall|t: Seq<u8>| #[trigger] has_vault(r2.vaults, t) && !has_vault(r.vaults, t)
                    implies t == target by {
                    if t != target {
                        assert(vault_of(r2.vaults, t) == vault_of(r.vaults, t));
                    }
                }
            }
        },
        VaultCall::Fund { target, from, amount } => {
            if spec_fund(r, target, from, amount).1 is Ok {
                let v = vault_of(r.vaults, target)->0;
                lemma_vault_slot_unique(r, target, vault_slot(r.vaults, target));
                let v2 = VaultView { balance: (v.balance + amount) as i128, ..v };
                lemma_replace_facts(r, target, v2, now, now);
            }
        },
        VaultCall::Withdraw { target, to, amount } => {
            if spec_withdraw(r, target, to, amount).1 is Ok {
                let v = vault_of(r.vaults, target)->0;
                lemma_vault_slot_unique(r, target, vault_slot(r.vaults, target));
                let v2 = VaultView { balance: (v.balance - amount) as i128, ..v };
                lemma_replace_facts(r, target, v2, now, now);
            }
        },
        VaultCall::SetTerms { target, tip, interval } => {
            if spec_set_terms(r, target, tip, interval).1 is Ok {
                let v = vault_of(r.vaults, target)->0;
                lemma_vault_slot_unique(r, target, vault_slot(r.vaults, target));
                let v2 = VaultView { tip, interval, ..v };
                lemma_replace_facts(r, target, v2, now, now);
            }
        },
        VaultCall::Claim { target, keeper, state, ledger } => {
            if spec_claim(r, target, keeper, state, ledger).1 is Ok {
                let v = vault_of(r.vaults, target)->0;
                let k = vault_slot(r.vaults, target);
                lemma_vault_slot_unique(r, target, k);
                assert(r.vaults[k].last_claim <= now);
                let v2 = VaultView { balance: (v.balance - v.tip) as i128, last_claim: ledger, ..v };
                lemma_replace_facts(r, target, v2, now, ledger);
            } else {
                assert forall|i: int| 0 <= i < r2.vaults.len() implies (#[trigger] r2.vaults[i]).last_claim
                    <= ledger by {
                    assert(r2.vaults[i] == r.vaults[i]);
                }
            }
        },
    }
}


/// The vault contract after a sequence of calls, in order.
pub open spec fn run_vault(r: RentVaultView, calls: Seq<VaultCall>) -> RentVaultView
    decreases calls.len(),
{
    if calls.len() == 0 {
        r
    } else {
        apply_vault_call(run_vault(r, calls.drop_last()), calls.last())
    }
}

/// The tokens a sequence of calls moves into the vault contract, net.
pub open spec fn net_inflow(r: RentVaultView, calls: Seq<VaultCall>) -> int
    decreases calls.len(),
{
    if calls.len() == 0 {
        0
    } else {
        net_inflow(r, calls.drop_last()) + vault_inflow(run_vault(r, calls.drop_last()), calls.last())
    }
}

/// The openings and claims run at ledgers that never go back, none before
/// `now`.
pub open spec fn vault_ledgers_ordered(calls: Seq<VaultCall>, now: u32) -> bool {
    forall|i: int, j: int|
        0 <= i <= j < calls.len() && has_ledger(#[trigger] calls[i]) ==> now <= ledger_of(calls[i]) && (has_ledger(
            #[trigger] calls[j],
        ) ==> ledger_of(calls[i]) <= ledger_of(calls[j]))
}

/// The current ledger after the calls: that of the last opening or claim, or
/// `now`.
pub open spec fn now_after(calls: Seq<VaultCall>, now: u32) -> u32
    decreases calls.len(),
{
    if calls.len() == 0 {
        now
    } else if has_ledger(calls.last()) {
        ledger_of(calls.last())
    } else {
        now_after(calls.drop_last(), now)
    }
}

/// A ledger no earlier than `now` and than every ledger of the calls is no
/// earlier than the current ledger after them.
pub proof fn lemma_now_after_bound(calls: Seq<VaultCall>, now: u32, l: u32)
    requires
        now <= l,
        forall|i: int| 0 <= i < calls.len() && has_ledger(#[trigger] calls[i]) ==> ledger_of(calls[i]) <= l,
    ensures
        now_after(calls, now) <= l,
    decreases calls.len(),
{
    if calls.len() > 0 {
        let init = calls.drop_last();
        assert(calls.last() == calls[calls.len() - 1]);
        assert forall|i: int| 0 <= i < init.len() && has_ledger(#[trigger] init[i]) implies ledger_of(init[i])
            <= l by {
            assert(init[i] == calls[i]);
        }
        lemma_now_after_bound(init, now, l);
    }
}

/// Over any sequence of calls whose openings and claims run at ledgers that
/// never go back: the contract stays well formed; no last claim is ever
/// after the current ledger (so a claim's `ledger - last_claim` never
/// underflows); the sum of the vaults' balances moves by exactly the tokens
/// the calls move in and out, so it keeps matching the contract's token
/// balance; no vault disappears; no last claim goes back, nor moves at all
/// without a claim on that vault; and a set token never changes.
pub proof fn lemma_run_vault(r: RentVaultView, calls: Seq<VaultCall>, now: u32)
    requires
        rent_vault_wf(r),
        claims_dated(r.vaults, now),
        vault_ledgers_ordered(calls, now),
    ensures
        ({
            let r2 = run_vault(r, calls);
            &&& rent_vault_wf(r2)
            &&& claims_dated(r2.vaults, now_after(calls, now))
            &&& total_balance(r2.vaults) == total_balance(r.vaults) + net_inflow(r, calls)
            &&& forall|t: Seq<u8>| #[trigger] has_vault(r.vaults, t) ==> has_vault(r2.vaults, t)
                && vault_of(r2.vaults, t)->0.last_claim >= vault_of(r.vaults, t)->0.last_claim && ((forall|i: int|
                0 <= i < calls.len() ==> !claims_on(#[trigger] calls[i], t)) ==> vault_of(r2.vaults, t)->0.last_claim
                == vault_of(r.vaults, t)->0.last_claim)
            &&& forall|t: Seq<u8>| #[trigger] has_vault(r2.vaults, t) && !has_vault(r.vaults, t) ==> exists|i: int|
                0 <= i < calls.len() && opens(#[trigger] calls[i], t)
            &&& r.token is Some ==> r2.token == r.token
        }),
    decreases calls.len(),
{
    if calls.len() > 0 {
        let init = calls.drop_last();
        let n = calls.len() - 1;
        let c = calls.last();
        assert(c == calls[n]);
        assert forall|i: int, j: int| 0 <= i <= j < init.len() && has_ledger(#[trigger] init[i]) implies now
            <= ledger_of(init[i]) && (has_ledger(#[trigger] init[j]) ==> ledger_of(init[i]) <= ledger_of(init[j])) by {
            assert(init[i] == calls[i] && init[j] == calls[j]);
        }
        lemma_run_vault(r, init, now);
        let w = run_vault(r, init);
        let now1 = now_after(init, now);
        if has_ledger(c) {
            assert forall|i: int| 0 <= i < init.len() && has_ledger(#[trigger] init[i]) implies ledger_of(init[i])
                <= ledger_of(c) by {
                assert(init[i] == calls[i]);
            }
            lemma_now_after_bound(init, now, ledger_of(c));
        }
        lemma_vault_call(w, c, now1);
        assert forall|t: Seq<u8>| #[trigger] has_vault(r.vaults, t) implies has_vault(run_vault(r, calls).vaults, t)
            && vault_of(run_vault(r, calls).vaults, t)->0.last_claim >= vault_of(r.vaults, t)->0.last_claim && ((
        forall|i: int| 0 <= i < calls.len() ==> !claims_on(#[trigger] calls[i], t)) ==> vault_of(
            run_vault(r, calls).vaults,
            t,
        )->0.last_claim == vault_of(r.vaults, t)->0.last_claim) by {
            assert(has_vault(w.vaults, t));
            if forall|i: int| 0 <= i < calls.len() ==> !claims_on(#[trigger] calls[i], t) {
                assert forall|i: int| 0 <= i < init.len() implies !claims_on(#[trigger] init[i], t) by {
                    assert(init[i] == calls[i]);
                }
                assert(!claims_on(calls[n], t));
            }
        }
        assert forall|t: Seq<u8>| #[trigger] has_vault(run_vault(r, calls).vaults, t) && !has_vault(r.vaults, t)
            implies exists|i: int| 0 <= i < calls.len() && opens(#[trigger] calls[i], t) by {
            if has_vault(w.vaults, t) {
                let i = choose|i: int| 0 <= i < init.len() && opens(#[trigger] init[i], t);
                assert(init[i] == calls[i]);
            } else {
                assert(opens(calls[n], t));
            }
        }
    }
}

/// At most one tip per interval and per maintenance run, across any calls in
/// between: when a claim on a vault is paid at `first`, and after any
/// sequence of calls (at ledgers that never go back) another claim on the
/// same vault is paid at `second`, then `second` is at least one interval
/// (the interval then in force) after `first`, and the record that earned
/// the second tip is of maintenance after `first`.
pub proof fn lemma_one_tip_per_interval_across_calls(
    r: RentVaultView,
    now: u32,
    target: Seq<u8>,
    keeper: Seq<u8>,
    state: MaintenanceStateView,
    first: u32,
    calls: Seq<VaultCall>,
    keeper2: Seq<u8>,
    state2: MaintenanceStateView,
    second: u32,
)
    requires
        rent_vault_wf(r),
        claims_dated(r.vaults, now),
        now <= first,
        spec_claim(r, target, keeper, state, first).1 is Ok,
        vault_ledgers_ordered(calls, first),
        now_after(calls, first) <= second,
        spec_claim(run_vault(spec_claim(r, target, keeper, state, first).0, calls), target, keeper2, state2, second).1 is Ok,
    ensures
        ({
            let r2 = run_vault(spec_claim(r, target, keeper, state, first).0, calls);
            &&& second - first >= vault_of(r2.vaults, target)->0.interval
            &&& first < second
            &&& state2.last_maintained > first
        }),
{
    let c = VaultCall::Claim { target, keeper, state, ledger: first };
    let v = vault_of(r.vaults, target)->0;
    lemma_vault_slot_unique(r, target, vault_slot(r.vaults, target));
    assert(!call_traps(r, c));
    lemma_vault_call(r, c, now);
    let r1 = spec_claim(r, target, keeper, state, first).0;
    assert(apply_vault_call(r, c) == r1);
    lemma_with_vault(r, target, VaultView { balance: (v.balance - v.tip) as i128, last_claim: first, ..v });
    assert(vault_of(r1.vaults, target)->0.last_claim == first);
    lemma_run_vault(r1, calls, first);
    let r2 = run_vault(r1, calls);
    assert(has_vault(r2.vaults, target));
    assert(vault_wf(vault_of(r2.vaults, target)->0)) by {
        lemma_vault_slot_unique(r2, target, vault_slot(r2.vaults, target));
    }
}

} // verus!

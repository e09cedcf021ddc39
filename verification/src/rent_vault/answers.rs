//! Which answer each vault request gets, over all inputs: which error comes
//! first when several apply, and what a success carries.

use vstd::prelude::*;

use crate::maintainable::MaintenanceStateView;
use crate::rent_vault::{
    has_vault, spec_claim, spec_claim_vault, spec_fund, spec_fund_vault, spec_initialize, spec_open,
    spec_open_vault, spec_set_terms, spec_set_vault_terms, spec_withdraw, spec_withdraw_vault,
    vault_of, ClaimedView, MovementView, RentVaultView, TermsEventView, TermsSetView, VaultError,
    VaultView,
};

verus! {

/// `initialize` succeeds exactly when no token is set, and then sets it.
pub proof fn lemma_initialize_answers(r: RentVaultView, token: Seq<u8>)
    ensures
        r.token is Some ==> spec_initialize(r, token) == (r, Err::<(), VaultError>(VaultError::AlreadyInitialized)),
        r.token is None ==> spec_initialize(r, token).1 is Ok && spec_initialize(r, token).0.token == Some(token)
            && spec_initialize(r, token).0.vaults == r.vaults,
{
}

/// An opening answers in this order: no token gives `NotInitialized` whatever
/// else; with a token, a target that already has a vault gives `VaultExists`
/// whatever the terms; only then do bad terms give `InvalidTerms`. A success
/// makes a vault with the opener as owner, a zero balance, the given terms,
/// and the opening ledger as its last claim.
pub proof fn lemma_open_answers(
    has_token: bool,
    exists: bool,
    target: Seq<u8>,
    owner: Seq<u8>,
    tip: i128,
    interval: u32,
    ledger: u32,
)
    ensures
        ({
            let r = spec_open_vault(has_token, exists, target, owner, tip, interval, ledger);
            &&& !has_token ==> r == Err::<(VaultView, TermsEventView), VaultError>(VaultError::NotInitialized)
            &&& has_token && exists ==> r == Err::<(VaultView, TermsEventView), VaultError>(VaultError::VaultExists)
            &&& has_token && !exists && (tip <= 0 || interval == 0) ==> r == Err::<
                (VaultView, TermsEventView),
                VaultError,
            >(VaultError::InvalidTerms)
            &&& (r is Ok <==> has_token && !exists && tip > 0 && interval > 0)
            &&& r is Ok ==> r->Ok_0.0 == VaultView { target, owner, balance: 0, tip, interval, last_claim: ledger }
                && r->Ok_0.1 == TermsEventView { target, owner, tip, interval }
        }),
{
}

/// On the whole contract: with the token set, opening a target that already
/// has a vault is refused with `VaultExists` whatever the terms, and changes
/// nothing.
pub proof fn lemma_open_existing(
    r: RentVaultView,
    target: Seq<u8>,
    owner: Seq<u8>,
    tip: i128,
    interval: u32,
    ledger: u32,
)
    requires
        r.token is Some,
        has_vault(r.vaults, target),
    ensures
        spec_open(r, target, owner, tip, interval, ledger) == (r, Err::<TermsEventView, VaultError>(
            VaultError::VaultExists,
        )),
{
}

/// A funding answers in this order: no vault gives `VaultMissing`, a
/// non-positive amount gives `InvalidAmount` whatever the token, no token
/// gives `NotInitialized`. A success only ever adds a positive amount to the
/// balance and changes nothing else of the vault.
pub proof fn lemma_fund_answers(
    target: Seq<u8>,
    vault: Option<VaultView>,
    from: Seq<u8>,
    amount: i128,
    has_token: bool,
)
    ensures
        ({
            let r = spec_fund_vault(target, vault, from, amount, has_token);
            &&& vault is None ==> r == Err::<(VaultView, MovementView), VaultError>(VaultError::VaultMissing)
            &&& vault is Some && amount <= 0 ==> r == Err::<(VaultView, MovementView), VaultError>(
                VaultError::InvalidAmount,
            )
            &&& vault is Some && amount > 0 && !has_token ==> r == Err::<(VaultView, MovementView), VaultError>(
                VaultError::NotInitialized,
            )
            &&& (r is Ok <==> vault is Some && amount > 0 && has_token)
            &&& r is Ok && vault->0.balance + amount <= i128::MAX ==> {
                let (v2, ev) = r->Ok_0;
                &&& v2 == VaultView { balance: (vault->0.balance + amount) as i128, ..vault->0 }
                &&& v2.balance == vault->0.balance + amount
                &&& ev.amount == amount && ev.amount > 0 && ev.balance == v2.balance
                &&& ev.party == from && ev.target == target
            }
        }),
{
}

/// A withdrawal from a present vault answers in this order: a non-positive
/// amount gives `InvalidAmount` whatever the balance and token, an amount
/// above the balance gives `InsufficientBalance`, no token gives
/// `NotInitialized`. A success takes a positive amount no larger than the
/// balance, so the balance stays non-negative, and changes nothing else.
pub proof fn lemma_withdraw_answers(target: Seq<u8>, v: VaultView, to: Seq<u8>, amount: i128, has_token: bool)
    ensures
        ({
            let r = spec_withdraw_vault(target, v, to, amount, has_token);
            &&& amount <= 0 ==> r == Err::<(VaultView, MovementView), VaultError>(VaultError::InvalidAmount)
            &&& amount > 0 && v.balance < amount ==> r == Err::<(VaultView, MovementView), VaultError>(
                VaultError::InsufficientBalance,
            )
            &&& amount > 0 && v.balance >= amount && !has_token ==> r == Err::<(VaultView, MovementView), VaultError>(
                VaultError::NotInitialized,
            )
            &&& (r is Ok <==> 0 < amount <= v.balance && has_token)
            &&& r is Ok ==> {
                let (v2, ev) = r->Ok_0;
                &&& v2 == VaultView { balance: (v.balance - amount) as i128, ..v }
                &&& v2.balance == v.balance - amount && v2.balance >= 0
                &&& ev.amount == amount && ev.amount > 0 && ev.balance == v2.balance
                &&& ev.party == to && ev.target == target
            }
        }),
{
}

/// On the whole contract: a withdrawal, a funding, a change of terms and a
/// claim on a target with no vault are refused with `VaultMissing`, whatever
/// else is asked; and a withdrawal or funding succeeds only for a positive
/// amount.
pub proof fn lemma_missing_vault_answers(
    r: RentVaultView,
    target: Seq<u8>,
    party: Seq<u8>,
    amount: i128,
    tip: i128,
    interval: u32,
    state: MaintenanceStateView,
    ledger: u32,
)
    ensures
        !has_vault(r.vaults, target) ==> spec_withdraw(r, target, party, amount) == (r, Err::<
            MovementView,
            VaultError,
        >(VaultError::VaultMissing)),
        !has_vault(r.vaults, target) ==> spec_fund(r, target, party, amount) == (r, Err::<MovementView, VaultError>(
            VaultError::VaultMissing,
        )),
        !has_vault(r.vaults, target) ==> spec_set_terms(r, target, tip, interval) == (r, Err::<
            TermsSetView,
            VaultError,
        >(VaultError::VaultMissing)),
        !has_vault(r.vaults, target) ==> spec_claim(r, target, party, state, ledger) == (r, Err::<
            ClaimedView,
            VaultError,
        >(VaultError::VaultMissing)),
        spec_withdraw(r, target, party, amount).1 is Ok ==> amount > 0 && amount <= vault_of(
            r.vaults,
            target,
        )->0.balance,
        spec_fund(r, target, party, amount).1 is Ok ==> amount > 0,
        has_vault(r.vaults, target) && amount <= 0 ==> spec_withdraw(r, target, party, amount).1 == Err::<
            MovementView,
            VaultError,
        >(VaultError::InvalidAmount),
        has_vault(r.vaults, target) && amount <= 0 ==> spec_fund(r, target, party, amount).1 == Err::<
            MovementView,
            VaultError,
        >(VaultError::InvalidAmount),
{
}

/// A change of terms succeeds exactly for valid terms, and then changes only
/// the tip and the interval.
pub proof fn lemma_set_terms_answers(target: Seq<u8>, v: VaultView, tip: i128, interval: u32)
    ensures
        ({
            let r = spec_set_vault_terms(target, v, tip, interval);
            &&& (tip <= 0 || interval == 0) ==> r == Err::<(VaultView, TermsSetView), VaultError>(
                VaultError::InvalidTerms,
            )
            &&& (r is Ok <==> tip > 0 && interval > 0)
            &&& r is Ok ==> r->Ok_0.0 == VaultView { tip, interval, ..v } && r->Ok_0.1 == TermsSetView {
                target,
                tip,
                interval,
            }
        }),
{
}

/// A claim answers in this order: a record naming someone else gives
/// `NotTheKeeper` whatever else; a record naming the claimant but no newer
/// than the last claim gives `NoMaintenance`; a fresh record less than one
/// interval after the last claim gives `TooSoon` whatever the balance and
/// token; then a balance below the tip gives `InsufficientBalance` whatever
/// the token; then no token gives `NotInitialized`. A success pays exactly
/// the tip, takes it from the balance, restarts the clock at the claim's
/// ledger and changes nothing else.
pub proof fn lemma_claim_answers(
    target: Seq<u8>,
    v: VaultView,
    state: MaintenanceStateView,
    keeper: Seq<u8>,
    ledger: u32,
    has_token: bool,
)
    requires
        ledger >= v.last_claim,
    ensures
        ({
            let r = spec_claim_vault(target, v, state, keeper, ledger, has_token);
            let named = state.last_keeper == keeper;
            let fresh = state.last_maintained > v.last_claim;
            let due = ledger - v.last_claim >= v.interval;
            let covered = v.balance >= v.tip;
            &&& !named ==> r == Err::<(VaultView, ClaimedView), VaultError>(VaultError::NotTheKeeper)
            &&& named && !fresh ==> r == Err::<(VaultView, ClaimedView), VaultError>(VaultError::NoMaintenance)
            &&& named && fresh && !due ==> r == Err::<(VaultView, ClaimedView), VaultError>(VaultError::TooSoon)
            &&& named && fresh && due && !covered ==> r == Err::<(VaultView, ClaimedView), VaultError>(
                VaultError::InsufficientBalance,
            )
            &&& named && fresh && due && covered && !has_token ==> r == Err::<(VaultView, ClaimedView), VaultError>(
                VaultError::NotInitialized,
            )
            &&& (r is Ok <==> named && fresh && due && covered && has_token)
            &&& r is Ok ==> r->Ok_0.0 == VaultView {
                balance: (v.balance - v.tip) as i128,
                last_claim: ledger,
                ..v
            } && r->Ok_0.1 == ClaimedView { target, keeper, tip: v.tip, ledger }
        }),
{
}

} // verus!

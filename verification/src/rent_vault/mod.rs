//! The rent vault.
//!
//! A protocol pre-funds a vault for a maintenance target; the vault pays a
//! fixed tip to whoever maintained the target, at most once per interval.
//!
//! The vault cannot tell whether an extension was necessary. It confirms only
//! that maintenance occurred and who did it, from the target's maintenance
//! record, under three conditions:
//!
//! 1. the record's ledger is after the vault's last claim (work happened since
//!    the last payout);
//! 2. the record names the claimant (no bystander collects someone else's
//!    work);
//! 3. at least `interval` ledgers passed since the last claim (one tip per
//!    window).
//!
//! Amounts are `i128` stroops. Token transfers, the target's record and all
//! authorizations are the host's; this module decides.

use vstd::prelude::*;

use crate::address::Address;
use crate::maintainable::{MaintenanceState, MaintenanceStateView};
use crate::{option_view, result_view};

pub mod answers;
pub mod laws;

verus! {

/// Rent vault errors.
#[derive(Clone, Copy, Debug, PartialEq, Eq, Structural, PartialOrd, Ord)]
pub enum VaultError {
    /// `initialize` was called after the token was already set.
    AlreadyInitialized,
    /// An operation needs the tip token, but `initialize` has not run.
    NotInitialized,
    /// `open` was called for a target that already has a vault.
    VaultExists,
    /// The referenced vault does not exist.
    VaultMissing,
    /// `tip <= 0` or `interval == 0`.
    InvalidTerms,
    /// A funding or withdrawal amount was not positive.
    InvalidAmount,
    /// The vault balance is below the requested or required amount.
    InsufficientBalance,
    /// The claimant is not the address recorded as the last keeper.
    NotTheKeeper,
    /// No maintenance has occurred since the last claim.
    NoMaintenance,
    /// The interval since the last claim has not elapsed.
    TooSoon,
}

impl VaultError {
    /// The permanent numeric code of this error.
    pub open spec fn spec_code(self) -> u32 {
        match self {
            VaultError::AlreadyInitialized => 201,
            VaultError::NotInitialized => 202,
            VaultError::VaultExists => 203,
            VaultError::VaultMissing => 204,
            VaultError::InvalidTerms => 205,
            VaultError::InvalidAmount => 206,
            VaultError::InsufficientBalance => 207,
            VaultError::NotTheKeeper => 208,
            VaultError::NoMaintenance => 209,
            VaultError::TooSoon => 210,
        }
    }

    /// The permanent numeric code of this error.
    pub fn code(&self) -> (r: u32)
        ensures
            r == self.spec_code(),
    {
        match self {
            VaultError::AlreadyInitialized => 201,
            VaultError::NotInitialized => 202,
            VaultError::VaultExists => 203,
            VaultError::VaultMissing => 204,
            VaultError::InvalidTerms => 205,
            VaultError::InvalidAmount => 206,
            VaultError::InsufficientBalance => 207,
            VaultError::NotTheKeeper => 208,
            VaultError::NoMaintenance => 209,
            VaultError::TooSoon => 210,
        }
    }
}

/// Abstract value of a [`VaultState`].
pub struct VaultView {
    pub target: Seq<u8>,
    pub owner: Seq<u8>,
    pub balance: i128,
    pub tip: i128,
    pub interval: u32,
    pub last_claim: u32,
}

/// One vault: a pre-funded balance and the terms for paying keepers.
pub struct VaultState {
    pub target: Address,
    pub owner: Address,
    pub balance: i128,
    pub tip: i128,
    pub interval: u32,
    pub last_claim: u32,
}

impl View for VaultState {
    type V = VaultView;

    open spec fn view(&self) -> VaultView {
        VaultView {
            target: self.target@,
            owner: self.owner@,
            balance: self.balance,
            tip: self.tip,
            interval: self.interval,
            last_claim: self.last_claim,
        }
    }
}

impl VaultState {
    /// An independent copy of this vault.
    pub fn copy(&self) -> (r: VaultState)
        ensures
            r@ == self@,
    {
        VaultState {
            target: self.target.copy(),
            owner: self.owner.copy(),
            balance: self.balance,
            tip: self.tip,
            interval: self.interval,
            last_claim: self.last_claim,
        }
    }
}

/// Abstract value of an [`Opened`] or [`TermsSet`] event.
pub struct TermsEventView {
    pub target: Seq<u8>,
    pub owner: Seq<u8>,
    pub tip: i128,
    pub interval: u32,
}

/// Event of a vault opening.
pub struct Opened {
    pub target: Address,
    pub owner: Address,
    pub tip: i128,
    pub interval: u32,
}

impl View for Opened {
    type V = TermsEventView;

    open spec fn view(&self) -> TermsEventView {
        TermsEventView { target: self.target@, owner: self.owner@, tip: self.tip, interval: self.interval }
    }
}

/// Abstract value of a [`TermsSet`] event.
pub struct TermsSetView {
    pub target: Seq<u8>,
    pub tip: i128,
    pub interval: u32,
}

/// Event of a change of terms.
pub struct TermsSet {
    pub target: Address,
    pub tip: i128,
    pub interval: u32,
}

impl View for TermsSet {
    type V = TermsSetView;

    open spec fn view(&self) -> TermsSetView {
        TermsSetView { target: self.target@, tip: self.tip, interval: self.interval }
    }
}

/// Abstract value of a [`Funded`] or [`Withdrawn`] event.
pub struct MovementView {
    pub target: Seq<u8>,
    pub party: Seq<u8>,
    pub amount: i128,
    pub balance: i128,
}

/// Event of a funding: `from` paid `amount`, leaving `balance`.
pub struct Funded {
    pub target: Address,
    pub from: Address,
    pub amount: i128,
    pub balance: i128,
}

impl View for Funded {
    type V = MovementView;

    open spec fn view(&self) -> MovementView {
        MovementView { target: self.target@, party: self.from@, amount: self.amount, balance: self.balance }
    }
}

/// Event of a withdrawal: `amount` went to `to`, leaving `balance`.
pub struct Withdrawn {
    pub target: Address,
    pub to: Address,
    pub amount: i128,
    pub balance: i128,
}

impl View for Withdrawn {
    type V = MovementView;

    open spec fn view(&self) -> MovementView {
        MovementView { target: self.target@, party: self.to@, amount: self.amount, balance: self.balance }
    }
}

/// Abstract value of a [`Claimed`] event.
pub struct ClaimedView {
    pub target: Seq<u8>,
    pub keeper: Seq<u8>,
    pub tip: i128,
    pub ledger: u32,
}

/// Event of a payout: `keeper` was paid `tip` at `ledger`.
pub struct Claimed {
    pub target: Address,
    pub keeper: Address,
    pub tip: i128,
    pub ledger: u32,
}

impl View for Claimed {
    type V = ClaimedView;

    open spec fn view(&self) -> ClaimedView {
        ClaimedView { target: self.target@, keeper: self.keeper@, tip: self.tip, ledger: self.ledger }
    }
}

// ---------------------------------------------------------------------------
// The steps, over the stored values each operation reads.
/// Terms a vault may have: a positive tip and a nonzero interval.
pub open spec fn terms_valid(tip: i128, interval: u32) -> bool {
    tip > 0 && interval != 0
}

/// The decision of `initialize`, given whether the token is already set.
pub fn check_initialize(has_token: bool) -> (r: Result<(), VaultError>)
    ensures
        r == if has_token {
            Err(VaultError::AlreadyInitialized)
        } else {
            Ok(())
        },
{
    if has_token {
        Err(VaultError::AlreadyInitialized)
    } else {
        Ok(())
    }
}

/// The vault an opening stores and the event it emits, or why it is refused:
/// `NotInitialized`, `VaultExists`, `InvalidTerms`, in that order. The first
/// claim waits a full interval from the opening ledger.
pub open spec fn spec_open_vault(
    has_token: bool,
    exists: bool,
    target: Seq<u8>,
    owner: Seq<u8>,
    tip: i128,
    interval: u32,
    ledger: u32,
) -> Result<(VaultView, TermsEventView), VaultError> {
    if !has_token {
        Err(VaultError::NotInitialized)
    } else if exists {
        Err(VaultError::VaultExists)
    } else if !terms_valid(tip, interval) {
        Err(VaultError::InvalidTerms)
    } else {
        Ok(
            (
                VaultView { target, owner, balance: 0, tip, interval, last_claim: ledger },
                TermsEventView { target, owner, tip, interval },
            ),
        )
    }
}

/// The decision of an opening at `ledger`, given whether the token is set and
/// whether `target` already has a vault.
pub fn open_vault(
    has_token: bool,
    exists: bool,
    target: Address,
    owner: Address,
    tip: i128,
    interval: u32,
    ledger: u32,
) -> (r: Result<(VaultState, Opened), VaultError>)
    ensures
        match r {
            Ok((v, ev)) => spec_open_vault(has_token, exists, target@, owner@, tip, interval, ledger)
                == Ok::<(VaultView, TermsEventView), VaultError>((v@, ev@)),
            Err(e) => spec_open_vault(has_token, exists, target@, owner@, tip, interval, ledger)
                == Err::<(VaultView, TermsEventView), VaultError>(e),
        },
{
    if !has_token {
        return Err(VaultError::NotInitialized);
    }
    if exists {
        return Err(VaultError::VaultExists);
    }
    if tip <= 0 || interval == 0 {
        return Err(VaultError::InvalidTerms);
    }
    let ev = Opened { target: target.copy(), owner: owner.copy(), tip, interval };
    Ok((VaultState { target, owner, balance: 0, tip, interval, last_claim: ledger }, ev))
}

/// The stored vault, or `VaultMissing`.
pub open spec fn spec_require_vault(vault: Option<VaultView>) -> Result<VaultView, VaultError> {
    match vault {
        Some(v) => Ok(v),
        None => Err(VaultError::VaultMissing),
    }
}

/// The stored vault, or `VaultMissing` when the target has none.
pub fn require_vault(vault: Option<VaultState>) -> (r: Result<VaultState, VaultError>)
    ensures
        result_view(r) == spec_require_vault(option_view(vault)),
{
    match vault {
        Some(v) => Ok(v),
        None => Err(VaultError::VaultMissing),
    }
}

/// The inputs on which a funding runs to its end without an arithmetic
/// overflow: when the vault exists, the amount is positive and the token is
/// set, the new balance fits.
pub open spec fn fund_defined(vault: Option<VaultView>, amount: i128, has_token: bool) -> bool {
    vault matches Some(v) ==> (amount > 0 && has_token ==> v.balance + amount <= i128::MAX)
}

/// The inputs on which a claim runs to its end without an arithmetic
/// overflow: once the keeper and maintenance checks pass, the ledger is not
/// before the last claim, and once every check passes, the balance less the
/// tip fits.
pub open spec fn claim_defined(
    v: VaultView,
    state: MaintenanceStateView,
    keeper: Seq<u8>,
    ledger: u32,
    has_token: bool,
) -> bool {
    state.last_keeper == keeper && state.last_maintained > v.last_claim ==> {
        &&& ledger >= v.last_claim
        &&& ledger - v.last_claim >= v.interval && v.balance >= v.tip && has_token ==> v.balance - v.tip
            <= i128::MAX
    }
}

/// Whether a funding runs to its end without an overflow, checked at run
/// time.
pub fn fund_is_defined(vault: &Option<VaultState>, amount: i128, has_token: bool) -> (b: bool)
    ensures
        b == fund_defined(option_view(*vault), amount, has_token),
{
    match vault {
        Some(v) => !(amount > 0 && has_token) || v.balance <= i128::MAX - amount,
        None => true,
    }
}

/// Whether a claim runs to its end without an overflow, checked at run time.
pub fn claim_is_defined(
    vault: &VaultState,
    state: &MaintenanceState,
    keeper: &Address,
    ledger: u32,
    has_token: bool,
) -> (b: bool)
    ensures
        b == claim_defined(vault@, state@, keeper@, ledger, has_token),
{
    if !(state.last_keeper.same(keeper) && state.last_maintained > vault.last_claim) {
        return true;
    }
    if ledger < vault.last_claim {
        return false;
    }
    if ledger - vault.last_claim >= vault.interval && vault.balance >= vault.tip && has_token {
        vault.tip >= 0 || vault.balance <= i128::MAX + vault.tip
    } else {
        true
    }
}

/// Who must authorize an opening: the vault's future owner.
pub fn open_authorizer(owner: &Address) -> (a: Address)
    ensures
        a@ == owner@,
{
    owner.copy()
}

/// Who must authorize a funding: the funder, who need not own the vault.
pub fn fund_authorizer(from: &Address) -> (a: Address)
    ensures
        a@ == from@,
{
    from.copy()
}

/// Who must authorize a withdrawal or a change of terms: the stored vault's
/// owner.
pub fn owner_authorizer(vault: &VaultState) -> (a: Address)
    ensures
        a@ == vault@.owner,
{
    vault.owner.copy()
}

/// Who must authorize a claim: the claimant.
pub fn claim_authorizer(keeper: &Address) -> (a: Address)
    ensures
        a@ == keeper@,
{
    keeper.copy()
}

/// The vault after a funding of `amount` by `from` and the event, or why it
/// is refused: `VaultMissing`, `InvalidAmount`, `NotInitialized`, in that
/// order. The funds arrive before the balance records them.
pub open spec fn spec_fund_vault(
    target: Seq<u8>,
    vault: Option<VaultView>,
    from: Seq<u8>,
    amount: i128,
    has_token: bool,
) -> Result<(VaultView, MovementView), VaultError> {
    match vault {
        None => Err(VaultError::VaultMissing),
        Some(v) => if amount <= 0 {
            Err(VaultError::InvalidAmount)
        } else if !has_token {
            Err(VaultError::NotInitialized)
        } else {
            let balance = (v.balance + amount) as i128;
            Ok(
                (
                    VaultView { balance, ..v },
                    MovementView { target, party: from, amount, balance },
                ),
            )
        },
    }
}

/// The decision of a funding, given the stored vault and token. On success
/// the host transfers `amount` of the returned token from `from` to the vault
/// contract, then stores the vault.
pub fn fund_vault(
    target: &Address,
    vault: Option<VaultState>,
    from: &Address,
    amount: i128,
    token: Option<Address>,
) -> (r: Result<(VaultState, Address, Funded), VaultError>)
    requires
        fund_defined(option_view(vault), amount, token is Some),
    ensures
        match r {
            Ok((v, t, ev)) => spec_fund_vault(target@, option_view(vault), from@, amount, token is Some)
                == Ok::<(VaultView, MovementView), VaultError>((v@, ev@)) && token == Some(t),
            Err(e) => spec_fund_vault(target@, option_view(vault), from@, amount, token is Some) == Err::<
                (VaultView, MovementView),
                VaultError,
            >(e),
        },
{
    let mut v = match vault {
        Some(v) => v,
        None => return Err(VaultError::VaultMissing),
    };
    if amount <= 0 {
        return Err(VaultError::InvalidAmount);
    }
    let t = match token {
        Some(t) => t,
        None => return Err(VaultError::NotInitialized),
    };
    v.balance = v.balance + amount;
    let ev = Funded { target: target.copy(), from: from.copy(), amount, balance: v.balance };
    Ok((v, t, ev))
}

/// The vault after a withdrawal of `amount` to `to` and the event, or why it
/// is refused: `InvalidAmount`, `InsufficientBalance`, `NotInitialized`, in
/// that order.
pub open spec fn spec_withdraw_vault(
    target: Seq<u8>,
    v: VaultView,
    to: Seq<u8>,
    amount: i128,
    has_token: bool,
) -> Result<(VaultView, MovementView), VaultError> {
    if amount <= 0 {
        Err(VaultError::InvalidAmount)
    } else if v.balance < amount {
        Err(VaultError::InsufficientBalance)
    } else if !has_token {
        Err(VaultError::NotInitialized)
    } else {
        let balance = (v.balance - amount) as i128;
        Ok((VaultView { balance, ..v }, MovementView { target, party: to, amount, balance }))
    }
}

/// The decision of a withdrawal from a present vault, after its owner has
/// authorized it. On success the host stores the vault, then transfers
/// `amount` of the returned token from the vault contract to `to`.
pub fn withdraw_vault(target: &Address, vault: VaultState, to: &Address, amount: i128, token: Option<Address>) -> (r:
    Result<(VaultState, Address, Withdrawn), VaultError>)
    ensures
        match r {
            Ok((v, t, ev)) => spec_withdraw_vault(target@, vault@, to@, amount, token is Some) == Ok::<
                (VaultView, MovementView),
                VaultError,
            >((v@, ev@)) && token == Some(t),
            Err(e) => spec_withdraw_vault(target@, vault@, to@, amount, token is Some) == Err::<
                (VaultView, MovementView),
                VaultError,
            >(e),
        },
{
    let mut v = vault;
    if amount <= 0 {
        return Err(VaultError::InvalidAmount);
    }
    if v.balance < amount {
        return Err(VaultError::InsufficientBalance);
    }
    let t = match token {
        Some(t) => t,
        None => return Err(VaultError::NotInitialized),
    };
    v.balance = v.balance - amount;
    let ev = Withdrawn { target: target.copy(), to: to.copy(), amount, balance: v.balance };
    Ok((v, t, ev))
}

/// The vault after a change of terms and the event, or `InvalidTerms`.
pub open spec fn spec_set_vault_terms(target: Seq<u8>, v: VaultView, tip: i128, interval: u32) -> Result<
    (VaultView, TermsSetView),
    VaultError,
> {
    if !terms_valid(tip, interval) {
        Err(VaultError::InvalidTerms)
    } else {
        Ok((VaultView { tip, interval, ..v }, TermsSetView { target, tip, interval }))
    }
}

/// The decision of a change of terms on a present vault, after its owner has
/// authorized it.
pub fn set_vault_terms(target: &Address, vault: VaultState, tip: i128, interval: u32) -> (r: Result<
    (VaultState, TermsSet),
    VaultError,
>)
    ensures
        match r {
            Ok((v, ev)) => spec_set_vault_terms(target@, vault@, tip, interval) == Ok::<
                (VaultView, TermsSetView),
                VaultError,
            >((v@, ev@)),
            Err(e) => spec_set_vault_terms(target@, vault@, tip, interval) == Err::<
                (VaultView, TermsSetView),
                VaultError,
            >(e),
        },
{
    let mut v = vault;
    if tip <= 0 || interval == 0 {
        return Err(VaultError::InvalidTerms);
    }
    v.tip = tip;
    v.interval = interval;
    Ok((v, TermsSet { target: target.copy(), tip, interval }))
}

/// The vault after paying `keeper` at `ledger` and the event, or why it is
/// refused: `NotTheKeeper`, `NoMaintenance`, `TooSoon`, `InsufficientBalance`,
/// `NotInitialized`, in that order. The interval clock restarts at the payout
/// ledger, not at the maintenance ledger.
pub open spec fn spec_claim_vault(
    target: Seq<u8>,
    v: VaultView,
    state: MaintenanceStateView,
    keeper: Seq<u8>,
    ledger: u32,
    has_token: bool,
) -> Result<(VaultView, ClaimedView), VaultError> {
    if state.last_keeper != keeper {
        Err(VaultError::NotTheKeeper)
    } else if state.last_maintained <= v.last_claim {
        Err(VaultError::NoMaintenance)
    } else if ledger - v.last_claim < v.interval {
        Err(VaultError::TooSoon)
    } else if v.balance < v.tip {
        Err(VaultError::InsufficientBalance)
    } else if !has_token {
        Err(VaultError::NotInitialized)
    } else {
        Ok(
            (
                VaultView { balance: (v.balance - v.tip) as i128, last_claim: ledger, ..v },
                ClaimedView { target, keeper, tip: v.tip, ledger },
            ),
        )
    }
}

/// The decision of a claim on a present vault at `ledger`, given the target's
/// maintenance record, after `keeper` has authorized it. On success the host
/// stores the vault, then transfers the tip of the returned token from the
/// vault contract to `keeper`.
pub fn claim_vault(
    target: &Address,
    vault: VaultState,
    state: &MaintenanceState,
    keeper: &Address,
    ledger: u32,
    token: Option<Address>,
) -> (r: Result<(VaultState, Address, Claimed), VaultError>)
    requires
        claim_defined(vault@, state@, keeper@, ledger, token is Some),
    ensures
        match r {
            Ok((v, t, ev)) => spec_claim_vault(target@, vault@, state@, keeper@, ledger, token is Some)
                == Ok::<(VaultView, ClaimedView), VaultError>((v@, ev@)) && token == Some(t),
            Err(e) => spec_claim_vault(target@, vault@, state@, keeper@, ledger, token is Some) == Err::<
                (VaultView, ClaimedView),
                VaultError,
            >(e),
        },
{
    let mut v = vault;
    if !state.last_keeper.same(keeper) {
        return Err(VaultError::NotTheKeeper);
    }
    if state.last_maintained <= v.last_claim {
        return Err(VaultError::NoMaintenance);
    }
    if ledger - v.last_claim < v.interval {
        return Err(VaultError::TooSoon);
    }
    if v.balance < v.tip {
        return Err(VaultError::InsufficientBalance);
    }
    let t = match token {
        Some(t) => t,
        None => return Err(VaultError::NotInitialized),
    };
    let tip = v.tip;
    v.balance = v.balance - tip;
    v.last_claim = ledger;
    Ok((v, t, Claimed { target: target.copy(), keeper: keeper.copy(), tip, ledger }))
}


// ---------------------------------------------------------------------------
// The whole vault contract.
/// Whether `s` holds a vault for `target`.
pub open spec fn has_vault(s: Seq<VaultView>, target: Seq<u8>) -> bool {
    exists|i: int| 0 <= i < s.len() && (#[trigger] s[i]).target == target
}

/// The position of `target`'s vault in `s`, when it has one.
pub open spec fn vault_slot(s: Seq<VaultView>, target: Seq<u8>) -> int {
    choose|i: int| 0 <= i < s.len() && (#[trigger] s[i]).target == target
}

/// `target`'s vault in `s`, if any.
pub open spec fn vault_of(s: Seq<VaultView>, target: Seq<u8>) -> Option<VaultView> {
    if has_vault(s, target) {
        Some(s[vault_slot(s, target)])
    } else {
        None
    }
}

/// What every stored vault satisfies: a balance that is never negative, and
/// valid terms.
pub open spec fn vault_wf(v: VaultView) -> bool {
    v.balance >= 0 && terms_valid(v.tip, v.interval)
}

/// Abstract value of a [`RentVault`].
pub struct RentVaultView {
    pub token: Option<Seq<u8>>,
    pub vaults: Seq<VaultView>,
}

/// What every reachable vault contract satisfies: at most one vault per
/// target, every vault well formed, and no vault without a tip token.
pub open spec fn rent_vault_wf(r: RentVaultView) -> bool {
    &&& forall|i: int, j: int|
        0 <= i < r.vaults.len() && 0 <= j < r.vaults.len() && i != j ==> (#[trigger] r.vaults[i]).target
            != (#[trigger] r.vaults[j]).target
    &&& forall|i: int| 0 <= i < r.vaults.len() ==> vault_wf(#[trigger] r.vaults[i])
    &&& r.vaults.len() > 0 ==> r.token is Some
}

/// `initialize`: the token is set once and never changes.
pub open spec fn spec_initialize(r: RentVaultView, token: Seq<u8>) -> (RentVaultView, Result<(), VaultError>) {
    if r.token is Some {
        (r, Err(VaultError::AlreadyInitialized))
    } else {
        (RentVaultView { token: Some(token), ..r }, Ok(()))
    }
}

/// `open`: a new vault with a zero balance, or the state unchanged.
pub open spec fn spec_open(
    r: RentVaultView,
    target: Seq<u8>,
    owner: Seq<u8>,
    tip: i128,
    interval: u32,
    ledger: u32,
) -> (RentVaultView, Result<TermsEventView, VaultError>) {
    match spec_open_vault(r.token is Some, has_vault(r.vaults, target), target, owner, tip, interval, ledger) {
        Ok((v, ev)) => (RentVaultView { vaults: r.vaults.push(v), ..r }, Ok(ev)),
        Err(e) => (r, Err(e)),
    }
}

/// `target`'s vault replaced by `v`.
pub open spec fn with_vault(r: RentVaultView, target: Seq<u8>, v: VaultView) -> RentVaultView {
    RentVaultView { vaults: r.vaults.update(vault_slot(r.vaults, target), v), ..r }
}

/// `fund`: the balance grows by the amount, or the state is unchanged.
pub open spec fn spec_fund(r: RentVaultView, target: Seq<u8>, from: Seq<u8>, amount: i128) -> (
    RentVaultView,
    Result<MovementView, VaultError>,
) {
    match spec_fund_vault(target, vault_of(r.vaults, target), from, amount, r.token is Some) {
        Ok((v, ev)) => (with_vault(r, target, v), Ok(ev)),
        Err(e) => (r, Err(e)),
    }
}

/// `withdraw`: the balance shrinks by the amount, or the state is unchanged.
pub open spec fn spec_withdraw(r: RentVaultView, target: Seq<u8>, to: Seq<u8>, amount: i128) -> (
    RentVaultView,
    Result<MovementView, VaultError>,
) {
    match spec_require_vault(vault_of(r.vaults, target)) {
        Err(e) => (r, Err(e)),
        Ok(old) => match spec_withdraw_vault(target, old, to, amount, r.token is Some) {
            Ok((v, ev)) => (with_vault(r, target, v), Ok(ev)),
            Err(e) => (r, Err(e)),
        },
    }
}

/// `set_terms`: new tip and interval, or the state is unchanged.
pub open spec fn spec_set_terms(r: RentVaultView, target: Seq<u8>, tip: i128, interval: u32) -> (
    RentVaultView,
    Result<TermsSetView, VaultError>,
) {
    match spec_require_vault(vault_of(r.vaults, target)) {
        Err(e) => (r, Err(e)),
        Ok(old) => match spec_set_vault_terms(target, old, tip, interval) {
            Ok((v, ev)) => (with_vault(r, target, v), Ok(ev)),
            Err(e) => (r, Err(e)),
        },
    }
}

/// `claim`: one tip paid and the clock restarted, or the state is unchanged.
pub open spec fn spec_claim(
    r: RentVaultView,
    target: Seq<u8>,
    keeper: Seq<u8>,
    state: MaintenanceStateView,
    ledger: u32,
) -> (RentVaultView, Result<ClaimedView, VaultError>) {
    match spec_require_vault(vault_of(r.vaults, target)) {
        Err(e) => (r, Err(e)),
        Ok(old) => match spec_claim_vault(target, old, state, keeper, ledger, r.token is Some) {
            Ok((v, ev)) => (with_vault(r, target, v), Ok(ev)),
            Err(e) => (r, Err(e)),
        },
    }
}

/// The abstract values of a list of vaults.
pub open spec fn vaults_view(s: Seq<VaultState>) -> Seq<VaultView> {
    s.map_values(|v: VaultState| v@)
}

/// The vault contract: its tip token, once set, and one vault per target.
pub struct RentVault {
    token: Option<Address>,
    vaults: Vec<VaultState>,
}

impl View for RentVault {
    type V = RentVaultView;

    closed spec fn view(&self) -> RentVaultView {
        RentVaultView { token: option_view(self.token), vaults: vaults_view(self.vaults@) }
    }
}

/// With distinct targets, a position holding `target` is its slot.
pub proof fn lemma_vault_slot_unique(r: RentVaultView, target: Seq<u8>, i: int)
    requires
        rent_vault_wf(r),
        0 <= i < r.vaults.len(),
        r.vaults[i].target == target,
    ensures
        has_vault(r.vaults, target),
        vault_slot(r.vaults, target) == i,
        vault_of(r.vaults, target) == Some(r.vaults[i]),
{
    assert(has_vault(r.vaults, target));
    let j = vault_slot(r.vaults, target);
    if j != i {
        assert(r.vaults[j].target != r.vaults[i].target);
    }
}

/// Replacing a vault by one for the same target that is itself well formed
/// keeps the whole contract well formed.
pub proof fn lemma_replace_keeps_wf(r: RentVaultView, i: int, v: VaultView)
    requires
        rent_vault_wf(r),
        0 <= i < r.vaults.len(),
        v.target == r.vaults[i].target,
        vault_wf(v),
    ensures
        rent_vault_wf(RentVaultView { vaults: r.vaults.update(i, v), ..r }),
{
    let s = r.vaults.update(i, v);
    assert forall|a: int, b: int| 0 <= a < s.len() && 0 <= b < s.len() && a != b implies (#[trigger] s[a]).target
        != (#[trigger] s[b]).target by {
        assert(r.vaults[a].target != r.vaults[b].target);
    }
    assert forall|a: int| 0 <= a < s.len() implies vault_wf(#[trigger] s[a]) by {
        if a != i {
            assert(s[a] == r.vaults[a]);
        }
    }
}

impl RentVault {
    /// Holds for every vault contract built and changed by this module.
    pub open spec fn wf(&self) -> bool {
        rent_vault_wf(self@)
    }

    /// A vault contract with no token and no vaults.
    pub fn new() -> (r: RentVault)
        ensures
            r.wf(),
            r@ == (RentVaultView { token: None, vaults: Seq::empty() }),
    {
        let r = RentVault { token: None, vaults: Vec::new() };
        assert(r@.vaults =~= Seq::<VaultView>::empty());
        r
    }

    /// The position of `target`'s vault, if it has one.
    fn find(&self, target: &Address) -> (r: Option<usize>)
        requires
            self.wf(),
        ensures
            match r {
                Some(i) => i < self@.vaults.len() && vault_slot(self@.vaults, target@) == i && has_vault(
                    self@.vaults,
                    target@,
                ) && vault_of(self@.vaults, target@) == Some(self@.vaults[i as int]),
                None => !has_vault(self@.vaults, target@) && vault_of(self@.vaults, target@) is None,
            },
    {
        let mut i: usize = 0;
        while i < self.vaults.len()
            invariant
                i <= self.vaults@.len(),
                self.wf(),
                forall|j: int| 0 <= j < i ==> (#[trigger] self@.vaults[j]).target != target@,
            decreases self.vaults.len() - i,
        {
            assert(self@.vaults[i as int] == self.vaults@[i as int]@);
            if self.vaults[i].target.same(target) {
                proof {
                    lemma_vault_slot_unique(self@, target@, i as int);
                }
                return Some(i);
            }
            i = i + 1;
        }
        None
    }

    /// A copy of the vault at position `i`, with its view.
    fn vault_at(&self, i: usize) -> (r: VaultState)
        requires
            i < self@.vaults.len(),
        ensures
            r@ == self@.vaults[i as int],
    {
        assert(self@.vaults[i as int] == self.vaults@[i as int]@);
        self.vaults[i].copy()
    }

    /// Stores `v` at position `i`.
    fn store_at(&mut self, i: usize, v: VaultState)
        requires
            old(self).wf(),
            i < old(self)@.vaults.len(),
            v@.target == old(self)@.vaults[i as int].target,
            vault_wf(v@),
        ensures
            final(self).wf(),
            final(self)@ == (RentVaultView { vaults: old(self)@.vaults.update(i as int, v@), ..old(self)@ }),
    {
        let ghost before = self@;
        self.vaults.set(i, v);
        proof {
            assert(self@.vaults =~= before.vaults.update(i as int, v@));
            lemma_replace_keeps_wf(before, i as int, v@);
        }
    }

    /// Sets the tip token. Callable once; the token is immutable afterward.
    ///
    /// Errors `AlreadyInitialized`; on error nothing changes.
    pub fn initialize(&mut self, token: Address) -> (r: Result<(), VaultError>)
        requires
            old(self).wf(),
        ensures
            final(self).wf(),
            (final(self)@, r) == spec_initialize(old(self)@, token@),
    {
        check_initialize(self.token.is_some())?;
        self.token = Some(token);
        assert(self@.vaults == old(self)@.vaults);
        Ok(())
    }

    /// Opens a vault for `target` at `ledger`, owned by `owner`, who has
    /// authorized it. The first claim waits a full interval.
    ///
    /// Errors `NotInitialized`, `VaultExists`, `InvalidTerms`, in that order;
    /// on error nothing changes.
    pub fn open(&mut self, target: Address, owner: Address, tip: i128, interval: u32, ledger: u32) -> (r: Result<
        Opened,
        VaultError,
    >)
        requires
            old(self).wf(),
        ensures
            final(self).wf(),
            (final(self)@, result_view(r)) == spec_open(old(self)@, target@, owner@, tip, interval, ledger),
    {
        let exists = self.find(&target).is_some();
        let (v, ev) = match open_vault(self.token.is_some(), exists, target, owner, tip, interval, ledger) {
            Ok(p) => p,
            Err(e) => return Err(e),
        };
        let ghost before = self@;
        self.vaults.push(v);
        proof {
            assert(self@.vaults =~= before.vaults.push(v@));
            assert(!has_vault(before.vaults, v@.target));
            let s = self@.vaults;
            assert forall|a: int, b: int| 0 <= a < s.len() && 0 <= b < s.len() && a != b implies (
            #[trigger] s[a]).target != (#[trigger] s[b]).target by {
                if a == before.vaults.len() {
                    assert(s[b] == before.vaults[b]);
                } else if b == before.vaults.len() {
                    assert(s[a] == before.vaults[a]);
                } else {
                    assert(before.vaults[a].target != before.vaults[b].target);
                }
            }
            assert forall|a: int| 0 <= a < s.len() implies vault_wf(#[trigger] s[a]) by {
                if a < before.vaults.len() {
                    assert(s[a] == before.vaults[a]);
                }
            }
        }
        Ok(ev)
    }

    /// Adds `amount` from `from`, who has authorized it, to `target`'s vault.
    /// Anyone may fund a vault they do not own. The host moves the tokens in
    /// before this records them.
    ///
    /// Errors `VaultMissing`, `InvalidAmount`, `NotInitialized`, in that order;
    /// on error nothing changes.
    pub fn fund(&mut self, target: &Address, from: &Address, amount: i128) -> (r: Result<Funded, VaultError>)
        requires
            old(self).wf(),
            fund_defined(vault_of(old(self)@.vaults, target@), amount, old(self)@.token is Some),
        ensures
            final(self).wf(),
            (final(self)@, result_view(r)) == spec_fund(old(self)@, target@, from@, amount),
    {
        let found = self.find(target);
        let current = match found {
            Some(i) => Some(self.vault_at(i)),
            None => None,
        };
        let token = match &self.token {
            Some(t) => Some(t.copy()),
            None => None,
        };
        let (v, _t, ev) = match fund_vault(target, current, from, amount, token) {
            Ok(p) => p,
            Err(e) => return Err(e),
        };
        self.store_at(found.unwrap(), v);
        Ok(ev)
    }

    /// Withdraws `amount` from `target`'s vault to `to`. The vault's owner
    /// must have authorized it. The balance is lowered before the host moves
    /// the tokens out.
    ///
    /// Errors `VaultMissing`, `InvalidAmount`, `InsufficientBalance`,
    /// `NotInitialized`, in that order; on error nothing changes.
    pub fn withdraw(&mut self, target: &Address, to: &Address, amount: i128) -> (r: Result<Withdrawn, VaultError>)
        requires
            old(self).wf(),
        ensures
            final(self).wf(),
            (final(self)@, result_view(r)) == spec_withdraw(old(self)@, target@, to@, amount),
    {
        let found = self.find(target);
        let current = match found {
            Some(i) => Some(self.vault_at(i)),
            None => None,
        };
        let v = require_vault(current)?;
        let token = match &self.token {
            Some(t) => Some(t.copy()),
            None => None,
        };
        let (v2, _t, ev) = match withdraw_vault(target, v, to, amount, token) {
            Ok(p) => p,
            Err(e) => return Err(e),
        };
        self.store_at(found.unwrap(), v2);
        Ok(ev)
    }

    /// Changes the tip and interval of `target`'s vault. The vault's owner
    /// must have authorized it.
    ///
    /// Errors `VaultMissing`, `InvalidTerms`; on error nothing changes.
    pub fn set_terms(&mut self, target: &Address, tip: i128, interval: u32) -> (r: Result<TermsSet, VaultError>)
        requires
            old(self).wf(),
        ensures
            final(self).wf(),
            (final(self)@, result_view(r)) == spec_set_terms(old(self)@, target@, tip, interval),
    {
        let found = self.find(target);
        let current = match found {
            Some(i) => Some(self.vault_at(i)),
            None => None,
        };
        let v = require_vault(current)?;
        let (v2, ev) = match set_vault_terms(target, v, tip, interval) {
            Ok(p) => p,
            Err(e) => return Err(e),
        };
        self.store_at(found.unwrap(), v2);
        Ok(ev)
    }

    /// Pays `keeper`, who has authorized it, for maintaining `target`, given
    /// the target's maintenance record and the current `ledger`. The paid tip
    /// is the event's `tip`.
    ///
    /// Errors `VaultMissing`, `NotTheKeeper`, `NoMaintenance`, `TooSoon`,
    /// `InsufficientBalance`, `NotInitialized`, in that order; on error nothing
    /// changes.
    pub fn claim(&mut self, target: &Address, keeper: &Address, state: &MaintenanceState, ledger: u32) -> (r:
        Result<Claimed, VaultError>)
        requires
            old(self).wf(),
            vault_of(old(self)@.vaults, target@) matches Some(v) ==> claim_defined(
                v,
                state@,
                keeper@,
                ledger,
                old(self)@.token is Some,
            ),
        ensures
            final(self).wf(),
            (final(self)@, result_view(r)) == spec_claim(old(self)@, target@, keeper@, state@, ledger),
    {
        let found = self.find(target);
        let current = match found {
            Some(i) => Some(self.vault_at(i)),
            None => None,
        };
        let v = require_vault(current)?;
        let token = match &self.token {
            Some(t) => Some(t.copy()),
            None => None,
        };
        let (v2, _t, ev) = match claim_vault(target, v, state, keeper, ledger, token) {
            Ok(p) => p,
            Err(e) => return Err(e),
        };
        self.store_at(found.unwrap(), v2);
        Ok(ev)
    }

    /// `target`'s vault, or `None` if it has none.
    pub fn get_vault(&self, target: &Address) -> (r: Option<VaultState>)
        requires
            self.wf(),
        ensures
            option_view(r) == vault_of(self@.vaults, target@),
    {
        match self.find(target) {
            Some(i) => Some(self.vault_at(i)),
            None => None,
        }
    }
}


} // verus!

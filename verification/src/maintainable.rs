//! The maintenance standard.
//!
//! A contract adopts the standard with fixed terms (`threshold`, `extend_to`)
//! and a fixed list of persistent keys. Its permissionless `extend_all`
//! extends those keys and records who did it and at which ledger; `lk_state`
//! reads that record back so a rent vault can decide whether to pay.
//!
//! A contract cannot observe the TTL of its own entries, so nothing here reads
//! TTL: the extension itself is performed by the host, with the terms that
//! [`Maintenance`] holds.

use vstd::prelude::*;

use crate::address::Address;
use crate::{option_view, result_view};

verus! {

/// Errors of the maintenance standard.
#[derive(Clone, Copy, Debug, PartialEq, Eq, Structural, PartialOrd, Ord)]
pub enum MaintainableError {
    /// The terms' `extend_to` is above the network maximum TTL.
    ExtendTooLarge,
    /// The maintenance record was read before any maintenance run.
    NotMaintained,
}

impl MaintainableError {
    /// The permanent numeric code of this error.
    pub open spec fn spec_code(self) -> u32 {
        match self {
            MaintainableError::ExtendTooLarge => 301,
            MaintainableError::NotMaintained => 302,
        }
    }

    /// The permanent numeric code of this error.
    pub fn code(&self) -> (r: u32)
        ensures
            r == self.spec_code(),
    {
        match self {
            MaintainableError::ExtendTooLarge => 301,
            MaintainableError::NotMaintained => 302,
        }
    }
}

/// Abstract value of a [`MaintenanceState`].
pub struct MaintenanceStateView {
    pub last_maintained: u32,
    pub last_keeper: Seq<u8>,
}

/// Record of the most recent maintenance run.
pub struct MaintenanceState {
    pub last_maintained: u32,
    pub last_keeper: Address,
}

impl View for MaintenanceState {
    type V = MaintenanceStateView;

    open spec fn view(&self) -> MaintenanceStateView {
        MaintenanceStateView { last_maintained: self.last_maintained, last_keeper: self.last_keeper@ }
    }
}

impl MaintenanceState {
    /// An independent copy of this record.
    pub fn copy(&self) -> (r: MaintenanceState)
        ensures
            r@ == self@,
    {
        MaintenanceState { last_maintained: self.last_maintained, last_keeper: self.last_keeper.copy() }
    }
}

/// Abstract value of a [`Maintained`] event.
pub struct MaintainedView {
    pub keeper: Seq<u8>,
    pub ledger: u32,
    pub key_count: u32,
}

/// Event of a maintenance run: who ran it, at which ledger, over how many
/// persistent keys.
pub struct Maintained {
    pub keeper: Address,
    pub ledger: u32,
    pub key_count: u32,
}

impl View for Maintained {
    type V = MaintainedView;

    open spec fn view(&self) -> MaintainedView {
        MaintainedView { keeper: self.keeper@, ledger: self.ledger, key_count: self.key_count }
    }
}

/// What reading the maintenance record gives: the stored record, or
/// `NotMaintained` when none was ever written.
pub open spec fn spec_lk_state(stored: Option<MaintenanceStateView>) -> Result<MaintenanceStateView, MaintainableError> {
    match stored {
        Some(s) => Ok(s),
        None => Err(MaintainableError::NotMaintained),
    }
}

/// Returns the last maintenance record, given what is stored.
///
/// Errors `NotMaintained` if no maintenance run has recorded state yet.
pub fn lk_state(stored: &Option<MaintenanceState>) -> (r: Result<MaintenanceState, MaintainableError>)
    ensures
        result_view(r) == spec_lk_state(option_view(*stored)),
{
    match stored {
        Some(s) => Ok(s.copy()),
        None => Err(MaintainableError::NotMaintained),
    }
}

/// What a maintenance run at `ledger` by `keeper` records and announces, or
/// `ExtendTooLarge` when `extend_to` is above the network maximum TTL.
pub open spec fn spec_maintenance_step(
    extend_to: u32,
    max_ttl: u32,
    keeper: Seq<u8>,
    ledger: u32,
    key_count: u32,
) -> Result<(MaintenanceStateView, MaintainedView), MaintainableError> {
    if extend_to > max_ttl {
        Err(MaintainableError::ExtendTooLarge)
    } else {
        Ok(
            (
                MaintenanceStateView { last_maintained: ledger, last_keeper: keeper },
                MaintainedView { keeper, ledger, key_count },
            ),
        )
    }
}

/// The decision of a maintenance run, after the keeper has authorized it:
/// check the terms against the network maximum TTL, then produce the record to
/// store and the event to emit.
///
/// The host performs the TTL extension itself between the check and storing
/// the record.
pub fn maintenance_step(extend_to: u32, max_ttl: u32, keeper: Address, ledger: u32, key_count: u32) -> (r:
    Result<(MaintenanceState, Maintained), MaintainableError>)
    ensures
        match r {
            Ok((s, ev)) => spec_maintenance_step(extend_to, max_ttl, keeper@, ledger, key_count) == Ok::<
                (MaintenanceStateView, MaintainedView),
                MaintainableError,
            >((s@, ev@)),
            Err(e) => spec_maintenance_step(extend_to, max_ttl, keeper@, ledger, key_count) == Err::<
                (MaintenanceStateView, MaintainedView),
                MaintainableError,
            >(e),
        },
{
    if extend_to > max_ttl {
        return Err(MaintainableError::ExtendTooLarge);
    }
    let ev = Maintained { keeper: keeper.copy(), ledger, key_count };
    Ok((MaintenanceState { last_maintained: ledger, last_keeper: keeper }, ev))
}

/// Who must authorize a maintenance run: the keeper it records, so that no
/// caller can record someone else as keeper.
pub fn maintenance_authorizer(keeper: &Address) -> (a: Address)
    ensures
        a@ == keeper@,
{
    keeper.copy()
}

/// Abstract value of a [`Maintenance`].
pub struct MaintenanceView {
    pub threshold: u32,
    pub extend_to: u32,
    pub key_count: u32,
    pub state: Option<MaintenanceStateView>,
}

/// A contract's adoption of the standard: its terms, the number of persistent
/// keys it maintains, and its maintenance record.
pub struct Maintenance {
    threshold: u32,
    extend_to: u32,
    key_count: u32,
    state: Option<MaintenanceState>,
}

impl View for Maintenance {
    type V = MaintenanceView;

    closed spec fn view(&self) -> MaintenanceView {
        MaintenanceView {
            threshold: self.threshold,
            extend_to: self.extend_to,
            key_count: self.key_count,
            state: option_view(self.state),
        }
    }
}

/// The state after a maintenance run, and what the run returns.
pub open spec fn spec_extend_all(m: MaintenanceView, keeper: Seq<u8>, ledger: u32, max_ttl: u32) -> (
    MaintenanceView,
    Result<MaintainedView, MaintainableError>,
) {
    match spec_maintenance_step(m.extend_to, max_ttl, keeper, ledger, m.key_count) {
        Ok((s, ev)) => (MaintenanceView { state: Some(s), ..m }, Ok(ev)),
        Err(e) => (m, Err(e)),
    }
}

impl Maintenance {
    /// Adopts the standard with the given terms over `key_count` persistent
    /// keys; no maintenance has run yet.
    pub fn new(threshold: u32, extend_to: u32, key_count: u32) -> (r: Maintenance)
        ensures
            r@ == (MaintenanceView { threshold, extend_to, key_count, state: None }),
    {
        Maintenance { threshold, extend_to, key_count, state: None }
    }

    /// The TTL below which an entry is extended.
    pub fn threshold(&self) -> (r: u32)
        ensures
            r == self@.threshold,
    {
        self.threshold
    }

    /// The TTL an extended entry is given.
    pub fn extend_to(&self) -> (r: u32)
        ensures
            r == self@.extend_to,
    {
        self.extend_to
    }

    /// The number of persistent keys the adopting contract maintains.
    pub fn key_count(&self) -> (r: u32)
        ensures
            r == self@.key_count,
    {
        self.key_count
    }

    /// Runs maintenance at `ledger` for `keeper`, who has authorized it, on a
    /// network whose maximum TTL is `max_ttl`.
    ///
    /// On success the record names `keeper` and `ledger`, and the returned
    /// event carries the ledger sequence, which is what a maintenance call
    /// returns to its caller.
    /// Errors `ExtendTooLarge`, leaving the record as it was.
    pub fn extend_all(&mut self, keeper: Address, ledger: u32, max_ttl: u32) -> (r: Result<
        Maintained,
        MaintainableError,
    >)
        ensures
            (final(self)@, result_view(r)) == spec_extend_all(old(self)@, keeper@, ledger, max_ttl),
    {
        match maintenance_step(self.extend_to, max_ttl, keeper, ledger, self.key_count) {
            Ok((s, ev)) => {
                self.state = Some(s);
                Ok(ev)
            },
            Err(e) => Err(e),
        }
    }

    /// Returns the last maintenance record. Errors `NotMaintained` if no
    /// maintenance has run yet.
    pub fn lk_state(&self) -> (r: Result<MaintenanceState, MaintainableError>)
        ensures
            result_view(r) == spec_lk_state(self@.state),
    {
        lk_state(&self.state)
    }
}

/// A maintenance run is what the record then shows: reading it back after a
/// successful `extend_all` by `keeper` at `ledger` gives exactly that keeper
/// and ledger, and the run reports that same ledger.
pub proof fn lemma_extend_then_read(m: MaintenanceView, keeper: Seq<u8>, ledger: u32, max_ttl: u32)
    requires
        m.extend_to <= max_ttl,
    ensures
        ({
            let (m2, r) = spec_extend_all(m, keeper, ledger, max_ttl);
            &&& r matches Ok(ev) && ev.ledger == ledger && ev.keeper == keeper && ev.key_count
                == m.key_count
            &&& spec_lk_state(m2.state) == Ok::<MaintenanceStateView, MaintainableError>(
                MaintenanceStateView { last_maintained: ledger, last_keeper: keeper },
            )
            &&& m2.threshold == m.threshold && m2.extend_to == m.extend_to && m2.key_count
                == m.key_count
        }),
{
}

/// A run refused for `ExtendTooLarge` changes nothing, and every later run on
/// the same network is refused the same way: the terms are fixed at adoption.
pub proof fn lemma_too_large_is_permanent(m: MaintenanceView, keeper: Seq<u8>, ledger: u32, max_ttl: u32)
    requires
        m.extend_to > max_ttl,
    ensures
        spec_extend_all(m, keeper, ledger, max_ttl) == (m, Err::<MaintainedView, MaintainableError>(
            MaintainableError::ExtendTooLarge,
        )),
{
}

/// Before any maintenance run the record reads `NotMaintained`.
pub proof fn lemma_fresh_is_unmaintained(threshold: u32, extend_to: u32, key_count: u32)
    ensures
        spec_lk_state(MaintenanceView { threshold, extend_to, key_count, state: None }.state) == Err::<
            MaintenanceStateView,
            MaintainableError,
        >(MaintainableError::NotMaintained),
{
}

} // verus!

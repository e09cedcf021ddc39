//! Verified state machines of the LedgerKeep contracts: the maintenance
//! standard a contract adopts, the manifest registry, and the rent vault that
//! pays keepers.
//!
//! Each contract operation is written twice over one verified core: a step
//! function over exactly the stored values the operation reads, which a host
//! contract calls between its storage reads and writes, and a method on an
//! in-memory state (`Maintenance`, `Registry`, `RentVault`) that applies the
//! same step to the whole state, so that properties spanning several calls can
//! be stated and proved.

pub mod address;
pub mod maintainable;
pub mod registry;
pub mod rent_vault;

use vstd::prelude::*;

verus! {

/// The abstract value of an optional item.
pub open spec fn option_view<T: View>(o: Option<T>) -> Option<T::V> {
    match o {
        Some(t) => Some(t@),
        None => None,
    }
}

/// The abstract value of an outcome: the success value's view, or the error.
pub open spec fn result_view<T: View, E>(r: Result<T, E>) -> Result<T::V, E> {
    match r {
        Ok(t) => Ok(t@),
        Err(e) => Err(e),
    }
}

} // verus!

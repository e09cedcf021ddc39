//! Which answer each registry request gets, over all inputs: which error
//! comes first when several apply, and what a success carries.

use vstd::prelude::*;

use crate::registry::{
    contains, lookup, manifest_error, spec_add_entry, spec_deregister, spec_page, spec_page_bounds,
    spec_register, spec_removal, spec_update, spec_update_entry, DeregisteredView, EntryView,
    ManifestEventView, RegistryError, RegistryView, PAGE_LIMIT,
};

verus! {

/// The page limit is checked before anything else: a request for more than
/// [`PAGE_LIMIT`] entries is refused with `LimitTooLarge` whatever the start
/// and the count, and a request within the limit is never refused.
pub proof fn lemma_page_limit_first(s: Seq<EntryView>, start: u32, limit: u32, count: u32)
    ensures
        limit > PAGE_LIMIT ==> spec_page_bounds(start, limit, count) == Err::<(u32, u32), RegistryError>(
            RegistryError::LimitTooLarge,
        ),
        limit > PAGE_LIMIT ==> spec_page(s, start, limit) == Err::<Seq<EntryView>, RegistryError>(
            RegistryError::LimitTooLarge,
        ),
        limit <= PAGE_LIMIT ==> spec_page_bounds(start, limit, count) is Ok,
        limit <= PAGE_LIMIT ==> spec_page(s, start, limit) is Ok,
{
}

/// A page's bounds start at the requested start, cover at most `limit`
/// positions, never run past the count when the start is inside it, and stop
/// at the count only when the limit would run past it.
pub proof fn lemma_page_bounds_shape(start: u32, limit: u32, count: u32)
    requires
        limit <= PAGE_LIMIT,
    ensures
        ({
            let (from, to) = spec_page_bounds(start, limit, count)->Ok_0;
            &&& from == start
            &&& from <= to
            &&& to - from <= limit
            &&& start >= count ==> to == from
            &&& start < count ==> to <= count && (to - from == limit || to == count)
        }),
{
}

/// A manifest with no keys is refused with `EmptyManifest` whatever its
/// terms; one with keys is refused with `InvalidParams` exactly when its
/// threshold is not below its target TTL; anything else passes.
pub proof fn lemma_manifest_answers(key_count: nat, threshold: u32, extend_to: u32)
    ensures
        key_count == 0 ==> manifest_error(key_count, threshold, extend_to) == Some(RegistryError::EmptyManifest),
        key_count > 0 ==> (manifest_error(key_count, threshold, extend_to) == Some(RegistryError::InvalidParams)
            <==> threshold >= extend_to),
        manifest_error(key_count, threshold, extend_to) is None <==> key_count > 0 && threshold < extend_to,
{
}

/// A registration answers in this order: no keys gives `EmptyManifest`, then
/// bad terms give `InvalidParams`, whether or not the contract is already
/// registered; only a valid manifest for an address already present gives
/// `AlreadyRegistered`. A success appends exactly the manifest, registered and
/// updated at the call's ledger, and reports its key count and ledger.
pub proof fn lemma_register_answers(
    v: RegistryView,
    contract: Seq<u8>,
    keys: Seq<Seq<u8>>,
    threshold: u32,
    extend_to: u32,
    ledger: u32,
)
    requires
        keys.len() <= u32::MAX,
    ensures
        ({
            let (v2, r) = spec_register(v, contract, keys, threshold, extend_to, ledger);
            &&& keys.len() == 0 ==> r == Err::<ManifestEventView, RegistryError>(RegistryError::EmptyManifest)
            &&& keys.len() > 0 && threshold >= extend_to ==> r == Err::<ManifestEventView, RegistryError>(
                RegistryError::InvalidParams,
            )
            &&& keys.len() > 0 && threshold < extend_to && contains(v.entries, contract) ==> r == Err::<
                ManifestEventView,
                RegistryError,
            >(RegistryError::AlreadyRegistered)
            &&& (r is Ok <==> keys.len() > 0 && threshold < extend_to && !contains(v.entries, contract))
            &&& r is Ok ==> v2.entries == v.entries.push(
                EntryView {
                    contract,
                    keys_xdr: keys,
                    threshold,
                    extend_to,
                    registered: ledger,
                    updated: ledger,
                },
            ) && r->Ok_0 == ManifestEventView { contract, key_count: keys.len() as u32, ledger }
            &&& r is Err ==> v2 == v
        }),
{
}

/// The step of a registration answers the same way over whether the address
/// is already registered.
pub proof fn lemma_add_entry_answers(
    already: bool,
    contract: Seq<u8>,
    keys: Seq<Seq<u8>>,
    threshold: u32,
    extend_to: u32,
    ledger: u32,
)
    ensures
        ({
            let r = spec_add_entry(already, contract, keys, threshold, extend_to, ledger);
            &&& keys.len() == 0 ==> r == Err::<(EntryView, ManifestEventView), RegistryError>(
                RegistryError::EmptyManifest,
            )
            &&& keys.len() > 0 && threshold >= extend_to ==> r == Err::<(EntryView, ManifestEventView), RegistryError>(
                RegistryError::InvalidParams,
            )
            &&& keys.len() > 0 && threshold < extend_to && already ==> r == Err::<
                (EntryView, ManifestEventView),
                RegistryError,
            >(RegistryError::AlreadyRegistered)
            &&& (r is Ok <==> keys.len() > 0 && threshold < extend_to && !already)
            &&& r is Ok ==> r->Ok_0.0.registered == ledger && r->Ok_0.0.updated == ledger && r->Ok_0.0.contract
                == contract && r->Ok_0.0.keys_xdr == keys && r->Ok_0.0.threshold == threshold
                && r->Ok_0.0.extend_to == extend_to
        }),
{
}

/// An update answers `NotRegistered` for an unregistered address whatever the
/// manifest; for a registered one the manifest checks follow in their order.
/// A success keeps the contract and the registration ledger and takes the new
/// keys, terms and update ledger.
pub proof fn lemma_update_answers(
    contract: Seq<u8>,
    existing: Option<EntryView>,
    keys: Seq<Seq<u8>>,
    threshold: u32,
    extend_to: u32,
    ledger: u32,
)
    ensures
        ({
            let r = spec_update_entry(contract, existing, keys, threshold, extend_to, ledger);
            &&& existing is None ==> r == Err::<(EntryView, ManifestEventView), RegistryError>(
                RegistryError::NotRegistered,
            )
            &&& existing is Some && keys.len() == 0 ==> r == Err::<(EntryView, ManifestEventView), RegistryError>(
                RegistryError::EmptyManifest,
            )
            &&& existing is Some && keys.len() > 0 && threshold >= extend_to ==> r == Err::<
                (EntryView, ManifestEventView),
                RegistryError,
            >(RegistryError::InvalidParams)
            &&& (r is Ok <==> existing is Some && keys.len() > 0 && threshold < extend_to)
            &&& r is Ok ==> {
                let old = existing->0;
                let e = r->Ok_0.0;
                &&& e.contract == old.contract && e.registered == old.registered
                &&& e.keys_xdr == keys && e.threshold == threshold && e.extend_to == extend_to
                &&& e.updated == ledger
                &&& r->Ok_0.1 == ManifestEventView { contract, key_count: keys.len() as u32, ledger }
            }
        }),
{
}

/// On the whole registry, an update of an unregistered address is refused
/// with `NotRegistered` and a removal of one with `NotRegistered`, whatever
/// else is asked; a removal of a registered one always succeeds.
pub proof fn lemma_presence_answers(
    v: RegistryView,
    contract: Seq<u8>,
    keys: Seq<Seq<u8>>,
    threshold: u32,
    extend_to: u32,
    ledger: u32,
)
    ensures
        !contains(v.entries, contract) ==> spec_update(v, contract, keys, threshold, extend_to, ledger) == (
            v,
            Err::<ManifestEventView, RegistryError>(RegistryError::NotRegistered),
        ),
        !contains(v.entries, contract) ==> spec_deregister(v, contract, ledger) == (
            v,
            Err::<DeregisteredView, RegistryError>(RegistryError::NotRegistered),
        ),
        contains(v.entries, contract) ==> spec_deregister(v, contract, ledger).1 == Ok::<
            DeregisteredView,
            RegistryError,
        >(DeregisteredView { contract, ledger }),
        lookup(v.entries, contract) is Some <==> contains(v.entries, contract),
{
}

/// A removal step is refused exactly when the contract occupies no slot; it
/// then works on that slot and the last position.
pub proof fn lemma_removal_answers(slot: Option<u32>, count: u32)
    requires
        count >= 1,
    ensures
        slot is None ==> spec_removal(slot, count) == Err::<(u32, u32), RegistryError>(RegistryError::NotRegistered),
        slot matches Some(s) ==> spec_removal(slot, count) == Ok::<(u32, u32), RegistryError>((s, (count - 1) as u32)),
{
}

} // verus!

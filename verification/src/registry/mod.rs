//! The manifest registry.
//!
//! A permissionless directory from a contract address to its published
//! maintenance manifest: the XDR-encoded keys it wants kept alive (never
//! decoded here) and its TTL terms. Only the contract itself may write its own
//! entry; the host enforces that by requiring the contract's authorization
//! before any of these operations runs.
//!
//! Entries are kept in an index `0..count`. Registration appends; removal
//! moves the last entry into the freed slot (swap-remove), so the index stays
//! contiguous and pages can walk it in order.

use vstd::prelude::*;

use crate::address::{blobs_view, copy_blobs, Address};
use crate::maintainable::{
    spec_extend_all, spec_lk_state, Maintained, MaintainableError, Maintenance, MaintenanceState,
    MaintenanceView,
};
use crate::result_view;

pub mod answers;
pub mod laws;
pub mod layout;

pub use layout::{registration_writes, removal_writes, update_writes, RegistryWrite};

verus! {

/// The most entries one page may ask for.
pub const PAGE_LIMIT: u32 = 50;

/// The TTL below which the registry extends its own instance entry.
pub const REGISTRY_THRESHOLD: u32 = 100_000;

/// The TTL the registry extends its own instance entry to.
pub const REGISTRY_EXTEND_TO: u32 = 500_000;

/// Registry errors.
#[derive(Clone, Copy, Debug, PartialEq, Eq, Structural, PartialOrd, Ord)]
pub enum RegistryError {
    /// `register` was called for an address that already has an entry.
    AlreadyRegistered,
    /// `update` or `deregister` was called for an address with no entry.
    NotRegistered,
    /// A manifest with no keys was supplied.
    EmptyManifest,
    /// `threshold` was not below `extend_to`.
    InvalidParams,
    /// `page` was called with `limit` above [`PAGE_LIMIT`].
    LimitTooLarge,
}

impl RegistryError {
    /// The permanent numeric code of this error.
    pub open spec fn spec_code(self) -> u32 {
        match self {
            RegistryError::AlreadyRegistered => 101,
            RegistryError::NotRegistered => 102,
            RegistryError::EmptyManifest => 103,
            RegistryError::InvalidParams => 104,
            RegistryError::LimitTooLarge => 105,
        }
    }

    /// The permanent numeric code of this error.
    pub fn code(&self) -> (r: u32)
        ensures
            r == self.spec_code(),
    {
        match self {
            RegistryError::AlreadyRegistered => 101,
            RegistryError::NotRegistered => 102,
            RegistryError::EmptyManifest => 103,
            RegistryError::InvalidParams => 104,
            RegistryError::LimitTooLarge => 105,
        }
    }
}

/// Abstract value of a [`RegistryEntry`].
pub struct EntryView {
    pub contract: Seq<u8>,
    pub keys_xdr: Seq<Seq<u8>>,
    pub threshold: u32,
    pub extend_to: u32,
    pub registered: u32,
    pub updated: u32,
}

/// A published maintenance manifest for one contract.
///
/// `keys_xdr` holds XDR-encoded keys for off-chain tooling; it is advisory and
/// never decoded here.
pub struct RegistryEntry {
    pub contract: Address,
    pub keys_xdr: Vec<Vec<u8>>,
    pub threshold: u32,
    pub extend_to: u32,
    pub registered: u32,
    pub updated: u32,
}

impl View for RegistryEntry {
    type V = EntryView;

    open spec fn view(&self) -> EntryView {
        EntryView {
            contract: self.contract@,
            keys_xdr: blobs_view(self.keys_xdr@),
            threshold: self.threshold,
            extend_to: self.extend_to,
            registered: self.registered,
            updated: self.updated,
        }
    }
}

impl RegistryEntry {
    /// An independent copy of this entry.
    pub fn copy(&self) -> (r: RegistryEntry)
        ensures
            r@ == self@,
    {
        RegistryEntry {
            contract: self.contract.copy(),
            keys_xdr: copy_blobs(&self.keys_xdr),
            threshold: self.threshold,
            extend_to: self.extend_to,
            registered: self.registered,
            updated: self.updated,
        }
    }
}

/// Abstract value of a [`Registered`] or [`Updated`] event.
pub struct ManifestEventView {
    pub contract: Seq<u8>,
    pub key_count: u32,
    pub ledger: u32,
}

/// Event of a registration.
pub struct Registered {
    pub contract: Address,
    pub key_count: u32,
    pub ledger: u32,
}

impl View for Registered {
    type V = ManifestEventView;

    open spec fn view(&self) -> ManifestEventView {
        ManifestEventView { contract: self.contract@, key_count: self.key_count, ledger: self.ledger }
    }
}

/// Event of a manifest update.
pub struct Updated {
    pub contract: Address,
    pub key_count: u32,
    pub ledger: u32,
}

impl View for Updated {
    type V = ManifestEventView;

    open spec fn view(&self) -> ManifestEventView {
        ManifestEventView { contract: self.contract@, key_count: self.key_count, ledger: self.ledger }
    }
}

/// Abstract value of a [`Deregistered`] event.
pub struct DeregisteredView {
    pub contract: Seq<u8>,
    pub ledger: u32,
}

/// Event of a removal.
pub struct Deregistered {
    pub contract: Address,
    pub ledger: u32,
}

impl View for Deregistered {
    type V = DeregisteredView;

    open spec fn view(&self) -> DeregisteredView {
        DeregisteredView { contract: self.contract@, ledger: self.ledger }
    }
}

// ---------------------------------------------------------------------------
// The steps, over the stored values each operation reads.
/// Why a manifest with `key_count` keys and these terms is refused, if it is:
/// no keys, or `threshold` not below `extend_to`, checked in that order.
pub open spec fn manifest_error(key_count: nat, threshold: u32, extend_to: u32) -> Option<RegistryError> {
    if key_count == 0 {
        Some(RegistryError::EmptyManifest)
    } else if threshold >= extend_to {
        Some(RegistryError::InvalidParams)
    } else {
        None
    }
}

/// Checks a manifest and its terms.
pub fn check_manifest(keys_xdr: &Vec<Vec<u8>>, threshold: u32, extend_to: u32) -> (r: Result<
    (),
    RegistryError,
>)
    ensures
        r == match manifest_error(keys_xdr@.len(), threshold, extend_to) {
            Some(e) => Err(e),
            None => Ok(()),
        },
{
    if keys_xdr.len() == 0 {
        return Err(RegistryError::EmptyManifest);
    }
    if threshold >= extend_to {
        return Err(RegistryError::InvalidParams);
    }
    Ok(())
}

/// The entry a registration writes and the event it emits, or why it is
/// refused: the manifest checks first, then `AlreadyRegistered`.
pub open spec fn spec_add_entry(
    already: bool,
    contract: Seq<u8>,
    keys: Seq<Seq<u8>>,
    threshold: u32,
    extend_to: u32,
    ledger: u32,
) -> Result<(EntryView, ManifestEventView), RegistryError> {
    match manifest_error(keys.len(), threshold, extend_to) {
        Some(e) => Err(e),
        None => if already {
            Err(RegistryError::AlreadyRegistered)
        } else {
            Ok(
                (
                    EntryView {
                        contract,
                        keys_xdr: keys,
                        threshold,
                        extend_to,
                        registered: ledger,
                        updated: ledger,
                    },
                    ManifestEventView { contract, key_count: keys.len() as u32, ledger },
                ),
            )
        },
    }
}

/// The decision of a registration at `ledger`, given whether `contract`
/// already has an entry. The host then stores the entry and appends
/// `contract` to the index.
pub fn add_entry(
    already: bool,
    contract: Address,
    keys_xdr: Vec<Vec<u8>>,
    threshold: u32,
    extend_to: u32,
    ledger: u32,
) -> (r: Result<(RegistryEntry, Registered), RegistryError>)
    requires
        keys_xdr@.len() <= u32::MAX,
    ensures
        match r {
            Ok((entry, ev)) => spec_add_entry(
                already,
                contract@,
                blobs_view(keys_xdr@),
                threshold,
                extend_to,
                ledger,
            ) == Ok::<(EntryView, ManifestEventView), RegistryError>((entry@, ev@)),
            Err(e) => spec_add_entry(
                already,
                contract@,
                blobs_view(keys_xdr@),
                threshold,
                extend_to,
                ledger,
            ) == Err::<(EntryView, ManifestEventView), RegistryError>(e),
        },
{
    check_manifest(&keys_xdr, threshold, extend_to)?;
    if already {
        return Err(RegistryError::AlreadyRegistered);
    }
    let key_count = keys_xdr.len() as u32;
    let ev = Registered { contract: contract.copy(), key_count, ledger };
    let entry = RegistryEntry {
        contract,
        keys_xdr,
        threshold,
        extend_to,
        registered: ledger,
        updated: ledger,
    };
    Ok((entry, ev))
}

/// The entry an update writes and the event it emits, or why it is refused:
/// `NotRegistered` first, then the manifest checks. The registration ledger
/// and the contract are kept; the keys, the terms and `updated` are replaced.
pub open spec fn spec_update_entry(
    contract: Seq<u8>,
    existing: Option<EntryView>,
    keys: Seq<Seq<u8>>,
    threshold: u32,
    extend_to: u32,
    ledger: u32,
) -> Result<(EntryView, ManifestEventView), RegistryError> {
    match existing {
        None => Err(RegistryError::NotRegistered),
        Some(old) => match manifest_error(keys.len(), threshold, extend_to) {
            Some(e) => Err(e),
            None => Ok(
                (
                    EntryView { keys_xdr: keys, threshold, extend_to, updated: ledger, ..old },
                    ManifestEventView { contract, key_count: keys.len() as u32, ledger },
                ),
            ),
        },
    }
}

/// The decision of an update of `contract`'s manifest at `ledger`, given its
/// stored entry, if any. The host then stores the returned entry in place.
pub fn update_entry(
    contract: &Address,
    existing: Option<RegistryEntry>,
    keys_xdr: Vec<Vec<u8>>,
    threshold: u32,
    extend_to: u32,
    ledger: u32,
) -> (r: Result<(RegistryEntry, Updated), RegistryError>)
    requires
        keys_xdr@.len() <= u32::MAX,
    ensures
        match r {
            Ok((entry, ev)) => spec_update_entry(
                contract@,
                crate::option_view(existing),
                blobs_view(keys_xdr@),
                threshold,
                extend_to,
                ledger,
            ) == Ok::<(EntryView, ManifestEventView), RegistryError>((entry@, ev@)),
            Err(e) => spec_update_entry(
                contract@,
                crate::option_view(existing),
                blobs_view(keys_xdr@),
                threshold,
                extend_to,
                ledger,
            ) == Err::<(EntryView, ManifestEventView), RegistryError>(e),
        },
{
    let mut entry = match existing {
        Some(e) => e,
        None => return Err(RegistryError::NotRegistered),
    };
    check_manifest(&keys_xdr, threshold, extend_to)?;
    let key_count = keys_xdr.len() as u32;
    entry.keys_xdr = keys_xdr;
    entry.threshold = threshold;
    entry.extend_to = extend_to;
    entry.updated = ledger;
    Ok((entry, Updated { contract: contract.copy(), key_count, ledger }))
}

/// Whether a removal runs to its end without an underflow (a slot is only
/// removed from a nonempty index), checked at run time.
pub fn removal_is_defined(slot: Option<u32>, count: u32) -> (b: bool)
    ensures
        b == (slot is Some ==> count >= 1),
{
    slot.is_none() || count >= 1
}

/// Whether the index can grow by one more contract, checked at run time.
pub fn count_can_grow(count: u32) -> (b: bool)
    ensures
        b == (count < u32::MAX),
{
    count < u32::MAX
}

/// Who must authorize a registration, an update or a removal: the contract
/// whose manifest it is, which alone can authorize for its own address.
pub fn manifest_authorizer(contract: &Address) -> (a: Address)
    ensures
        a@ == contract@,
{
    contract.copy()
}

/// The index positions a removal works on: the freed slot and the last
/// position, whose occupant moves into the freed slot when the two differ.
pub open spec fn spec_removal(slot: Option<u32>, count: u32) -> Result<(u32, u32), RegistryError> {
    match slot {
        None => Err(RegistryError::NotRegistered),
        Some(s) => Ok((s, (count - 1) as u32)),
    }
}

/// The decision of a removal, given the slot the contract occupies, if any,
/// and the number of registered contracts. Returns `(slot, last)`; the host
/// moves the contract at `last` into `slot` when they differ, then drops
/// position `last` and the contract's entry, and stores `last` as the count.
pub fn removal(slot: Option<u32>, count: u32) -> (r: Result<(u32, u32), RegistryError>)
    requires
        slot is Some ==> count >= 1,
    ensures
        r == spec_removal(slot, count),
{
    match slot {
        None => Err(RegistryError::NotRegistered),
        Some(s) => Ok((s, count - 1)),
    }
}

/// The index positions `start..end` a page covers, or `LimitTooLarge`. A page
/// starting at or past the count is empty; one running past the end stops at
/// the count.
pub open spec fn spec_page_bounds(start: u32, limit: u32, count: u32) -> Result<(u32, u32), RegistryError> {
    if limit > PAGE_LIMIT {
        Err(RegistryError::LimitTooLarge)
    } else if start >= count {
        Ok((start, start))
    } else if start + limit <= count {
        Ok((start, (start + limit) as u32))
    } else {
        Ok((start, count))
    }
}

/// The decision of a page request over `count` registered contracts.
pub fn page_bounds(start: u32, limit: u32, count: u32) -> (r: Result<(u32, u32), RegistryError>)
    ensures
        r == spec_page_bounds(start, limit, count),
{
    if limit > PAGE_LIMIT {
        return Err(RegistryError::LimitTooLarge);
    }
    if start >= count {
        return Ok((start, start));
    }
    let end = start.saturating_add(limit);
    if end < count {
        Ok((start, end))
    } else {
        Ok((start, count))
    }
}


// ---------------------------------------------------------------------------
// The whole registry.
/// Whether some entry of `s` belongs to `contract`.
pub open spec fn contains(s: Seq<EntryView>, contract: Seq<u8>) -> bool {
    exists|i: int| 0 <= i < s.len() && (#[trigger] s[i]).contract == contract
}

/// The index position of `contract`'s entry in `s`, when it has one.
pub open spec fn slot_of(s: Seq<EntryView>, contract: Seq<u8>) -> int {
    choose|i: int| 0 <= i < s.len() && (#[trigger] s[i]).contract == contract
}

/// `contract`'s entry in `s`, if any.
pub open spec fn lookup(s: Seq<EntryView>, contract: Seq<u8>) -> Option<EntryView> {
    if contains(s, contract) {
        Some(s[slot_of(s, contract)])
    } else {
        None
    }
}

/// No two entries belong to the same contract.
pub open spec fn distinct(s: Seq<EntryView>) -> bool {
    forall|i: int, j: int|
        0 <= i < s.len() && 0 <= j < s.len() && i != j ==> (#[trigger] s[i]).contract != (#[trigger] s[j]).contract
}

/// A stored manifest has keys, and its threshold is below its target TTL.
pub open spec fn valid_entry(e: EntryView) -> bool {
    e.keys_xdr.len() > 0 && e.threshold < e.extend_to
}

/// Abstract value of a [`Registry`]: the entries in index order, and the
/// registry's own maintenance.
pub struct RegistryView {
    pub entries: Seq<EntryView>,
    pub maintenance: MaintenanceView,
}

/// Whether a registration of `contract` with this manifest and these terms
/// gets past every check, so that the index grows.
pub open spec fn register_succeeds(
    v: RegistryView,
    contract: Seq<u8>,
    key_count: nat,
    threshold: u32,
    extend_to: u32,
) -> bool {
    manifest_error(key_count, threshold, extend_to) is None && !contains(v.entries, contract)
}

/// What every reachable registry satisfies: the count fits its storage type,
/// each contract has at most one entry, every stored manifest passed the
/// manifest checks, and the registry maintains itself on its own fixed terms
/// with no persistent keys.
pub open spec fn registry_wf(v: RegistryView) -> bool {
    &&& v.entries.len() <= u32::MAX
    &&& v.maintenance.threshold == REGISTRY_THRESHOLD
    &&& v.maintenance.extend_to == REGISTRY_EXTEND_TO
    &&& v.maintenance.key_count == 0
    &&& distinct(v.entries)
    &&& forall|i: int| 0 <= i < v.entries.len() ==> valid_entry(#[trigger] v.entries[i])
}

/// A registration: the state after it, and what it returns.
pub open spec fn spec_register(
    v: RegistryView,
    contract: Seq<u8>,
    keys: Seq<Seq<u8>>,
    threshold: u32,
    extend_to: u32,
    ledger: u32,
) -> (RegistryView, Result<ManifestEventView, RegistryError>) {
    match spec_add_entry(contains(v.entries, contract), contract, keys, threshold, extend_to, ledger) {
        Ok((entry, ev)) => (RegistryView { entries: v.entries.push(entry), ..v }, Ok(ev)),
        Err(e) => (v, Err(e)),
    }
}

/// An update: the state after it, and what it returns. The entry stays in its
/// slot.
pub open spec fn spec_update(
    v: RegistryView,
    contract: Seq<u8>,
    keys: Seq<Seq<u8>>,
    threshold: u32,
    extend_to: u32,
    ledger: u32,
) -> (RegistryView, Result<ManifestEventView, RegistryError>) {
    match spec_update_entry(contract, lookup(v.entries, contract), keys, threshold, extend_to, ledger) {
        Ok((entry, ev)) => (
            RegistryView { entries: v.entries.update(slot_of(v.entries, contract), entry), ..v },
            Ok(ev),
        ),
        Err(e) => (v, Err(e)),
    }
}

/// A removal: the last entry moves into the freed slot and the index shrinks
/// by one.
pub open spec fn spec_deregister(v: RegistryView, contract: Seq<u8>, ledger: u32) -> (
    RegistryView,
    Result<DeregisteredView, RegistryError>,
) {
    if contains(v.entries, contract) {
        (
            RegistryView {
                entries: v.entries.update(slot_of(v.entries, contract), v.entries.last()).drop_last(),
                ..v
            },
            Ok(DeregisteredView { contract, ledger }),
        )
    } else {
        (v, Err(RegistryError::NotRegistered))
    }
}

/// The entries a page returns, in index order.
pub open spec fn spec_page(s: Seq<EntryView>, start: u32, limit: u32) -> Result<Seq<EntryView>, RegistryError> {
    match spec_page_bounds(start, limit, s.len() as u32) {
        Ok((from, to)) => if from < to {
            Ok(s.subrange(from as int, to as int))
        } else {
            Ok(Seq::empty())
        },
        Err(e) => Err(e),
    }
}


/// Registration keeps the index consistent: no contract twice, every stored
/// manifest valid, the count within range.
pub proof fn lemma_register_wf(
    v: RegistryView,
    contract: Seq<u8>,
    keys: Seq<Seq<u8>>,
    threshold: u32,
    extend_to: u32,
    ledger: u32,
)
    requires
        registry_wf(v),
        register_succeeds(v, contract, keys.len(), threshold, extend_to) ==> v.entries.len() < u32::MAX,
    ensures
        registry_wf(spec_register(v, contract, keys, threshold, extend_to, ledger).0),
{
    if let Ok((entry, _)) = spec_add_entry(contains(v.entries, contract), contract, keys, threshold, extend_to, ledger) {
        let s = v.entries.push(entry);
        assert forall|i: int, j: int| 0 <= i < s.len() && 0 <= j < s.len() && i != j implies (
        #[trigger] s[i]).contract != (#[trigger] s[j]).contract by {
            if i == v.entries.len() {
                assert(s[j] == v.entries[j]);
            } else if j == v.entries.len() {
                assert(s[i] == v.entries[i]);
            } else {
                assert(v.entries[i].contract != v.entries[j].contract);
            }
        }
        assert forall|i: int| 0 <= i < s.len() implies valid_entry(#[trigger] s[i]) by {
            if i < v.entries.len() {
                assert(s[i] == v.entries[i]);
            }
        }
    }
}

/// An update keeps the index consistent.
pub proof fn lemma_update_wf(
    v: RegistryView,
    contract: Seq<u8>,
    keys: Seq<Seq<u8>>,
    threshold: u32,
    extend_to: u32,
    ledger: u32,
)
    requires
        registry_wf(v),
    ensures
        registry_wf(spec_update(v, contract, keys, threshold, extend_to, ledger).0),
{
    if let Ok((entry, _)) = spec_update_entry(contract, lookup(v.entries, contract), keys, threshold, extend_to, ledger) {
        let k = slot_of(v.entries, contract);
        let s = v.entries.update(k, entry);
        assert forall|a: int, b: int| 0 <= a < s.len() && 0 <= b < s.len() && a != b implies (
        #[trigger] s[a]).contract != (#[trigger] s[b]).contract by {
            assert(v.entries[a].contract != v.entries[b].contract);
        }
        assert forall|a: int| 0 <= a < s.len() implies valid_entry(#[trigger] s[a]) by {
            if a != k {
                assert(s[a] == v.entries[a]);
            }
        }
    }
}

/// A removal keeps the index consistent.
pub proof fn lemma_deregister_wf(v: RegistryView, contract: Seq<u8>, ledger: u32)
    requires
        registry_wf(v),
    ensures
        registry_wf(spec_deregister(v, contract, ledger).0),
{
    if contains(v.entries, contract) {
        let k = slot_of(v.entries, contract);
        let n = v.entries.len();
        let s = v.entries.update(k, v.entries.last()).drop_last();
        assert forall|a: int, b: int| 0 <= a < s.len() && 0 <= b < s.len() && a != b implies (
        #[trigger] s[a]).contract != (#[trigger] s[b]).contract by {
            let ia = if a == k { n - 1 } else { a };
            let ib = if b == k { n - 1 } else { b };
            assert(s[a] == v.entries[ia]);
            assert(s[b] == v.entries[ib]);
            assert(v.entries[ia].contract != v.entries[ib].contract);
        }
        assert forall|a: int| 0 <= a < s.len() implies valid_entry(#[trigger] s[a]) by {
            let ia = if a == k { n - 1 } else { a };
            assert(s[a] == v.entries[ia]);
        }
    }
}

/// The abstract values of a list of entries.
pub open spec fn entries_view(s: Seq<RegistryEntry>) -> Seq<EntryView> {
    s.map_values(|e: RegistryEntry| e@)
}

/// The registry: every published manifest in index order, and the registry's
/// own maintenance record.
pub struct Registry {
    entries: Vec<RegistryEntry>,
    maintenance: Maintenance,
}

impl View for Registry {
    type V = RegistryView;

    closed spec fn view(&self) -> RegistryView {
        RegistryView { entries: entries_view(self.entries@), maintenance: self.maintenance@ }
    }
}

/// With no duplicate contracts, a position holding `contract` is its slot.
pub proof fn lemma_slot_unique(s: Seq<EntryView>, contract: Seq<u8>, i: int)
    requires
        distinct(s),
        0 <= i < s.len(),
        s[i].contract == contract,
    ensures
        contains(s, contract),
        slot_of(s, contract) == i,
        lookup(s, contract) == Some(s[i]),
{
    assert(contains(s, contract));
    let j = slot_of(s, contract);
    if j != i {
        assert(s[j].contract != s[i].contract);
    }
}

impl Registry {
    /// Holds for every registry built and changed by this module.
    pub open spec fn wf(&self) -> bool {
        registry_wf(self@)
    }

    /// Creates the registry at `ledger`, registering the registry itself
    /// (`me`) with the given manifest as the first entry.
    ///
    /// Errors `EmptyManifest` or `InvalidParams` on bad arguments.
    pub fn new(me: Address, keys_xdr: Vec<Vec<u8>>, threshold: u32, extend_to: u32, ledger: u32) -> (r:
        Result<Registry, RegistryError>)
        requires
            keys_xdr@.len() <= u32::MAX,
        ensures
            match r {
                Ok(reg) => {
                    &&& reg.wf()
                    &&& spec_register(
                        RegistryView {
                            entries: Seq::empty(),
                            maintenance: MaintenanceView {
                                threshold: REGISTRY_THRESHOLD,
                                extend_to: REGISTRY_EXTEND_TO,
                                key_count: 0,
                                state: None,
                            },
                        },
                        me@,
                        blobs_view(keys_xdr@),
                        threshold,
                        extend_to,
                        ledger,
                    ).0 == reg@
                },
                Err(e) => manifest_error(keys_xdr@.len(), threshold, extend_to) == Some(e),
            },
    {
        let mut reg = Registry {
            entries: Vec::new(),
            maintenance: Maintenance::new(REGISTRY_THRESHOLD, REGISTRY_EXTEND_TO, 0),
        };
        assert(reg@.entries =~= Seq::<EntryView>::empty());
        match reg.register(me, keys_xdr, threshold, extend_to, ledger) {
            Ok(_) => Ok(reg),
            Err(e) => Err(e),
        }
    }

    /// The index position of `contract`'s entry, if it has one.
    fn find(&self, contract: &Address) -> (r: Option<usize>)
        requires
            self.wf(),
        ensures
            match r {
                Some(i) => i < self@.entries.len() && slot_of(self@.entries, contract@) == i
                    && contains(self@.entries, contract@),
                None => !contains(self@.entries, contract@),
            },
    {
        let mut i: usize = 0;
        while i < self.entries.len()
            invariant
                i <= self.entries@.len(),
                self.wf(),
                forall|j: int| 0 <= j < i ==> (#[trigger] self@.entries[j]).contract != contract@,
            decreases self.entries.len() - i,
        {
            assert(self@.entries[i as int] == self.entries@[i as int]@);
            if self.entries[i].contract.same(contract) {
                proof {
                    lemma_slot_unique(self@.entries, contract@, i as int);
                }
                return Some(i);
            }
            i = i + 1;
        }
        None
    }

    /// Registers `contract`'s manifest at `ledger`. The contract must have
    /// authorized the call.
    ///
    /// Errors `EmptyManifest`, `InvalidParams`, `AlreadyRegistered`, checked in
    /// that order; on error nothing changes.
    pub fn register(
        &mut self,
        contract: Address,
        keys_xdr: Vec<Vec<u8>>,
        threshold: u32,
        extend_to: u32,
        ledger: u32,
    ) -> (r: Result<Registered, RegistryError>)
        requires
            old(self).wf(),
            register_succeeds(old(self)@, contract@, keys_xdr@.len(), threshold, extend_to)
                ==> old(self)@.entries.len() < u32::MAX,
            keys_xdr@.len() <= u32::MAX,
        ensures
            final(self).wf(),
            (final(self)@, result_view(r)) == spec_register(
                old(self)@,
                contract@,
                blobs_view(keys_xdr@),
                threshold,
                extend_to,
                ledger,
            ),
    {
        let found = self.find(&contract);
        let ghost keys = blobs_view(keys_xdr@);
        let (entry, ev) = match add_entry(found.is_some(), contract, keys_xdr, threshold, extend_to, ledger) {
            Ok(p) => p,
            Err(e) => return Err(e),
        };
        let ghost before = self@;
        self.entries.push(entry);
        proof {
            assert(self@.entries =~= before.entries.push(entry@));
            lemma_register_wf(before, contract@, keys, threshold, extend_to, ledger);
        }
        Ok(ev)
    }

    /// Replaces `contract`'s manifest and terms at `ledger`, keeping its slot
    /// and registration ledger. The contract must have authorized the call.
    ///
    /// Errors `NotRegistered`, `EmptyManifest`, `InvalidParams`, checked in that
    /// order; on error nothing changes.
    pub fn update(
        &mut self,
        contract: Address,
        keys_xdr: Vec<Vec<u8>>,
        threshold: u32,
        extend_to: u32,
        ledger: u32,
    ) -> (r: Result<Updated, RegistryError>)
        requires
            old(self).wf(),
            keys_xdr@.len() <= u32::MAX,
        ensures
            final(self).wf(),
            (final(self)@, result_view(r)) == spec_update(
                old(self)@,
                contract@,
                blobs_view(keys_xdr@),
                threshold,
                extend_to,
                ledger,
            ),
    {
        let ghost keys = blobs_view(keys_xdr@);
        let found = self.find(&contract);
        let existing = match found {
            Some(i) => Some(self.entries[i].copy()),
            None => None,
        };
        proof {
            if found is Some {
                assert(self@.entries[found->0 as int] == self.entries@[found->0 as int]@);
            }
        }
        let (entry, ev) = match update_entry(&contract, existing, keys_xdr, threshold, extend_to, ledger) {
            Ok(p) => p,
            Err(e) => return Err(e),
        };
        let i = found.unwrap();
        let ghost before = self@;
        self.entries.set(i, entry);
        proof {
            assert(self@.entries =~= before.entries.update(i as int, entry@));
            lemma_update_wf(before, contract@, keys, threshold, extend_to, ledger);
        }
        Ok(ev)
    }

    /// Removes `contract`'s manifest at `ledger`: the last entry moves into its
    /// slot, keeping the index contiguous. The contract must have authorized
    /// the call.
    ///
    /// Errors `NotRegistered`; on error nothing changes.
    pub fn deregister(&mut self, contract: Address, ledger: u32) -> (r: Result<Deregistered, RegistryError>)
        requires
            old(self).wf(),
        ensures
            final(self).wf(),
            (final(self)@, result_view(r)) == spec_deregister(old(self)@, contract@, ledger),
    {
        let found = self.find(&contract);
        let slot = match found {
            Some(i) => Some(i as u32),
            None => None,
        };
        let (s, _last) = match removal(slot, self.entries.len() as u32) {
            Ok(p) => p,
            Err(e) => return Err(e),
        };
        let ghost before = self@;
        let ghost removed_at = s as int;
        let _gone = self.entries.swap_remove(s as usize);
        proof {
            assert(self@.entries =~= before.entries.update(removed_at, before.entries.last()).drop_last());
            lemma_deregister_wf(before, contract@, ledger);
        }
        Ok(Deregistered { contract, ledger })
    }

    /// `contract`'s manifest entry, or `None` if it is not registered.
    pub fn get(&self, contract: &Address) -> (r: Option<RegistryEntry>)
        requires
            self.wf(),
        ensures
            crate::option_view(r) == lookup(self@.entries, contract@),
    {
        match self.find(contract) {
            Some(i) => {
                assert(self@.entries[i as int] == self.entries@[i as int]@);
                Some(self.entries[i].copy())
            },
            None => None,
        }
    }

    /// The number of registered contracts.
    pub fn count(&self) -> (r: u32)
        requires
            self.wf(),
        ensures
            r == self@.entries.len(),
    {
        self.entries.len() as u32
    }

    /// A page of at most `limit` entries in index order, from position
    /// `start`. Fewer come back when the page runs past the end, none when
    /// `start` is at or past the count.
    ///
    /// Errors `LimitTooLarge` if `limit` is above [`PAGE_LIMIT`].
    pub fn page(&self, start: u32, limit: u32) -> (r: Result<Vec<RegistryEntry>, RegistryError>)
        requires
            self.wf(),
        ensures
            match r {
                Ok(v) => spec_page(self@.entries, start, limit) == Ok::<Seq<EntryView>, RegistryError>(
                    entries_view(v@),
                ),
                Err(e) => spec_page(self@.entries, start, limit) == Err::<Seq<EntryView>, RegistryError>(e),
            },
    {
        let (from, to) = match page_bounds(start, limit, self.entries.len() as u32) {
            Ok(b) => b,
            Err(e) => return Err(e),
        };
        let mut out: Vec<RegistryEntry> = Vec::new();
        if from >= to {
            assert(entries_view(out@) =~= Seq::<EntryView>::empty());
            return Ok(out);
        }
        let mut i: u32 = from;
        while i < to
            invariant
                from <= i <= to,
                to <= self@.entries.len(),
                self@.entries.len() == self.entries@.len(),
                entries_view(out@) == self@.entries.subrange(from as int, i as int),
            decreases to - i,
        {
            assert(self@.entries[i as int] == self.entries@[i as int]@);
            let e = self.entries[i as usize].copy();
            let ghost before = out@;
            out.push(e);
            proof {
                assert(entries_view(before).len() == before.len());
                assert forall|k: int| 0 <= k < out@.len() implies #[trigger] entries_view(out@)[k]
                    == self@.entries.subrange(from as int, i + 1)[k] by {
                    if k < before.len() {
                        assert(entries_view(before)[k] == self@.entries.subrange(from as int, i as int)[k]);
                    }
                }
            }
            i = i + 1;
            assert(entries_view(out@) =~= self@.entries.subrange(from as int, i as int));
        }
        Ok(out)
    }

    /// Runs the registry's own maintenance at `ledger` for `keeper`, who has
    /// authorized it. Only the registry's instance entry is extended.
    pub fn extend_all(&mut self, keeper: Address, ledger: u32, max_ttl: u32) -> (r: Result<
        Maintained,
        MaintainableError,
    >)
        requires
            old(self).wf(),
        ensures
            final(self).wf(),
            final(self)@.entries == old(self)@.entries,
            (final(self)@.maintenance, result_view(r)) == spec_extend_all(
                old(self)@.maintenance,
                keeper@,
                ledger,
                max_ttl,
            ),
    {
        let r = self.maintenance.extend_all(keeper, ledger, max_ttl);
        assert(self@.entries == entries_view(self.entries@));
        r
    }

    /// The registry's last maintenance record. Errors `NotMaintained` if no
    /// maintenance has run yet.
    pub fn lk_state(&self) -> (r: Result<MaintenanceState, MaintainableError>)
        ensures
            result_view(r) == spec_lk_state(self@.maintenance.state),
    {
        self.maintenance.lk_state()
    }
}



} // verus!

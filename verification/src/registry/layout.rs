//! How the registry lays its index out in storage, the writes each operation
//! makes, and the proof that those writes keep storage laid out as the index.

use vstd::prelude::*;

use crate::address::Address;
use crate::registry::{
    contains, distinct, lemma_slot_unique, register_succeeds, lookup, registry_wf, slot_of, spec_add_entry,
    spec_deregister, spec_register, spec_removal, spec_update, spec_update_entry, DeregisteredView,
    EntryView, ManifestEventView, RegistryEntry, RegistryError, RegistryView,
};

verus! {

/// Abstract value of a [`RegistryWrite`].
pub enum WriteView {
    SetEntry(EntryView),
    RemoveEntry(Seq<u8>),
    SetSlot(Seq<u8>, u32),
    RemoveSlot(Seq<u8>),
    SetIndex(u32, Seq<u8>),
    RemoveIndex(u32),
    SetCount(u32),
}

/// One write to the registry's storage: an entry keyed by its contract, the
/// slot a contract occupies, the contract at an index position, or the count.
pub enum RegistryWrite {
    SetEntry(RegistryEntry),
    RemoveEntry(Address),
    SetSlot(Address, u32),
    RemoveSlot(Address),
    SetIndex(u32, Address),
    RemoveIndex(u32),
    SetCount(u32),
}

impl View for RegistryWrite {
    type V = WriteView;

    open spec fn view(&self) -> WriteView {
        match self {
            RegistryWrite::SetEntry(e) => WriteView::SetEntry(e@),
            RegistryWrite::RemoveEntry(a) => WriteView::RemoveEntry(a@),
            RegistryWrite::SetSlot(a, i) => WriteView::SetSlot(a@, *i),
            RegistryWrite::RemoveSlot(a) => WriteView::RemoveSlot(a@),
            RegistryWrite::SetIndex(i, a) => WriteView::SetIndex(*i, a@),
            RegistryWrite::RemoveIndex(i) => WriteView::RemoveIndex(*i),
            RegistryWrite::SetCount(n) => WriteView::SetCount(*n),
        }
    }
}

/// The abstract values of a list of writes.
pub open spec fn writes_view(ws: Seq<RegistryWrite>) -> Seq<WriteView> {
    ws.map_values(|w: RegistryWrite| w@)
}

/// The registry's storage: `Entry(contract)`, `Slot(contract)`,
/// `Index(position)` and the count.
pub struct StoreView {
    pub entries: Map<Seq<u8>, EntryView>,
    pub slots: Map<Seq<u8>, u32>,
    pub index: Map<u32, Seq<u8>>,
    pub count: u32,
}

/// The storage after one write.
pub open spec fn apply_write(st: StoreView, w: WriteView) -> StoreView {
    match w {
        WriteView::SetEntry(e) => StoreView { entries: st.entries.insert(e.contract, e), ..st },
        WriteView::RemoveEntry(a) => StoreView { entries: st.entries.remove(a), ..st },
        WriteView::SetSlot(a, i) => StoreView { slots: st.slots.insert(a, i), ..st },
        WriteView::RemoveSlot(a) => StoreView { slots: st.slots.remove(a), ..st },
        WriteView::SetIndex(i, a) => StoreView { index: st.index.insert(i, a), ..st },
        WriteView::RemoveIndex(i) => StoreView { index: st.index.remove(i), ..st },
        WriteView::SetCount(n) => StoreView { count: n, ..st },
    }
}

/// The storage after a list of writes, applied in order.
pub open spec fn apply_writes(st: StoreView, ws: Seq<WriteView>) -> StoreView
    decreases ws.len(),
{
    if ws.len() == 0 {
        st
    } else {
        apply_writes(apply_write(st, ws[0]), ws.drop_first())
    }
}

/// How an index of entries is laid out in storage: each contract's entry
/// under its address, its position under `Slot`, each position's contract
/// under `Index`, and the count.
pub open spec fn store_of(s: Seq<EntryView>) -> StoreView {
    StoreView {
        entries: Map::new(|a: Seq<u8>| contains(s, a), |a: Seq<u8>| s[slot_of(s, a)]),
        slots: Map::new(|a: Seq<u8>| contains(s, a), |a: Seq<u8>| slot_of(s, a) as u32),
        index: Map::new(|i: u32| i < s.len(), |i: u32| s[i as int].contract),
        count: s.len() as u32,
    }
}

/// The writes of a registration that appends `entry` at position `count`.
pub open spec fn spec_registration_writes(entry: EntryView, count: u32) -> Seq<WriteView> {
    seq![
        WriteView::SetEntry(entry),
        WriteView::SetIndex(count, entry.contract),
        WriteView::SetSlot(entry.contract, count),
        WriteView::SetCount((count + 1) as u32),
    ]
}

/// The storage writes that store a registered `entry` and append it to an
/// index of `count` contracts.
pub fn registration_writes(entry: RegistryEntry, count: u32) -> (r: Vec<RegistryWrite>)
    requires
        count < u32::MAX,
    ensures
        writes_view(r@) == spec_registration_writes(entry@, count),
{
    let c1 = entry.contract.copy();
    let c2 = entry.contract.copy();
    let mut ws: Vec<RegistryWrite> = Vec::new();
    ws.push(RegistryWrite::SetEntry(entry));
    ws.push(RegistryWrite::SetIndex(count, c1));
    ws.push(RegistryWrite::SetSlot(c2, count));
    ws.push(RegistryWrite::SetCount(count + 1));
    assert(writes_view(ws@) =~= spec_registration_writes(entry@, count));
    ws
}

/// The writes of a removal of `contract` from `slot` when `last` is the last
/// position and `moved` is the contract stored there, if it is to move.
pub open spec fn spec_removal_writes(contract: Seq<u8>, slot: u32, last: u32, moved: Option<Seq<u8>>) -> Seq<
    WriteView,
> {
    let tail = seq![
        WriteView::RemoveIndex(last),
        WriteView::RemoveSlot(contract),
        WriteView::RemoveEntry(contract),
        WriteView::SetCount(last),
    ];
    match moved {
        Some(m) => seq![WriteView::SetIndex(slot, m), WriteView::SetSlot(m, slot)] + tail,
        None => tail,
    }
}

/// The storage writes of a removal: when `moved`, the contract read at the
/// last position, is given, it takes over `slot`; then the last position,
/// the contract's slot and entry are dropped, and `last` becomes the count.
pub fn removal_writes(contract: Address, slot: u32, last: u32, moved: Option<Address>) -> (r: Vec<RegistryWrite>)
    ensures
        writes_view(r@) == spec_removal_writes(contract@, slot, last, crate::option_view(moved)),
{
    let mut ws: Vec<RegistryWrite> = Vec::new();
    match moved {
        Some(m) => {
            let m2 = m.copy();
            ws.push(RegistryWrite::SetIndex(slot, m));
            ws.push(RegistryWrite::SetSlot(m2, slot));
        },
        None => {},
    }
    let c1 = contract.copy();
    let c2 = contract.copy();
    ws.push(RegistryWrite::RemoveIndex(last));
    ws.push(RegistryWrite::RemoveSlot(c1));
    ws.push(RegistryWrite::RemoveEntry(c2));
    ws.push(RegistryWrite::SetCount(last));
    assert(writes_view(ws@) =~= spec_removal_writes(contract@, slot, last, crate::option_view(moved)));
    ws
}

/// The storage write of an update: the entry, in place.
pub fn update_writes(entry: RegistryEntry) -> (r: Vec<RegistryWrite>)
    ensures
        writes_view(r@) == seq![WriteView::SetEntry(entry@)],
{
    let mut ws: Vec<RegistryWrite> = Vec::new();
    ws.push(RegistryWrite::SetEntry(entry));
    assert(writes_view(ws@) =~= seq![WriteView::SetEntry(entry@)]);
    ws
}

/// Storage stays laid out as the index: appending an entry through the
/// registration writes gives the storage of the index with that entry
/// appended.
pub proof fn lemma_registration_writes_store(s: Seq<EntryView>, e: EntryView)
    requires
        distinct(s),
        !contains(s, e.contract),
        s.len() < u32::MAX,
    ensures
        apply_writes(store_of(s), spec_registration_writes(e, s.len() as u32)) == store_of(s.push(e)),
{
    let n = s.len() as int;
    let ws = spec_registration_writes(e, s.len() as u32);
    let s2 = s.push(e);
    reveal_with_fuel(apply_writes, 5);
    assert(ws.drop_first().drop_first().drop_first().drop_first() =~= Seq::<WriteView>::empty());
    let got = apply_writes(store_of(s), ws);
    let want = store_of(s2);
    assert(distinct(s2)) by {
        assert forall|i: int, j: int| 0 <= i < s2.len() && 0 <= j < s2.len() && i != j implies (
        #[trigger] s2[i]).contract != (#[trigger] s2[j]).contract by {
            if i < n && j < n {
                assert(s[i].contract != s[j].contract);
            } else if i == n {
                assert(s2[j] == s[j]);
            } else {
                assert(s2[i] == s[i]);
            }
        }
    }
    lemma_slot_unique(s2, e.contract, n);
    assert forall|a: Seq<u8>| #[trigger] contains(s2, a) == (contains(s, a) || a == e.contract) by {
        if contains(s, a) {
            let k = slot_of(s, a);
            assert(s2[k] == s[k]);
        }
        if contains(s2, a) && a != e.contract {
            let k = slot_of(s2, a);
            assert(s2[k] == s[k]);
        }
    }
    assert forall|a: Seq<u8>| contains(s, a) implies slot_of(s2, a) == slot_of(s, a) && s2[slot_of(s2, a)]
        == s[slot_of(s, a)] by {
        let k = slot_of(s, a);
        assert(s2[k] == s[k]);
        lemma_slot_unique(s2, a, k);
    }
    assert(got.entries =~= want.entries);
    assert(got.slots =~= want.slots);
    assert(got.index =~= want.index);
}

/// Storage stays laid out as the index: removing a contract through the
/// removal writes, with the contract read at the last position moving into
/// the freed slot when the two differ, gives the storage of the index after
/// the swap-remove.
pub proof fn lemma_removal_writes_store(s: Seq<EntryView>, contract: Seq<u8>)
    requires
        distinct(s),
        contains(s, contract),
        s.len() <= u32::MAX,
    ensures
        ({
            let k = slot_of(s, contract);
            let last = s.len() - 1;
            let ws = spec_removal_writes(
                contract,
                k as u32,
                last as u32,
                if k != last { Some(store_of(s).index[last as u32]) } else { None },
            );
            &&& k != last ==> store_of(s).index.dom().contains(last as u32) && store_of(s).index[last as u32]
                == s.last().contract
            &&& apply_writes(store_of(s), ws) == store_of(s.update(k, s.last()).drop_last())
        }),
{
    let k = slot_of(s, contract);
    lemma_slot_unique(s, contract, k);
    let n = s.len() as int;
    let last = n - 1;
    let s2 = s.update(k, s.last()).drop_last();
    let st = store_of(s);
    let want = store_of(s2);
    reveal_with_fuel(apply_writes, 7);
    assert(distinct(s2)) by {
        assert forall|a: int, b: int| 0 <= a < s2.len() && 0 <= b < s2.len() && a != b implies (
        #[trigger] s2[a]).contract != (#[trigger] s2[b]).contract by {
            let ia = if a == k { last } else { a };
            let ib = if b == k { last } else { b };
            assert(s2[a] == s[ia]);
            assert(s2[b] == s[ib]);
            assert(s[ia].contract != s[ib].contract);
        }
    }
    // Which contracts the smaller index holds, and where.
    assert forall|a: Seq<u8>| #[trigger] contains(s2, a) == (contains(s, a) && a != contract) by {
        if contains(s2, a) {
            let j = slot_of(s2, a);
            let ij = if j == k { last } else { j };
            assert(s2[j] == s[ij]);
            assert(s[ij].contract != s[k].contract);
        }
        if contains(s, a) && a != contract {
            let j = slot_of(s, a);
            let j2 = if j == last { k } else { j };
            assert(s2[j2] == s[j]);
        }
    }
    assert forall|a: Seq<u8>| contains(s, a) && a != contract implies slot_of(s2, a) == (if slot_of(s, a)
        == last { k } else { slot_of(s, a) }) && s2[slot_of(s2, a)] == s[slot_of(s, a)] by {
        let j = slot_of(s, a);
        let j2 = if j == last { k } else { j };
        assert(s2[j2] == s[j]);
        lemma_slot_unique(s2, a, j2);
    }
    if k != last {
        let m = s.last().contract;
        let ws = spec_removal_writes(contract, k as u32, last as u32, Some(m));
        assert(ws.drop_first().drop_first().drop_first().drop_first().drop_first().drop_first() =~= Seq::<
            WriteView,
        >::empty());
        let got = apply_writes(st, ws);
        lemma_slot_unique(s, m, last);
        assert(got.entries =~= want.entries);
        assert(got.slots =~= want.slots);
        assert(got.index =~= want.index);
    } else {
        let ws = spec_removal_writes(contract, k as u32, last as u32, None);
        assert(ws.drop_first().drop_first().drop_first().drop_first() =~= Seq::<WriteView>::empty());
        let got = apply_writes(st, ws);
        assert(got.entries =~= want.entries);
        assert(got.slots =~= want.slots);
        assert(got.index =~= want.index);
    }
}

/// Storage stays laid out as the index: an update's single write gives the
/// storage of the index with the entry replaced in its slot.
pub proof fn lemma_update_writes_store(s: Seq<EntryView>, e: EntryView)
    requires
        distinct(s),
        contains(s, e.contract),
    ensures
        apply_writes(store_of(s), seq![WriteView::SetEntry(e)]) == store_of(
            s.update(slot_of(s, e.contract), e),
        ),
{
    let k = slot_of(s, e.contract);
    lemma_slot_unique(s, e.contract, k);
    let s2 = s.update(k, e);
    reveal_with_fuel(apply_writes, 2);
    assert(seq![WriteView::SetEntry(e)].drop_first() =~= Seq::<WriteView>::empty());
    assert forall|a: int, b: int| 0 <= a < s2.len() && 0 <= b < s2.len() && a != b implies (
    #[trigger] s2[a]).contract != (#[trigger] s2[b]).contract by {
        assert(s[a].contract != s[b].contract);
    }
    assert forall|a: Seq<u8>| #[trigger] contains(s2, a) == contains(s, a) by {
        if contains(s, a) {
            let j = slot_of(s, a);
            assert(s2[j].contract == s[j].contract);
        }
        if contains(s2, a) {
            let j = slot_of(s2, a);
            assert(s2[j].contract == s[j].contract);
        }
    }
    assert forall|a: Seq<u8>| contains(s, a) implies slot_of(s2, a) == slot_of(s, a) by {
        let j = slot_of(s, a);
        assert(s2[j].contract == s[j].contract);
        lemma_slot_unique(s2, a, j);
    }
    let got = apply_writes(store_of(s), seq![WriteView::SetEntry(e)]);
    let want = store_of(s2);
    assert(got.entries =~= want.entries);
    assert(got.slots =~= want.slots);
    assert(got.index =~= want.index);
}


/// The value stored under `key`, if any.
pub open spec fn stored<K, V>(m: Map<K, V>, key: K) -> Option<V> {
    if m.dom().contains(key) {
        Some(m[key])
    } else {
        None
    }
}

/// A registration run against storage — reading whether the contract has an
/// entry and the count, deciding with `add_entry`, then applying
/// `registration_writes` — answers as the registry does and leaves the
/// storage of the registry after the registration.
pub proof fn lemma_stored_register(
    v: RegistryView,
    contract: Seq<u8>,
    keys: Seq<Seq<u8>>,
    threshold: u32,
    extend_to: u32,
    ledger: u32,
)
    requires
        registry_wf(v),
        register_succeeds(v, contract, keys.len(), threshold, extend_to) ==> v.entries.len() < u32::MAX,
    ensures
        ({
            let st = store_of(v.entries);
            let (v2, r) = spec_register(v, contract, keys, threshold, extend_to, ledger);
            match spec_add_entry(st.entries.dom().contains(contract), contract, keys, threshold, extend_to, ledger) {
                Ok((entry, ev)) => r == Ok::<ManifestEventView, RegistryError>(ev) && apply_writes(
                    st,
                    spec_registration_writes(entry, st.count),
                ) == store_of(v2.entries),
                Err(e) => r == Err::<ManifestEventView, RegistryError>(e) && v2 == v,
            }
        }),
{
    lemma_store_reads(v.entries, contract, 0);
    if let Ok((entry, _)) = spec_add_entry(contains(v.entries, contract), contract, keys, threshold, extend_to, ledger) {
        lemma_registration_writes_store(v.entries, entry);
    }
}

/// An update run against storage — reading the contract's entry, deciding
/// with `update_entry`, then applying `update_writes` — answers as the
/// registry does and leaves the storage of the registry after the update.
pub proof fn lemma_stored_update(
    v: RegistryView,
    contract: Seq<u8>,
    keys: Seq<Seq<u8>>,
    threshold: u32,
    extend_to: u32,
    ledger: u32,
)
    requires
        registry_wf(v),
    ensures
        ({
            let st = store_of(v.entries);
            let (v2, r) = spec_update(v, contract, keys, threshold, extend_to, ledger);
            match spec_update_entry(contract, stored(st.entries, contract), keys, threshold, extend_to, ledger) {
                Ok((entry, ev)) => r == Ok::<ManifestEventView, RegistryError>(ev) && apply_writes(
                    st,
                    seq![WriteView::SetEntry(entry)],
                ) == store_of(v2.entries),
                Err(e) => r == Err::<ManifestEventView, RegistryError>(e) && v2 == v,
            }
        }),
{
    lemma_store_reads(v.entries, contract, 0);
    if contains(v.entries, contract) {
        let k = slot_of(v.entries, contract);
        lemma_slot_unique(v.entries, contract, k);
        assert(stored(store_of(v.entries).entries, contract) == lookup(v.entries, contract));
        if let Ok((entry, _)) = spec_update_entry(contract, lookup(v.entries, contract), keys, threshold, extend_to, ledger) {
            lemma_update_writes_store(v.entries, entry);
        }
    }
}

/// A removal run against storage — reading the contract's slot and the
/// count, deciding with `removal`, reading the contract at the last position
/// when it differs from the slot, then applying `removal_writes` — answers as
/// the registry does and leaves the storage of the registry after the
/// swap-remove.
pub proof fn lemma_stored_deregister(v: RegistryView, contract: Seq<u8>, ledger: u32)
    requires
        registry_wf(v),
    ensures
        ({
            let st = store_of(v.entries);
            let (v2, r) = spec_deregister(v, contract, ledger);
            match spec_removal(stored(st.slots, contract), st.count) {
                Ok((slot, last)) => {
                    let moved = if slot != last {
                        stored(st.index, last)
                    } else {
                        None
                    };
                    &&& r == Ok::<DeregisteredView, RegistryError>(DeregisteredView { contract, ledger })
                    &&& apply_writes(st, spec_removal_writes(contract, slot, last, moved)) == store_of(v2.entries)
                },
                Err(e) => r == Err::<DeregisteredView, RegistryError>(e) && v2 == v,
            }
        }),
{
    lemma_store_reads(v.entries, contract, 0);
    if contains(v.entries, contract) {
        lemma_removal_writes_store(v.entries, contract);
        let k = slot_of(v.entries, contract);
        let last = v.entries.len() - 1;
        if k != last {
            lemma_store_reads(v.entries, contract, last as u32);
        }
    }
}

/// Reads from storage give the index: a contract's stored entry is its
/// entry, the count is the number of entries, and the entry stored under
/// the contract at each position below the count is the entry at that
/// position, so a page read position by position is the page of the index.
pub proof fn lemma_store_reads(s: Seq<EntryView>, contract: Seq<u8>, i: u32)
    requires
        distinct(s),
        s.len() <= u32::MAX,
    ensures
        store_of(s).entries.dom().contains(contract) == contains(s, contract),
        contains(s, contract) ==> Some(store_of(s).entries[contract]) == lookup(s, contract),
        store_of(s).count == s.len(),
        i < s.len() ==> store_of(s).index.dom().contains(i) && store_of(s).entries.dom().contains(
            store_of(s).index[i],
        ) && store_of(s).entries[store_of(s).index[i]] == s[i as int],
{
    if i < s.len() {
        lemma_slot_unique(s, s[i as int].contract, i as int);
    }
}
} // verus!

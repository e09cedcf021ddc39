//! Laws of the registry: what reads give back after writes, what removal
//! moves, how pages cover the index, and what refusals leave alone.

use vstd::prelude::*;

use crate::maintainable::{spec_extend_all, spec_lk_state, MaintainableError, MaintenanceStateView};
use crate::registry::{
    contains, distinct, lemma_deregister_wf, lemma_register_wf, lemma_slot_unique, lemma_update_wf,
    lookup, manifest_error, register_succeeds, registry_wf, slot_of,
    spec_deregister, spec_page, spec_register, spec_update, DeregisteredView,
    EntryView, ManifestEventView, RegistryError, RegistryView, PAGE_LIMIT, REGISTRY_EXTEND_TO,
};

verus! {


/// What a registration writes is what a read then returns: the new contract's
/// entry is exactly the registered manifest and terms, registered and updated
/// at the registration ledger; the count grows by one; every other
/// contract's entry is as it was, and the maintenance record is untouched.
pub proof fn lemma_register_then_get(
    v: RegistryView,
    contract: Seq<u8>,
    keys: Seq<Seq<u8>>,
    threshold: u32,
    extend_to: u32,
    ledger: u32,
)
    requires
        registry_wf(v),
        v.entries.len() < u32::MAX,
        spec_register(v, contract, keys, threshold, extend_to, ledger).1 is Ok,
    ensures
        ({
            let v2 = spec_register(v, contract, keys, threshold, extend_to, ledger).0;
            &&& lookup(v2.entries, contract) == Some(
                EntryView {
                    contract,
                    keys_xdr: keys,
                    threshold,
                    extend_to,
                    registered: ledger,
                    updated: ledger,
                },
            )
            &&& v2.entries.len() == v.entries.len() + 1
            &&& forall|a: Seq<u8>| a != contract ==> #[trigger] lookup(v2.entries, a) == lookup(v.entries, a)
            &&& v2.maintenance == v.maintenance
        }),
{
    let v2 = spec_register(v, contract, keys, threshold, extend_to, ledger).0;
    lemma_register_wf(v, contract, keys, threshold, extend_to, ledger);
    let n = v.entries.len() as int;
    assert(v2.entries == v.entries.push(v2.entries[n]));
    lemma_slot_unique(v2.entries, contract, n);
    assert forall|a: Seq<u8>| a != contract implies #[trigger] lookup(v2.entries, a) == lookup(v.entries, a) by {
        if contains(v.entries, a) {
            let k = slot_of(v.entries, a);
            assert(v2.entries[k] == v.entries[k]);
            lemma_slot_unique(v2.entries, a, k);
        } else {
            if contains(v2.entries, a) {
                let k = slot_of(v2.entries, a);
                if k < n {
                    assert(v.entries[k] == v2.entries[k]);
                }
            }
        }
    }
}

/// Registering a contract and then removing it gives back exactly the index
/// there was before: the newcomer is last, so removal moves nothing.
pub proof fn lemma_register_then_deregister(
    v: RegistryView,
    contract: Seq<u8>,
    keys: Seq<Seq<u8>>,
    threshold: u32,
    extend_to: u32,
    ledger: u32,
    later: u32,
)
    requires
        registry_wf(v),
        v.entries.len() < u32::MAX,
        spec_register(v, contract, keys, threshold, extend_to, ledger).1 is Ok,
    ensures
        spec_deregister(spec_register(v, contract, keys, threshold, extend_to, ledger).0, contract, later)
            == (v, Ok::<DeregisteredView, RegistryError>(DeregisteredView { contract, ledger: later })),
{
    let v2 = spec_register(v, contract, keys, threshold, extend_to, ledger).0;
    lemma_register_wf(v, contract, keys, threshold, extend_to, ledger);
    let n = v.entries.len() as int;
    lemma_slot_unique(v2.entries, contract, n);
    assert(v2.entries.update(n, v2.entries.last()).drop_last() =~= v.entries);
}

/// An update replaces the keys, the terms and the update ledger of the
/// contract's entry in place: the registration ledger, the count and the
/// order of the index stay, and no other entry changes.
pub proof fn lemma_update_in_place(
    v: RegistryView,
    contract: Seq<u8>,
    keys: Seq<Seq<u8>>,
    threshold: u32,
    extend_to: u32,
    ledger: u32,
)
    requires
        registry_wf(v),
        spec_update(v, contract, keys, threshold, extend_to, ledger).1 is Ok,
    ensures
        ({
            let v2 = spec_update(v, contract, keys, threshold, extend_to, ledger).0;
            let old = lookup(v.entries, contract)->0;
            &&& lookup(v2.entries, contract) == Some(
                EntryView { keys_xdr: keys, threshold, extend_to, updated: ledger, ..old },
            )
            &&& old.registered == lookup(v2.entries, contract)->0.registered
            &&& v2.entries.len() == v.entries.len()
            &&& forall|i: int| 0 <= i < v.entries.len() ==> (#[trigger] v2.entries[i]).contract
                == v.entries[i].contract
            &&& forall|a: Seq<u8>| a != contract ==> #[trigger] lookup(v2.entries, a) == lookup(v.entries, a)
        }),
{
    let v2 = spec_update(v, contract, keys, threshold, extend_to, ledger).0;
    lemma_update_wf(v, contract, keys, threshold, extend_to, ledger);
    let k = slot_of(v.entries, contract);
    lemma_slot_unique(v.entries, contract, k);
    lemma_slot_unique(v2.entries, contract, k);
    assert forall|a: Seq<u8>| a != contract implies #[trigger] lookup(v2.entries, a) == lookup(v.entries, a) by {
        if contains(v.entries, a) {
            let j = slot_of(v.entries, a);
            assert(v2.entries[j] == v.entries[j]);
            lemma_slot_unique(v2.entries, a, j);
        } else if contains(v2.entries, a) {
            let j = slot_of(v2.entries, a);
            assert(v2.entries[j].contract == v.entries[j].contract);
        }
    }
}

/// A removal drops exactly the contract's entry: afterwards it is not found,
/// the count is one less, every other contract keeps its entry, every
/// position but the freed one and the last keeps its occupant, and the last
/// entry now fills the freed slot.
pub proof fn lemma_deregister_swap_remove(v: RegistryView, contract: Seq<u8>, ledger: u32)
    requires
        registry_wf(v),
        contains(v.entries, contract),
    ensures
        ({
            let v2 = spec_deregister(v, contract, ledger).0;
            let k = slot_of(v.entries, contract);
            let n = v.entries.len();
            &&& !contains(v2.entries, contract)
            &&& v2.entries.len() == n - 1
            &&& forall|a: Seq<u8>| a != contract ==> #[trigger] lookup(v2.entries, a) == lookup(v.entries, a)
            &&& forall|i: int| 0 <= i < n - 1 && i != k ==> #[trigger] v2.entries[i] == v.entries[i]
            &&& k < n - 1 ==> v2.entries[k] == v.entries[n - 1]
            &&& v2.maintenance == v.maintenance
        }),
{
    let v2 = spec_deregister(v, contract, ledger).0;
    lemma_deregister_wf(v, contract, ledger);
    let k = slot_of(v.entries, contract);
    let n = v.entries.len() as int;
    lemma_slot_unique(v.entries, contract, k);
    if contains(v2.entries, contract) {
        let j = slot_of(v2.entries, contract);
        let ij = if j == k { n - 1 } else { j };
        assert(v2.entries[j] == v.entries[ij]);
        assert(v.entries[ij].contract != v.entries[k].contract);
    }
    assert forall|a: Seq<u8>| a != contract implies #[trigger] lookup(v2.entries, a) == lookup(v.entries, a) by {
        if contains(v.entries, a) {
            let j = slot_of(v.entries, a);
            let j2 = if j == n - 1 { k } else { j };
            assert(v2.entries[j2] == v.entries[j]);
            lemma_slot_unique(v2.entries, a, j2);
        } else if contains(v2.entries, a) {
            let j = slot_of(v2.entries, a);
            let ij = if j == k { n - 1 } else { j };
            assert(v2.entries[j] == v.entries[ij]);
        }
    }
}

/// Pages tile the index: a page of `a` entries followed by the page of `b`
/// entries that starts where it ended is the page of `a + b` entries.
/// (The second page's start must itself be a position, so `start + a` fits.)
pub proof fn lemma_pages_tile(s: Seq<EntryView>, start: u32, a: u32, b: u32)
    requires
        s.len() <= u32::MAX,
        a + b <= PAGE_LIMIT,
        start + a <= u32::MAX,
    ensures
        ({
            let first = spec_page(s, start, a);
            let second = spec_page(s, (start + a) as u32, b);
            let both = spec_page(s, start, (a + b) as u32);
            &&& first is Ok && second is Ok && both is Ok
            &&& both->Ok_0 == first->Ok_0 + second->Ok_0
        }),
{
    let n = s.len() as int;
    let first = spec_page(s, start, a)->Ok_0;
    let second = spec_page(s, (start + a) as u32, b)->Ok_0;
    let both = spec_page(s, start, (a + b) as u32)->Ok_0;
    if start >= n {
        assert(first + second =~= both);
    } else if start + a >= n {
        assert(second =~= Seq::<EntryView>::empty());
        assert(first + second =~= both);
    } else {
        let m = if start + a + b <= n { start + a + b } else { n };
        assert(both =~= s.subrange(start as int, m));
        assert(first =~= s.subrange(start as int, start + a));
        assert(second =~= s.subrange(start + a, m));
        assert(first + second =~= both);
    }
}


/// A page holds `limit` entries, or fewer when it runs past the end, and none
/// when it starts at or past the count.
pub proof fn lemma_page_length(s: Seq<EntryView>, start: u32, limit: u32)
    requires
        s.len() <= u32::MAX,
        limit <= PAGE_LIMIT,
    ensures
        spec_page(s, start, limit) is Ok,
        spec_page(s, start, limit)->Ok_0.len() == if start >= s.len() {
            0
        } else if start + limit <= s.len() {
            limit as int
        } else {
            s.len() - start
        },
{
}

/// When the whole index fits in one page, the first page is the whole index
/// in order.
pub proof fn lemma_single_page(s: Seq<EntryView>, limit: u32)
    requires
        s.len() <= limit <= PAGE_LIMIT,
    ensures
        spec_page(s, 0, limit) == Ok::<Seq<EntryView>, RegistryError>(s),
{
    if s.len() > 0 {
        assert(s.subrange(0, s.len() as int) =~= s);
    } else {
        assert(s =~= Seq::<EntryView>::empty());
    }
}

/// A refused operation changes nothing.
pub proof fn lemma_refusals_change_nothing(
    v: RegistryView,
    contract: Seq<u8>,
    keys: Seq<Seq<u8>>,
    threshold: u32,
    extend_to: u32,
    ledger: u32,
)
    ensures
        spec_register(v, contract, keys, threshold, extend_to, ledger).1 is Err ==> spec_register(
            v,
            contract,
            keys,
            threshold,
            extend_to,
            ledger,
        ).0 == v,
        spec_update(v, contract, keys, threshold, extend_to, ledger).1 is Err ==> spec_update(
            v,
            contract,
            keys,
            threshold,
            extend_to,
            ledger,
        ).0 == v,
        spec_deregister(v, contract, ledger).1 is Err ==> spec_deregister(v, contract, ledger).0 == v,
{
}

/// Registration and removal answer exactly on presence: registering an
/// address that has an entry is refused (once the manifest passes its
/// checks), and removing one that has none is refused.
pub proof fn lemma_presence_decides(
    v: RegistryView,
    contract: Seq<u8>,
    keys: Seq<Seq<u8>>,
    threshold: u32,
    extend_to: u32,
    ledger: u32,
)
    ensures
        manifest_error(keys.len(), threshold, extend_to) is None ==> (spec_register(
            v,
            contract,
            keys,
            threshold,
            extend_to,
            ledger,
        ).1 == Err::<ManifestEventView, RegistryError>(RegistryError::AlreadyRegistered) <==> contains(
            v.entries,
            contract,
        )),
        spec_deregister(v, contract, ledger).1 == Err::<DeregisteredView, RegistryError>(
            RegistryError::NotRegistered,
        ) <==> !contains(v.entries, contract),
        spec_update(v, contract, keys, threshold, extend_to, ledger).1 == Err::<ManifestEventView, RegistryError>(
            RegistryError::NotRegistered,
        ) <==> !contains(v.entries, contract),
{
}


/// The registry's own maintenance: on a well-formed registry a run succeeds
/// exactly when the registry's fixed target TTL fits the network maximum; it
/// then reports the keeper, the ledger and no persistent keys, and the
/// registry stays well formed.
pub proof fn lemma_registry_extend_all(v: RegistryView, keeper: Seq<u8>, ledger: u32, max_ttl: u32)
    requires
        registry_wf(v),
    ensures
        ({
            let (m2, r) = spec_extend_all(v.maintenance, keeper, ledger, max_ttl);
            &&& (r is Ok <==> REGISTRY_EXTEND_TO <= max_ttl)
            &&& r matches Ok(ev) ==> ev.key_count == 0 && ev.ledger == ledger && ev.keeper == keeper
            &&& registry_wf(RegistryView { maintenance: m2, ..v })
        }),
{
}

/// The pages of `limit` entries from position `start` on, one after the
/// other, until the count is reached.
pub open spec fn pages_from(s: Seq<EntryView>, start: int, limit: u32) -> Seq<EntryView>
    decreases (if start < s.len() { s.len() - start } else { 0 }),
{
    if start < 0 || start >= s.len() || limit == 0 {
        Seq::empty()
    } else {
        spec_page(s, start as u32, limit)->Ok_0 + pages_from(s, start + limit, limit)
    }
}

/// The successive pages from `start` cover the rest of the index in order.
pub proof fn lemma_pages_from(s: Seq<EntryView>, start: int, limit: u32)
    requires
        s.len() <= u32::MAX,
        0 < limit <= PAGE_LIMIT,
        0 <= start <= s.len(),
    ensures
        pages_from(s, start, limit) == s.subrange(start, s.len() as int),
    decreases s.len() - start,
{
    if start == s.len() {
        assert(s.subrange(start, s.len() as int) =~= Seq::<EntryView>::empty());
    } else {
        let next = if start + limit <= s.len() { start + limit } else { s.len() as int };
        lemma_pages_from(s, next, limit);
        if start + limit > s.len() {
            assert(pages_from(s, start + limit, limit) =~= Seq::<EntryView>::empty());
        }
        assert(spec_page(s, start as u32, limit)->Ok_0 =~= s.subrange(start, next));
        assert(s.subrange(start, next) + s.subrange(next, s.len() as int) =~= s.subrange(start, s.len() as int));
    }
}

/// Paging visits every registered entry exactly once: the pages from
/// position 0 on are the whole index, so they hold `count` entries, no
/// contract twice, and exactly the registered contracts.
pub proof fn lemma_pages_cover_once(v: RegistryView, limit: u32)
    requires
        registry_wf(v),
        0 < limit <= PAGE_LIMIT,
    ensures
        ({
            let p = pages_from(v.entries, 0, limit);
            &&& p == v.entries
            &&& p.len() == v.entries.len()
            &&& distinct(p)
            &&& forall|a: Seq<u8>| (exists|i: int| 0 <= i < p.len() && (#[trigger] p[i]).contract == a)
                <==> #[trigger] lookup(v.entries, a) is Some
        }),
{
    lemma_pages_from(v.entries, 0, limit);
    assert(v.entries.subrange(0, v.entries.len() as int) =~= v.entries);
}

/// Every entry was registered no later than it was last updated, and updated
/// no later than `now`.
pub open spec fn entries_dated(s: Seq<EntryView>, now: u32) -> bool {
    forall|i: int| 0 <= i < s.len() ==> (#[trigger] s[i]).registered <= s[i].updated && s[i].updated <= now
}

/// A call on the registry, with the ledger it runs at.
pub enum RegistryCall {
    Register { contract: Seq<u8>, keys: Seq<Seq<u8>>, threshold: u32, extend_to: u32, ledger: u32 },
    Update { contract: Seq<u8>, keys: Seq<Seq<u8>>, threshold: u32, extend_to: u32, ledger: u32 },
    Deregister { contract: Seq<u8>, ledger: u32 },
    ExtendAll { keeper: Seq<u8>, ledger: u32, max_ttl: u32 },
}

/// The ledger a call runs at.
pub open spec fn call_ledger(c: RegistryCall) -> u32 {
    match c {
        RegistryCall::Register { ledger, .. } => ledger,
        RegistryCall::Update { ledger, .. } => ledger,
        RegistryCall::Deregister { ledger, .. } => ledger,
        RegistryCall::ExtendAll { ledger, .. } => ledger,
    }
}

/// The registry after a call. A registration that would overflow the count
/// traps, and a trapped call leaves everything as it was.
pub open spec fn apply_registry_call(v: RegistryView, c: RegistryCall) -> RegistryView {
    match c {
        RegistryCall::Register { contract, keys, threshold, extend_to, ledger } => if register_succeeds(
            v,
            contract,
            keys.len(),
            threshold,
            extend_to,
        ) && v.entries.len() >= u32::MAX {
            v
        } else {
            spec_register(v, contract, keys, threshold, extend_to, ledger).0
        },
        RegistryCall::Update { contract, keys, threshold, extend_to, ledger } => spec_update(
            v,
            contract,
            keys,
            threshold,
            extend_to,
            ledger,
        ).0,
        RegistryCall::Deregister { contract, ledger } => spec_deregister(v, contract, ledger).0,
        RegistryCall::ExtendAll { keeper, ledger, max_ttl } => RegistryView {
            maintenance: spec_extend_all(v.maintenance, keeper, ledger, max_ttl).0,
            ..v
        },
    }
}

/// The registry after a sequence of calls, in order.
pub open spec fn run_registry(v: RegistryView, calls: Seq<RegistryCall>) -> RegistryView
    decreases calls.len(),
{
    if calls.len() == 0 {
        v
    } else {
        apply_registry_call(run_registry(v, calls.drop_last()), calls.last())
    }
}

/// The calls run at ledgers that never go back, none before `now`.
pub open spec fn ledgers_ordered(calls: Seq<RegistryCall>, now: u32) -> bool {
    forall|i: int, j: int|
        0 <= i <= j < calls.len() ==> now <= call_ledger(#[trigger] calls[i]) && call_ledger(calls[i])
            <= call_ledger(#[trigger] calls[j])
}

/// The current ledger after the calls: the last call's, or `now`.
pub open spec fn ledger_after(calls: Seq<RegistryCall>, now: u32) -> u32 {
    if calls.len() == 0 {
        now
    } else {
        call_ledger(calls.last())
    }
}

/// One call keeps the registry well formed and its entries dated by the
/// call's ledger, when that ledger is not before `now`.
pub proof fn lemma_call_keeps_order(v: RegistryView, c: RegistryCall, now: u32)
    requires
        registry_wf(v),
        entries_dated(v.entries, now),
        now <= call_ledger(c),
    ensures
        registry_wf(apply_registry_call(v, c)),
        entries_dated(apply_registry_call(v, c).entries, call_ledger(c)),
        apply_registry_call(v, c).maintenance.threshold == v.maintenance.threshold,
        apply_registry_call(v, c).maintenance.extend_to == v.maintenance.extend_to,
        apply_registry_call(v, c).maintenance.key_count == v.maintenance.key_count,
{
    let l = call_ledger(c);
    let v2 = apply_registry_call(v, c);
    match c {
        RegistryCall::Register { contract, keys, threshold, extend_to, ledger } => {
            if !(register_succeeds(v, contract, keys.len(), threshold, extend_to) && v.entries.len() >= u32::MAX) {
                lemma_register_wf(v, contract, keys, threshold, extend_to, ledger);
                let n = v.entries.len() as int;
                assert forall|i: int| 0 <= i < v2.entries.len() implies (#[trigger] v2.entries[i]).registered
                    <= v2.entries[i].updated && v2.entries[i].updated <= l by {
                    if i < n {
                        assert(v2.entries[i] == v.entries[i]);
                    }
                }
            }
        },
        RegistryCall::Update { contract, keys, threshold, extend_to, ledger } => {
            lemma_update_wf(v, contract, keys, threshold, extend_to, ledger);
            if contains(v.entries, contract) {
                let k = slot_of(v.entries, contract);
                lemma_slot_unique(v.entries, contract, k);
                assert forall|i: int| 0 <= i < v2.entries.len() implies (#[trigger] v2.entries[i]).registered
                    <= v2.entries[i].updated && v2.entries[i].updated <= l by {
                    assert(v.entries[i].registered <= v.entries[i].updated);
                }
            }
        },
        RegistryCall::Deregister { contract, ledger } => {
            lemma_deregister_wf(v, contract, ledger);
            if contains(v.entries, contract) {
                let k = slot_of(v.entries, contract);
                let n = v.entries.len() as int;
                assert forall|i: int| 0 <= i < v2.entries.len() implies (#[trigger] v2.entries[i]).registered
                    <= v2.entries[i].updated && v2.entries[i].updated <= l by {
                    let j = if i == k { n - 1 } else { i };
                    assert(v2.entries[i] == v.entries[j]);
                }
            }
        },
        RegistryCall::ExtendAll { .. } => {
            assert forall|i: int| 0 <= i < v2.entries.len() implies (#[trigger] v2.entries[i]).registered
                <= v2.entries[i].updated && v2.entries[i].updated <= l by {
                assert(v2.entries[i] == v.entries[i]);
            }
        },
    }
}

/// Over any sequence of calls at ledgers that never go back, the registry
/// stays well formed and every entry's registration ledger is no later than
/// its update ledger, which is no later than the current ledger; the
/// registry's maintenance terms never change.
pub proof fn lemma_run_keeps_order(v: RegistryView, calls: Seq<RegistryCall>, now: u32)
    requires
        registry_wf(v),
        entries_dated(v.entries, now),
        ledgers_ordered(calls, now),
    ensures
        registry_wf(run_registry(v, calls)),
        entries_dated(run_registry(v, calls).entries, ledger_after(calls, now)),
        run_registry(v, calls).maintenance.threshold == v.maintenance.threshold,
        run_registry(v, calls).maintenance.extend_to == v.maintenance.extend_to,
        run_registry(v, calls).maintenance.key_count == v.maintenance.key_count,
    decreases calls.len(),
{
    if calls.len() > 0 {
        let init = calls.drop_last();
        assert forall|i: int, j: int| 0 <= i <= j < init.len() implies now <= call_ledger(#[trigger] init[i])
            && call_ledger(init[i]) <= call_ledger(#[trigger] init[j]) by {
            assert(init[i] == calls[i] && init[j] == calls[j]);
        }
        lemma_run_keeps_order(v, init, now);
        let last = calls.len() - 1;
        assert(calls.last() == calls[last]);
        if init.len() > 0 {
            assert(init.last() == calls[last - 1]);
            assert(call_ledger(calls[last - 1]) <= call_ledger(calls[last]));
        } else {
            assert(now <= call_ledger(calls[last]));
        }
        lemma_call_keeps_order(run_registry(v, init), calls.last(), ledger_after(init, now));
    }
}

/// The record left by the calls: that of the last maintenance run that
/// succeeded (its target TTL fitting the network maximum), or the record
/// there was before the calls when none did.
pub open spec fn record_after(init: Option<MaintenanceStateView>, calls: Seq<RegistryCall>) -> Option<
    MaintenanceStateView,
>
    decreases calls.len(),
{
    if calls.len() == 0 {
        init
    } else {
        match calls.last() {
            RegistryCall::ExtendAll { keeper, ledger, max_ttl } => if REGISTRY_EXTEND_TO <= max_ttl {
                Some(MaintenanceStateView { last_maintained: ledger, last_keeper: keeper })
            } else {
                record_after(init, calls.drop_last())
            },
            _ => record_after(init, calls.drop_last()),
        }
    }
}

/// After any sequence of calls, the registry's maintenance record is that of
/// the most recent successful maintenance run; a freshly deployed registry
/// with no successful run since reads `NotMaintained`.
pub proof fn lemma_registry_record(v: RegistryView, calls: Seq<RegistryCall>)
    requires
        registry_wf(v),
    ensures
        run_registry(v, calls).maintenance.state == record_after(v.maintenance.state, calls),
        v.maintenance.state is None ==> spec_lk_state(run_registry(v, calls).maintenance.state) == match record_after(
            None,
            calls,
        ) {
            Some(s) => Ok::<MaintenanceStateView, MaintainableError>(s),
            None => Err(MaintainableError::NotMaintained),
        },
    decreases calls.len(),
{
    if calls.len() > 0 {
        let init = calls.drop_last();
        lemma_registry_record(v, init);
        lemma_run_terms(v, init);
    }
}

/// The registry's maintenance terms never change over a sequence of calls,
/// and it stays well formed.
pub proof fn lemma_run_terms(v: RegistryView, calls: Seq<RegistryCall>)
    requires
        registry_wf(v),
    ensures
        registry_wf(run_registry(v, calls)),
    decreases calls.len(),
{
    if calls.len() > 0 {
        let init = calls.drop_last();
        lemma_run_terms(v, init);
        let w = run_registry(v, init);
        match calls.last() {
            RegistryCall::Register { contract, keys, threshold, extend_to, ledger } => {
                if !(register_succeeds(w, contract, keys.len(), threshold, extend_to) && w.entries.len()
                    >= u32::MAX) {
                    lemma_register_wf(w, contract, keys, threshold, extend_to, ledger);
                }
            },
            RegistryCall::Update { contract, keys, threshold, extend_to, ledger } => {
                lemma_update_wf(w, contract, keys, threshold, extend_to, ledger);
            },
            RegistryCall::Deregister { contract, ledger } => {
                lemma_deregister_wf(w, contract, ledger);
            },
            RegistryCall::ExtendAll { .. } => {},
        }
    }
}

} // verus!

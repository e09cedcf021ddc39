use ledgerkeep::address::Address;
use ledgerkeep::maintainable::MaintainableError;
use ledgerkeep::registry::{
    add_entry, count_can_grow, manifest_authorizer, removal_is_defined, page_bounds, registration_writes, removal, removal_writes, update_entry, Registry,
    RegistryEntry, RegistryError, RegistryWrite, REGISTRY_EXTEND_TO,
};

/// A distinct address per name.
fn addr(name: &str) -> Address {
    Address::from_bytes(name.as_bytes().to_vec())
}

fn manifest() -> Vec<Vec<u8>> {
    vec![vec![1u8, 2, 3, 4]]
}

/// The registry's own address; its constructor self-registers it at index 0.
fn registry_id() -> Address {
    addr("CREGISTRY")
}

/// Deploy the registry at ledger 0. The count starts at 1.
fn deploy() -> Registry {
    Registry::new(registry_id(), manifest(), 100, 1000, 0).unwrap()
}

/// A network maximum TTL above the registry's own `extend_to`.
const MAX_TTL: u32 = 6_312_000;

#[test]
fn constructor_self_registers() {
    let reg = deploy();
    assert_eq!(reg.count(), 1);
    let entry = reg.get(&registry_id()).unwrap();
    assert!(entry.contract.same(&registry_id()));
}

#[test]
fn register_update_deregister_round_trip() {
    let mut reg = deploy();
    let mut ledger: u32 = 0;

    let a = addr("GA");
    reg.register(addr("GA"), manifest(), 100, 1000, ledger).unwrap();
    assert!(reg.get(&a).is_some());
    assert_eq!(reg.count(), 2);

    let registered = reg.get(&a).unwrap().registered;

    // Advance so `updated` differs from `registered`.
    ledger += 10;
    let m2 = vec![vec![9u8], vec![8u8]];
    reg.update(addr("GA"), m2, 200, 2000, ledger).unwrap();

    let entry = reg.get(&a).unwrap();
    assert_eq!(entry.keys_xdr.len(), 2);
    assert_eq!(entry.threshold, 200);
    assert_eq!(entry.extend_to, 2000);
    assert_eq!(entry.registered, registered);
    assert!(entry.updated > registered);

    reg.deregister(addr("GA"), ledger).unwrap();
    assert!(reg.get(&a).is_none());
    assert_eq!(reg.count(), 1);
}

#[test]
fn swap_remove_of_middle_entry() {
    let mut reg = deploy();
    // Index becomes: 0=registry, 1=a, 2=b, 3=c.
    reg.register(addr("GA"), manifest(), 100, 1000, 0).unwrap();
    reg.register(addr("GB"), manifest(), 100, 1000, 0).unwrap();
    reg.register(addr("GC"), manifest(), 100, 1000, 0).unwrap();
    assert_eq!(reg.count(), 4);

    // Remove the middle entry b. The last entry c swaps into b's slot.
    reg.deregister(addr("GB"), 0).unwrap();
    assert_eq!(reg.count(), 3);
    assert!(reg.get(&addr("GB")).is_none());
    assert!(reg.get(&addr("GA")).is_some());
    assert!(reg.get(&addr("GC")).is_some());

    // Order is now 0=registry, 1=a, 2=c.
    let page = reg.page(0, 50).unwrap();
    assert_eq!(page.len(), 3);
    assert!(page[0].contract.same(&registry_id()));
    assert!(page[1].contract.same(&addr("GA")));
    assert!(page[2].contract.same(&addr("GC")));
}

#[test]
fn pagination_boundaries_and_limit() {
    let mut reg = deploy();
    // registry + a + b => count 3.
    reg.register(addr("GA"), manifest(), 100, 1000, 0).unwrap();
    reg.register(addr("GB"), manifest(), 100, 1000, 0).unwrap();
    assert_eq!(reg.count(), 3);

    // Over the cap.
    assert_eq!(reg.page(0, 51).err(), Some(RegistryError::LimitTooLarge));

    // Full range.
    assert_eq!(reg.page(0, 50).unwrap().len(), 3);
    // Start past the end.
    assert_eq!(reg.page(5, 10).unwrap().len(), 0);
    // Page that runs off the end returns fewer than `limit`.
    assert_eq!(reg.page(2, 50).unwrap().len(), 1);
}

#[test]
fn self_maintenance_records_keeper() {
    let mut reg = deploy();
    let keeper = addr("GKEEPER");
    let sequence: u32 = 0;

    let seq = reg.extend_all(addr("GKEEPER"), sequence, MAX_TTL).unwrap().ledger;
    assert_eq!(seq, sequence);

    let state = reg.lk_state().ok().unwrap();
    assert!(state.last_keeper.same(&keeper));
}

#[test]
fn constructor_rejects_bad_manifests() {
    assert_eq!(
        Registry::new(registry_id(), vec![], 100, 1000, 0).err(),
        Some(RegistryError::EmptyManifest)
    );
    assert_eq!(
        Registry::new(registry_id(), manifest(), 1000, 1000, 0).err(),
        Some(RegistryError::InvalidParams)
    );
}

#[test]
fn register_errors_in_order() {
    let mut reg = deploy();
    // An empty manifest is refused before the duplicate check.
    assert_eq!(
        reg.register(registry_id(), vec![], 100, 1000, 5).err(),
        Some(RegistryError::EmptyManifest)
    );
    assert_eq!(
        reg.register(registry_id(), manifest(), 2000, 1000, 5).err(),
        Some(RegistryError::InvalidParams)
    );
    assert_eq!(
        reg.register(registry_id(), manifest(), 100, 1000, 5).err(),
        Some(RegistryError::AlreadyRegistered)
    );
    assert_eq!(reg.count(), 1);
}

#[test]
fn update_and_deregister_need_an_entry() {
    let mut reg = deploy();
    // NotRegistered comes before the manifest checks.
    assert_eq!(
        reg.update(addr("GX"), vec![], 100, 1000, 1).err(),
        Some(RegistryError::NotRegistered)
    );
    assert_eq!(
        reg.update(registry_id(), vec![], 100, 1000, 1).err(),
        Some(RegistryError::EmptyManifest)
    );
    assert_eq!(
        reg.update(registry_id(), manifest(), 7, 7, 1).err(),
        Some(RegistryError::InvalidParams)
    );
    assert_eq!(
        reg.deregister(addr("GX"), 1).err(),
        Some(RegistryError::NotRegistered)
    );
    // A refused update leaves the entry as it was.
    let entry = reg.get(&registry_id()).unwrap();
    assert_eq!(entry.threshold, 100);
    assert_eq!(entry.updated, 0);
}

#[test]
fn register_then_deregister_restores_the_index() {
    let mut reg = deploy();
    reg.register(addr("GA"), manifest(), 100, 1000, 0).unwrap();
    reg.register(addr("GB"), manifest(), 100, 1000, 0).unwrap();
    reg.register(addr("GC"), manifest(), 100, 1000, 3).unwrap();
    reg.deregister(addr("GC"), 4).unwrap();
    let page = reg.page(0, 50).unwrap();
    assert_eq!(page.len(), 3);
    assert!(page[0].contract.same(&registry_id()));
    assert!(page[1].contract.same(&addr("GA")));
    assert!(page[2].contract.same(&addr("GB")));
}

#[test]
fn deregister_of_the_last_entry_moves_nothing() {
    let mut reg = deploy();
    reg.register(addr("GA"), manifest(), 100, 1000, 0).unwrap();
    reg.register(addr("GB"), manifest(), 100, 1000, 0).unwrap();
    let ev = reg.deregister(addr("GB"), 9).unwrap();
    assert!(ev.contract.same(&addr("GB")));
    assert_eq!(ev.ledger, 9);
    let page = reg.page(0, 50).unwrap();
    assert_eq!(page.len(), 2);
    assert!(page[1].contract.same(&addr("GA")));
}

#[test]
fn pages_tile_the_index() {
    let mut reg = deploy();
    for name in ["GA", "GB", "GC", "GD"] {
        reg.register(addr(name), manifest(), 100, 1000, 0).unwrap();
    }
    let first = reg.page(1, 2).unwrap();
    let second = reg.page(3, 2).unwrap();
    let both = reg.page(1, 4).unwrap();
    assert_eq!(first.len() + second.len(), both.len());
    assert!(first[0].contract.same(&both[0].contract));
    assert!(first[1].contract.same(&both[1].contract));
    assert!(second[0].contract.same(&both[2].contract));
    assert!(second[1].contract.same(&both[3].contract));
    // A zero limit gives an empty page.
    assert_eq!(reg.page(1, 0).unwrap().len(), 0);
}

#[test]
fn events_carry_key_counts_and_ledgers() {
    let mut reg = deploy();
    let ev = reg.register(addr("GA"), vec![vec![1u8], vec![2u8], vec![3u8]], 1, 2, 42).unwrap();
    assert!(ev.contract.same(&addr("GA")));
    assert_eq!(ev.key_count, 3);
    assert_eq!(ev.ledger, 42);
    let ev = reg.update(addr("GA"), vec![vec![4u8]], 1, 2, 43).unwrap();
    assert_eq!(ev.key_count, 1);
    assert_eq!(ev.ledger, 43);
    let entry = reg.get(&addr("GA")).unwrap();
    assert_eq!(entry.keys_xdr, vec![vec![4u8]]);
    assert_eq!(entry.registered, 42);
    assert_eq!(entry.updated, 43);
}

#[test]
fn registry_maintenance_before_and_after() {
    let mut reg = deploy();
    assert_eq!(reg.lk_state().err(), Some(MaintainableError::NotMaintained));
    let ev = reg.extend_all(addr("GK"), 77, REGISTRY_EXTEND_TO).unwrap();
    assert_eq!(ev.ledger, 77);
    assert_eq!(ev.key_count, 0);
    assert_eq!(
        reg.extend_all(addr("GK2"), 78, REGISTRY_EXTEND_TO - 1).err(),
        Some(MaintainableError::ExtendTooLarge)
    );
    let state = reg.lk_state().ok().unwrap();
    assert_eq!(state.last_maintained, 77);
    assert!(state.last_keeper.same(&addr("GK")));
}

#[test]
fn registry_steps_over_stored_values() {
    // Registration of a new contract at the end of an index of 3.
    let (entry, ev) = add_entry(false, addr("GA"), manifest(), 1, 2, 5).unwrap();
    assert_eq!(entry.registered, 5);
    assert_eq!(entry.updated, 5);
    assert_eq!(ev.key_count, 1);
    assert_eq!(
        add_entry(true, addr("GA"), manifest(), 1, 2, 5).err(),
        Some(RegistryError::AlreadyRegistered)
    );
    // Update keeps the registration ledger.
    let (updated, _) = update_entry(&addr("GA"), Some(entry), vec![vec![7u8]], 3, 4, 9).unwrap();
    assert_eq!(updated.registered, 5);
    assert_eq!(updated.updated, 9);
    assert_eq!(updated.threshold, 3);
    assert_eq!(
        update_entry(&addr("GA"), None, manifest(), 3, 4, 9).err(),
        Some(RegistryError::NotRegistered)
    );
    // Removal of slot 1 out of 4 moves position 3 into it.
    assert_eq!(removal(Some(1), 4), Ok((1, 3)));
    assert_eq!(removal(None, 4), Err(RegistryError::NotRegistered));
    // Page bounds.
    assert_eq!(page_bounds(0, 50, 3), Ok((0, 3)));
    assert_eq!(page_bounds(2, 50, 3), Ok((2, 3)));
    assert_eq!(page_bounds(5, 10, 3), Ok((5, 5)));
    assert_eq!(page_bounds(u32::MAX - 1, 50, u32::MAX), Ok((u32::MAX - 1, u32::MAX)));
    assert_eq!(page_bounds(0, 51, 3), Err(RegistryError::LimitTooLarge));
}

#[test]
fn error_codes_are_permanent() {
    assert_eq!(RegistryError::AlreadyRegistered.code(), 101);
    assert_eq!(RegistryError::NotRegistered.code(), 102);
    assert_eq!(RegistryError::EmptyManifest.code(), 103);
    assert_eq!(RegistryError::InvalidParams.code(), 104);
    assert_eq!(RegistryError::LimitTooLarge.code(), 105);
}

/// Storage as the registry contract keeps it: entries and slots by address,
/// contracts by index position, and the count.
struct Store {
    entries: std::collections::HashMap<Vec<u8>, RegistryEntry>,
    slots: std::collections::HashMap<Vec<u8>, u32>,
    index: std::collections::HashMap<u32, Vec<u8>>,
    count: u32,
}

impl Store {
    fn apply(&mut self, writes: Vec<RegistryWrite>) {
        for w in writes {
            match w {
                RegistryWrite::SetEntry(e) => {
                    self.entries.insert(e.contract.as_bytes().clone(), e);
                }
                RegistryWrite::RemoveEntry(a) => {
                    self.entries.remove(a.as_bytes());
                }
                RegistryWrite::SetSlot(a, i) => {
                    self.slots.insert(a.as_bytes().clone(), i);
                }
                RegistryWrite::RemoveSlot(a) => {
                    self.slots.remove(a.as_bytes());
                }
                RegistryWrite::SetIndex(i, a) => {
                    self.index.insert(i, a.as_bytes().clone());
                }
                RegistryWrite::RemoveIndex(i) => {
                    self.index.remove(&i);
                }
                RegistryWrite::SetCount(n) => self.count = n,
            }
        }
    }

    fn register(&mut self, name: &str) {
        let already = self.entries.contains_key(name.as_bytes());
        let (entry, _) = add_entry(already, addr(name), manifest(), 100, 1000, 0).unwrap();
        self.apply(registration_writes(entry, self.count));
    }

    fn deregister(&mut self, name: &str) {
        let slot = self.slots.get(name.as_bytes()).copied();
        let (slot, last) = removal(slot, self.count).unwrap();
        let moved = if slot != last {
            self.index.get(&last).map(|a| Address::from_bytes(a.clone()))
        } else {
            None
        };
        self.apply(removal_writes(addr(name), slot, last, moved));
    }
}

#[test]
fn storage_writes_keep_the_layout() {
    let mut store = Store {
        entries: Default::default(),
        slots: Default::default(),
        index: Default::default(),
        count: 0,
    };
    let mut reg = deploy();
    store.register("CREGISTRY");
    for name in ["GA", "GB", "GC"] {
        store.register(name);
        reg.register(addr(name), manifest(), 100, 1000, 0).unwrap();
    }
    store.deregister("GA");
    reg.deregister(addr("GA"), 0).unwrap();

    // The stored index, slots and entries describe the registry's index.
    let page = reg.page(0, 50).unwrap();
    assert_eq!(store.count, reg.count());
    assert_eq!(store.index.len(), page.len());
    assert_eq!(store.slots.len(), page.len());
    assert_eq!(store.entries.len(), page.len());
    for (i, entry) in page.iter().enumerate() {
        let at = store.index.get(&(i as u32)).unwrap();
        assert_eq!(at, entry.contract.as_bytes());
        assert_eq!(store.slots.get(at), Some(&(i as u32)));
        assert!(store.entries.contains_key(at));
    }
    // GC moved into GA's slot.
    assert_eq!(store.index.get(&1).unwrap(), &b"GC".to_vec());
    assert!(!store.entries.contains_key(b"GA".as_slice()));
}

#[test]
fn pages_visit_every_entry_once() {
    let mut reg = deploy();
    for name in ["GA", "GB", "GC", "GD", "GE", "GF"] {
        reg.register(addr(name), manifest(), 100, 1000, 0).unwrap();
    }
    reg.deregister(addr("GC"), 1).unwrap();
    let mut seen: Vec<Vec<u8>> = Vec::new();
    let mut start: u32 = 0;
    while start < reg.count() {
        for e in reg.page(start, 2).unwrap() {
            seen.push(e.contract.as_bytes().clone());
        }
        start += 2;
    }
    assert_eq!(seen.len() as u32, reg.count());
    let mut sorted = seen.clone();
    sorted.sort();
    sorted.dedup();
    assert_eq!(sorted.len(), seen.len());
    for name in ["CREGISTRY", "GA", "GB", "GD", "GE", "GF"] {
        assert!(seen.contains(&name.as_bytes().to_vec()));
        assert!(reg.get(&addr(name)).is_some());
    }
    assert!(!seen.contains(&b"GC".to_vec()));
}

#[test]
fn registered_no_later_than_updated() {
    let mut reg = deploy();
    reg.register(addr("GA"), manifest(), 100, 1000, 5).unwrap();
    reg.update(addr("GA"), manifest(), 100, 1000, 9).unwrap();
    let e = reg.get(&addr("GA")).unwrap();
    assert!(e.registered <= e.updated);
    assert_eq!((e.registered, e.updated), (5, 9));
}

#[test]
fn registry_authorizer_and_defined_calls() {
    assert!(manifest_authorizer(&addr("GA")).same(&addr("GA")));
    assert!(count_can_grow(3));
    assert!(!count_can_grow(u32::MAX));
    assert!(removal_is_defined(None, 0));
    assert!(!removal_is_defined(Some(0), 0));
    assert!(removal_is_defined(Some(0), 1));
}

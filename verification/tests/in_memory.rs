use aivyx_kvcache::conformance::{assert_conformance, key};
use aivyx_kvcache::{
    CacheHandle, CacheMeta, EvictionReport, InMemoryKvCacheStore, KvCacheError, KvCacheStore,
};

fn record(store: &mut InMemoryKvCacheStore, prefix: &str, size_bytes: u64) {
    let handle = CacheHandle::new(format!("{prefix}.slot"));
    store.record(&key(prefix), handle, CacheMeta { size_bytes, token_count: 1 }).unwrap();
}

fn found(store: &InMemoryKvCacheStore, prefix: &str) -> Option<String> {
    store.find(&key(prefix)).unwrap().map(|handle| handle.as_str().to_string())
}

#[test]
fn in_memory_satisfies_the_kv_cache_store_contract() {
    let mut store = InMemoryKvCacheStore::new(1_000);
    assert!(assert_conformance(&mut store, 1_000).unwrap());
    assert_eq!(found(&store, "p3"), Some("p3.slot".to_string()));
    assert_eq!(found(&store, "p1"), None);
}

#[test]
fn the_contract_holds_at_budgets_that_fit_one_slot_only() {
    for max_bytes in [100, 150, 199, 200, 250] {
        let mut store = InMemoryKvCacheStore::new(max_bytes);
        assert!(assert_conformance(&mut store, max_bytes).unwrap());
    }
}

#[test]
fn an_empty_store_finds_nothing_and_evicts_nothing() {
    let mut store = InMemoryKvCacheStore::new(0);
    assert_eq!(found(&store, "p1"), None);
    assert_eq!(store.evict_to_budget().unwrap(), EvictionReport::default());
    store.confirm_hit(&key("p1")).unwrap();
    assert_eq!(found(&store, "p1"), None);
}

#[test]
fn a_confirmed_hit_saves_a_slot_from_eviction() {
    let mut store = InMemoryKvCacheStore::new(300);
    for prefix in ["p1", "p2", "p3"] {
        record(&mut store, prefix, 100);
    }
    store.confirm_hit(&key("p1")).unwrap();
    record(&mut store, "p4", 100);
    assert_eq!(found(&store, "p1"), Some("p1.slot".to_string()));
    assert_eq!(found(&store, "p2"), None);
    assert_eq!(found(&store, "p3"), Some("p3.slot".to_string()));
    assert_eq!(found(&store, "p4"), Some("p4.slot".to_string()));
}

#[test]
fn finding_a_slot_does_not_save_it_from_eviction() {
    let mut store = InMemoryKvCacheStore::new(300);
    for prefix in ["p1", "p2", "p3"] {
        record(&mut store, prefix, 100);
    }
    assert_eq!(found(&store, "p1"), Some("p1.slot".to_string()));
    record(&mut store, "p4", 100);
    assert_eq!(found(&store, "p1"), None);
    assert_eq!(found(&store, "p2"), Some("p2.slot".to_string()));
}

#[test]
fn recording_again_replaces_handle_and_size() {
    let mut store = InMemoryKvCacheStore::new(300);
    record(&mut store, "p1", 200);
    record(&mut store, "p2", 100);
    let meta = CacheMeta { size_bytes: 50, token_count: 1 };
    store.record(&key("p1"), CacheHandle::new("v2.slot"), meta).unwrap();
    record(&mut store, "p3", 150);
    assert_eq!(found(&store, "p1"), Some("v2.slot".to_string()));
    assert_eq!(found(&store, "p2"), Some("p2.slot".to_string()));
    assert_eq!(found(&store, "p3"), Some("p3.slot".to_string()));
}

#[test]
fn a_slot_of_exactly_the_budget_fits_and_one_byte_more_does_not() {
    let mut store = InMemoryKvCacheStore::new(100);
    record(&mut store, "p1", 100);
    let meta = CacheMeta { size_bytes: 101, token_count: 1 };
    match store.record(&key("p2"), CacheHandle::new("p2.slot"), meta) {
        Err(KvCacheError::SlotExceedsBudget { size_bytes, max_bytes }) => {
            assert_eq!((size_bytes, max_bytes), (101, 100));
        }
        other => panic!("got: {other:?}"),
    }
    assert_eq!(found(&store, "p1"), Some("p1.slot".to_string()));
    assert_eq!(found(&store, "p2"), None);
}

#[test]
fn slots_that_pass_64_bits_together_are_evicted_all_the_same() {
    let mut store = InMemoryKvCacheStore::new(u64::MAX);
    record(&mut store, "p1", u64::MAX);
    record(&mut store, "p2", 1);
    assert_eq!(found(&store, "p1"), None);
    assert_eq!(found(&store, "p2"), Some("p2.slot".to_string()));
    assert_eq!(store.evict_to_budget().unwrap(), EvictionReport::default());
    assert!(store.counts_another_use());
}

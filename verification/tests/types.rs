use std::collections::HashSet;

use aivyx_kvcache::{CacheHandle, CacheKey, CacheMeta, EvictionReport, KvCacheError};

fn sample() -> CacheKey {
    CacheKey {
        backend_id: "llama-server".into(),
        model_id: "qwen3.5".into(),
        build_hash: "b1".into(),
        prefix_hash: "p1".into(),
    }
}

#[test]
fn cache_key_equality_is_field_wise() {
    let a = sample();
    let b = a.clone();
    assert_eq!(a, b);
    let mut c = a.clone();
    c.prefix_hash = "p2".into();
    assert_ne!(a, c);
}

#[test]
fn every_field_of_a_key_takes_part_in_its_equality() {
    let a = sample();
    assert!(a.same_as(&a.clone()));
    let others = [
        CacheKey { backend_id: "vllm".into(), ..a.clone() },
        CacheKey { model_id: "qwen3".into(), ..a.clone() },
        CacheKey { build_hash: "b2".into(), ..a.clone() },
        CacheKey { prefix_hash: "p2".into(), ..a.clone() },
    ];
    for other in &others {
        assert_ne!(&a, other);
        assert!(!a.same_as(other));
    }
    let mut set = HashSet::new();
    set.insert(a.clone());
    assert!(set.contains(&a));
    assert!(!set.contains(&others[3]));
}

#[test]
fn cache_handle_round_trips_its_id() {
    let h = CacheHandle::new("some-filename.slot");
    assert_eq!(h.as_str(), "some-filename.slot");
}

#[test]
fn handles_are_made_from_owned_text_too() {
    let h = CacheHandle::new(format!("{}.slot", "p1"));
    assert_eq!(h, CacheHandle::new("p1.slot"));
    assert_eq!(h, CacheHandle::new(&String::from("p1.slot")));
    assert_eq!(h, CacheHandle::new(Box::<str>::from("p1.slot")));
    assert_eq!(CacheHandle::new('p'), CacheHandle::new("p"));
    assert!(h.same_as(&h.clone()));
    assert!(!h.same_as(&CacheHandle::new("p2.slot")));
}

#[test]
fn slot_exceeds_budget_error_message_includes_both_sizes() {
    let err = KvCacheError::SlotExceedsBudget { size_bytes: 500, max_bytes: 100 };
    assert_eq!(
        err.to_string(),
        "kvcache slot of 500 bytes exceeds the configured budget of 100 bytes"
    );
}

#[test]
fn error_messages_show_numbers_of_every_length() {
    let err = KvCacheError::SlotExceedsBudget { size_bytes: u64::MAX, max_bytes: 0 };
    assert_eq!(
        err.to_string(),
        "kvcache slot of 18446744073709551615 bytes exceeds the configured budget of 0 bytes"
    );
    assert_eq!(
        KvCacheError::Backend("disk full".to_string()).to_string(),
        "kvcache backend error: disk full"
    );
}

#[test]
fn only_single_components_are_safe_filenames() {
    for name in ["p1.slot", "...", ".hidden", "a b", "日本.slot"] {
        assert!(CacheHandle::new(name).is_safe_filename(), "{name}");
    }
    for name in ["", ".", "..", "/", "/etc/passwd", "a/b", "../p1.slot", "a\\b", "p1.slot/"] {
        assert!(!CacheHandle::new(name).is_safe_filename(), "{name}");
    }
}

#[test]
fn a_default_report_is_zeroed() {
    let report = EvictionReport::default();
    assert_eq!(report.evicted_count, 0);
    assert_eq!(report.bytes_freed, 0);
    let meta = CacheMeta { size_bytes: 1, token_count: 2 };
    assert_eq!(meta, meta.clone());
}

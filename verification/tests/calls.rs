use aivyx_kvcache::calls::{make_call, make_calls, Answer, Call};
use aivyx_kvcache::conformance::{accepts, judge, key, probe, run_probes};
use aivyx_kvcache::manifest::Manifest;
use aivyx_kvcache::{
    CacheHandle, CacheMeta, EvictionReport, InMemoryKvCacheStore, IndexedSlotStore, KvCacheError,
    LlamaServerSlotStore,
};

fn find(prefix: &str) -> Call {
    Call::Find { key: key(prefix) }
}

fn hit(prefix: &str) -> Call {
    Call::ConfirmHit { key: key(prefix) }
}

fn record(prefix: &str, size_bytes: u64) -> Call {
    Call::Record {
        key: key(prefix),
        handle: CacheHandle::new(format!("{prefix}.slot")),
        meta: CacheMeta { size_bytes, token_count: 1 },
    }
}

/// Calls that fill a store of 300 bytes and push slots out of it again.
fn busy(with_lookups: bool) -> Vec<Call> {
    let mut calls = Vec::new();
    for i in 0..40 {
        let prefix = format!("p{}", i * 7 % 11);
        calls.push(record(&prefix, 40 + i % 5 * 70));
        if with_lookups {
            calls.push(find(&format!("p{}", i % 11)));
        }
        calls.push(hit(&format!("p{}", i * 3 % 11)));
        if i % 4 == 0 {
            calls.push(Call::EvictToBudget);
        }
    }
    calls
}

fn shown(answers: &[Answer]) -> Vec<String> {
    answers.iter().map(|answer| format!("{answer:?}")).collect()
}

#[test]
fn calls_get_the_answers_of_the_store() {
    let mut store = InMemoryKvCacheStore::new(100);
    assert!(matches!(make_call(&mut store, &find("p1")), Answer::Found(None)));
    assert!(matches!(make_call(&mut store, &record("p1", 60)), Answer::Done));
    assert!(matches!(make_call(&mut store, &hit("p1")), Answer::Done));
    match make_call(&mut store, &find("p1")) {
        Answer::Found(Some(handle)) => assert_eq!(handle.as_str(), "p1.slot"),
        other => panic!("got: {other:?}"),
    }
    assert!(matches!(
        make_call(&mut store, &record("p2", 101)),
        Answer::Failed(KvCacheError::SlotExceedsBudget { size_bytes: 101, max_bytes: 100 })
    ));
    match make_call(&mut store, &Call::EvictToBudget) {
        Answer::Evicted(report) => assert_eq!(report, EvictionReport::default()),
        other => panic!("got: {other:?}"),
    }
}

#[test]
fn the_same_calls_get_the_same_answers_from_every_store() {
    let mut first = InMemoryKvCacheStore::new(300);
    let mut second = InMemoryKvCacheStore::new(300);
    let rules = LlamaServerSlotStore::open("http://127.0.0.1:0".to_string(), 300);
    let mut third = IndexedSlotStore::open(rules, Manifest::new()).unwrap();
    let answers = shown(&make_calls(&mut first, &busy(true)));
    assert_eq!(shown(&make_calls(&mut second, &busy(true))), answers);
    assert_eq!(shown(&make_calls(&mut third, &busy(true))), answers);
    assert!(answers.contains(&"Found(None)".to_string()));
}

#[test]
fn lookups_change_no_answer_to_another_call() {
    let mut first = InMemoryKvCacheStore::new(300);
    let mut second = InMemoryKvCacheStore::new(300);
    let without = shown(&make_calls(&mut first, &busy(false)));
    let mut with = shown(&make_calls(&mut second, &busy(true)));
    with.retain(|answer| !answer.starts_with("Found"));
    assert_eq!(with, without);
    let lookups: Vec<Call> = (0..11).map(|i| find(&format!("p{i}"))).collect();
    assert_eq!(
        shown(&make_calls(&mut first, &lookups)),
        shown(&make_calls(&mut second, &lookups))
    );
}

#[test]
fn nothing_is_left_to_evict_between_calls() {
    let mut store = InMemoryKvCacheStore::new(300);
    for call in busy(true) {
        make_call(&mut store, &call);
        match make_call(&mut store, &Call::EvictToBudget) {
            Answer::Evicted(report) => assert_eq!(report, EvictionReport::default()),
            other => panic!("got: {other:?}"),
        }
    }
}

#[test]
fn the_run_probes_the_budget_from_above() {
    match probe(5, 1_000) {
        Some(Call::Record { key: at, handle, meta }) => {
            assert_eq!(at, key("too-big"));
            assert_eq!(handle.as_str(), "too-big.slot");
            assert_eq!(meta, CacheMeta { size_bytes: 1_001, token_count: 1 });
        }
        other => panic!("got: {other:?}"),
    }
    assert!(probe(11, 1_000).is_some());
    assert!(probe(12, 1_000).is_none());
}

#[test]
fn the_run_turns_wrong_answers_down() {
    let refused = || Answer::Failed(KvCacheError::SlotExceedsBudget { size_bytes: 1, max_bytes: 0 });
    let failed = || Answer::Failed(KvCacheError::Backend("locked".to_string()));
    let found = |handle: &str| Answer::Found(Some(CacheHandle::new(handle)));
    let evicted = |evicted_count, bytes_freed| {
        Answer::Evicted(EvictionReport { evicted_count, bytes_freed })
    };
    for step in 0..12 {
        assert_eq!(accepts(step, &Answer::Found(None)), [0, 6, 11].contains(&step));
        assert_eq!(accepts(step, &found("p1.slot")), [4, 10].contains(&step));
        assert_eq!(accepts(step, &found("p2.slot")), step == 10);
        assert_eq!(accepts(step, &Answer::Done), [2, 3, 7, 8, 9].contains(&step));
        assert_eq!(accepts(step, &evicted(0, 0)), step == 1);
        assert!(!accepts(step, &evicted(1, 0)));
        assert!(!accepts(step, &evicted(0, 1)));
        assert_eq!(accepts(step, &refused()), step == 5);
        assert!(!accepts(step, &failed()));
    }
}

#[test]
fn the_run_makes_all_its_calls_and_judges_all_answers() {
    let mut store = InMemoryKvCacheStore::new(1_000);
    let mut answers = run_probes(&mut store, 1_000);
    assert_eq!(
        shown(&answers),
        vec![
            "Found(None)",
            "Evicted(EvictionReport { evicted_count: 0, bytes_freed: 0 })",
            "Done",
            "Done",
            "Found(Some(CacheHandle(\"p1.slot\")))",
            "Failed(SlotExceedsBudget { size_bytes: 1001, max_bytes: 1000 })",
            "Found(None)",
            "Done",
            "Done",
            "Done",
            "Found(Some(CacheHandle(\"p3.slot\")))",
            "Found(None)",
        ]
    );
    assert!(judge(&answers));
    // A store that takes in what exceeds its budget does not pass.
    let refused = std::mem::replace(&mut answers[5], Answer::Done);
    assert!(!judge(&answers));
    answers[5] = refused;
    answers.pop();
    assert!(!judge(&answers));
    assert!(!judge(&vec![]));
}

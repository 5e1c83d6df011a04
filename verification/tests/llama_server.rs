use aivyx_kvcache::conformance::{assert_conformance, key};
use aivyx_kvcache::llama_server::{RestoreStep, RestoreVerdict, SlotReply};
use aivyx_kvcache::manifest::{Manifest, SlotRow};
use aivyx_kvcache::slot_name::slot_filename;
use aivyx_kvcache::steps::{
    RestoreAction, RestoreEvent, RestoreState, RestoreTask, SaveAction, SaveEvent, SaveState, SaveTask,
};
use aivyx_kvcache::sweep::{FileRemoval, FileSweep};
use aivyx_kvcache::{
    CacheHandle, CacheKey, CacheMeta, EvictionReport, IndexedSlotStore, KvCacheError,
    KvCacheStore, LlamaServerSlotStore,
};

const URL: &str = "http://127.0.0.1:0";

fn a_store(max_bytes: u64) -> LlamaServerSlotStore {
    LlamaServerSlotStore::open(URL.to_string(), max_bytes)
}

fn answered(status: u16) -> SlotReply {
    SlotReply::Answered { status, error: format!("status {status}") }
}

/// Deletes the files that a sweep names from a list of files that are there.
fn sweep_files(mut sweep: FileSweep, files: &mut Vec<String>) -> EvictionReport {
    while let Some(name) = sweep.next_file() {
        let outcome = match files.iter().position(|file| *file == name) {
            Some(i) => {
                files.remove(i);
                FileRemoval::Removed
            }
            None => FileRemoval::NotFound,
        };
        sweep.file_removed(outcome).unwrap();
    }
    sweep.report()
}

/// Records a slot and deletes the files of what is evicted for it.
fn record(
    store: &LlamaServerSlotStore,
    index: &mut Manifest,
    files: &mut Vec<String>,
    key: &CacheKey,
    handle: &CacheHandle,
    meta: CacheMeta,
) -> Result<EvictionReport, KvCacheError> {
    let sweep = store.record(index, key, handle, meta)?;
    Ok(sweep_files(sweep, files))
}

/// Runs a whole save against a server that replies as given, and counts the requests.
fn save(
    store: &LlamaServerSlotStore,
    index: &mut Manifest,
    files: &mut Vec<String>,
    key: &CacheKey,
    slot_id: u32,
    meta: CacheMeta,
    reply: SlotReply,
    file_len: Option<u64>,
) -> (Result<(), KvCacheError>, usize) {
    let task = SaveTask { key: key.clone(), slot_id, meta };
    let mut reply = Some(reply);
    let mut requests = 0;
    let (mut state, mut event) = (SaveState::Start, SaveEvent::Begin);
    loop {
        let (next, action) = store.save_step(&task, state, event);
        state = next;
        event = match action {
            SaveAction::Post { .. } => {
                requests += 1;
                SaveEvent::Replied { reply: reply.take().unwrap() }
            }
            SaveAction::Measure { .. } => SaveEvent::Measured { file_len },
            SaveAction::Record { handle, meta } => SaveEvent::Recorded {
                result: record(store, index, files, key, &handle, meta).map(|_| ()),
            },
            SaveAction::RemoveFile { filename } => {
                files.retain(|file| *file != filename);
                SaveEvent::Removed
            }
            SaveAction::Return { result } => return (result, requests),
            SaveAction::Ignore => unreachable!(),
        };
    }
}

/// Runs a whole restore against a server that replies as given, and counts the requests.
fn restore(
    store: &LlamaServerSlotStore,
    index: &mut Manifest,
    key: &CacheKey,
    slot_id: u32,
    reply: SlotReply,
) -> (Result<bool, KvCacheError>, usize) {
    let task = RestoreTask { key: key.clone(), slot_id };
    let mut reply = Some(reply);
    let mut requests = 0;
    let mut state = RestoreState::Start;
    let mut event = RestoreEvent::LookedUp { found: Ok(store.find(index, key)) };
    loop {
        let (next, action) = store.restore_step(&task, state, event);
        state = next;
        event = match action {
            RestoreAction::Post { .. } => {
                requests += 1;
                RestoreEvent::Replied { reply: reply.take().unwrap() }
            }
            RestoreAction::ConfirmHit => {
                store.confirm_hit(index, key);
                RestoreEvent::Confirmed { result: Ok(()) }
            }
            RestoreAction::Return { result } => return (result, requests),
            RestoreAction::Ignore => unreachable!(),
        };
    }
}

#[test]
fn llama_server_satisfies_the_kv_cache_store_contract() {
    let mut store = IndexedSlotStore::open(a_store(1_000), Manifest::new()).unwrap();
    assert!(assert_conformance(&mut store, 1_000).unwrap());
    assert_eq!(store.find(&key("p3")).unwrap(), Some(CacheHandle::new("p3.slot")));
    for prefix in ["p1", "p2", "too-big"] {
        assert_eq!(store.find(&key(prefix)).unwrap(), None);
    }
}

#[test]
fn the_rules_and_their_table_leave_the_files_to_sweeps() {
    let mut store = IndexedSlotStore::open(a_store(100), Manifest::new()).unwrap();
    let meta = CacheMeta { size_bytes: 60, token_count: 1 };
    store.record(&key("p1"), CacheHandle::new("p1.slot"), meta).unwrap();
    store.record(&key("p2"), CacheHandle::new("p2.slot"), meta).unwrap();
    assert_eq!(store.evict_to_budget().unwrap(), EvictionReport::default());
    let mut files = vec!["p1.slot".to_string(), "p2.slot".to_string()];
    let mut reports = Vec::new();
    for sweep in store.take_sweeps() {
        reports.push(sweep_files(sweep, &mut files));
    }
    assert_eq!(files, vec!["p2.slot".to_string()]);
    let one = EvictionReport { evicted_count: 1, bytes_freed: 60 };
    assert_eq!(reports, vec![EvictionReport::default(), one, EvictionReport::default()]);
    assert_eq!(store.take_sweeps().len(), 0);
}

#[test]
fn a_table_opened_under_a_smaller_budget_is_evicted_down_to_it() {
    let rows = vec![row("p1", "p1.slot", 60, 1), row("p2", "p2.slot", 60, 2)];
    let index = Manifest::from_rows(rows).unwrap();
    let mut store = IndexedSlotStore::open(a_store(100), index).unwrap();
    let report = store.evict_to_budget().unwrap();
    assert_eq!(report, EvictionReport { evicted_count: 1, bytes_freed: 60 });
    assert_eq!(store.find(&key("p1")).unwrap(), None);
    assert!(store.find(&key("p2")).unwrap().is_some());
    let rows = vec![row("p1", "p1.slot", -1, 1), row("p2", "p2.slot", 1, 2)];
    let index = Manifest::from_rows(rows).unwrap();
    assert!(IndexedSlotStore::open(a_store(100), index).is_none());
}

#[test]
fn eviction_deletes_the_backing_slot_file_from_disk() {
    let store = a_store(100);
    let mut index = Manifest::new();
    let k = key("p1");
    let mut files = vec![slot_filename(&k)];

    let meta = CacheMeta { size_bytes: 50, token_count: 5 };
    let handle = CacheHandle::new(slot_filename(&k));
    record(&store, &mut index, &mut files, &k, &handle, meta).unwrap();
    assert_eq!(files, vec![slot_filename(&k)]);

    let meta = CacheMeta { size_bytes: 100, token_count: 5 };
    let handle = CacheHandle::new("p2.slot");
    let report = record(&store, &mut index, &mut files, &key("p2"), &handle, meta).unwrap();

    assert!(store.find(&index, &k).is_none());
    assert!(files.is_empty(), "evicted slot's file must be deleted from disk");
    assert_eq!(report, EvictionReport { evicted_count: 1, bytes_freed: 50 });
}

#[test]
fn restore_into_slot_is_false_on_a_cache_miss_without_calling_llama_server() {
    let store = a_store(1_000);
    let mut index = Manifest::new();
    let found = store.find(&index, &key("never-recorded"));
    match store.restore_into_slot(Ok(found), 0) {
        RestoreStep::Return(answer) => assert!(!answer.unwrap()),
        RestoreStep::Post(_) => panic!("a miss must not call llama-server"),
    }
    let restored = restore(&store, &mut index, &key("never-recorded"), 0, answered(200));
    assert!(matches!(restored, (Ok(false), 0)));
}

#[test]
fn restore_into_slot_confirms_a_hit_on_a_successful_restore() {
    let store = a_store(1_000);
    let mut index = Manifest::new();
    let meta = CacheMeta { size_bytes: 10, token_count: 1 };
    let handle = CacheHandle::new("p1.slot");
    record(&store, &mut index, &mut Vec::new(), &key("p1"), &handle, meta).unwrap();

    let (restored, requests) = restore(&store, &mut index, &key("p1"), 0, answered(200));
    assert!(restored.unwrap());
    assert_eq!(requests, 1);
    assert_eq!(index.find(&key("p1")).unwrap().hit_count, 1);
}

#[test]
fn restore_into_slot_falls_back_to_a_miss_when_llama_server_rejects_the_restore() {
    let store = a_store(1_000);
    let mut index = Manifest::new();
    let meta = CacheMeta { size_bytes: 10, token_count: 1 };
    let handle = CacheHandle::new("p1.slot");
    record(&store, &mut index, &mut Vec::new(), &key("p1"), &handle, meta).unwrap();

    let (restored, requests) = restore(&store, &mut index, &key("p1"), 0, answered(500));
    assert!(!restored.unwrap());
    assert_eq!(requests, 1);
    assert_eq!(index.find(&key("p1")).unwrap().hit_count, 0);
}

#[test]
fn save_from_slot_records_the_entry_after_a_successful_save() {
    let store = a_store(1_000);
    let mut index = Manifest::new();
    let meta = CacheMeta { size_bytes: 10, token_count: 1 };
    let k = key("p1");
    save(&store, &mut index, &mut Vec::new(), &k, 2, meta, answered(200), None).0.unwrap();

    assert!(store.find(&index, &k).is_some());
}

#[test]
fn save_from_slot_rejects_a_slot_over_budget_without_calling_llama_server() {
    let store = a_store(100);
    let meta = CacheMeta { size_bytes: 200, token_count: 1 };
    match store.save_from_slot(&key("p1"), 0, meta) {
        Err(err) => assert!(matches!(
            err,
            KvCacheError::SlotExceedsBudget { size_bytes: 200, max_bytes: 100 }
        )),
        Ok(_) => panic!("an oversized save must not call llama-server"),
    }
    let mut index = Manifest::new();
    let (saved, requests) =
        save(&store, &mut index, &mut Vec::new(), &key("p1"), 0, meta, answered(200), None);
    assert!(matches!(saved, Err(KvCacheError::SlotExceedsBudget { .. })));
    assert_eq!((requests, index.len()), (0, 0));
}

#[test]
fn save_from_slot_uses_the_real_file_size_not_the_caller_supplied_placeholder() {
    let store = a_store(5_000);
    let mut index = Manifest::new();
    let (k1, k2) = (key("p1"), key("p2"));
    let mut files = vec![slot_filename(&k1)];
    let meta = CacheMeta { size_bytes: 1, token_count: 1 };
    save(&store, &mut index, &mut files, &k1, 0, meta, answered(200), Some(5_000)).0.unwrap();
    assert_eq!(index.find(&k1).unwrap().size_bytes, 5_000);

    files.push(slot_filename(&k2));
    let meta = CacheMeta { size_bytes: 100, token_count: 1 };
    let handle = CacheHandle::new(slot_filename(&k2));
    record(&store, &mut index, &mut files, &k2, &handle, meta).unwrap();

    assert!(store.find(&index, &k1).is_none());
    assert!(store.find(&index, &k2).is_some(), "key2 must still be present");
    assert_eq!(files, vec![slot_filename(&k2)]);
}

#[test]
fn save_from_slot_falls_back_to_the_caller_supplied_size_when_no_real_file_exists() {
    let store = a_store(1_000);
    let mut index = Manifest::new();
    let meta = CacheMeta { size_bytes: 10, token_count: 1 };
    let k = key("p1");
    save(&store, &mut index, &mut Vec::new(), &k, 0, meta, answered(200), None).0.unwrap();

    assert!(store.find(&index, &k).is_some());
    assert_eq!(index.find(&k).unwrap().size_bytes, 10);
}

#[test]
fn save_from_slot_deletes_the_orphaned_file_when_the_real_size_exceeds_budget() {
    let store = a_store(100);
    let mut index = Manifest::new();
    let k1 = key("p1");
    let mut files = vec![slot_filename(&k1)];
    let meta = CacheMeta { size_bytes: 1, token_count: 1 };
    let err = save(&store, &mut index, &mut files, &k1, 0, meta, answered(200), Some(5_000))
        .0
        .unwrap_err();
    assert!(matches!(
        err,
        KvCacheError::SlotExceedsBudget { size_bytes: 5_000, max_bytes: 100 }
    ));
    assert!(files.is_empty());
    assert!(
        store.find(&index, &k1).is_none(),
        "no manifest entry should exist for a save that was ultimately rejected"
    );
}

#[test]
fn requests_name_the_slot_the_action_and_the_file() {
    let store = LlamaServerSlotStore::open("http://host:8080".to_string(), 1_000);
    let meta = CacheMeta { size_bytes: 10, token_count: 1 };
    let (request, filename) = match store.save_from_slot(&key("p1"), 2, meta) {
        Ok(step) => step,
        Err(err) => panic!("got: {err:?}"),
    };
    assert_eq!(request.url, "http://host:8080/slots/2?action=save");
    assert_eq!(filename, "llama_server-qwen3_5-b1-p1-16071d95146a4b6f.slot");
    assert_eq!(
        request.body,
        "{\"filename\":\"llama_server-qwen3_5-b1-p1-16071d95146a4b6f.slot\"}"
    );
    let found = Ok(Some(CacheHandle::new("p\"1.slot")));
    match store.restore_into_slot(found, u32::MAX) {
        RestoreStep::Post(request) => {
            assert_eq!(request.url, "http://host:8080/slots/4294967295?action=restore");
            assert_eq!(request.body, "{\"filename\":\"p\\\"1.slot\"}");
        }
        RestoreStep::Return(_) => panic!("a hit must ask llama-server"),
    }
}

#[test]
fn what_was_saved_under_a_key_is_asked_back_under_that_key() {
    let store = a_store(1_000);
    let mut index = Manifest::new();
    let meta = CacheMeta { size_bytes: 10, token_count: 1 };
    let k = key("p1");
    let saved = match store.save_from_slot(&k, 0, meta) {
        Ok((request, _)) => request.body,
        Err(err) => panic!("got: {err:?}"),
    };
    save(&store, &mut index, &mut Vec::new(), &k, 0, meta, answered(200), None).0.unwrap();
    match store.restore_into_slot(Ok(store.find(&index, &k)), 0) {
        RestoreStep::Post(request) => assert_eq!(request.body, saved),
        RestoreStep::Return(_) => panic!("a hit must ask llama-server"),
    }
}

#[test]
fn only_statuses_of_success_restore_a_slot() {
    let store = a_store(1_000);
    for status in [200, 204, 299] {
        assert_eq!(store.restore_replied(&answered(status)), RestoreVerdict::Restored);
    }
    for status in [100, 199, 300, 304, 400, 404, 500, 599, 999] {
        assert_eq!(store.restore_replied(&answered(status)), RestoreVerdict::Rejected);
    }
    let failed = SlotReply::Failed { error: "timed out".to_string() };
    assert_eq!(store.restore_replied(&failed), RestoreVerdict::Rejected);
}

#[test]
fn a_failed_lookup_fails_the_restore_and_a_failed_hit_does_not() {
    let store = a_store(1_000);
    let found = Err(KvCacheError::Backend("locked".to_string()));
    match store.restore_into_slot(found, 0) {
        RestoreStep::Return(Err(KvCacheError::Backend(words))) => assert_eq!(words, "locked"),
        _ => panic!("the lookup's error is the answer"),
    }
    let confirmed = Err(KvCacheError::Backend("locked".to_string()));
    assert!(store.restore_confirmed(&confirmed).unwrap());
}

#[test]
fn only_statuses_of_error_and_missing_replies_fail_a_save() {
    let store = a_store(1_000);
    for status in [100, 200, 299, 301, 399, 600] {
        assert!(store.save_replied(answered(status)).is_ok());
    }
    for status in [400, 404, 500, 599] {
        match store.save_replied(answered(status)) {
            Err(KvCacheError::Backend(words)) => assert_eq!(words, format!("status {status}")),
            other => panic!("got: {other:?}"),
        }
    }
    match store.save_replied(SlotReply::Failed { error: "refused".to_string() }) {
        Err(KvCacheError::Backend(words)) => assert_eq!(words, "refused"),
        other => panic!("got: {other:?}"),
    }
}

fn row(prefix: &str, handle: &str, size_bytes: i64, last_used_at_nanos: i64) -> SlotRow {
    SlotRow {
        key: key(prefix),
        handle: CacheHandle::new(handle),
        size_bytes,
        token_count: 1,
        created_at_secs: 0,
        last_used_at_nanos,
        hit_count: 0,
    }
}

#[test]
fn unsafe_handles_are_counted_and_no_file_is_deleted_for_them() {
    let rows = vec![
        row("p1", "../etc", 10, 1),
        row("p2", "p2.slot", 20, 2),
        row("p3", "a/b", 30, 3),
        row("p4", "p4.slot", 40, 4),
        row("p5", "", 50, 5),
    ];
    let mut index = Manifest::from_rows(rows).unwrap();
    let mut sweep = a_store(0).evict_to_budget(&mut index);
    assert_eq!(index.len(), 0);
    assert_eq!(sweep.next_file(), Some("p2.slot".to_string()));
    assert_eq!(sweep.report(), EvictionReport { evicted_count: 1, bytes_freed: 10 });
    sweep.file_removed(FileRemoval::Removed).unwrap();
    assert_eq!(sweep.next_file(), Some("p4.slot".to_string()));
    sweep.file_removed(FileRemoval::NotFound).unwrap();
    assert_eq!(sweep.next_file(), None);
    assert_eq!(sweep.report(), EvictionReport { evicted_count: 5, bytes_freed: 150 });
    assert_eq!(sweep.skipped(), 3);
    let handles: Vec<String> =
        sweep.skipped_handles().iter().map(|handle| handle.as_str().to_string()).collect();
    assert_eq!(handles, vec!["../etc", "a/b", ""]);
}

#[test]
fn a_deletion_that_fails_ends_the_sweep() {
    let rows = vec![row("p1", "p1.slot", 10, 1), row("p2", "p2.slot", 20, 2)];
    let mut index = Manifest::from_rows(rows).unwrap();
    let mut sweep = a_store(0).evict_to_budget(&mut index);
    assert_eq!(sweep.next_file(), Some("p1.slot".to_string()));
    sweep.file_removed(FileRemoval::Removed).unwrap();
    assert_eq!(sweep.next_file(), Some("p2.slot".to_string()));
    match sweep.file_removed(FileRemoval::Failed("denied".to_string())) {
        Err(KvCacheError::Backend(words)) => assert_eq!(words, "denied"),
        other => panic!("got: {other:?}"),
    }
    assert_eq!(sweep.report(), EvictionReport { evicted_count: 1, bytes_freed: 10 });
}

#[test]
fn recording_with_a_clock_that_stands_still_keeps_the_order_of_insertion() {
    let store = a_store(200);
    let mut index = Manifest::new();
    let meta = CacheMeta { size_bytes: 100, token_count: 1 };
    for prefix in ["p1", "p2", "p3"] {
        let handle = CacheHandle::new(format!("{prefix}.slot"));
        assert!(store.record_at(&mut index, &key(prefix), &handle, meta, 5, 5).is_ok());
    }
    assert!(store.find(&index, &key("p1")).is_none());
    assert!(store.find(&index, &key("p2")).is_some());
    assert!(store.find(&index, &key("p3")).is_some());
}

#[test]
fn recording_with_a_clock_set_back_keeps_what_was_just_recorded() {
    let store = a_store(100);
    let mut index = Manifest::new();
    let meta = CacheMeta { size_bytes: 100, token_count: 1 };
    assert!(store.record_at(&mut index, &key("p1"), &CacheHandle::new("1"), meta, 9, 10).is_ok());
    assert!(store.record_at(&mut index, &key("p2"), &CacheHandle::new("2"), meta, 5, 5).is_ok());
    assert_eq!(store.find(&index, &key("p2")), Some(CacheHandle::new("2")));
    assert!(store.find(&index, &key("p1")).is_none());
    assert_eq!(index.stored(&key("p2")).unwrap().last_used_at_nanos, 11);
}

#[test]
fn recording_when_the_stamps_have_run_out_keeps_what_was_just_recorded() {
    let store = a_store(100);
    let rows = vec![row("p1", "p1.slot", 10, 3), row("p2", "p2.slot", 90, i64::MAX)];
    let mut index = Manifest::from_rows(rows).unwrap();
    let meta = CacheMeta { size_bytes: 100, token_count: 1 };
    assert!(store.record_at(&mut index, &key("p1"), &CacheHandle::new("1"), meta, 5, 5).is_ok());
    assert_eq!(store.find(&index, &key("p1")), Some(CacheHandle::new("1")));
    assert!(store.find(&index, &key("p2")).is_none());
}

#[test]
fn bytes_beyond_64_bits_are_evicted_and_counted() {
    let store = a_store(u64::MAX);
    let rows = vec![row("p1", "p1.slot", -1, 1), row("p2", "p2.slot", -1, 2)];
    let mut index = Manifest::from_rows(rows).unwrap();
    let meta = CacheMeta { size_bytes: u64::MAX, token_count: 1 };
    let handle = CacheHandle::new("p3.slot");
    let mut sweep = match store.record_at(&mut index, &key("p3"), &handle, meta, 0, 3) {
        Ok(sweep) => sweep,
        Err(err) => panic!("got: {err:?}"),
    };
    while sweep.next_file().is_some() {
        sweep.file_removed(FileRemoval::Removed).unwrap();
    }
    assert_eq!((sweep.evicted(), sweep.freed()), (2, 2 * u64::MAX as u128));
    assert_eq!(store.find(&index, &key("p3")), Some(handle));
    assert_eq!(index.len(), 1);
}

#[test]
fn a_save_that_is_turned_down_records_nothing() {
    let store = a_store(1_000);
    let mut index = Manifest::new();
    let meta = CacheMeta { size_bytes: 10, token_count: 1 };
    let k = key("p1");
    let timed_out = SlotReply::Failed { error: "timed out".to_string() };
    for (reply, words) in [(answered(500), "status 500"), (timed_out, "timed out")] {
        let mut files = Vec::new();
        let (saved, requests) =
            save(&store, &mut index, &mut files, &k, 0, meta, reply, Some(10));
        match saved {
            Err(KvCacheError::Backend(error)) => assert_eq!(error, words),
            other => panic!("got: {other:?}"),
        }
        assert_eq!((requests, index.len()), (1, 0));
    }
    let (saved, requests) =
        save(&store, &mut index, &mut Vec::new(), &k, 0, meta, answered(200), Some(20));
    assert!(saved.is_ok());
    assert_eq!((requests, index.len()), (1, 1));
    assert_eq!(index.find(&k).unwrap().size_bytes, 20);
}

#[test]
fn events_out_of_place_change_nothing() {
    let store = a_store(1_000);
    let meta = CacheMeta { size_bytes: 10, token_count: 1 };
    let task = SaveTask { key: key("p1"), slot_id: 0, meta };
    let (state, action) =
        store.save_step(&task, SaveState::Start, SaveEvent::Measured { file_len: None });
    assert!(matches!((state, action), (SaveState::Start, SaveAction::Ignore)));
    let (state, action) = store.save_step(&task, SaveState::Requested, SaveEvent::Begin);
    assert!(matches!((state, action), (SaveState::Requested, SaveAction::Ignore)));
    let (state, action) = store.save_step(&task, SaveState::Ended, SaveEvent::Begin);
    assert!(matches!((state, action), (SaveState::Ended, SaveAction::Ignore)));
    let task = RestoreTask { key: key("p1"), slot_id: 0 };
    let event = RestoreEvent::Replied { reply: answered(200) };
    let (state, action) = store.restore_step(&task, RestoreState::Start, event);
    assert!(matches!((state, action), (RestoreState::Start, RestoreAction::Ignore)));
}

#[test]
fn a_hit_on_the_rules_and_their_table_is_counted() {
    let mut store = IndexedSlotStore::open(a_store(100), Manifest::new()).unwrap();
    let meta = CacheMeta { size_bytes: 60, token_count: 7 };
    store.record(&key("p1"), CacheHandle::new("p1.slot"), meta).unwrap();
    store.confirm_hit(&key("p1")).unwrap();
    store.confirm_hit(&key("p1")).unwrap();
    let row = store.index().find(&key("p1")).unwrap();
    assert_eq!((row.hit_count, row.token_count), (2, 7));
}

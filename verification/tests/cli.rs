use aivyx_kvcache::cli::{list_slots, prune, prune_report, stats, PruneStep};
use aivyx_kvcache::conformance::key;
use aivyx_kvcache::manifest::{Manifest, SlotRow};
use aivyx_kvcache::sweep::FileRemoval;
use aivyx_kvcache::{CacheHandle, CacheKey, CacheMeta, KvCacheError, LlamaServerSlotStore};

fn a_store(max_bytes: u64) -> LlamaServerSlotStore {
    LlamaServerSlotStore::open("http://127.0.0.1:0".to_string(), max_bytes)
}

fn sample() -> CacheKey {
    CacheKey {
        backend_id: "llama-server".into(),
        model_id: "qwen3.5".into(),
        build_hash: "b1".into(),
        prefix_hash: "p1".into(),
    }
}

/// Prunes for real, with every file there.
fn prune_all(index: &mut Manifest, target_bytes: u64) -> String {
    match prune(index, target_bytes, false) {
        PruneStep::Report(report) => panic!("got: {report}"),
        PruneStep::Sweep(mut sweep) => {
            while sweep.next_file().is_some() {
                sweep.file_removed(FileRemoval::Removed).unwrap();
            }
            prune_report(&sweep)
        }
    }
}

fn dry_run(index: &mut Manifest, target_bytes: u64) -> String {
    match prune(index, target_bytes, true) {
        PruneStep::Report(report) => report,
        PruneStep::Sweep(_) => panic!("a dry run deletes nothing"),
    }
}

#[test]
fn list_slots_reports_an_empty_store_and_then_a_recorded_one() {
    let mut index = Manifest::new();
    let empty = list_slots(&index);
    assert!(empty.contains("no cached slots"), "got: {empty}");

    let store = a_store(2_000);
    let meta = CacheMeta { size_bytes: 1234, token_count: 100 };
    assert!(store.record(&mut index, &sample(), &CacheHandle::new("p1.slot"), meta).is_ok());

    let report = list_slots(&index);
    assert!(report.contains("qwen3.5"), "got: {report}");
    assert!(report.contains("1234"), "got: {report}");
}

#[test]
fn stats_reports_total_bytes_against_the_budget() {
    let mut index = Manifest::new();
    let store = a_store(1_000);
    let meta = CacheMeta { size_bytes: 300, token_count: 10 };
    assert!(store.record(&mut index, &sample(), &CacheHandle::new("p1.slot"), meta).is_ok());

    let report = stats(&index, 1_000).unwrap();
    assert!(report.contains("300"), "got: {report}");
    assert!(report.contains("1000"), "got: {report}");
}

#[test]
fn prune_dry_run_reports_without_deleting() {
    let mut index = Manifest::new();
    let store = a_store(1_000);
    let meta = CacheMeta { size_bytes: 300, token_count: 10 };
    assert!(store.record(&mut index, &sample(), &CacheHandle::new("p1.slot"), meta).is_ok());

    let report = dry_run(&mut index, 0);
    assert!(report.contains("dry run"), "got: {report}");
    assert!(store.find(&index, &sample()).is_some());
}

#[test]
fn prune_for_real_evicts_down_to_the_target() {
    let mut index = Manifest::new();
    let store = a_store(1_000);
    let meta = CacheMeta { size_bytes: 300, token_count: 10 };
    assert!(store.record(&mut index, &sample(), &CacheHandle::new("p1.slot"), meta).is_ok());

    let report = prune_all(&mut index, 0);
    assert!(report.contains("freed"), "got: {report}");
    assert!(store.find(&index, &sample()).is_none());
}

fn row(prefix: &str, handle: &str, size_bytes: i64, nanos: i64, hit_count: i64) -> SlotRow {
    SlotRow {
        key: key(prefix),
        handle: CacheHandle::new(handle),
        size_bytes,
        token_count: 1,
        created_at_secs: 0,
        last_used_at_nanos: nanos,
        hit_count,
    }
}

fn three_rows() -> Manifest {
    Manifest::from_rows(vec![
        row("p1", "p1.slot", 100, 1_500_000_000, 3),
        row("p2", "../p2", 250, 9_000_000_000, 0),
        row("p3", "p3.slot", 4_000_000_000, 2_000_000_000, 123_456),
    ])
    .unwrap()
}

#[test]
fn listings_are_laid_out_in_columns_newest_first() {
    let mut rows = three_rows();
    let long = CacheKey { model_id: "a-model-name-beyond-its-column".into(), ..key("p4") };
    let meta = CacheMeta { size_bytes: 1, token_count: 1 };
    rows.insert_at(&long, &CacheHandle::new("p4.slot"), meta, 0, 0);
    assert_eq!(
        list_slots(&rows),
        "MODEL           BACKEND          BYTES     HITS  LAST_USED_SECS\n\
         qwen3.5         llama-server     250       0     9\n\
         qwen3.5         llama-server     4000000000 123456 2\n\
         qwen3.5         llama-server     100       3     1\n\
         a-model-name-beyond-its-column llama-server     1         0     0\n"
    );
    assert_eq!(list_slots(&Manifest::new()), "no cached slots");
}

#[test]
fn stats_are_one_sentence() {
    assert_eq!(
        stats(&three_rows(), 1_000).unwrap(),
        "4000000350 / 1000 bytes used, 3 slots, 123459 total hits"
    );
    assert_eq!(
        stats(&Manifest::new(), 0).unwrap(),
        "0 / 0 bytes used, 0 slots, 0 total hits"
    );
}

#[test]
fn stats_fail_where_the_total_is_out_of_range() {
    let rows = vec![row("p1", "p1.slot", i64::MAX, 1, 0), row("p2", "p2.slot", 1, 1, 0)];
    match stats(&Manifest::from_rows(rows).unwrap(), 1_000) {
        Err(KvCacheError::Backend(words)) => assert_eq!(words, "integer overflow"),
        other => panic!("got: {other:?}"),
    }
}

#[test]
fn a_dry_run_announces_what_the_prune_does() {
    let mut index = three_rows();
    assert_eq!(
        dry_run(&mut index, 300),
        "dry run: would evict 2 slots, freeing 4000000100 bytes"
    );
    assert_eq!(prune_all(&mut index, 300), "evicted 2 slots, freed 4000000100 bytes");
    assert_eq!(dry_run(&mut index, 300), "dry run: would evict 0 slots, freeing 0 bytes");
    assert_eq!(prune_all(&mut index, 300), "evicted 0 slots, freed 0 bytes");
}

#[test]
fn a_prune_says_how_many_files_it_left_alone() {
    let mut index = three_rows();
    assert_eq!(
        prune_all(&mut index, 0),
        "evicted 3 slots, freed 4000000350 bytes \
         (1 had an unsafe handle and were not deleted from disk)"
    );
    assert_eq!(list_slots(&index), "no cached slots");
}

#[test]
fn prunes_count_bytes_beyond_64_bits() {
    let rows = vec![row("p1", "p1.slot", -1, 1, 0), row("p2", "p2.slot", -1, 2, 0)];
    let mut index = Manifest::from_rows(rows).unwrap();
    assert_eq!(
        dry_run(&mut index, 0),
        "dry run: would evict 2 slots, freeing 36893488147419103230 bytes"
    );
    assert_eq!(prune_all(&mut index, 0), "evicted 2 slots, freed 36893488147419103230 bytes");
}

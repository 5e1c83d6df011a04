use aivyx_kvcache::conformance::key;
use aivyx_kvcache::manifest::{row_from_sql, Manifest, ManifestRow, RowOrder, SlotRow};
use aivyx_kvcache::{CacheHandle, CacheMeta, KvCacheError};

fn meta(size_bytes: u64) -> CacheMeta {
    CacheMeta { size_bytes, token_count: 1 }
}

fn stored(prefix: &str, size_bytes: i64, last_used_at_nanos: i64) -> SlotRow {
    SlotRow {
        key: key(prefix),
        handle: CacheHandle::new(format!("{prefix}.slot")),
        size_bytes,
        token_count: 1,
        created_at_secs: 7,
        last_used_at_nanos,
        hit_count: 0,
    }
}

fn prefixes(rows: &[ManifestRow]) -> Vec<&str> {
    rows.iter().map(|r| r.key.prefix_hash.as_str()).collect()
}

#[test]
fn insert_find_confirm_hit_and_remove_round_trip() {
    let mut m = Manifest::new();
    assert!(m.find(&key("p1")).is_none());

    let handle = CacheHandle::new("p1.slot");
    let meta = CacheMeta { size_bytes: 1000, token_count: 50 };
    m.insert(&key("p1"), &handle, meta);

    let row = m.find(&key("p1")).unwrap();
    assert_eq!(row.handle, handle);
    assert_eq!(row.size_bytes, 1000);
    assert_eq!(row.token_count, 50);
    assert_eq!(row.hit_count, 0);

    m.confirm_hit(&key("p1"));
    let row = m.find(&key("p1")).unwrap();
    assert_eq!(row.hit_count, 1);

    m.confirm_hit(&key("does-not-exist"));

    assert_eq!(m.total_bytes().unwrap(), 1000);

    m.remove(&key("p1"));
    assert!(m.find(&key("p1")).is_none());
    assert_eq!(m.total_bytes().unwrap(), 0);
}

#[test]
fn re_inserting_an_existing_key_resets_hit_count() {
    let mut m = Manifest::new();
    let meta = CacheMeta { size_bytes: 100, token_count: 10 };
    m.insert(&key("p1"), &CacheHandle::new("v1.slot"), meta);
    m.confirm_hit(&key("p1"));
    assert_eq!(m.find(&key("p1")).unwrap().hit_count, 1);

    m.insert(
        &key("p1"),
        &CacheHandle::new("v2.slot"),
        CacheMeta { size_bytes: 200, token_count: 20 },
    );
    let row = m.find(&key("p1")).unwrap();
    assert_eq!(row.hit_count, 0);
    assert_eq!(row.handle, CacheHandle::new("v2.slot"));
    assert_eq!(row.size_bytes, 200);
}

#[test]
fn evict_candidates_returns_least_recently_used_first_until_under_budget() {
    let mut m = Manifest::new();
    for p in ["p1", "p2", "p3"] {
        m.insert(
            &key(p),
            &CacheHandle::new(format!("{p}.slot")),
            CacheMeta { size_bytes: 100, token_count: 1 },
        );
    }
    m.confirm_hit(&key("p1"));

    let candidates = m.evict_candidates(150);
    let evicted: Vec<&str> = candidates.iter().map(|r| r.key.prefix_hash.as_str()).collect();
    assert_eq!(evicted, vec!["p2", "p3"]);

    assert_eq!(m.total_bytes().unwrap(), 300);
}

#[test]
fn evict_and_remove_atomically_removes_lru_rows_until_under_budget() {
    let mut m = Manifest::new();
    for p in ["p1", "p2", "p3"] {
        m.insert(
            &key(p),
            &CacheHandle::new(format!("{p}.slot")),
            CacheMeta { size_bytes: 100, token_count: 1 },
        );
    }
    m.confirm_hit(&key("p1"));

    let removed = m.evict_and_remove(150);
    let removed_hashes: Vec<&str> = removed.iter().map(|r| r.key.prefix_hash.as_str()).collect();
    assert_eq!(removed_hashes, vec!["p2", "p3"]);

    assert_eq!(m.total_bytes().unwrap(), 100);
    assert!(m.find(&key("p1")).is_some());
    assert!(m.find(&key("p2")).is_none());
}

#[test]
fn list_all_returns_every_row_without_removing_any() {
    let mut m = Manifest::new();
    assert_eq!(m.list_all().len(), 0);

    m.insert(
        &key("p1"),
        &CacheHandle::new("p1.slot"),
        CacheMeta { size_bytes: 100, token_count: 1 },
    );
    let rows = m.list_all();
    assert_eq!(rows.len(), 1);
    assert_eq!(rows[0].key.prefix_hash, "p1");
    assert_eq!(m.len(), 1);
}

#[test]
fn a_table_read_back_from_its_rows_is_the_same_table() {
    let mut m = Manifest::new();
    m.insert_at(&key("p1"), &CacheHandle::new("p1.slot"), meta(100), 3, 3_000_000_001);
    m.confirm_hit_at(&key("p1"), 4_999_999_999);
    let row = m.stored(&key("p1")).unwrap();
    assert_eq!(row.created_at_secs, 3);
    assert_eq!(row.last_used_at_nanos, 4_999_999_999);
    let copy = SlotRow {
        key: row.key.clone(),
        handle: row.handle.clone(),
        size_bytes: row.size_bytes,
        token_count: row.token_count,
        created_at_secs: row.created_at_secs,
        last_used_at_nanos: row.last_used_at_nanos,
        hit_count: row.hit_count,
    };
    let reopened = Manifest::from_rows(vec![copy]).unwrap();
    let row = reopened.find(&key("p1")).unwrap();
    assert_eq!(row, m.find(&key("p1")).unwrap());
    assert_eq!(row.last_used_at_secs, 4);
    assert_eq!(row.hit_count, 1);
}

#[test]
fn a_table_has_one_row_for_each_key() {
    assert!(Manifest::from_rows(vec![stored("p1", 1, 1), stored("p2", 1, 1)]).is_some());
    assert!(Manifest::from_rows(vec![
        stored("p1", 1, 1),
        stored("p2", 1, 1),
        stored("p1", 2, 2)
    ])
    .is_none());
    let mut m = Manifest::new();
    m.insert_at(&key("p1"), &CacheHandle::new("v1.slot"), meta(1), 1, 1);
    m.insert_at(&key("p1"), &CacheHandle::new("v2.slot"), meta(2), 9, 9);
    assert_eq!(m.len(), 1);
    // Saving again keeps the time of the first save.
    assert_eq!(m.stored(&key("p1")).unwrap().created_at_secs, 1);
    assert_eq!(m.stored(&key("p1")).unwrap().last_used_at_nanos, 9);
}

#[test]
fn rows_used_at_the_same_time_go_in_the_order_of_insertion() {
    let rows = vec![stored("p1", 10, 5), stored("p2", 10, 5), stored("p3", 10, 4)];
    let mut m = Manifest::from_rows(rows).unwrap();
    assert_eq!(prefixes(&m.all_rows(RowOrder::OldestFirst)), vec!["p3", "p1", "p2"]);
    assert_eq!(prefixes(&m.all_rows(RowOrder::NewestFirst)), vec!["p2", "p1", "p3"]);
    assert_eq!(prefixes(&m.evict_and_remove(10)), vec!["p3", "p1"]);
    assert_eq!(prefixes(&m.list_all()), vec!["p2"]);
}

#[test]
fn eviction_stops_at_the_target_and_takes_no_more_than_needed() {
    let rows = || vec![stored("p1", 100, 1), stored("p2", 100, 2), stored("p3", 100, 3)];
    let m = Manifest::from_rows(rows()).unwrap();
    assert_eq!(prefixes(&m.evict_candidates(300)), Vec::<&str>::new());
    assert_eq!(prefixes(&m.evict_candidates(299)), vec!["p1"]);
    assert_eq!(prefixes(&m.evict_candidates(200)), vec!["p1"]);
    assert_eq!(prefixes(&m.evict_candidates(0)), vec!["p1", "p2", "p3"]);
    let mut m = Manifest::from_rows(rows()).unwrap();
    assert_eq!(m.evict_and_remove(150).len(), 2);
    assert_eq!(m.evict_and_remove(150).len(), 0);
}

#[test]
fn sizes_beyond_the_signed_range_read_back_unchanged() {
    let mut m = Manifest::new();
    let size_bytes = u64::MAX - 5;
    m.insert_at(&key("p1"), &CacheHandle::new("p1.slot"), meta(size_bytes), 0, 0);
    assert_eq!(m.stored(&key("p1")).unwrap().size_bytes, -6);
    assert_eq!(m.find(&key("p1")).unwrap().size_bytes, size_bytes);
    assert_eq!(m.recorded_bytes(), size_bytes as u128);
    assert_eq!(m.total_bytes().unwrap(), size_bytes);
    m.insert_at(&key("p2"), &CacheHandle::new("p2.slot"), meta(u64::MAX), 0, 1);
    assert_eq!(m.recorded_bytes(), size_bytes as u128 + u64::MAX as u128);
    assert_eq!(prefixes(&m.evict_candidates(u64::MAX)), vec!["p1"]);
    assert_eq!(prefixes(&m.evict_and_remove(u64::MAX)), vec!["p1"]);
}

#[test]
fn a_total_out_of_range_is_an_integer_overflow() {
    let m = Manifest::from_rows(vec![stored("p1", i64::MAX, 1), stored("p2", 1, 2)]).unwrap();
    match m.total_bytes() {
        Err(KvCacheError::Backend(words)) => assert_eq!(words, "integer overflow"),
        other => panic!("got: {other:?}"),
    }
    assert_eq!(m.recorded_bytes(), 1 << 63);
    let m = Manifest::from_rows(vec![stored("p1", -1, 1), stored("p2", 1, 2)]).unwrap();
    assert_eq!(m.total_bytes().unwrap(), 0);
    assert_eq!(m.recorded_bytes(), 1 << 64);
}

#[test]
fn hits_are_added_up() {
    let mut m = Manifest::from_rows(vec![stored("p1", 1, 1), stored("p2", 1, 2)]).unwrap();
    for now_nanos in 10..13 {
        m.confirm_hit_at(&key("p1"), now_nanos);
    }
    m.confirm_hit_at(&key("p2"), 20);
    assert_eq!(m.checked_hits(), Some(4));
    assert_eq!(m.stored(&key("p1")).unwrap().last_used_at_nanos, 12);
    let mut full = stored("p1", 1, 1);
    full.hit_count = -1;
    let mut one = stored("p2", 1, 1);
    one.hit_count = 1;
    assert_eq!(Manifest::from_rows(vec![full, one]).unwrap().checked_hits(), None);
}

#[test]
fn stored_columns_read_as_unsigned_numbers() {
    let row = row_from_sql(&SlotRow { token_count: -2, hit_count: -3, ..stored("p1", -1, -4) });
    assert_eq!(row.size_bytes, u64::MAX);
    assert_eq!(row.token_count, u64::MAX - 1);
    assert_eq!(row.hit_count, u64::MAX - 2);
    assert_eq!(row.last_used_at_secs, 18_446_744_073);
    assert_eq!(row.handle.as_str(), "p1.slot");
}

#[test]
fn removing_a_key_without_a_row_changes_nothing() {
    let mut m = Manifest::from_rows(vec![stored("p1", 1, 1)]).unwrap();
    m.remove(&key("p2"));
    assert_eq!(m.len(), 1);
    m.confirm_hit_at(&key("p2"), 9);
    assert_eq!(m.stored(&key("p1")).unwrap().hit_count, 0);
}

#[test]
fn a_use_takes_the_reading_of_the_clock_or_one_past_the_latest_stamp() {
    let m = Manifest::from_rows(vec![stored("p1", 1, 10), stored("p2", 1, 7)]).unwrap();
    assert_eq!(m.next_stamp(11), 11);
    assert_eq!(m.next_stamp(10), 11);
    assert_eq!(m.next_stamp(-3), 11);
    assert_eq!(Manifest::new().next_stamp(i64::MIN), i64::MIN);
    let end = Manifest::from_rows(vec![stored("p1", 1, i64::MAX)]).unwrap();
    assert_eq!(end.next_stamp(5), i64::MAX);
}

#[test]
fn a_hit_sorts_last_whatever_the_clock_says() {
    for reading in [i64::MIN, 0, 5, 9, 10, 11, i64::MAX] {
        let rows = vec![stored("p1", 1, 5), stored("p2", 1, 10), stored("p3", 1, 10)];
        let mut m = Manifest::from_rows(rows).unwrap();
        m.confirm_hit_latest(&key("p1"), reading);
        assert_eq!(prefixes(&m.list_all()), vec!["p1", "p3", "p2"]);
        assert_eq!(m.find(&key("p1")).unwrap().hit_count, 1);
        m.confirm_hit_latest(&key("p2"), reading);
        assert_eq!(prefixes(&m.list_all()), vec!["p2", "p1", "p3"]);
        m.insert_latest(&key("p3"), &CacheHandle::new("v2.slot"), meta(2), 0, reading);
        assert_eq!(prefixes(&m.list_all()), vec!["p3", "p2", "p1"]);
        m.confirm_hit_latest(&key("p4"), reading);
        assert_eq!(m.len(), 3);
    }
}

#[test]
fn uses_stay_in_order_when_the_stamps_have_run_out() {
    let rows = vec![stored("p1", 1, i64::MAX), stored("p2", 1, i64::MAX), stored("p3", 1, 4)];
    let mut m = Manifest::from_rows(rows).unwrap();
    assert_eq!(prefixes(&m.list_all()), vec!["p2", "p1", "p3"]);
    m.confirm_hit_latest(&key("p1"), 9);
    assert_eq!(prefixes(&m.list_all()), vec!["p1", "p2", "p3"]);
    assert_eq!(m.stored(&key("p1")).unwrap().created_at_secs, 7);
    m.insert_latest(&key("p3"), &CacheHandle::new("v2.slot"), meta(2), 99, 9);
    assert_eq!(prefixes(&m.list_all()), vec!["p3", "p1", "p2"]);
    assert_eq!(m.stored(&key("p3")).unwrap().created_at_secs, 7);
}

#[test]
fn eviction_removes_the_candidates_and_then_nothing_more() {
    let rows = vec![stored("p1", 100, 3), stored("p2", 100, 1), stored("p3", 100, 2)];
    let mut m = Manifest::from_rows(rows).unwrap();
    let candidates = m.evict_candidates(150);
    assert_eq!(m.len(), 3);
    assert_eq!(m.evict_and_remove(150), candidates);
    assert_eq!(m.evict_and_remove(150), vec![]);
    assert_eq!(prefixes(&m.list_all()), vec!["p1"]);
}

#[test]
fn the_second_of_a_use_is_the_clocks_or_that_of_the_moment_after_the_latest_use() {
    let mut m = Manifest::new();
    m.insert_latest(&key("p1"), &CacheHandle::new("p1.slot"), meta(1), 3, 3_000_000_000);
    assert_eq!(m.find(&key("p1")).unwrap().last_used_at_secs, 3);
    m.insert_latest(&key("p2"), &CacheHandle::new("p2.slot"), meta(1), 5, 5_999_999_999);
    assert_eq!(m.find(&key("p2")).unwrap().last_used_at_secs, 5);
    m.insert_latest(&key("p3"), &CacheHandle::new("p3.slot"), meta(1), 4, 4_000_000_000);
    assert_eq!(m.find(&key("p3")).unwrap().last_used_at_secs, 6);
    let seconds: Vec<u64> = m.list_all().iter().map(|row| row.last_used_at_secs).collect();
    assert_eq!(seconds, vec![6, 5, 3]);
}

//! What the table's columns and totals come to.
use vstd::prelude::*;

use crate::budget;
use crate::changes;
use crate::changes::ChangeView;
use crate::clock;
use crate::manifest;
use crate::manifest::RowView;
use crate::manifest_laws;
use crate::store;
use crate::types::{CacheMeta, KeyView};

verus! {

/// A row that survives an eviction pass stays as it is, in every column.
pub proof fn law_survivors_stay_as_they_are(rows: Seq<RowView>, target: nat, key: KeyView)
    requires
        manifest::distinct_keys(rows),
        manifest::has_key(manifest::trimmed(rows, target), key),
    ensures
        manifest::row_of(manifest::trimmed(rows, target), key) == manifest::row_of(rows, key),
{
    let kept = manifest::trimmed(rows, target);
    let n = manifest::overdue(rows, target);
    let sorted = manifest::by_use(rows);
    manifest_laws::lemma_by_use(rows);
    budget::lemma_excess(manifest::sizes(sorted), target);
    manifest_laws::lemma_without_oldest(rows, n);
    manifest_laws::law_listing_is_complete(rows);
    manifest_laws::law_listing_is_complete(kept);
    let tail = manifest::by_use(kept);
    assert(manifest::row_of(tail, key) == manifest::row_of(kept, key));
    assert(manifest::row_of(sorted, key) == manifest::row_of(rows, key));
    let i = manifest::position_of(tail, key);
    assert(tail[i] == sorted[n + i]);
    manifest_laws::lemma_position(sorted, n + i);
}

/// A slot that was just recorded shows what was recorded and when: the handle, the sizes, no
/// hits, and the very reading of the clock, to the nanosecond, as its last use; the second
/// that it shows is the second of that reading, and so is, of a new row, the second of its
/// creation. The clock has to be past all earlier uses, and before its end.
pub proof fn law_record_shows_the_clock(
    rows: Seq<RowView>,
    key: KeyView,
    handle: Seq<char>,
    meta: CacheMeta,
    now: u128,
    budget: nat,
)
    requires
        manifest::distinct_keys(rows),
        meta.size_bytes <= budget,
        now <= i64::MAX,
        forall|i: int| 0 <= i < rows.len() ==> (#[trigger] rows[i]).last_used_at_nanos < now,
    ensures
        ({
            let all = manifest::saved_latest(rows, manifest::row_at(key, handle, meta, Some(now)));
            let found = manifest::row_of(manifest::trimmed(all, budget), key);
            let row = found.unwrap();
            &&& found is Some
            &&& row.key == key
            &&& row.handle == handle
            &&& row.last_used_at_nanos == now
            &&& row.hit_count == 0
            &&& manifest::listed(row).size_bytes == meta.size_bytes
            &&& manifest::listed(row).token_count == meta.token_count
            &&& manifest::listed(row).hit_count == 0
            &&& manifest::listed(row).last_used_at_secs == now / 1_000_000_000
            &&& row.created_at_secs == match manifest::row_of(rows, key) {
                Some(former) => former.created_at_secs as int,
                None => (now / 1_000_000_000) as int,
            }
        }),
{
    let row = manifest::row_at(key, handle, meta, Some(now));
    let all = manifest::saved_latest(rows, row);
    clock::law_stamps_are_readings(now);
    lemma_newest_is_some(rows);
    manifest_laws::law_latest_save_then_find(rows, row, key);
    manifest_laws::law_record_then_find(rows, row, budget);
    law_survivors_stay_as_they_are(all, budget, key);
}

/// A hit shows the very reading of the clock, to the nanosecond, as the last use of its row,
/// and one hit more. The clock has to be past all earlier uses, and before its end.
pub proof fn law_hit_shows_the_clock(rows: Seq<RowView>, key: KeyView, now: u128)
    requires
        manifest::distinct_keys(rows),
        manifest::has_key(rows, key),
        manifest::row_of(rows, key).unwrap().hit_count < i64::MAX,
        now <= i64::MAX,
        forall|i: int| 0 <= i < rows.len() ==> (#[trigger] rows[i]).last_used_at_nanos < now,
    ensures
        ({
            let after = manifest::hit_latest(rows, key, clock::nanos_stamp(Some(now)));
            let (former, row) = (
                manifest::row_of(rows, key).unwrap(),
                manifest::row_of(after, key).unwrap(),
            );
            &&& manifest::row_of(after, key) is Some
            &&& row.last_used_at_nanos == now
            &&& manifest::listed(row).last_used_at_secs == now / 1_000_000_000
            &&& row.hit_count == former.hit_count + 1
            &&& row == (RowView {
                hit_count: row.hit_count,
                last_used_at_nanos: row.last_used_at_nanos,
                ..former
            })
        }),
{
    clock::law_stamps_are_readings(now);
    lemma_newest_is_some(rows);
    manifest_laws::law_latest_hit_then_find(rows, key, clock::nanos_stamp(Some(now)), key);
}

/// The latest stamp is that of some row.
proof fn lemma_newest_is_some(rows: Seq<RowView>)
    ensures
        rows.len() == 0 ==> manifest::newest(rows) < i64::MIN,
        rows.len() > 0 ==> exists|i: int|
            0 <= i < rows.len() && (#[trigger] rows[i]).last_used_at_nanos == manifest::newest(
                rows,
            ),
    decreases rows.len(),
{
    if rows.len() > 0 {
        let fewer = rows.drop_last();
        lemma_newest_is_some(fewer);
        let last = rows.len() - 1;
        if manifest::newest(fewer) < rows[last].last_used_at_nanos {
            assert(rows[last].last_used_at_nanos == manifest::newest(rows));
        } else if fewer.len() > 0 {
            let i = choose|i: int|
                0 <= i < fewer.len() && (#[trigger] fewer[i]).last_used_at_nanos
                    == manifest::newest(fewer);
            assert(rows[i].last_used_at_nanos == manifest::newest(rows));
        }
    }
}

/// A save changes the number of bytes recorded by the size of the slot, less what the key had
/// before.
pub proof fn law_save_adds_its_size(
    rows: Seq<RowView>,
    key: KeyView,
    handle: Seq<char>,
    meta: CacheMeta,
    now: Option<u128>,
)
    requires
        manifest::distinct_keys(rows),
    ensures
        ({
            let after = manifest::saved_latest(rows, manifest::row_at(key, handle, meta, now));
            budget::sum(manifest::sizes(after)) + match manifest::row_of(rows, key) {
                Some(former) => manifest::listed(former).size_bytes as int,
                None => 0,
            } == budget::sum(manifest::sizes(rows)) + meta.size_bytes
        }),
{
    let row = manifest::row_at(key, handle, meta, now);
    let ready = manifest::lined_up(rows, key);
    manifest_laws::lemma_lined_up(rows, key);
    assert(manifest::row_of(ready, key) == manifest::row_of(rows, key));
    lemma_lined_up_sum(rows, key);
    let after = manifest::saved_latest(rows, row);
    let size = meta.size_bytes as nat;
    if manifest::has_key(ready, key) {
        let p = manifest::position_of(ready, key);
        budget::lemma_sum_remove(manifest::sizes(after), p);
        budget::lemma_sum_remove(manifest::sizes(ready), p);
        assert(manifest::sizes(after)[p] == size);
        assert(manifest::sizes(after).remove(p) =~= manifest::sizes(ready).remove(p));
    } else {
        budget::lemma_sum_push(manifest::sizes(ready), size);
        assert(manifest::sizes(after) =~= manifest::sizes(ready).push(size));
    }
}

proof fn lemma_lined_up_sum(rows: Seq<RowView>, key: KeyView)
    ensures
        budget::sum(manifest::sizes(manifest::lined_up(rows, key))) == budget::sum(
            manifest::sizes(rows),
        ),
        budget::sum(manifest::hit_counts(manifest::lined_up(rows, key))) == budget::sum(
            manifest::hit_counts(rows),
        ),
{
    if manifest::newest(rows) == i64::MAX && manifest::has_key(rows, key) {
        let p = manifest::position_of(rows, key);
        let after = manifest::lined_up(rows, key);
        let (sizes, hits) = (manifest::sizes(rows), manifest::hit_counts(rows));
        budget::lemma_sum_remove(sizes, p);
        budget::lemma_sum_push(sizes.remove(p), sizes[p]);
        assert(manifest::sizes(after) =~= sizes.remove(p).push(sizes[p]));
        budget::lemma_sum_remove(hits, p);
        budget::lemma_sum_push(hits.remove(p), hits[p]);
        assert(manifest::hit_counts(after) =~= hits.remove(p).push(hits[p]));
    }
}

/// A hit adds one to the hits of the whole table and nothing to its bytes.
pub proof fn law_hit_adds_one(rows: Seq<RowView>, key: KeyView, reading: i64)
    requires
        manifest::distinct_keys(rows),
        manifest::has_key(rows, key),
        0 <= manifest::row_of(rows, key).unwrap().hit_count < i64::MAX,
    ensures
        ({
            let after = manifest::hit_latest(rows, key, reading);
            &&& budget::sum(manifest::hit_counts(after)) == budget::sum(manifest::hit_counts(rows))
                + 1
            &&& budget::sum(manifest::sizes(after)) == budget::sum(manifest::sizes(rows))
            &&& after.len() == rows.len()
        }),
{
    let ready = manifest::lined_up(rows, key);
    let after = manifest::hit_latest(rows, key, reading);
    manifest_laws::lemma_lined_up(rows, key);
    assert(manifest::row_of(ready, key) == manifest::row_of(rows, key));
    lemma_lined_up_sum(rows, key);
    let p = manifest::position_of(ready, key);
    let (before, now) = (manifest::hit_counts(ready), manifest::hit_counts(after));
    budget::lemma_sum_remove(before, p);
    budget::lemma_sum_remove(now, p);
    assert(before.remove(p) =~= now.remove(p));
    assert(manifest::sizes(after) =~= manifest::sizes(ready));
}

/// What an eviction pass removes and what it leaves make up the table: in rows and in bytes.
pub proof fn law_eviction_loses_nothing(rows: Seq<RowView>, target: nat)
    ensures
        manifest::evicted(rows, target).len() + manifest::trimmed(rows, target).len()
            == rows.len(),
        budget::sum(manifest::sizes(manifest::evicted(rows, target))) + budget::sum(
            manifest::sizes(manifest::trimmed(rows, target)),
        ) == budget::sum(manifest::sizes(rows)),
{
    let sorted = manifest::by_use(rows);
    let kept = manifest::trimmed(rows, target);
    let n = manifest::overdue(rows, target);
    manifest_laws::lemma_by_use(rows);
    manifest_laws::lemma_by_use(kept);
    budget::lemma_excess(manifest::sizes(sorted), target);
    manifest_laws::lemma_without_oldest(rows, n);
    budget::lemma_sum_split(manifest::sizes(sorted), n as int);
    assert(manifest::sizes(manifest::evicted(rows, target)) =~= manifest::sizes(sorted).take(
        n as int,
    ));
    assert(manifest::sizes(manifest::by_use(kept)) =~= manifest::sizes(sorted).skip(n as int));
}

/// Removing the row of a key takes its slot out and leaves all others in their order of use.
pub proof fn law_removal_refines_store(rows: Seq<RowView>, key: KeyView)
    requires
        manifest::distinct_keys(rows),
    ensures
        manifest_laws::slots(manifest::without(rows, key)) == store::without(
            manifest_laws::slots(rows),
            key,
        ),
{
    manifest_laws::law_table_is_a_store(rows, key);
    if manifest::has_key(rows, key) {
        let p = manifest::position_of(rows, key);
        assert(rows[p].key == key);
        manifest_laws::lemma_taken_out(rows, p);
    }
}

/// Rows keep their places: a save under a key that has a row, and a hit, move none, as long as
/// the stamps have not run out; a save under a new key puts its row last.
pub proof fn law_rows_keep_their_places(rows: Seq<RowView>, row: RowView, reading: i64, i: int)
    requires
        manifest::distinct_keys(rows),
        manifest::newest(rows) < i64::MAX,
        0 <= i < rows.len(),
    ensures
        ({
            let saved = manifest::saved_latest(rows, row);
            let hit = manifest::hit_latest(rows, row.key, reading);
            &&& saved[i].key == rows[i].key
            &&& hit[i].key == rows[i].key
            &&& rows[i].key != row.key ==> saved[i] == rows[i] && hit[i] == rows[i]
            &&& hit.len() == rows.len()
            &&& manifest::has_key(rows, row.key) ==> saved.len() == rows.len()
            &&& !manifest::has_key(rows, row.key) ==> saved.len() == rows.len() + 1
                && saved.last().key == row.key
        }),
{
}

/// A row reads as what it stores.
pub proof fn law_rows_read_as_they_are(row: RowView)
    requires
        row.size_bytes >= 0,
        row.token_count >= 0,
        row.hit_count >= 0,
        row.last_used_at_nanos >= 0,
    ensures
        manifest::listed(row).key == row.key,
        manifest::listed(row).handle == row.handle,
        manifest::listed(row).size_bytes == row.size_bytes,
        manifest::listed(row).token_count == row.token_count,
        manifest::listed(row).hit_count == row.hit_count,
        manifest::listed(row).last_used_at_secs * 1_000_000_000 <= row.last_used_at_nanos,
        row.last_used_at_nanos < (manifest::listed(row).last_used_at_secs + 1) * 1_000_000_000,
{
}

/// A change is what it says: a deleted key has no row, a row that was written is found under
/// its key, and every other key keeps the row it had. Only a row under a new key makes the
/// table longer, and only as its last.
pub proof fn law_change_then_find(rows: Seq<RowView>, key: KeyView, row: RowView, other: KeyView)
    requires
        manifest::distinct_keys(rows),
    ensures
        ({
            let less = changes::changed(rows, ChangeView::Delete { key });
            let put = changes::changed(rows, ChangeView::Put { row });
            &&& manifest::row_of(less, key) is None
            &&& other != key ==> manifest::row_of(less, other) == manifest::row_of(rows, other)
            &&& manifest::row_of(put, row.key) == Some(row)
            &&& other != row.key ==> manifest::row_of(put, other) == manifest::row_of(rows, other)
            &&& manifest::has_key(rows, row.key) ==> put.len() == rows.len()
            &&& !manifest::has_key(rows, row.key) ==> put.len() == rows.len() + 1 && put.last()
                == row
        }),
{
    let put = changes::changed(rows, ChangeView::Put { row });
    manifest_laws::law_remove_then_find(rows, key, other);
    if manifest::has_key(rows, row.key) {
        let p = manifest::position_of(rows, row.key);
        assert forall|i: int| 0 <= i < rows.len() implies (#[trigger] put[i]).key
            == rows[i].key by {}
        manifest_laws::lemma_position(put, p);
    } else {
        assert forall|i: int| 0 <= i < rows.len() implies (#[trigger] put[i]) == rows[i] by {}
        manifest_laws::lemma_position(put, rows.len() as int);
    }
    if other != row.key {
        if manifest::has_key(rows, other) {
            let i = manifest::position_of(rows, other);
            assert(put[i] == rows[i]);
            manifest_laws::lemma_position(put, i);
        }
        if manifest::has_key(put, other) {
            let i = manifest::position_of(put, other);
            assert(i < rows.len() && rows[i].key == other);
        }
    }
}

} // verus!

//! What the table promises across its operations.
use vstd::prelude::*;

use crate::budget;
use crate::clock;
use crate::manifest;
use crate::manifest::{ListedView, ManifestRow, RowView};
use crate::order;
use crate::store;
use crate::store::SlotView;
use crate::store_laws;
use crate::types::{CacheMeta, KeyView};

verus! {

/// Sorting by use loses no row and adds none.
pub proof fn lemma_by_use(rows: Seq<RowView>)
    ensures
        order::is_use_order(manifest::stamps(rows), order::use_order(manifest::stamps(rows))),
        manifest::by_use(rows).len() == rows.len(),
        budget::sum(manifest::sizes(manifest::by_use(rows))) == budget::sum(manifest::sizes(rows)),
{
    let p = order::use_order(manifest::stamps(rows));
    let sizes = manifest::sizes(rows);
    order::lemma_use_order_exists(manifest::stamps(rows));
    order::lemma_sum_arranged(sizes, p);
    assert(manifest::sizes(manifest::by_use(rows)) =~= p.map_values(|i: int| sizes[i]));
}

/// With distinct keys, a row is found at the one place where its key stands.
pub proof fn lemma_position(rows: Seq<RowView>, i: int)
    requires
        manifest::distinct_keys(rows),
        0 <= i < rows.len(),
    ensures
        manifest::has_key(rows, rows[i].key),
        manifest::position_of(rows, rows[i].key) == i,
        manifest::row_of(rows, rows[i].key) == Some(rows[i]),
{
    let p = manifest::position_of(rows, rows[i].key);
    assert(0 <= p < rows.len() && rows[p].key == rows[i].key);
}

/// Removing a row takes it out of the order of use and leaves the others in theirs.
pub proof fn lemma_remove_by_use(rows: Seq<RowView>, k: int)
    requires
        0 <= k < rows.len(),
    ensures
        ({
            let i = order::use_order(manifest::stamps(rows))[k];
            &&& 0 <= i < rows.len()
            &&& manifest::by_use(rows)[k] == rows[i]
            &&& manifest::by_use(rows.remove(i)) == manifest::by_use(rows).remove(k)
        }),
{
    let p = order::use_order(manifest::stamps(rows));
    lemma_by_use(rows);
    let i = p[k];
    let fewer = rows.remove(i);
    let n = fewer.len();
    let q = Seq::new(
        n,
        |a: int|
            {
                let at = if a < k {
                    p[a]
                } else {
                    p[a + 1]
                };
                if at < i {
                    at
                } else {
                    at - 1
                }
            },
    );
    let before = manifest::stamps(rows);
    let after = manifest::stamps(fewer);
    assert(after =~= before.remove(i));
    assert forall|a: int| 0 <= a < n implies 0 <= #[trigger] q[a] < n && fewer[q[a]] == rows[p[
    if a < k {
        a
    } else {
        a + 1
    }]] by {
        let b = if a < k {
            a
        } else {
            a + 1
        };
        assert(p[b] != p[k]);
        assert(0 <= p[b] < rows.len());
    }
    assert forall|a: int, b: int| 0 <= a < b < n implies order::before(
        after,
        #[trigger] q[a],
        #[trigger] q[b],
    ) by {
        let c = if a < k {
            a
        } else {
            a + 1
        };
        let d = if b < k {
            b
        } else {
            b + 1
        };
        assert(order::before(before, p[c], p[d]));
        assert(p[c] != i && p[d] != i);
    }
    assert forall|a: int, b: int| 0 <= a < b < n implies #[trigger] q[a] != #[trigger] q[b] by {
        assert(order::before(after, q[a], q[b]));
    }
    assert forall|j: int| 0 <= j < n implies #[trigger] q.contains(j) by {
        let at = if j < i {
            j
        } else {
            j + 1
        };
        assert(p.contains(at));
        let b = choose|b: int| 0 <= b < p.len() && p[b] == at;
        assert(b != k);
        if b < k {
            assert(q[b] == j);
        } else {
            assert(q[b - 1] == j);
        }
    }
    order::lemma_use_order_unique(after, q);
    assert(manifest::by_use(fewer) =~= manifest::by_use(rows).remove(k));
}

/// Removing the least recently used row `n` times leaves the tail of the order of use.
pub proof fn lemma_without_oldest(rows: Seq<RowView>, n: nat)
    requires
        n <= rows.len(),
    ensures
        manifest::without_oldest(rows, n).len() == rows.len() - n,
        manifest::by_use(manifest::without_oldest(rows, n)) == manifest::by_use(rows).skip(
            n as int,
        ),
        manifest::distinct_keys(rows) ==> manifest::distinct_keys(
            manifest::without_oldest(rows, n),
        ),
    decreases n,
{
    if n == 0 || rows.len() == 0 {
        assert(manifest::by_use(rows).skip(0) =~= manifest::by_use(rows));
    } else {
        let fewer = rows.remove(order::use_order(manifest::stamps(rows))[0]);
        lemma_by_use(rows);
        lemma_remove_by_use(rows, 0);
        lemma_without_oldest(fewer, (n - 1) as nat);
        assert(manifest::by_use(rows).remove(0).skip(n - 1) =~= manifest::by_use(rows).skip(
            n as int,
        ));
    }
}

/// One removal more takes the row that is now the least recently used.
pub proof fn lemma_without_oldest_step(rows: Seq<RowView>, n: nat)
    requires
        n < rows.len(),
    ensures
        ({
            let left = manifest::without_oldest(rows, n);
            manifest::without_oldest(rows, n + 1) == left.remove(
                order::use_order(manifest::stamps(left))[0],
            )
        }),
    decreases n,
{
    let fewer = rows.remove(order::use_order(manifest::stamps(rows))[0]);
    lemma_by_use(rows);
    lemma_remove_by_use(rows, 0);
    if n == 0 {
        assert(manifest::without_oldest(fewer, 0) == fewer);
    } else {
        lemma_without_oldest_step(fewer, (n - 1) as nat);
    }
}

/// What a save writes is what a read returns: the handle, the sizes, and no hits.
pub proof fn law_saved_row_reads_back(
    key: KeyView,
    handle: Seq<char>,
    meta: CacheMeta,
    now_secs: i64,
    now_nanos: i64,
)
    ensures
        manifest::listed(manifest::fresh_row(key, handle, meta, now_secs, now_nanos)) == (
        ListedView {
            key,
            handle,
            size_bytes: meta.size_bytes,
            token_count: meta.token_count,
            last_used_at_secs: clock::unsigned(now_nanos) / 1_000_000_000,
            hit_count: 0,
        }),
{
}

/// After a save, the key has the row that was saved, except that a row that took the place
/// of another keeps its time of creation; every other key has the row it had.
pub proof fn law_save_then_find(rows: Seq<RowView>, row: RowView, other: KeyView)
    requires
        manifest::distinct_keys(rows),
    ensures
        manifest::distinct_keys(manifest::saved(rows, row)),
        manifest::row_of(manifest::saved(rows, row), row.key) == Some(
            RowView {
                created_at_secs: match manifest::row_of(rows, row.key) {
                    Some(former) => former.created_at_secs,
                    None => row.created_at_secs,
                },
                ..row
            },
        ),
        other != row.key ==> manifest::row_of(manifest::saved(rows, row), other)
            == manifest::row_of(rows, other),
{
    let after = manifest::saved(rows, row);
    if manifest::has_key(rows, row.key) {
        let p = manifest::position_of(rows, row.key);
        assert forall|i: int| 0 <= i < rows.len() implies (#[trigger] after[i]).key
            == rows[i].key by {}
        lemma_position(after, p);
    } else {
        assert(after[rows.len() as int] == row);
        assert forall|i: int| 0 <= i < rows.len() implies (#[trigger] after[i]) == rows[i] by {}
        lemma_position(after, rows.len() as int);
    }
    if other != row.key {
        if manifest::has_key(rows, other) {
            let i = manifest::position_of(rows, other);
            assert(after[i] == rows[i]);
            lemma_position(after, i);
        }
        if manifest::has_key(after, other) {
            let i = manifest::position_of(after, other);
            assert(i < rows.len() && rows[i].key == other);
        }
    }
}

/// A hit on a key with a row counts one hit more and moves its stamp; on a key without one
/// it changes nothing. Every other key keeps its row.
pub proof fn law_hit_then_find(rows: Seq<RowView>, key: KeyView, now_nanos: i64, other: KeyView)
    requires
        manifest::distinct_keys(rows),
    ensures
        manifest::distinct_keys(manifest::hit(rows, key, now_nanos)),
        match manifest::row_of(rows, key) {
            Some(row) => manifest::row_of(manifest::hit(rows, key, now_nanos), key) == Some(
                RowView {
                    hit_count: (row.hit_count + 1) as i64,
                    last_used_at_nanos: now_nanos,
                    ..row
                },
            ),
            None => manifest::hit(rows, key, now_nanos) == rows,
        },
        other != key ==> manifest::row_of(manifest::hit(rows, key, now_nanos), other)
            == manifest::row_of(rows, other),
{
    if manifest::has_key(rows, key) {
        let p = manifest::position_of(rows, key);
        let after = manifest::hit(rows, key, now_nanos);
        assert forall|i: int| 0 <= i < rows.len() implies (#[trigger] after[i]).key
            == rows[i].key by {}
        lemma_position(after, p);
        if other != key {
            if manifest::has_key(rows, other) {
                let i = manifest::position_of(rows, other);
                assert(after[i] == rows[i]);
                lemma_position(after, i);
            }
            if manifest::has_key(after, other) {
                let i = manifest::position_of(after, other);
                assert(rows[i].key == other);
            }
        }
    }
}

/// After a save, whatever the clock says, the key has the row that was saved, at the next
/// stamp, except that a row that took the place of another keeps its time of creation; every
/// other key has the row it had.
pub proof fn law_latest_save_then_find(rows: Seq<RowView>, row: RowView, other: KeyView)
    requires
        manifest::distinct_keys(rows),
    ensures
        manifest::distinct_keys(manifest::saved_latest(rows, row)),
        manifest::row_of(manifest::saved_latest(rows, row), row.key) == Some(
            RowView {
                created_at_secs: match manifest::row_of(rows, row.key) {
                    Some(former) => former.created_at_secs,
                    None => row.created_at_secs,
                },
                last_used_at_nanos: manifest::next_stamp(rows, row.last_used_at_nanos),
                ..row
            },
        ),
        other != row.key ==> manifest::row_of(manifest::saved_latest(rows, row), other)
            == manifest::row_of(rows, other),
{
    lemma_lined_up(rows, row.key);
    let ready = manifest::lined_up(rows, row.key);
    let stamp = manifest::next_stamp(rows, row.last_used_at_nanos);
    law_save_then_find(ready, RowView { last_used_at_nanos: stamp, ..row }, other);
    assert(manifest::row_of(ready, row.key) == manifest::row_of(rows, row.key));
    assert(manifest::row_of(ready, other) == manifest::row_of(rows, other));
}

/// A hit on a key with a row, whatever the clock says, counts one hit more and takes the next
/// stamp; on a key without one it changes nothing. Every other key keeps its row.
pub proof fn law_latest_hit_then_find(
    rows: Seq<RowView>,
    key: KeyView,
    reading: i64,
    other: KeyView,
)
    requires
        manifest::distinct_keys(rows),
    ensures
        manifest::distinct_keys(manifest::hit_latest(rows, key, reading)),
        match manifest::row_of(rows, key) {
            Some(row) => manifest::row_of(manifest::hit_latest(rows, key, reading), key) == Some(
                RowView {
                    hit_count: (row.hit_count + 1) as i64,
                    last_used_at_nanos: manifest::next_stamp(rows, reading),
                    ..row
                },
            ),
            None => manifest::hit_latest(rows, key, reading) == rows,
        },
        other != key ==> manifest::row_of(manifest::hit_latest(rows, key, reading), other)
            == manifest::row_of(rows, other),
{
    lemma_lined_up(rows, key);
    let ready = manifest::lined_up(rows, key);
    law_hit_then_find(ready, key, manifest::next_stamp(rows, reading), other);
    assert(manifest::row_of(ready, key) == manifest::row_of(rows, key));
    assert(manifest::row_of(ready, other) == manifest::row_of(rows, other));
}

/// Saving over a row starts its count of hits anew.
pub proof fn law_save_resets_hits(
    rows: Seq<RowView>,
    key: KeyView,
    handle: Seq<char>,
    meta: CacheMeta,
    now_secs: i64,
    now_nanos: i64,
)
    requires
        manifest::distinct_keys(rows),
    ensures
        ({
            let row = manifest::fresh_row(key, handle, meta, now_secs, now_nanos);
            &&& manifest::row_of(manifest::saved_latest(rows, row), key) is Some
            &&& manifest::row_of(manifest::saved_latest(rows, row), key).unwrap().hit_count == 0
            &&& manifest::row_of(manifest::saved_latest(rows, row), key).unwrap().handle == handle
        }),
{
    let row = manifest::fresh_row(key, handle, meta, now_secs, now_nanos);
    law_latest_save_then_find(rows, row, key);
}

/// A removed key has no row, and every other key keeps its own.
pub proof fn law_remove_then_find(rows: Seq<RowView>, key: KeyView, other: KeyView)
    requires
        manifest::distinct_keys(rows),
    ensures
        manifest::distinct_keys(manifest::without(rows, key)),
        manifest::row_of(manifest::without(rows, key), key) is None,
        other != key ==> manifest::row_of(manifest::without(rows, key), other)
            == manifest::row_of(rows, other),
{
    let after = manifest::without(rows, key);
    if manifest::has_key(rows, key) {
        let p = manifest::position_of(rows, key);
        assert forall|i: int| 0 <= i < after.len() implies (#[trigger] after[i]) == rows[if i < p {
            i
        } else {
            i + 1
        }] by {}
        if other != key {
            if manifest::has_key(rows, other) {
                let i = manifest::position_of(rows, other);
                let j = if i < p {
                    i
                } else {
                    i - 1
                };
                assert(after[j] == rows[i]);
                lemma_position(after, j);
            }
            if manifest::has_key(after, other) {
                let j = manifest::position_of(after, other);
                lemma_position(
                    rows,
                    if j < p {
                        j
                    } else {
                        j + 1
                    },
                );
            }
        }
    }
}

/// A listing shows every row, each once, ordered by recency.
pub proof fn law_listing_is_complete(rows: Seq<RowView>)
    requires
        manifest::distinct_keys(rows),
    ensures
        manifest::by_use(rows).len() == rows.len(),
        manifest::distinct_keys(manifest::by_use(rows)),
        forall|key: KeyView|
            #[trigger] manifest::row_of(manifest::by_use(rows), key) == manifest::row_of(rows, key),
        forall|a: int, b: int|
            0 <= a < b < rows.len() ==> (#[trigger] manifest::by_use(rows)[a]).last_used_at_nanos
                <= (#[trigger] manifest::by_use(rows)[b]).last_used_at_nanos,
{
    let p = order::use_order(manifest::stamps(rows));
    let sorted = manifest::by_use(rows);
    lemma_by_use(rows);
    assert forall|a: int, b: int| 0 <= a < b < rows.len() implies (#[trigger] sorted[a]).key != (
    #[trigger] sorted[b]).key && sorted[a].last_used_at_nanos <= sorted[b].last_used_at_nanos by {
        assert(order::before(manifest::stamps(rows), p[a], p[b]));
        assert(sorted[a] == rows[p[a]] && sorted[b] == rows[p[b]]);
        assert(p[a] != p[b]);
    }
    assert forall|key: KeyView| #[trigger] manifest::row_of(sorted, key) == manifest::row_of(
        rows,
        key,
    ) by {
        if manifest::has_key(rows, key) {
            let i = manifest::position_of(rows, key);
            assert(p.contains(i));
            let a = choose|a: int| 0 <= a < p.len() && p[a] == i;
            assert(sorted[a] == rows[i]);
            lemma_position(sorted, a);
        }
        if manifest::has_key(sorted, key) {
            let a = manifest::position_of(sorted, key);
            assert(sorted[a] == rows[p[a]]);
        }
    }
}

/// Eviction takes the least recently used rows and no more of them than needed: what stays
/// is the tail of the order of use, it fits the target, and with one row less gone it would
/// not have.
pub proof fn law_eviction(rows: Seq<RowView>, target: nat)
    ensures
        manifest::evicted(rows, target) + manifest::by_use(manifest::trimmed(rows, target))
            == manifest::by_use(rows),
        budget::sum(manifest::sizes(manifest::trimmed(rows, target))) <= target,
        forall|m: int|
            0 <= m < manifest::overdue(rows, target) ==> budget::sum(
                manifest::sizes(#[trigger] manifest::by_use(rows).skip(m)),
            ) > target,
{
    let sorted = manifest::by_use(rows);
    let n = manifest::overdue(rows, target) as int;
    lemma_by_use(rows);
    budget::lemma_excess(manifest::sizes(sorted), target);
    lemma_without_oldest(rows, n as nat);
    lemma_by_use(manifest::trimmed(rows, target));
    assert(sorted.take(n) + sorted.skip(n) =~= sorted);
    assert(manifest::sizes(sorted.skip(n)) =~= manifest::sizes(sorted).skip(n));
    assert forall|m: int| 0 <= m < n implies budget::sum(
        manifest::sizes(#[trigger] sorted.skip(m)),
    ) > target by {
        assert(manifest::sizes(sorted.skip(m)) =~= manifest::sizes(sorted).skip(m));
    }
}

/// The table as a store sees it: one slot for each row, least recently used first.
pub open spec fn slots(rows: Seq<RowView>) -> Seq<SlotView> {
    manifest::by_use(rows).map_values(|row: RowView| slot_of(row))
}

/// The slot that a row records.
pub open spec fn slot_of(row: RowView) -> SlotView {
    SlotView {
        key: row.key,
        handle: row.handle,
        size_bytes: clock::unsigned(row.size_bytes) as nat,
    }
}

/// Whether a use of `key` at `now_nanos` comes after the last use of every other key: later,
/// or at the same instant with the other row standing before it.
pub open spec fn is_latest(rows: Seq<RowView>, key: KeyView, now_nanos: i64) -> bool {
    let p = if manifest::has_key(rows, key) {
        manifest::position_of(rows, key)
    } else {
        rows.len() as int
    };
    forall|i: int|
        0 <= i < rows.len() && i != p ==> {
            let stamp = (#[trigger] rows[i]).last_used_at_nanos;
            stamp < now_nanos || (stamp == now_nanos && i < p)
        }
}

/// A table read as a store has the same keys with the same handles.
pub proof fn law_table_is_a_store(rows: Seq<RowView>, key: KeyView)
    requires
        manifest::distinct_keys(rows),
    ensures
        store::distinct_keys(slots(rows)),
        store::sizes(slots(rows)) == manifest::sizes(manifest::by_use(rows)),
        store::handle_of(slots(rows), key) == match manifest::row_of(rows, key) {
            Some(row) => Some(row.handle),
            None => None,
        },
{
    law_listing_is_complete(rows);
    let sorted = manifest::by_use(rows);
    let all = slots(rows);
    assert(store::sizes(all) =~= manifest::sizes(sorted));
    assert forall|i: int| 0 <= i < all.len() implies (#[trigger] all[i]).key == sorted[i].key by {}
    assert(manifest::row_of(sorted, key) == manifest::row_of(rows, key));
    if manifest::has_key(sorted, key) {
        let a = manifest::position_of(sorted, key);
        assert(all[a] == slot_of(sorted[a]));
        store_laws::lemma_position(all, a);
    }
    if store::has_key(all, key) {
        let a = store::position_of(all, key);
        assert(sorted[a].key == key);
    }
}

/// Evicting from the table is evicting from the store.
pub proof fn law_trim_refines_store(rows: Seq<RowView>, target: nat)
    requires
        manifest::distinct_keys(rows),
    ensures
        manifest::distinct_keys(manifest::trimmed(rows, target)),
        manifest::overdue(rows, target) == store::overdue(slots(rows), target),
        slots(manifest::trimmed(rows, target)) == store::trimmed(slots(rows), target),
{
    let n = manifest::overdue(rows, target) as int;
    let sorted = manifest::by_use(rows);
    lemma_by_use(rows);
    budget::lemma_excess(manifest::sizes(sorted), target);
    lemma_without_oldest(rows, n as nat);
    assert(store::sizes(slots(rows)) =~= manifest::sizes(sorted));
    assert(slots(manifest::trimmed(rows, target)) =~= slots(rows).skip(n));
}

/// Giving the row of a key other values at a time after all others puts it at the end.
proof fn lemma_update_latest(rows: Seq<RowView>, p: int, row: RowView)
    requires
        manifest::distinct_keys(rows),
        0 <= p < rows.len(),
        row.key == rows[p].key,
        is_latest(rows, row.key, row.last_used_at_nanos),
    ensures
        slots(rows.update(p, row)) == store::without(slots(rows), row.key).push(slot_of(row)),
        store::has_key(slots(rows), row.key),
        slots(rows)[store::position_of(slots(rows), row.key)] == slot_of(rows[p]),
{
    let order_before = order::use_order(manifest::stamps(rows));
    lemma_by_use(rows);
    lemma_position(rows, p);
    assert(order_before.contains(p));
    let k = choose|k: int| 0 <= k < order_before.len() && order_before[k] == p;
    let now = row.last_used_at_nanos;
    let later = manifest::stamps(rows).update(p, now);
    assert forall|j: int| 0 <= j < rows.len() && j != p implies #[trigger] order::before(
        later,
        j,
        p,
    ) by {
        assert(rows[j].last_used_at_nanos == manifest::stamps(rows)[j]);
    }
    order::lemma_use_again(manifest::stamps(rows), k, now);
    assert(manifest::stamps(rows.update(p, row)) =~= later);
    let all = slots(rows);
    law_table_is_a_store(rows, row.key);
    assert(all[k] == slot_of(rows[p]));
    store_laws::lemma_position(all, k);
    assert forall|a: int| 0 <= a < rows.len() && a != k implies order_before[a] != p by {}
    assert(slots(rows.update(p, row)) =~= all.remove(k).push(slot_of(row)));
}

/// A hit that comes after every other use is, in the store, a use of the slot.
proof fn lemma_hit_refines(rows: Seq<RowView>, key: KeyView, now_nanos: i64)
    requires
        manifest::distinct_keys(rows),
        is_latest(rows, key, now_nanos),
    ensures
        slots(manifest::hit(rows, key, now_nanos)) == store::touched(slots(rows), key),
{
    law_table_is_a_store(rows, key);
    if manifest::has_key(rows, key) {
        let p = manifest::position_of(rows, key);
        let row = RowView {
            hit_count: (rows[p].hit_count + 1) as i64,
            last_used_at_nanos: now_nanos,
            ..rows[p]
        };
        lemma_update_latest(rows, p, row);
    } else {
        assert(!store::has_key(slots(rows), key));
    }
}

/// A save that comes after every other use is, in the store, a slot put in place of the
/// key's former one as the most recently used.
proof fn lemma_save_refines(rows: Seq<RowView>, row: RowView)
    requires
        manifest::distinct_keys(rows),
        is_latest(rows, row.key, row.last_used_at_nanos),
    ensures
        slots(manifest::saved(rows, row)) == store::replaced(slots(rows), slot_of(row)),
{
    law_table_is_a_store(rows, row.key);
    if manifest::has_key(rows, row.key) {
        let p = manifest::position_of(rows, row.key);
        lemma_update_latest(
            rows,
            p,
            RowView { created_at_secs: rows[p].created_at_secs, ..row },
        );
    } else {
        assert(!store::has_key(slots(rows), row.key));
        let now = row.last_used_at_nanos;
        assert forall|j: int| 0 <= j < rows.len() implies #[trigger] manifest::stamps(rows)[j]
            <= now by {
            assert(rows[j].last_used_at_nanos == manifest::stamps(rows)[j]);
        }
        lemma_by_use(rows);
        order::lemma_use_new(manifest::stamps(rows), now);
        assert(manifest::stamps(rows.push(row)) =~= manifest::stamps(rows).push(now));
        assert(slots(rows.push(row)) =~= slots(rows).push(slot_of(row)));
    }
}

/// A row survives an eviction pass exactly when it fits the target together with every row
/// that was used after it.
pub proof fn law_survival(rows: Seq<RowView>, target: nat, i: int)
    requires
        manifest::distinct_keys(rows),
        0 <= i < rows.len(),
    ensures
        manifest::has_key(manifest::trimmed(rows, target), manifest::by_use(rows)[i].key)
            <==> budget::sum(manifest::sizes(manifest::by_use(rows).skip(i))) <= target,
{
    let key = manifest::by_use(rows)[i].key;
    let kept = manifest::trimmed(rows, target);
    lemma_by_use(rows);
    law_table_is_a_store(rows, key);
    law_trim_refines_store(rows, target);
    law_table_is_a_store(kept, key);
    assert(slots(rows)[i] == slot_of(manifest::by_use(rows)[i]));
    store_laws::law_survival(slots(rows), target, i);
    assert(store::sizes(slots(rows).skip(i)) =~= manifest::sizes(manifest::by_use(rows).skip(i)));
}

/// A row that survives an eviction pass keeps its handle.
pub proof fn law_survivors_keep_their_handles(rows: Seq<RowView>, target: nat, key: KeyView)
    requires
        manifest::distinct_keys(rows),
        manifest::has_key(manifest::trimmed(rows, target), key),
    ensures
        manifest::has_key(rows, key),
        manifest::row_of(manifest::trimmed(rows, target), key).unwrap().handle
            == manifest::row_of(rows, key).unwrap().handle,
{
    law_trim_refines_store(rows, target);
    law_table_is_a_store(rows, key);
    law_table_is_a_store(manifest::trimmed(rows, target), key);
    store_laws::law_survivors_keep_their_handles(slots(rows), target, key);
}

/// No stamp is later than the latest.
pub proof fn lemma_newest(rows: Seq<RowView>)
    ensures
        i64::MIN - 1 <= manifest::newest(rows) <= i64::MAX,
        forall|i: int|
            0 <= i < rows.len() ==> (#[trigger] rows[i]).last_used_at_nanos <= manifest::newest(
                rows,
            ),
    decreases rows.len(),
{
    if rows.len() > 0 {
        let fewer = rows.drop_last();
        lemma_newest(fewer);
        assert forall|i: int| 0 <= i < rows.len() implies (#[trigger] rows[i]).last_used_at_nanos
            <= manifest::newest(rows) by {
            if i < fewer.len() {
                assert(fewer[i] == rows[i]);
            }
        }
    }
}

/// Lining a key up changes no key's row and no other key's place in the order of use, and a
/// use of the key at the next stamp then comes last.
pub proof fn lemma_lined_up(rows: Seq<RowView>, key: KeyView)
    requires
        manifest::distinct_keys(rows),
    ensures
        manifest::distinct_keys(manifest::lined_up(rows, key)),
        forall|other: KeyView|
            #[trigger] manifest::row_of(manifest::lined_up(rows, key), other) == manifest::row_of(
                rows,
                other,
            ),
        forall|reading: i64|
            is_latest(
                manifest::lined_up(rows, key),
                key,
                #[trigger] manifest::next_stamp(rows, reading),
            ),
        store::without(slots(manifest::lined_up(rows, key)), key) == store::without(
            slots(rows),
            key,
        ),
        store::touched(slots(manifest::lined_up(rows, key)), key) == store::touched(
            slots(rows),
            key,
        ),
{
    let after = manifest::lined_up(rows, key);
    lemma_newest(rows);
    if manifest::newest(rows) == i64::MAX && manifest::has_key(rows, key) {
        let p = manifest::position_of(rows, key);
        let n = rows.len() - 1;
        let fewer = rows.remove(p);
        assert(rows[p].key == key);
        assert(after[n] == rows[p]);
        assert(after.remove(n) =~= fewer);
        assert forall|i: int| 0 <= i < n implies (#[trigger] after[i]) == rows[if i < p {
            i
        } else {
            i + 1
        }] by {}
        lemma_position(after, n);
        assert forall|other: KeyView| #[trigger] manifest::row_of(after, other)
            == manifest::row_of(rows, other) by {
            if manifest::has_key(rows, other) {
                let i = manifest::position_of(rows, other);
                let j = if i < p {
                    i
                } else if i == p {
                    n
                } else {
                    i - 1
                };
                assert(after[j] == rows[i]);
                lemma_position(after, j);
            }
            if manifest::has_key(after, other) {
                let j = manifest::position_of(after, other);
                let i = if j == n {
                    p
                } else if j < p {
                    j
                } else {
                    j + 1
                };
                assert(after[j] == rows[i]);
                lemma_position(rows, i);
            }
        }
        lemma_taken_out(rows, p);
        lemma_taken_out(after, n);
    } else {
        assert forall|reading: i64| is_latest(
            after,
            key,
            #[trigger] manifest::next_stamp(rows, reading),
        ) by {}
    }
}

/// The slots without that of one row are the slots of the table without that row.
pub proof fn lemma_taken_out(rows: Seq<RowView>, p: int)
    requires
        manifest::distinct_keys(rows),
        0 <= p < rows.len(),
    ensures
        store::has_key(slots(rows), rows[p].key),
        store::without(slots(rows), rows[p].key) == slots(rows.remove(p)),
        slots(rows)[store::position_of(slots(rows), rows[p].key)] == slot_of(rows[p]),
{
    let p_order = order::use_order(manifest::stamps(rows));
    lemma_by_use(rows);
    assert(p_order.contains(p));
    let k = choose|k: int| 0 <= k < p_order.len() && p_order[k] == p;
    lemma_remove_by_use(rows, k);
    law_table_is_a_store(rows, rows[p].key);
    assert(slots(rows)[k] == slot_of(rows[p]));
    store_laws::lemma_position(slots(rows), k);
    assert(slots(rows.remove(p)) =~= slots(rows).remove(k));
}

/// A hit is a use of the slot, whatever the clock says: in the table read as a store, the
/// slot is now the most recently used, and nothing else has changed.
pub proof fn law_hit_refines_store(rows: Seq<RowView>, key: KeyView, reading: i64)
    requires
        manifest::distinct_keys(rows),
    ensures
        slots(manifest::hit_latest(rows, key, reading)) == store::touched(slots(rows), key),
{
    lemma_lined_up(rows, key);
    let stamp = manifest::next_stamp(rows, reading);
    lemma_hit_refines(manifest::lined_up(rows, key), key, stamp);
}

/// A save is a slot put in place of the key's former one as the most recently used, whatever
/// the clock says.
pub proof fn law_save_refines_store(rows: Seq<RowView>, row: RowView)
    requires
        manifest::distinct_keys(rows),
    ensures
        manifest::distinct_keys(manifest::saved_latest(rows, row)),
        slots(manifest::saved_latest(rows, row)) == store::replaced(slots(rows), slot_of(row)),
{
    lemma_lined_up(rows, row.key);
    let stamp = manifest::next_stamp(rows, row.last_used_at_nanos);
    let stamped = RowView { last_used_at_nanos: stamp, ..row };
    let ready = manifest::lined_up(rows, row.key);
    lemma_save_refines(ready, stamped);
    law_save_then_find(ready, stamped, row.key);
    assert(slot_of(stamped) == slot_of(row));
}

/// After a hit, whatever the clock says, the row of the key is the most recently used.
pub proof fn law_hit_comes_last(rows: Seq<RowView>, key: KeyView, reading: i64)
    requires
        manifest::distinct_keys(rows),
        manifest::has_key(rows, key),
    ensures
        manifest::by_use(manifest::hit_latest(rows, key, reading)).last().key == key,
{
    let after = manifest::hit_latest(rows, key, reading);
    law_hit_refines_store(rows, key, reading);
    law_table_is_a_store(rows, key);
    assert(manifest::row_of(rows, key) is Some);
    let used = store::touched(slots(rows), key);
    let i = store::position_of(slots(rows), key);
    assert(slots(rows)[i].key == key);
    assert(used.last() == slots(rows)[i]);
    assert(slots(after).last() == slot_of(manifest::by_use(after).last()));
}

/// After a save, whatever the clock says, the row of the key is the most recently used.
pub proof fn law_save_comes_last(rows: Seq<RowView>, row: RowView)
    requires
        manifest::distinct_keys(rows),
    ensures
        manifest::by_use(manifest::saved_latest(rows, row)).last().key == row.key,
{
    let after = manifest::saved_latest(rows, row);
    law_save_refines_store(rows, row);
    assert(slots(after).last() == slot_of(row));
    assert(slots(after).last() == slot_of(manifest::by_use(after).last()));
}

/// The second that a use shows is that of the clock, unless the clock stands still or was set
/// back: then it is that of the moment after the latest use. It is never before the clock's.
pub proof fn law_seconds_follow_the_clock(rows: Seq<RowView>, row: RowView)
    requires
        manifest::distinct_keys(rows),
    ensures
        ({
            let reading = row.last_used_at_nanos;
            let found = manifest::row_of(manifest::saved_latest(rows, row), row.key);
            let shown = manifest::listed(found.unwrap()).last_used_at_secs;
            &&& found is Some
            &&& found.unwrap().last_used_at_nanos >= reading
            &&& manifest::newest(rows) < reading ==> shown == clock::unsigned(reading)
                / 1_000_000_000
            &&& reading <= manifest::newest(rows) < i64::MAX ==> shown == clock::unsigned(
                (manifest::newest(rows) + 1) as i64,
            ) / 1_000_000_000
        }),
{
    lemma_newest(rows);
    law_latest_save_then_find(rows, row, row.key);
}

/// A listing shows seconds in order, as long as no row was used before the epoch.
pub proof fn law_listing_shows_seconds_in_order(rows: Seq<RowView>, a: int, b: int)
    requires
        manifest::distinct_keys(rows),
        forall|i: int| 0 <= i < rows.len() ==> (#[trigger] rows[i]).last_used_at_nanos >= 0,
        0 <= a <= b < rows.len(),
    ensures
        manifest::listing(manifest::by_use(rows))[a].last_used_at_secs <= manifest::listing(
            manifest::by_use(rows),
        )[b].last_used_at_secs,
{
    let sorted = manifest::by_use(rows);
    let p = order::use_order(manifest::stamps(rows));
    law_listing_is_complete(rows);
    lemma_by_use(rows);
    assert(sorted[a] == rows[p[a]] && sorted[b] == rows[p[b]]);
    assert(sorted[a].last_used_at_nanos <= sorted[b].last_used_at_nanos);
    clock::law_seconds_rise(sorted[a].last_used_at_nanos, sorted[b].last_used_at_nanos);
}

/// What a save that fits the target recorded, a lookup right after the eviction pass finds,
/// whatever the clock says.
pub proof fn law_record_then_find(rows: Seq<RowView>, row: RowView, target: nat)
    requires
        manifest::distinct_keys(rows),
        clock::unsigned(row.size_bytes) <= target,
    ensures
        ({
            let after = manifest::trimmed(manifest::saved_latest(rows, row), target);
            &&& manifest::row_of(after, row.key) is Some
            &&& manifest::row_of(after, row.key).unwrap().handle == row.handle
        }),
{
    let all = manifest::saved_latest(rows, row);
    law_save_refines_store(rows, row);
    law_trim_refines_store(all, target);
    law_table_is_a_store(rows, row.key);
    law_table_is_a_store(manifest::trimmed(all, target), row.key);
    store_laws::law_record_then_find(slots(rows), slot_of(row), target);
}

/// Eviction removes the candidates, neither more nor fewer and in their order; a second pass
/// finds no candidate and changes nothing.
pub proof fn law_eviction_removes_the_candidates(
    rows: Seq<RowView>,
    target: nat,
    candidates: Seq<ManifestRow>,
    removed: Seq<ManifestRow>,
    again: Seq<ManifestRow>,
)
    requires
        manifest::views(candidates) == manifest::listing(manifest::evicted(rows, target)),
        manifest::views(removed) == manifest::listing(manifest::evicted(rows, target)),
        manifest::views(again) == manifest::listing(
            manifest::evicted(manifest::trimmed(rows, target), target),
        ),
    ensures
        manifest::views(removed) == manifest::views(candidates),
        again.len() == 0,
        manifest::trimmed(manifest::trimmed(rows, target), target) == manifest::trimmed(
            rows,
            target,
        ),
{
    let kept = manifest::trimmed(rows, target);
    law_eviction(rows, target);
    lemma_by_use(kept);
    budget::lemma_no_excess(manifest::sizes(manifest::by_use(kept)), target);
    assert(manifest::overdue(kept, target) == 0);
    assert(manifest::views(again).len() == again.len());
    assert(manifest::listing(manifest::evicted(kept, target)).len() == 0);
}

} // verus!

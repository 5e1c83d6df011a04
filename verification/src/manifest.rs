//! The table of saved slots: one row for each key, in the order of insertion.
use vstd::prelude::*;

use crate::budget;
use crate::clock;
use crate::clock::ClockReading;
use crate::manifest_laws;
use crate::order;
use crate::types::{CacheHandle, CacheKey, CacheMeta, ErrorView, KeyView, KvCacheError};

verus! {

/// A row of the table, with the values of its columns as the table stores them.
pub struct SlotRow {
    pub key: CacheKey,
    pub handle: CacheHandle,
    pub size_bytes: i64,
    pub token_count: i64,
    pub created_at_secs: i64,
    pub last_used_at_nanos: i64,
    pub hit_count: i64,
}

/// What a [`SlotRow`] says.
#[verifier::ext_equal]
pub struct RowView {
    pub key: KeyView,
    pub handle: Seq<char>,
    pub size_bytes: i64,
    pub token_count: i64,
    pub created_at_secs: i64,
    pub last_used_at_nanos: i64,
    pub hit_count: i64,
}

impl View for SlotRow {
    type V = RowView;

    open spec fn view(&self) -> RowView {
        RowView {
            key: self.key@,
            handle: self.handle@,
            size_bytes: self.size_bytes,
            token_count: self.token_count,
            created_at_secs: self.created_at_secs,
            last_used_at_nanos: self.last_used_at_nanos,
            hit_count: self.hit_count,
        }
    }
}

impl Clone for SlotRow {
    fn clone(&self) -> (copy: Self)
        ensures
            copy == *self,
    {
        SlotRow { key: self.key.clone(), handle: self.handle.clone(), ..*self }
    }
}

impl SlotRow {
    /// Whether two rows agree in every column.
    pub fn same_as(&self, other: &SlotRow) -> (same: bool)
        ensures
            same == (self@ == other@),
    {
        self.key.same_as(&other.key) && self.handle.same_as(&other.handle) && self.size_bytes
            == other.size_bytes && self.token_count == other.token_count && self.created_at_secs
            == other.created_at_secs && self.last_used_at_nanos == other.last_used_at_nanos
            && self.hit_count == other.hit_count
    }
}

/// A row as it is read out of the table.
#[derive(Debug, PartialEq, Eq)]
pub struct ManifestRow {
    pub key: CacheKey,
    pub handle: CacheHandle,
    pub size_bytes: u64,
    pub token_count: u64,
    pub last_used_at_secs: u64,
    pub hit_count: u64,
}

impl Clone for ManifestRow {
    fn clone(&self) -> (copy: Self)
        ensures
            copy == *self,
    {
        ManifestRow {
            key: self.key.clone(),
            handle: self.handle.clone(),
            size_bytes: self.size_bytes,
            token_count: self.token_count,
            last_used_at_secs: self.last_used_at_secs,
            hit_count: self.hit_count,
        }
    }
}

/// What a [`ManifestRow`] says.
#[verifier::ext_equal]
pub struct ListedView {
    pub key: KeyView,
    pub handle: Seq<char>,
    pub size_bytes: u64,
    pub token_count: u64,
    pub last_used_at_secs: u64,
    pub hit_count: u64,
}

impl View for ManifestRow {
    type V = ListedView;

    open spec fn view(&self) -> ListedView {
        ListedView {
            key: self.key@,
            handle: self.handle@,
            size_bytes: self.size_bytes,
            token_count: self.token_count,
            last_used_at_secs: self.last_used_at_secs,
            hit_count: self.hit_count,
        }
    }
}

/// How a stored row reads: sizes and counts as unsigned numbers, recency in whole seconds.
pub open spec fn listed(row: RowView) -> ListedView {
    ListedView {
        key: row.key,
        handle: row.handle,
        size_bytes: clock::unsigned(row.size_bytes),
        token_count: clock::unsigned(row.token_count),
        last_used_at_secs: clock::unsigned(row.last_used_at_nanos) / 1_000_000_000,
        hit_count: clock::unsigned(row.hit_count),
    }
}

/// How a run of stored rows reads.
pub open spec fn listing(rows: Seq<RowView>) -> Seq<ListedView> {
    rows.map_values(|row: RowView| listed(row))
}

/// What a run of rows that were read out says.
pub open spec fn views(rows: Seq<ManifestRow>) -> Seq<ListedView> {
    rows.map_values(|row: ManifestRow| row@)
}

/// The sizes of a run of rows.
pub open spec fn sizes(rows: Seq<RowView>) -> Seq<nat> {
    rows.map_values(|row: RowView| clock::unsigned(row.size_bytes) as nat)
}

/// The sizes of a run of rows that were read out.
pub open spec fn listed_sizes(rows: Seq<ListedView>) -> Seq<nat> {
    rows.map_values(|row: ListedView| row.size_bytes as nat)
}

/// The counts of hits of a run of rows.
pub open spec fn hit_counts(rows: Seq<RowView>) -> Seq<nat> {
    rows.map_values(|row: RowView| clock::unsigned(row.hit_count) as nat)
}

/// When each row was used last.
pub open spec fn stamps(rows: Seq<RowView>) -> Seq<i64> {
    rows.map_values(|row: RowView| row.last_used_at_nanos)
}

/// The rows, least recently used first; of rows with the same stamp, the older one first.
pub open spec fn by_use(rows: Seq<RowView>) -> Seq<RowView> {
    order::use_order(stamps(rows)).map_values(|i: int| rows[i])
}

/// No key has two rows.
pub open spec fn distinct_keys(rows: Seq<RowView>) -> bool {
    forall|i: int, j: int|
        0 <= i < j < rows.len() ==> (#[trigger] rows[i]).key != (#[trigger] rows[j]).key
}

/// Whether `key` has a row.
pub open spec fn has_key(rows: Seq<RowView>, key: KeyView) -> bool {
    exists|i: int| 0 <= i < rows.len() && (#[trigger] rows[i]).key == key
}

/// Where the row of `key` stands.
pub open spec fn position_of(rows: Seq<RowView>, key: KeyView) -> int {
    choose|i: int| 0 <= i < rows.len() && (#[trigger] rows[i]).key == key
}

/// The row of `key`, if there is one.
pub open spec fn row_of(rows: Seq<RowView>, key: KeyView) -> Option<RowView> {
    if has_key(rows, key) {
        Some(rows[position_of(rows, key)])
    } else {
        None
    }
}

/// The table without the row of `key`.
pub open spec fn without(rows: Seq<RowView>, key: KeyView) -> Seq<RowView> {
    if has_key(rows, key) {
        rows.remove(position_of(rows, key))
    } else {
        rows
    }
}

/// What a save writes: a new row with no hits.
pub open spec fn fresh_row(
    key: KeyView,
    handle: Seq<char>,
    meta: CacheMeta,
    now_secs: i64,
    now_nanos: i64,
) -> RowView {
    RowView {
        key,
        handle,
        size_bytes: clock::signed(meta.size_bytes),
        token_count: clock::signed(meta.token_count),
        created_at_secs: now_secs,
        last_used_at_nanos: now_nanos,
        hit_count: 0,
    }
}

/// What a save writes when the clock says `now`, in nanoseconds since the Unix epoch.
pub open spec fn row_at(
    key: KeyView,
    handle: Seq<char>,
    meta: CacheMeta,
    now: Option<u128>,
) -> RowView {
    fresh_row(key, handle, meta, clock::secs_stamp(now), clock::nanos_stamp(now))
}

/// The table after `row` was saved: in place of the row that its key has, whose time of
/// creation stays, or else at the end.
pub open spec fn saved(rows: Seq<RowView>, row: RowView) -> Seq<RowView> {
    if has_key(rows, row.key) {
        let p = position_of(rows, row.key);
        rows.update(p, RowView { created_at_secs: rows[p].created_at_secs, ..row })
    } else {
        rows.push(row)
    }
}

/// The table after a hit on `key`: its row has one hit more and was used last at
/// `now_nanos`.
pub open spec fn hit(rows: Seq<RowView>, key: KeyView, now_nanos: i64) -> Seq<RowView> {
    if has_key(rows, key) {
        let p = position_of(rows, key);
        rows.update(
            p,
            RowView {
                hit_count: (rows[p].hit_count + 1) as i64,
                last_used_at_nanos: now_nanos,
                ..rows[p]
            },
        )
    } else {
        rows
    }
}

/// The latest stamp in the table; below every stamp when there is no row.
pub open spec fn newest(rows: Seq<RowView>) -> int
    decreases rows.len(),
{
    if rows.len() == 0 {
        i64::MIN - 1
    } else if newest(rows.drop_last()) < rows.last().last_used_at_nanos {
        rows.last().last_used_at_nanos as int
    } else {
        newest(rows.drop_last())
    }
}

/// The stamp of a use when the clock says `reading`: the reading, or, where the clock stands
/// still or was set back, one past the latest stamp. The last stamp there is serves again
/// and again.
pub open spec fn next_stamp(rows: Seq<RowView>, reading: i64) -> i64 {
    if newest(rows) < reading {
        reading
    } else if newest(rows) < i64::MAX {
        (newest(rows) + 1) as i64
    } else {
        i64::MAX
    }
}

/// The table in which a use of `key` at the next stamp comes last. Only when the stamps have
/// run out does its row have to move: behind the others, since the order of insertion
/// decides between equal stamps.
pub open spec fn lined_up(rows: Seq<RowView>, key: KeyView) -> Seq<RowView> {
    if newest(rows) == i64::MAX && has_key(rows, key) {
        let p = position_of(rows, key);
        rows.remove(p).push(rows[p])
    } else {
        rows
    }
}

/// The table after `row` was saved as the most recently used, where its stamp is the reading
/// of the clock.
pub open spec fn saved_latest(rows: Seq<RowView>, row: RowView) -> Seq<RowView> {
    saved(
        lined_up(rows, row.key),
        RowView { last_used_at_nanos: next_stamp(rows, row.last_used_at_nanos), ..row },
    )
}

/// The table after a hit on `key` that makes its row the most recently used, where the clock
/// says `reading`.
pub open spec fn hit_latest(rows: Seq<RowView>, key: KeyView, reading: i64) -> Seq<RowView> {
    hit(lined_up(rows, key), key, next_stamp(rows, reading))
}

/// How many of the least recently used rows have to go to bring the total down to `target`.
pub open spec fn overdue(rows: Seq<RowView>, target: nat) -> nat {
    budget::excess(sizes(by_use(rows)), target)
}

/// The rows that have to go, least recently used first.
pub open spec fn evicted(rows: Seq<RowView>, target: nat) -> Seq<RowView> {
    by_use(rows).take(overdue(rows, target) as int)
}

/// The table after the least recently used row was removed, `n` times over.
pub open spec fn without_oldest(rows: Seq<RowView>, n: nat) -> Seq<RowView>
    decreases n,
{
    if n == 0 || rows.len() == 0 {
        rows
    } else {
        without_oldest(rows.remove(order::use_order(stamps(rows))[0]), (n - 1) as nat)
    }
}

/// The table after the rows that have to go were removed.
pub open spec fn trimmed(rows: Seq<RowView>, target: nat) -> Seq<RowView> {
    without_oldest(rows, overdue(rows, target))
}

/// The sum of the sizes as the table stores them.
pub open spec fn stored_sum(rows: Seq<RowView>) -> int
    decreases rows.len(),
{
    if rows.len() == 0 {
        0
    } else {
        stored_sum(rows.drop_last()) + rows.last().size_bytes
    }
}

/// Whether adding up the stored sizes, row by row, stays within 64 bits.
pub open spec fn stored_sum_fits(rows: Seq<RowView>) -> bool {
    forall|n: int|
        0 <= n <= rows.len() ==> i64::MIN <= stored_sum(#[trigger] rows.take(n)) <= i64::MAX
}

/// Which end of the order of use comes first.
#[derive(Debug, Clone, Copy, PartialEq, Eq)]
pub enum RowOrder {
    OldestFirst,
    NewestFirst,
}

/// Reads a stored row.
pub fn row_from_sql(row: &SlotRow) -> (read: ManifestRow)
    ensures
        read@ == listed(row@),
{
    ManifestRow {
        key: row.key.clone(),
        handle: row.handle.clone(),
        size_bytes: clock::to_unsigned(row.size_bytes),
        token_count: clock::to_unsigned(row.token_count),
        last_used_at_secs: clock::nanos_to_secs(row.last_used_at_nanos),
        hit_count: clock::to_unsigned(row.hit_count),
    }
}

/// The index of saved slots: an image of the table, whole or in part, with its rows in the
/// order of their insertion.
pub struct Manifest {
    rows: Vec<SlotRow>,
}

impl View for Manifest {
    type V = Seq<RowView>;

    closed spec fn view(&self) -> Seq<RowView> {
        self.rows@.map_values(|row: SlotRow| row@)
    }
}

impl Clone for Manifest {
    fn clone(&self) -> (copy: Self)
        ensures
            copy@ == self@,
    {
        let mut rows: Vec<SlotRow> = Vec::new();
        let mut i: usize = 0;
        while i < self.rows.len()
            invariant
                i <= self.rows.len(),
                rows@ == self.rows@.take(i as int),
            decreases self.rows.len() - i,
        {
            rows.push(self.rows[i].clone());
            assert(rows@ =~= self.rows@.take(i + 1));
            i = i + 1;
        }
        assert(rows@ =~= self.rows@);
        Manifest { rows }
    }
}

impl Manifest {
    /// No key has two rows.
    pub open spec fn valid(&self) -> bool {
        distinct_keys(self@)
    }

    /// An empty table.
    pub fn new() -> (manifest: Self)
        ensures
            manifest.valid(),
            manifest@ == Seq::<RowView>::empty(),
    {
        let manifest = Manifest { rows: Vec::new() };
        assert(manifest@ =~= Seq::<RowView>::empty());
        manifest
    }

    /// The table with the given rows, or nothing when a key has two.
    pub fn from_rows(rows: Vec<SlotRow>) -> (manifest: Option<Self>)
        ensures
            manifest is Some <==> distinct_keys(rows@.map_values(|row: SlotRow| row@)),
            manifest matches Some(m) ==> m.valid() && m@ == rows@.map_values(|row: SlotRow| row@),
    {
        let ghost all = rows@.map_values(|row: SlotRow| row@);
        let mut j: usize = 0;
        while j < rows.len()
            invariant
                j <= rows.len(),
                all == rows@.map_values(|row: SlotRow| row@),
                forall|a: int, b: int|
                    0 <= a < b < j ==> (#[trigger] all[a]).key != (#[trigger] all[b]).key,
            decreases rows.len() - j,
        {
            let mut i: usize = 0;
            while i < j
                invariant
                    i <= j < rows.len(),
                    all == rows@.map_values(|row: SlotRow| row@),
                    forall|a: int| 0 <= a < i ==> (#[trigger] all[a]).key != all[j as int].key,
                decreases j - i,
            {
                if rows[i].key.same_as(&rows[j].key) {
                    assert(all[i as int].key == all[j as int].key);
                    return None;
                }
                i = i + 1;
            }
            j = j + 1;
        }
        Some(Manifest { rows })
    }

    /// Where the row of `key` stands.
    fn position(&self, key: &CacheKey) -> (position: Option<usize>)
        requires
            self.valid(),
        ensures
            match position {
                Some(i) => {
                    &&& i < self.rows.len()
                    &&& has_key(self@, key@)
                    &&& position_of(self@, key@) == i
                },
                None => !has_key(self@, key@),
            },
    {
        let mut i: usize = 0;
        while i < self.rows.len()
            invariant
                self.valid(),
                i <= self.rows.len(),
                forall|j: int| 0 <= j < i ==> (#[trigger] self@[j]).key != key@,
            decreases self.rows.len() - i,
        {
            assert(self@[i as int].key == self.rows[i as int].key@);
            if self.rows[i].key.same_as(key) {
                return Some(i);
            }
            i = i + 1;
        }
        None
    }

    /// The row of `key` as it is stored.
    pub fn stored(&self, key: &CacheKey) -> (row: Option<&SlotRow>)
        requires
            self.valid(),
        ensures
            match row {
                Some(row) => row_of(self@, key@) == Some(row@),
                None => row_of(self@, key@) is None,
            },
    {
        match self.position(key) {
            Some(i) => {
                assert(self@[i as int] == self.rows[i as int]@);
                Some(&self.rows[i])
            },
            None => None,
        }
    }

    /// Reads the row of `key`. Changes nothing.
    pub fn find(&self, key: &CacheKey) -> (found: Option<ManifestRow>)
        requires
            self.valid(),
        ensures
            match found {
                Some(row) => has_key(self@, key@) && row@ == listed(
                    self@[position_of(self@, key@)],
                ),
                None => !has_key(self@, key@),
            },
    {
        match self.stored(key) {
            Some(row) => Some(row_from_sql(row)),
            None => None,
        }
    }

    /// Counts a hit on `key` at `now_nanos`; without a row, changes nothing. A counter at its
    /// upper end cannot be raised.
    pub fn confirm_hit_at(&mut self, key: &CacheKey, now_nanos: i64)
        requires
            old(self).valid(),
            has_key(old(self)@, key@) ==> old(self)@[position_of(old(self)@, key@)].hit_count
                < i64::MAX,
        ensures
            final(self).valid(),
            final(self)@ == hit(old(self)@, key@, now_nanos),
    {
        if let Some(i) = self.position(key) {
            let ghost before = self@;
            let row = self.rows.remove(i);
            assert(before[i as int] == row@);
            let row = SlotRow {
                hit_count: row.hit_count + 1,
                last_used_at_nanos: now_nanos,
                ..row
            };
            self.rows.insert(i, row);
            assert(self@ =~= hit(before, key@, now_nanos));
        }
    }

    /// The latest stamp in the table.
    fn newest(&self) -> (latest: Option<i64>)
        ensures
            match latest {
                Some(stamp) => newest(self@) == stamp,
                None => newest(self@) == i64::MIN - 1,
            },
    {
        let mut latest: Option<i64> = None;
        let mut i: usize = 0;
        assert(self@.take(0) =~= Seq::<RowView>::empty());
        while i < self.rows.len()
            invariant
                i <= self.rows.len(),
                self@.len() == self.rows.len(),
                match latest {
                    Some(stamp) => newest(self@.take(i as int)) == stamp,
                    None => newest(self@.take(i as int)) == i64::MIN - 1,
                },
            decreases self.rows.len() - i,
        {
            assert(self@.take(i + 1).drop_last() =~= self@.take(i as int));
            assert(self@.take(i + 1).last() == self.rows[i as int]@);
            let stamp = self.rows[i].last_used_at_nanos;
            latest = match latest {
                Some(so_far) if so_far >= stamp => Some(so_far),
                _ => Some(stamp),
            };
            i = i + 1;
        }
        assert(self@.take(i as int) =~= self@);
        latest
    }

    /// The stamp of a use when the clock says `reading`.
    pub fn next_stamp(&self, reading: i64) -> (stamp: i64)
        ensures
            stamp == next_stamp(self@, reading),
    {
        match self.newest() {
            Some(latest) if latest >= reading => if latest < i64::MAX {
                latest + 1
            } else {
                latest
            },
            _ => reading,
        }
    }

    /// Sees to it that a use of `key` at the next stamp comes last.
    fn line_up(&mut self, key: &CacheKey)
        requires
            old(self).valid(),
        ensures
            final(self).valid(),
            final(self)@ == lined_up(old(self)@, key@),
    {
        if let Some(latest) = self.newest() {
            if latest == i64::MAX {
                if let Some(i) = self.position(key) {
                    let ghost before = self@;
                    let row = self.rows.remove(i);
                    assert(before[i as int] == row@);
                    self.rows.push(row);
                    assert(self@ =~= before.remove(i as int).push(before[i as int]));
                    proof {
                        manifest_laws::lemma_lined_up(before, key@);
                    }
                }
            }
        }
    }

    /// Counts a hit on `key` that makes its row the most recently used, when the clock says
    /// `reading`; without a row, changes nothing.
    pub fn confirm_hit_latest(&mut self, key: &CacheKey, reading: i64)
        requires
            old(self).valid(),
            has_key(old(self)@, key@) ==> old(self)@[position_of(old(self)@, key@)].hit_count
                < i64::MAX,
        ensures
            final(self).valid(),
            final(self)@ == hit_latest(old(self)@, key@, reading),
            has_key(old(self)@, key@) ==> by_use(final(self)@).last().key == key@,
    {
        let stamp = self.next_stamp(reading);
        proof {
            manifest_laws::lemma_lined_up(self@, key@);
            if has_key(self@, key@) {
                manifest_laws::law_hit_comes_last(self@, key@, reading);
            }
            assert(row_of(lined_up(self@, key@), key@) == row_of(self@, key@));
        }
        self.line_up(key);
        self.confirm_hit_at(key, stamp);
    }

    /// Counts a hit on `key` now, which makes its row the most recently used whatever the
    /// clock says; without a row, changes nothing.
    pub fn confirm_hit(&mut self, key: &CacheKey)
        requires
            old(self).valid(),
            has_key(old(self)@, key@) ==> old(self)@[position_of(old(self)@, key@)].hit_count
                < i64::MAX,
        ensures
            final(self).valid(),
            exists|now: ClockReading|
                final(self)@ == hit_latest(
                    old(self)@,
                    key@,
                    clock::nanos_stamp(#[trigger] now@),
                ),
            has_key(old(self)@, key@) ==> by_use(final(self)@).last().key == key@,
    {
        let now = clock::read_clock();
        let reading = now.nanos();
        self.confirm_hit_latest(key, reading);
        assert(reading == clock::nanos_stamp(now@));
    }

    /// Saves a row for `key` at the given time, with no hits, in place of the one it has.
    pub fn insert_at(
        &mut self,
        key: &CacheKey,
        handle: &CacheHandle,
        meta: CacheMeta,
        now_secs: i64,
        now_nanos: i64,
    )
        requires
            old(self).valid(),
        ensures
            final(self).valid(),
            final(self)@ == saved(
                old(self)@,
                fresh_row(key@, handle@, meta, now_secs, now_nanos),
            ),
    {
        let ghost before = self@;
        let ghost row_view = fresh_row(key@, handle@, meta, now_secs, now_nanos);
        let row = SlotRow {
            key: key.clone(),
            handle: handle.clone(),
            size_bytes: clock::to_signed(meta.size_bytes),
            token_count: clock::to_signed(meta.token_count),
            created_at_secs: now_secs,
            last_used_at_nanos: now_nanos,
            hit_count: 0,
        };
        match self.position(key) {
            Some(i) => {
                let old_row = self.rows.remove(i);
                assert(before[i as int] == old_row@);
                let row = SlotRow { created_at_secs: old_row.created_at_secs, ..row };
                self.rows.insert(i, row);
                assert(self@ =~= saved(before, row_view));
            },
            None => {
                self.rows.push(row);
                assert(self@ =~= saved(before, row_view));
            },
        }
    }

    /// Saves a row for `key` as the most recently used, with no hits, in place of the one it
    /// has, when the clock says `now_secs` and `reading`.
    pub fn insert_latest(
        &mut self,
        key: &CacheKey,
        handle: &CacheHandle,
        meta: CacheMeta,
        now_secs: i64,
        reading: i64,
    )
        requires
            old(self).valid(),
        ensures
            final(self).valid(),
            final(self)@ == saved_latest(
                old(self)@,
                fresh_row(key@, handle@, meta, now_secs, reading),
            ),
            by_use(final(self)@).last().key == key@,
    {
        let stamp = self.next_stamp(reading);
        let ghost row = fresh_row(key@, handle@, meta, now_secs, reading);
        proof {
            manifest_laws::lemma_lined_up(self@, key@);
            manifest_laws::law_save_comes_last(self@, row);
            assert(fresh_row(key@, handle@, meta, now_secs, stamp) == (RowView {
                last_used_at_nanos: stamp,
                ..row
            }));
        }
        self.line_up(key);
        self.insert_at(key, handle, meta, now_secs, stamp);
    }

    /// Saves a row for `key` now, with no hits, in place of the one it has. The row is the
    /// most recently used whatever the clock says.
    pub fn insert(&mut self, key: &CacheKey, handle: &CacheHandle, meta: CacheMeta)
        requires
            old(self).valid(),
        ensures
            final(self).valid(),
            exists|now: ClockReading|
                final(self)@ == saved_latest(
                    old(self)@,
                    row_at(key@, handle@, meta, #[trigger] now@),
                ),
            by_use(final(self)@).last().key == key@,
    {
        let now = clock::read_clock();
        self.insert_latest(key, handle, meta, now.secs(), now.nanos());
        assert(self@ == saved_latest(old(self)@, row_at(key@, handle@, meta, now@)));
    }

    /// Removes the row of `key`; without one, changes nothing.
    pub fn remove(&mut self, key: &CacheKey)
        requires
            old(self).valid(),
        ensures
            final(self).valid(),
            final(self)@ == without(old(self)@, key@),
    {
        if let Some(i) = self.position(key) {
            let ghost before = self@;
            self.rows.remove(i);
            assert(self@ =~= before.remove(i as int));
        }
    }

    /// Every row, in the order of use.
    pub fn all_rows(&self, row_order: RowOrder) -> (rows: Vec<ManifestRow>)
        ensures
            views(rows@) == match row_order {
                RowOrder::OldestFirst => listing(by_use(self@)),
                RowOrder::NewestFirst => listing(by_use(self@)).reverse(),
            },
    {
        let mut used_at: Vec<i64> = Vec::new();
        let mut i: usize = 0;
        while i < self.rows.len()
            invariant
                i <= self.rows.len(),
                used_at@ == stamps(self@).take(i as int),
            decreases self.rows.len() - i,
        {
            assert(self@[i as int] == self.rows[i as int]@);
            used_at.push(self.rows[i].last_used_at_nanos);
            assert(used_at@ =~= stamps(self@).take(i + 1));
            i = i + 1;
        }
        assert(used_at@ =~= stamps(self@));
        let positions = order::positions_in_use_order(&used_at);
        let ghost p = order::use_order(stamps(self@));
        let ghost sorted = listing(by_use(self@));
        let mut rows: Vec<ManifestRow> = Vec::new();
        let mut k: usize = 0;
        while k < positions.len()
            invariant
                k <= positions.len(),
                positions.len() == self.rows.len(),
                p == order::use_order(stamps(self@)),
                p == positions@.map_values(|i: usize| i as int),
                order::is_use_order(stamps(self@), p),
                sorted == listing(by_use(self@)),
                sorted.len() == positions.len(),
                views(rows@) == match row_order {
                    RowOrder::OldestFirst => sorted.take(k as int),
                    RowOrder::NewestFirst => sorted.reverse().take(k as int),
                },
            decreases positions.len() - k,
        {
            let at: usize = match row_order {
                RowOrder::OldestFirst => k,
                RowOrder::NewestFirst => positions.len() - 1 - k,
            };
            let i: usize = positions[at];
            assert(p[at as int] == i);
            assert(self@[i as int] == self.rows[i as int]@);
            let ghost earlier = rows@;
            rows.push(row_from_sql(&self.rows[i]));
            assert(sorted[at as int] == listed(self@[i as int]));
            assert(views(rows@) =~= views(earlier).push(sorted[at as int]));
            assert(sorted.take(k + 1) =~= sorted.take(k as int).push(sorted[k as int]));
            assert(sorted.reverse().take(k + 1) =~= sorted.reverse().take(k as int).push(
                sorted.reverse()[k as int],
            ));
            k = k + 1;
        }
        assert(sorted.take(k as int) =~= sorted);
        assert(sorted.reverse().take(k as int) =~= sorted.reverse());
        rows
    }

    /// Every row, most recently used first.
    pub fn list_all(&self) -> (rows: Vec<ManifestRow>)
        ensures
            views(rows@) == listing(by_use(self@)).reverse(),
    {
        self.all_rows(RowOrder::NewestFirst)
    }

    /// The row at a position.
    pub fn row(&self, i: usize) -> (row: &SlotRow)
        requires
            i < self@.len(),
        ensures
            row@ == self@[i as int],
    {
        &self.rows[i]
    }

    /// The number of bytes recorded.
    pub fn recorded_bytes(&self) -> (total: u128)
        ensures
            total == budget::sum(sizes(self@)),
    {
        let ghost all = sizes(self@);
        let mut total: u128 = 0;
        let mut i: usize = 0;
        proof {
            assert(all.len() == self.rows.len());
            budget::lemma_sum_bound(all);
        }
        assert(all.take(0) =~= Seq::<nat>::empty());
        while i < self.rows.len()
            invariant
                i <= self.rows.len(),
                all == sizes(self@),
                all.len() == self.rows.len(),
                budget::sum(all) <= u128::MAX,
                total == budget::sum(all.take(i as int)),
            decreases self.rows.len() - i,
        {
            proof {
                budget::lemma_sum_step(all, i as int);
                budget::lemma_sum_split(all, i + 1);
                assert(self@[i as int] == self.rows[i as int]@);
            }
            total = total + clock::to_unsigned(self.rows[i].size_bytes) as u128;
            i = i + 1;
        }
        assert(all.take(i as int) =~= all);
        total
    }

    /// The number of rows.
    pub fn len(&self) -> (len: usize)
        ensures
            len == self@.len(),
    {
        self.rows.len()
    }

    /// The number of hits on all rows together, if it fits 64 bits.
    pub fn checked_hits(&self) -> (total: Option<u64>)
        ensures
            match total {
                Some(total) => total == budget::sum(hit_counts(self@)),
                None => budget::sum(hit_counts(self@)) > u64::MAX,
            },
    {
        let ghost all = hit_counts(self@);
        let mut total: u64 = 0;
        let mut i: usize = 0;
        assert(all.take(0) =~= Seq::<nat>::empty());
        while i < self.rows.len()
            invariant
                i <= self.rows.len(),
                all == hit_counts(self@),
                all.len() == self.rows.len(),
                total == budget::sum(all.take(i as int)),
            decreases self.rows.len() - i,
        {
            proof {
                budget::lemma_sum_step(all, i as int);
                budget::lemma_sum_split(all, i + 1);
                assert(self@[i as int] == self.rows[i as int]@);
            }
            match total.checked_add(clock::to_unsigned(self.rows[i].hit_count)) {
                Some(more) => total = more,
                None => return None,
            }
            i = i + 1;
        }
        assert(all.take(i as int) =~= all);
        Some(total)
    }

    /// Adds up the stored sizes as signed numbers, as the table itself does: the sum, or an
    /// error when it leaves 64 bits on the way.
    pub fn total_bytes(&self) -> (total: Result<u64, KvCacheError>)
        ensures
            match total {
                Ok(total) => {
                    &&& stored_sum_fits(self@)
                    &&& total == clock::unsigned(stored_sum(self@) as i64)
                },
                Err(e) => {
                    &&& !stored_sum_fits(self@)
                    &&& e@ == (ErrorView::Backend { words: "integer overflow"@ })
                },
            },
    {
        let mut total: i64 = 0;
        let mut i: usize = 0;
        assert(self@.take(0) =~= Seq::<RowView>::empty());
        while i < self.rows.len()
            invariant
                i <= self.rows.len(),
                self@.len() == self.rows.len(),
                total == stored_sum(self@.take(i as int)),
                forall|n: int|
                    0 <= n <= i ==> i64::MIN <= stored_sum(#[trigger] self@.take(n)) <= i64::MAX,
            decreases self.rows.len() - i,
        {
            assert(self@.take(i + 1).drop_last() =~= self@.take(i as int));
            assert(self@.take(i + 1).last() == self.rows[i as int]@);
            match total.checked_add(self.rows[i].size_bytes) {
                Some(more) => total = more,
                None => return Err(KvCacheError::Backend("integer overflow".to_owned())),
            }
            i = i + 1;
        }
        assert(self@.take(i as int) =~= self@);
        Ok(clock::to_unsigned(total))
    }

    /// The rows that have to go, least recently used first, to bring the total down to
    /// `target_bytes`. Removes none of them.
    pub fn evict_candidates(&self, target_bytes: u64) -> (candidates: Vec<ManifestRow>)
        ensures
            views(candidates@) == listing(evicted(self@, target_bytes as nat)),
    {
        let mut rows = self.all_rows(RowOrder::OldestFirst);
        let ghost sorted = by_use(self@);
        let ghost all = sizes(sorted);
        proof {
            manifest_laws::lemma_by_use(self@);
        }
        assert(all.skip(0) =~= all);
        assert(views(rows@).len() == rows.len() && listing(sorted).len() == all.len());
        let mut total = self.recorded_bytes();
        let mut n: usize = 0;
        while total > target_bytes as u128
            invariant
                n <= rows.len(),
                n <= budget::excess(all, target_bytes as nat),
                views(rows@) == listing(sorted),
                all == sizes(sorted),
                all.len() == rows.len(),
                total == budget::sum(all.skip(n as int)),
            decreases rows.len() - n,
        {
            proof {
                budget::lemma_dropping(all, target_bytes as nat, n as int);
                assert(views(rows@)[n as int] == rows[n as int]@);
                assert(listing(sorted)[n as int] == listed(sorted[n as int]));
            }
            total = total - rows[n].size_bytes as u128;
            n = n + 1;
        }
        proof {
            budget::lemma_dropping(all, target_bytes as nat, n as int);
        }
        let ghost before = rows@;
        rows.truncate(n);
        assert(views(rows@) =~= views(before).take(n as int));
        assert(views(rows@) =~= listing(evicted(self@, target_bytes as nat)));
        rows
    }

    /// Removes the rows that have to go to bring the total down to `target_bytes`, least
    /// recently used first, and returns them.
    pub fn evict_and_remove(&mut self, target_bytes: u64) -> (removed: Vec<ManifestRow>)
        requires
            old(self).valid(),
        ensures
            final(self).valid(),
            final(self)@ == trimmed(old(self)@, target_bytes as nat),
            views(removed@) == listing(evicted(old(self)@, target_bytes as nat)),
    {
        let ghost all = self@;
        let ghost target = target_bytes as nat;
        let removed = self.evict_candidates(target_bytes);
        proof {
            manifest_laws::lemma_by_use(all);
            budget::lemma_excess(sizes(by_use(all)), target);
            assert(views(removed@).len() == removed.len());
        }
        let mut i: usize = 0;
        while i < removed.len()
            invariant
                i <= removed.len(),
                self.valid(),
                views(removed@) == listing(evicted(all, target)),
                removed.len() == overdue(all, target),
                overdue(all, target) <= all.len(),
                by_use(all).len() == all.len(),
                self@ == without_oldest(all, i as nat),
            decreases removed.len() - i,
        {
            proof {
                manifest_laws::lemma_without_oldest(all, i as nat);
                manifest_laws::lemma_without_oldest_step(all, i as nat);
                manifest_laws::lemma_remove_by_use(self@, 0);
                let oldest = order::use_order(stamps(self@))[0];
                assert(by_use(self@)[0] == by_use(all)[i as int]);
                assert(views(removed@)[i as int] == removed[i as int]@);
                assert(listing(evicted(all, target))[i as int] == listed(by_use(all)[i as int]));
                manifest_laws::lemma_position(self@, oldest);
            }
            self.remove(&removed[i].key);
            i = i + 1;
        }
        removed
    }
}

} // verus!

//! The store on llama-server as far as its index goes: the rules and the table together.
use vstd::prelude::*;

use crate::budget;
use crate::cli;
use crate::clock;
use crate::clock::ClockReading;
use crate::llama_server::LlamaServerSlotStore;
use crate::manifest;
use crate::manifest::{Manifest, RowView};
use crate::manifest_laws;
use crate::order;
use crate::store;
use crate::store::{KvCacheStore, SlotView};
use crate::store_laws;
use crate::sweep::FileSweep;
use crate::types::{CacheHandle, CacheKey, CacheMeta, EvictionReport, KeyView, KvCacheError};

verus! {

/// A [`LlamaServerSlotStore`] with its table at hand. Evicting removes rows at once; their
/// files are left to the caller, who takes the sweeps that delete them.
pub struct IndexedSlotStore {
    rules: LlamaServerSlotStore,
    index: Manifest,
    sweeps: Vec<FileSweep>,
    hits_left: u64,
}

/// No row has more hits than `most`.
pub open spec fn hits_up_to(rows: Seq<RowView>, most: int) -> bool {
    forall|i: int| 0 <= i < rows.len() ==> (#[trigger] rows[i]).hit_count <= most
}

impl IndexedSlotStore {
    /// The table.
    pub closed spec fn table(&self) -> Seq<RowView> {
        self.index@
    }

    /// The sweeps that are still to be made, one for each eviction pass.
    pub closed spec fn sweeps(&self) -> Seq<FileSweep> {
        self.sweeps@
    }

    /// The store with the given rules and table; nothing when the table records more bytes
    /// than 64 bits can count.
    pub fn open(rules: LlamaServerSlotStore, index: Manifest) -> (store: Option<Self>)
        requires
            index.valid(),
        ensures
            store is Some <==> budget::sum(manifest::sizes(index@)) <= u64::MAX,
            match store {
                Some(store) => {
                    &&& store.valid()
                    &&& store.budget() == rules.budget()
                    &&& store.table() == index@
                    &&& store.slots() == manifest_laws::slots(index@)
                    &&& store.sweeps() == Seq::<FileSweep>::empty()
                    &&& hits_up_to(index@, i64::MAX - store.uses_left())
                    &&& forall|most: int|
                        0 <= most && #[trigger] hits_up_to(index@, most) ==> store.uses_left()
                            >= i64::MAX - most
                },
                None => true,
            },
    {
        if index.recorded_bytes() > u64::MAX as u128 {
            return None;
        }
        let mut most: i64 = 0;
        let mut i: usize = 0;
        while i < index.len()
            invariant
                i <= index@.len(),
                0 <= most,
                forall|j: int| 0 <= j < i ==> (#[trigger] index@[j]).hit_count <= most,
                most == 0 || exists|j: int|
                    0 <= j < i && (#[trigger] index@[j]).hit_count == most,
            decreases index@.len() - i,
        {
            let hits = index.row(i).hit_count;
            assert(index@[i as int].hit_count == hits);
            if hits > most {
                most = hits;
            }
            i = i + 1;
        }
        let hits_left = (i64::MAX - most) as u64;
        Some(IndexedSlotStore { rules, index, sweeps: Vec::new(), hits_left })
    }

    /// The table as it stands.
    pub fn index(&self) -> (index: &Manifest)
        ensures
            index@ == self.table(),
            self.valid() ==> index.valid(),
    {
        &self.index
    }

    /// Hands out the sweeps that are still to be made.
    pub fn take_sweeps(&mut self) -> (sweeps: Vec<FileSweep>)
        requires
            old(self).valid(),
        ensures
            final(self).valid(),
            final(self).budget() == old(self).budget(),
            final(self).uses_left() == old(self).uses_left(),
            final(self).table() == old(self).table(),
            final(self).slots() == old(self).slots(),
            final(self).sweeps() == Seq::<FileSweep>::empty(),
            sweeps@ == old(self).sweeps(),
            forall|i: int|
                0 <= i < sweeps.len() ==> (#[trigger] sweeps[i]).valid() && sweeps[i].done() == 0,
    {
        let mut sweeps: Vec<FileSweep> = Vec::new();
        std::mem::swap(&mut sweeps, &mut self.sweeps);
        sweeps
    }
}

impl KvCacheStore for IndexedSlotStore {
    closed spec fn budget(&self) -> nat {
        self.rules.budget()
    }

    closed spec fn slots(&self) -> Seq<SlotView> {
        manifest_laws::slots(self.index@)
    }

    closed spec fn valid(&self) -> bool {
        &&& self.index.valid()
        &&& budget::sum(manifest::sizes(self.index@)) <= u64::MAX
        &&& self.hits_left <= i64::MAX
        &&& hits_up_to(self.index@, i64::MAX - self.hits_left)
        &&& forall|i: int|
            0 <= i < self.sweeps.len() ==> (#[trigger] self.sweeps[i]).valid()
                && self.sweeps[i].done() == 0
    }

    closed spec fn uses_left(&self) -> nat {
        self.hits_left as nat
    }

    open spec fn dependable(&self) -> bool {
        true
    }

    proof fn valid_is_sound(&self) {
        lemma_slots_sum(self.index@);
    }

    fn find(&self, key: &CacheKey) -> (found: Result<Option<CacheHandle>, KvCacheError>) {
        proof {
            manifest_laws::law_table_is_a_store(self.index@, key@);
        }
        Ok(self.rules.find(&self.index, key))
    }

    fn confirm_hit(&mut self, key: &CacheKey) -> (done: Result<(), KvCacheError>)
        ensures
            done is Ok,
            exists|now: ClockReading|
                final(self).table() == manifest::hit_latest(
                    old(self).table(),
                    key@,
                    clock::nanos_stamp(#[trigger] now@),
                ),
            final(self).sweeps() == old(self).sweeps(),
    {
        let ghost rows = self.index@;
        self.rules.confirm_hit(&mut self.index, key);
        self.hits_left = self.hits_left - 1;
        proof {
            let now = choose|now: ClockReading|
                self.index@ == manifest::hit_latest(
                    rows,
                    key@,
                    clock::nanos_stamp(#[trigger] now@),
                );
            let reading = clock::nanos_stamp(now@);
            manifest_laws::law_hit_refines_store(rows, key@, reading);
            assert(self.table() == manifest::hit_latest(old(self).table(), key@, reading));
            lemma_hits_after_hit(rows, key@, reading, i64::MAX - old(self).hits_left);
            lemma_slots_sum(rows);
            lemma_slots_sum(self.index@);
            store_laws::law_use_keeps_the_total(manifest_laws::slots(rows), key@);
        }
        Ok(())
    }

    fn record(&mut self, key: &CacheKey, handle: CacheHandle, meta: CacheMeta) -> (done: Result<
        (),
        KvCacheError,
    >)
        ensures
            done is Ok ==> {
                &&& final(self).sweeps().len() == old(self).sweeps().len() + 1
                &&& final(self).sweeps().drop_last() == old(self).sweeps()
                &&& exists|now: ClockReading|
                    {
                        let row = manifest::row_at(key@, handle@, meta, #[trigger] now@);
                        let all = manifest::saved_latest(old(self).table(), row);
                        &&& final(self).table() == manifest::trimmed(all, old(self).budget())
                        &&& final(self).sweeps().last().rows() == manifest::listing(
                            manifest::evicted(all, old(self).budget()),
                        )
                    }
            },
            done is Ok <==> meta.size_bytes <= old(self).budget(),
            done is Err ==> {
                &&& final(self).table() == old(self).table()
                &&& final(self).sweeps() == old(self).sweeps()
            },
    {
        let ghost rows = self.index@;
        let sweep = match self.rules.record(&mut self.index, key, &handle, meta) {
            Ok(sweep) => sweep,
            Err(e) => return Err(e),
        };
        proof {
            let now = choose|now: ClockReading|
                {
                    let row = manifest::row_at(key@, handle@, meta, #[trigger] now@);
                    let all = manifest::saved_latest(rows, row);
                    &&& self.index@ == manifest::trimmed(all, self.rules.budget())
                    &&& sweep.rows() == manifest::listing(
                        manifest::evicted(all, self.rules.budget()),
                    )
                };
            let row = manifest::row_at(key@, handle@, meta, now@);
            let all = manifest::saved_latest(rows, row);
            self.rules.lemma_budget_fits();
            manifest_laws::law_save_refines_store(rows, row);
            manifest_laws::law_trim_refines_store(all, self.rules.budget());
            lemma_hits_after_save(rows, row, i64::MAX - old(self).hits_left);
            lemma_hits_after_trim(all, self.rules.budget(), i64::MAX - old(self).hits_left);
            assert(manifest_laws::slot_of(row) == store::slot_for(key@, handle@, meta));
        }
        self.sweeps.push(sweep);
        assert(self.sweeps@.drop_last() =~= old(self).sweeps@);
        Ok(())
    }

    fn evict_to_budget(&mut self) -> (done: Result<EvictionReport, KvCacheError>)
        ensures
            done is Ok,
            final(self).table() == manifest::trimmed(old(self).table(), old(self).budget()),
            final(self).sweeps().len() == old(self).sweeps().len() + 1,
            final(self).sweeps().drop_last() == old(self).sweeps(),
            final(self).sweeps().last().rows() == manifest::listing(
                manifest::evicted(old(self).table(), old(self).budget()),
            ),
    {
        let ghost rows = self.index@;
        let ghost budget = self.rules.budget();
        let ghost gone = manifest::evicted(rows, budget);
        let sweep = self.rules.evict_to_budget(&mut self.index);
        proof {
            manifest_laws::law_trim_refines_store(rows, budget);
            manifest_laws::law_eviction(rows, budget);
            manifest_laws::lemma_by_use(rows);
            cli::lemma_listing_sizes(gone);
            lemma_hits_after_trim(rows, budget, i64::MAX - old(self).hits_left);
            let sizes = manifest::sizes(manifest::by_use(rows));
            let n = manifest::overdue(rows, budget) as int;
            budget::lemma_excess(sizes, budget);
            budget::lemma_sum_split(sizes, n);
            assert(manifest::sizes(gone) =~= sizes.take(n));
            assert(manifest::sizes(manifest::by_use(self.index@)) =~= sizes.skip(n));
            manifest_laws::lemma_by_use(self.index@);
            assert(store::sizes(store::evicted(manifest_laws::slots(rows), budget)) =~= sizes.take(
                n,
            ));
        }
        let report = sweep.planned();
        self.sweeps.push(sweep);
        assert(self.sweeps@.drop_last() =~= old(self).sweeps@);
        Ok(report)
    }
}

/// The slots of a table add up to what its rows add up to.
proof fn lemma_slots_sum(rows: Seq<RowView>)
    requires
        manifest::distinct_keys(rows),
    ensures
        store::distinct_keys(manifest_laws::slots(rows)),
        budget::sum(store::sizes(manifest_laws::slots(rows))) == budget::sum(
            manifest::sizes(rows),
        ),
{
    let key = KeyView {
        backend_id: seq![],
        model_id: seq![],
        build_hash: seq![],
        prefix_hash: seq![],
    };
    manifest_laws::law_table_is_a_store(rows, key);
    manifest_laws::lemma_by_use(rows);
}

/// A hit adds one hit at most.
proof fn lemma_hits_after_hit(rows: Seq<RowView>, key: KeyView, reading: i64, most: int)
    requires
        hits_up_to(rows, most),
        most < i64::MAX,
    ensures
        hits_up_to(manifest::hit_latest(rows, key, reading), most + 1),
{
    let ready = manifest::lined_up(rows, key);
    assert(hits_up_to(ready, most));
    let after = manifest::hit_latest(rows, key, reading);
    assert forall|i: int| 0 <= i < after.len() implies (#[trigger] after[i]).hit_count <= most
        + 1 by {
        assert(ready[i].hit_count <= most);
    }
}

/// A save of a row without hits adds none.
proof fn lemma_hits_after_save(rows: Seq<RowView>, row: RowView, most: int)
    requires
        hits_up_to(rows, most),
        row.hit_count <= most,
    ensures
        hits_up_to(manifest::saved_latest(rows, row), most),
{
    assert(hits_up_to(manifest::lined_up(rows, row.key), most));
}

/// Eviction adds no hits.
proof fn lemma_hits_after_trim(rows: Seq<RowView>, target: nat, most: int)
    requires
        hits_up_to(rows, most),
    ensures
        hits_up_to(manifest::trimmed(rows, target), most),
{
    lemma_hits_after_removal(rows, manifest::overdue(rows, target), most);
}

proof fn lemma_hits_after_removal(rows: Seq<RowView>, n: nat, most: int)
    requires
        hits_up_to(rows, most),
    ensures
        hits_up_to(manifest::without_oldest(rows, n), most),
    decreases n,
{
    if n > 0 && rows.len() > 0 {
        manifest_laws::lemma_remove_by_use(rows, 0);
        lemma_hits_after_removal(
            rows.remove(order::use_order(manifest::stamps(rows))[0]),
            (n - 1) as nat,
            most,
        );
    }
}

} // verus!

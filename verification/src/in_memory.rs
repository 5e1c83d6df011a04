//! A deterministic store in process memory.
use vstd::prelude::*;

use crate::budget;
use crate::store;
use crate::store::{KvCacheStore, SlotView};
use crate::store_laws;
use crate::types::{CacheHandle, CacheKey, CacheMeta, EvictionReport, KvCacheError};

verus! {

struct Entry {
    key: CacheKey,
    handle: CacheHandle,
    size_bytes: u64,
    last_used_at: u64,
}

impl Entry {
    spec fn slot(self) -> SlotView {
        SlotView {
            key: self.key@,
            handle: self.handle@,
            size_bytes: self.size_bytes as nat,
        }
    }
}

/// Deterministic in-process store without persistence, for tests and for consumers that
/// want no filesystem or database in theirs.
///
/// The entries stand in the order of their last use, each with the reading of a logical
/// clock at that use.
pub struct InMemoryKvCacheStore {
    max_bytes: u64,
    entries: Vec<Entry>,
    clock: u64,
}

impl InMemoryKvCacheStore {
    /// An empty store.
    pub fn new(max_bytes: u64) -> (store: Self)
        ensures
            store.valid(),
            store.budget() == max_bytes,
            store.slots() == Seq::<SlotView>::empty(),
            store.uses_left() == u64::MAX,
            store.within_budget(),
    {
        let store = InMemoryKvCacheStore { max_bytes, entries: Vec::new(), clock: 0 };
        assert(store.slots() =~= Seq::<SlotView>::empty());
        store
    }

    /// The entries' stamps rise, and none lies ahead of the clock.
    closed spec fn in_order(&self) -> bool {
        &&& forall|i: int, j: int|
            0 <= i < j < self.entries.len() ==> (#[trigger] self.entries[i]).last_used_at < (
            #[trigger] self.entries[j]).last_used_at
        &&& forall|i: int|
            0 <= i < self.entries.len() ==> (#[trigger] self.entries[i]).last_used_at <= self.clock
    }

    /// The entries are in order, and no key has two.
    closed spec fn ordered(&self) -> bool {
        &&& self.in_order()
        &&& store::distinct_keys(self.slots())
    }

    /// The slots together take up no more than the budget. So it is between any two calls.
    pub open spec fn within_budget(&self) -> bool {
        budget::sum(store::sizes(self.slots())) <= self.budget()
    }

    /// Advances the logical clock. It stands in for wall-clock time, so that the order of
    /// use never depends on how fast the caller runs.
    fn tick(&mut self) -> (now: u64)
        requires
            old(self).ordered(),
            old(self).clock < u64::MAX,
        ensures
            final(self).ordered(),
            now == old(self).clock + 1,
            final(self).clock == now,
            final(self).entries == old(self).entries,
            final(self).max_bytes == old(self).max_bytes,
    {
        self.clock = self.clock + 1;
        self.clock
    }

    /// The number of bytes recorded.
    fn total_bytes(&self) -> (total: u128)
        ensures
            total == budget::sum(store::sizes(self.slots())),
    {
        let ghost sizes = store::sizes(self.slots());
        let mut total: u128 = 0;
        let mut i: usize = 0;
        proof {
            assert(sizes.len() == self.entries.len());
            budget::lemma_sum_bound(sizes);
        }
        assert(sizes.take(0) =~= Seq::<nat>::empty());
        while i < self.entries.len()
            invariant
                i <= self.entries.len(),
                sizes == store::sizes(self.slots()),
                budget::sum(sizes) <= u128::MAX,
                total == budget::sum(sizes.take(i as int)),
            decreases self.entries.len() - i,
        {
            proof {
                budget::lemma_sum_step(sizes, i as int);
                budget::lemma_sum_split(sizes, i + 1);
            }
            total = total + self.entries[i].size_bytes as u128;
            i = i + 1;
        }
        assert(sizes.take(i as int) =~= sizes);
        total
    }

    /// Whether the logical clock can count another use.
    pub fn counts_another_use(&self) -> (counts: bool)
        ensures
            counts == (self.uses_left() > 0),
    {
        self.clock < u64::MAX
    }

    /// Where the entry of `key` stands.
    fn position(&self, key: &CacheKey) -> (position: Option<usize>)
        requires
            self.ordered(),
        ensures
            match position {
                Some(i) => {
                    &&& i < self.entries.len()
                    &&& store::has_key(self.slots(), key@)
                    &&& store::position_of(self.slots(), key@) == i
                },
                None => !store::has_key(self.slots(), key@),
            },
    {
        let mut i: usize = 0;
        while i < self.entries.len()
            invariant
                self.ordered(),
                i <= self.entries.len(),
                forall|j: int| 0 <= j < i ==> (#[trigger] self.slots()[j]).key != key@,
            decreases self.entries.len() - i,
        {
            assert(self.slots()[i as int].key == self.entries[i as int].key@);
            if self.entries[i].key.same_as(key) {
                return Some(i);
            }
            i = i + 1;
        }
        None
    }

    /// Takes out what is recorded under `key`.
    fn take(&mut self, key: &CacheKey) -> (entry: Option<Entry>)
        requires
            old(self).ordered(),
        ensures
            final(self).ordered(),
            final(self).clock == old(self).clock,
            final(self).max_bytes == old(self).max_bytes,
            final(self).slots() == store::without(old(self).slots(), key@),
            !store::has_key(final(self).slots(), key@),
            match entry {
                Some(e) => {
                    &&& store::has_key(old(self).slots(), key@)
                    &&& e.slot() == old(self).slots()[store::position_of(old(self).slots(), key@)]
                    &&& e.slot().key == key@
                },
                None => !store::has_key(old(self).slots(), key@),
            },
    {
        match self.position(key) {
            Some(i) => {
                let ghost before = self.slots();
                let entry = self.entries.remove(i);
                assert(self.slots() =~= before.remove(i as int));
                assert(before[i as int] == entry.slot());
                Some(entry)
            },
            None => None,
        }
    }

    /// Removes the entry that was used least recently, and returns its size.
    fn drop_oldest(&mut self) -> (size_bytes: u64)
        requires
            old(self).ordered(),
            old(self).slots().len() > 0,
        ensures
            final(self).ordered(),
            final(self).clock == old(self).clock,
            final(self).max_bytes == old(self).max_bytes,
            final(self).slots() == old(self).slots().drop_first(),
            final(self).entries.len() + 1 == old(self).entries.len(),
            size_bytes == old(self).slots()[0].size_bytes,
    {
        let ghost before = self.slots();
        let entry = self.entries.remove(0);
        assert(self.slots() =~= before.drop_first());
        entry.size_bytes
    }

    /// Puts an entry at the end, as the one used just now.
    fn append(&mut self, entry: Entry)
        requires
            old(self).ordered(),
            entry.last_used_at == old(self).clock,
            forall|i: int|
                0 <= i < old(self).entries.len() ==> (#[trigger] old(
                    self,
                ).entries[i]).last_used_at < entry.last_used_at,
            !store::has_key(old(self).slots(), entry.slot().key),
        ensures
            final(self).ordered(),
            final(self).clock == old(self).clock,
            final(self).max_bytes == old(self).max_bytes,
            final(self).slots() == old(self).slots().push(entry.slot()),
    {
        let ghost before = self.slots();
        self.entries.push(entry);
        assert(self.slots() =~= before.push(entry.slot()));
    }

    /// Drops the least recently used entries until the total is at or under the budget.
    fn trim(&mut self) -> (report: EvictionReport)
        requires
            old(self).ordered(),
            budget::sum(
                store::sizes(store::evicted(old(self).slots(), old(self).budget())),
            ) <= u64::MAX,
        ensures
            final(self).valid(),
            final(self).within_budget(),
            final(self).budget() == old(self).budget(),
            final(self).uses_left() == old(self).uses_left(),
            final(self).slots() == store::trimmed(old(self).slots(), old(self).budget()),
            ({
                let gone = store::evicted(old(self).slots(), old(self).budget());
                &&& report.evicted_count == gone.len()
                &&& report.bytes_freed == budget::sum(store::sizes(gone))
            }),
    {
        let ghost slots = self.slots();
        let ghost sizes = store::sizes(slots);
        let ghost target = self.budget();
        let mut total = self.total_bytes();
        let mut report = EvictionReport::default();
        assert(slots.len() == self.entries.len());
        assert(slots.skip(0) =~= slots);
        assert(sizes.skip(0) =~= sizes);
        assert(sizes.take(0) =~= Seq::<nat>::empty());
        assert(store::sizes(store::evicted(slots, target)) =~= sizes.take(
            budget::excess(sizes, target) as int,
        )) by {
            budget::lemma_excess(sizes, target);
        }
        while total > self.max_bytes as u128
            invariant
                self.ordered(),
                self.budget() == target,
                target == old(self).budget(),
                self.uses_left() == old(self).uses_left(),
                slots == old(self).slots(),
                slots.len() <= u64::MAX,
                sizes == store::sizes(slots),
                budget::sum(sizes.take(budget::excess(sizes, target) as int)) <= u64::MAX,
                report.evicted_count <= budget::excess(sizes, target),
                self.slots() == slots.skip(report.evicted_count as int),
                report.bytes_freed == budget::sum(sizes.take(report.evicted_count as int)),
                total == budget::sum(sizes.skip(report.evicted_count as int)),
            decreases self.entries.len(),
        {
            proof {
                let n = report.evicted_count as int;
                let gone = sizes.take(budget::excess(sizes, target) as int);
                budget::lemma_dropping(sizes, target, n);
                budget::lemma_sum_split(gone, n + 1);
                assert(gone.take(n + 1) =~= sizes.take(n + 1));
            }
            let size_bytes = self.drop_oldest();
            assert(slots.skip(report.evicted_count as int).drop_first() =~= slots.skip(
                report.evicted_count + 1,
            ));
            total = total - size_bytes as u128;
            report.evicted_count = report.evicted_count + 1;
            report.bytes_freed = report.bytes_freed + size_bytes;
        }
        proof {
            budget::lemma_dropping(sizes, target, report.evicted_count as int);
            assert(store::sizes(slots.take(report.evicted_count as int)) =~= sizes.take(
                report.evicted_count as int,
            ));
            assert(store::sizes(self.slots()) =~= sizes.skip(report.evicted_count as int));
        }
        report
    }
}

impl KvCacheStore for InMemoryKvCacheStore {
    closed spec fn budget(&self) -> nat {
        self.max_bytes as nat
    }

    closed spec fn slots(&self) -> Seq<SlotView> {
        self.entries@.map_values(|entry: Entry| entry.slot())
    }

    closed spec fn valid(&self) -> bool {
        &&& self.ordered()
        &&& budget::sum(store::sizes(self.slots())) <= u64::MAX
    }

    closed spec fn uses_left(&self) -> nat {
        (u64::MAX - self.clock) as nat
    }

    open spec fn dependable(&self) -> bool {
        true
    }

    proof fn valid_is_sound(&self) {
    }

    fn find(&self, key: &CacheKey) -> (found: Result<Option<CacheHandle>, KvCacheError>)
        ensures
            found is Ok,
    {
        match self.position(key) {
            Some(i) => {
                assert(self.slots()[i as int].handle == self.entries[i as int].handle@);
                Ok(Some(self.entries[i].handle.clone()))
            },
            None => Ok(None),
        }
    }

    fn confirm_hit(&mut self, key: &CacheKey) -> (done: Result<(), KvCacheError>)
        ensures
            done is Ok,
            old(self).within_budget() ==> final(self).within_budget(),
    {
        let taken = self.take(key);
        let now = self.tick();
        if let Some(entry) = taken {
            proof {
                store_laws::lemma_without_sum(old(self).slots(), key@);
                store_laws::lemma_push_sum(self.slots(), entry.slot());
            }
            self.append(Entry { last_used_at: now, ..entry });
        }
        Ok(())
    }

    fn record(&mut self, key: &CacheKey, handle: CacheHandle, meta: CacheMeta) -> (done: Result<
        (),
        KvCacheError,
    >)
        ensures
            done is Ok <==> meta.size_bytes <= old(self).budget(),
            done is Ok ==> final(self).within_budget(),
    {
        if meta.size_bytes > self.max_bytes {
            return Err(
                KvCacheError::SlotExceedsBudget {
                    size_bytes: meta.size_bytes,
                    max_bytes: self.max_bytes,
                },
            );
        }
        proof {
            let slot = store::slot_for(key@, handle@, meta);
            store_laws::lemma_evicted_for(self.slots(), slot, self.budget());
        }
        self.take(key);
        let now = self.tick();
        self.append(
            Entry { key: key.clone(), handle, size_bytes: meta.size_bytes, last_used_at: now },
        );
        self.trim();
        Ok(())
    }

    fn evict_to_budget(&mut self) -> (done: Result<EvictionReport, KvCacheError>)
        ensures
            done is Ok,
            final(self).within_budget(),
    {
        proof {
            let sizes = store::sizes(self.slots());
            let n = store::overdue(self.slots(), self.budget()) as int;
            budget::lemma_excess(sizes, self.budget());
            budget::lemma_sum_split(sizes, n);
            assert(store::sizes(store::evicted(self.slots(), self.budget())) =~= sizes.take(n));
        }
        Ok(self.trim())
    }
}

} // verus!

//! What a KV-cache store is, whatever it is built on.
use vstd::prelude::*;

use crate::budget;
use crate::types::{CacheHandle, CacheKey, CacheMeta, EvictionReport, KeyView, KvCacheError};

verus! {

/// One recorded slot.
#[verifier::ext_equal]
pub struct SlotView {
    pub key: KeyView,
    pub handle: Seq<char>,
    pub size_bytes: nat,
}

/// The sizes of a run of slots.
pub open spec fn sizes(slots: Seq<SlotView>) -> Seq<nat> {
    slots.map_values(|slot: SlotView| slot.size_bytes)
}

/// No key is recorded twice.
pub open spec fn distinct_keys(slots: Seq<SlotView>) -> bool {
    forall|i: int, j: int|
        0 <= i < j < slots.len() ==> (#[trigger] slots[i]).key != (#[trigger] slots[j]).key
}

/// Whether a slot is recorded under `key`.
pub open spec fn has_key(slots: Seq<SlotView>, key: KeyView) -> bool {
    exists|i: int| 0 <= i < slots.len() && (#[trigger] slots[i]).key == key
}

/// Where the slot that is recorded under `key` stands.
pub open spec fn position_of(slots: Seq<SlotView>, key: KeyView) -> int {
    choose|i: int| 0 <= i < slots.len() && (#[trigger] slots[i]).key == key
}

/// The handle recorded under `key`, if there is one.
pub open spec fn handle_of(slots: Seq<SlotView>, key: KeyView) -> Option<Seq<char>> {
    if has_key(slots, key) {
        Some(slots[position_of(slots, key)].handle)
    } else {
        None
    }
}

/// The slots without the one recorded under `key`.
pub open spec fn without(slots: Seq<SlotView>, key: KeyView) -> Seq<SlotView> {
    if has_key(slots, key) {
        slots.remove(position_of(slots, key))
    } else {
        slots
    }
}

/// The slots after the one under `key` was used: it is now the most recently used.
pub open spec fn touched(slots: Seq<SlotView>, key: KeyView) -> Seq<SlotView> {
    if has_key(slots, key) {
        without(slots, key).push(slots[position_of(slots, key)])
    } else {
        slots
    }
}

/// The slots after `slot` took the place of what was recorded under its key: it is now the
/// most recently used.
pub open spec fn replaced(slots: Seq<SlotView>, slot: SlotView) -> Seq<SlotView> {
    without(slots, slot.key).push(slot)
}

/// How many of the least recently used slots have to go to bring the total down to `budget`.
pub open spec fn overdue(slots: Seq<SlotView>, budget: nat) -> nat {
    budget::excess(sizes(slots), budget)
}

/// The slots that an eviction pass leaves.
pub open spec fn trimmed(slots: Seq<SlotView>, budget: nat) -> Seq<SlotView> {
    slots.skip(overdue(slots, budget) as int)
}

/// The slots that an eviction pass removes, in the order of their removal.
pub open spec fn evicted(slots: Seq<SlotView>, budget: nat) -> Seq<SlotView> {
    slots.take(overdue(slots, budget) as int)
}

/// The slot that a call of `record` asks for.
pub open spec fn slot_for(key: KeyView, handle: Seq<char>, meta: CacheMeta) -> SlotView {
    SlotView { key, handle, size_bytes: meta.size_bytes as nat }
}

/// The minimum persistence surface of a KV cache.
///
/// A store is a budget and a sequence of slots, least recently used first, with at most one
/// slot for each key. `record` and `confirm_hit` count as use; `find` does not. A store whose
/// backend fails answers with [`KvCacheError::Backend`]; a dependable store never does.
pub trait KvCacheStore: Sized {
    /// The number of bytes that the slots may take up together.
    spec fn budget(&self) -> nat;

    /// The recorded slots, least recently used first.
    spec fn slots(&self) -> Seq<SlotView>;

    /// The store's own invariant.
    spec fn valid(&self) -> bool;

    /// How many more uses the store can count.
    spec fn uses_left(&self) -> nat;

    /// Whether the backend never fails.
    spec fn dependable(&self) -> bool;

    /// A valid store holds at most one slot for each key, and as many bytes as 64 bits can
    /// count.
    proof fn valid_is_sound(&self)
        requires
            self.valid(),
        ensures
            distinct_keys(self.slots()),
            budget::sum(sizes(self.slots())) <= u64::MAX,
    ;

    /// The handle recorded under `key`. Changes nothing: not even recency.
    fn find(&self, key: &CacheKey) -> (found: Result<Option<CacheHandle>, KvCacheError>)
        requires
            self.valid(),
        ensures
            match found {
                Ok(Some(handle)) => handle_of(self.slots(), key@) == Some(handle@),
                Ok(None) => handle_of(self.slots(), key@) is None,
                Err(e) => e is Backend && !self.dependable(),
            },
    ;

    /// Marks the slot under `key` as the most recently used; without one, changes nothing.
    fn confirm_hit(&mut self, key: &CacheKey) -> (done: Result<(), KvCacheError>)
        requires
            old(self).valid(),
            old(self).uses_left() > 0,
        ensures
            final(self).valid(),
            final(self).budget() == old(self).budget(),
            final(self).dependable() == old(self).dependable(),
            final(self).uses_left() + 1 >= old(self).uses_left(),
            match done {
                Ok(()) => final(self).slots() == touched(old(self).slots(), key@),
                Err(e) => e is Backend && !old(self).dependable(),
            },
    ;

    /// Records a slot under `key` as the most recently used, in place of what was recorded
    /// there, and then evicts down to the budget. A slot that alone exceeds the budget is
    /// refused, and changes nothing.
    fn record(&mut self, key: &CacheKey, handle: CacheHandle, meta: CacheMeta) -> (done: Result<
        (),
        KvCacheError,
    >)
        requires
            old(self).valid(),
            meta.size_bytes <= old(self).budget() ==> old(self).uses_left() > 0,
        ensures
            final(self).valid(),
            final(self).budget() == old(self).budget(),
            final(self).dependable() == old(self).dependable(),
            final(self).uses_left() + 1 >= old(self).uses_left(),
            meta.size_bytes > old(self).budget() ==> done is Err,
            match done {
                Ok(()) => final(self).slots() == trimmed(
                    replaced(old(self).slots(), slot_for(key@, handle@, meta)),
                    old(self).budget(),
                ),
                Err(KvCacheError::SlotExceedsBudget { size_bytes, max_bytes }) => {
                    &&& meta.size_bytes > old(self).budget()
                    &&& size_bytes == meta.size_bytes
                    &&& max_bytes == old(self).budget()
                    &&& final(self).slots() == old(self).slots()
                    &&& final(self).uses_left() == old(self).uses_left()
                },
                Err(KvCacheError::Backend(_)) => {
                    &&& meta.size_bytes <= old(self).budget()
                    &&& !old(self).dependable()
                },
            },
    ;

    /// Removes the least recently used slots until the total is at or under the budget.
    fn evict_to_budget(&mut self) -> (done: Result<EvictionReport, KvCacheError>)
        requires
            old(self).valid(),
        ensures
            final(self).valid(),
            final(self).budget() == old(self).budget(),
            final(self).dependable() == old(self).dependable(),
            final(self).uses_left() >= old(self).uses_left(),
            match done {
                Ok(report) => {
                    let gone = evicted(old(self).slots(), old(self).budget());
                    &&& final(self).slots() == trimmed(old(self).slots(), old(self).budget())
                    &&& report.evicted_count == gone.len()
                    &&& report.bytes_freed == budget::sum(sizes(gone))
                },
                Err(e) => e is Backend && !old(self).dependable(),
            },
    ;
}

} // verus!

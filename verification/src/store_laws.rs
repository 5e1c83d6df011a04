//! What every store promises across its operations.
use vstd::prelude::*;

use crate::budget;
use crate::store;
use crate::store::SlotView;
use crate::types::KeyView;

verus! {

/// With distinct keys, a slot is found at the one place where its key stands.
pub proof fn lemma_position(slots: Seq<SlotView>, i: int)
    requires
        store::distinct_keys(slots),
        0 <= i < slots.len(),
    ensures
        store::has_key(slots, slots[i].key),
        store::position_of(slots, slots[i].key) == i,
        store::handle_of(slots, slots[i].key) == Some(slots[i].handle),
{
    let p = store::position_of(slots, slots[i].key);
    assert(0 <= p < slots.len() && slots[p].key == slots[i].key);
}

/// Taking out a key leaves every other key with its handle, and that key with none.
pub proof fn lemma_without(slots: Seq<SlotView>, key: KeyView)
    requires
        store::distinct_keys(slots),
    ensures
        store::distinct_keys(store::without(slots, key)),
        !store::has_key(store::without(slots, key), key),
        forall|other: KeyView|
            other != key ==> #[trigger] store::handle_of(store::without(slots, key), other)
                == store::handle_of(slots, other),
{
    let rest = store::without(slots, key);
    if store::has_key(slots, key) {
        let p = store::position_of(slots, key);
        assert(slots[p].key == key);
        assert forall|i: int| 0 <= i < rest.len() implies (#[trigger] rest[i]) == slots[if i < p {
            i
        } else {
            i + 1
        }] by {}
        assert forall|other: KeyView| other != key implies #[trigger] store::handle_of(rest, other)
            == store::handle_of(slots, other) by {
            if store::has_key(slots, other) {
                let i = store::position_of(slots, other);
                let j = if i < p {
                    i
                } else {
                    i - 1
                };
                assert(rest[j] == slots[i]);
                lemma_position(rest, j);
            }
            if store::has_key(rest, other) {
                let j = store::position_of(rest, other);
                lemma_position(
                    slots,
                    if j < p {
                        j
                    } else {
                        j + 1
                    },
                );
            }
        }
    }
}

/// Putting a slot at the end adds its size to the total.
pub proof fn lemma_push_sum(slots: Seq<SlotView>, slot: SlotView)
    ensures
        budget::sum(store::sizes(slots.push(slot))) == budget::sum(store::sizes(slots))
            + slot.size_bytes,
{
    assert(store::sizes(slots.push(slot)) =~= store::sizes(slots).push(slot.size_bytes));
    budget::lemma_sum_push(store::sizes(slots), slot.size_bytes);
}

/// Taking the slot of a key out takes its size off the total.
pub proof fn lemma_without_sum(slots: Seq<SlotView>, key: KeyView)
    requires
        store::has_key(slots, key),
    ensures
        budget::sum(store::sizes(store::without(slots, key))) + slots[store::position_of(
            slots,
            key,
        )].size_bytes == budget::sum(store::sizes(slots)),
{
    let i = store::position_of(slots, key);
    assert(store::sizes(slots.remove(i)) =~= store::sizes(slots).remove(i));
    budget::lemma_sum_remove(store::sizes(slots), i);
}

/// What is evicted for a new slot that fits the budget is some of the other slots.
pub proof fn lemma_evicted_for(slots: Seq<SlotView>, slot: SlotView, budget: nat)
    requires
        slot.size_bytes <= budget,
    ensures
        ({
            let all = store::replaced(slots, slot);
            &&& budget::sum(store::sizes(all)) <= budget::sum(store::sizes(slots))
                + slot.size_bytes
            &&& budget::sum(store::sizes(store::evicted(all, budget))) <= budget::sum(
                store::sizes(slots),
            )
        }),
{
    let others = store::without(slots, slot.key);
    let all = store::replaced(slots, slot);
    let sizes = store::sizes(all);
    let last = all.len() - 1;
    if store::has_key(slots, slot.key) {
        lemma_without_sum(slots, slot.key);
    }
    lemma_push_sum(others, slot);
    budget::lemma_survives(sizes, budget, last);
    assert(sizes.skip(last) =~= seq![slot.size_bytes]);
    assert(budget::sum(seq![slot.size_bytes]) == slot.size_bytes) by {
        reveal_with_fuel(budget::sum, 2);
    }
    let n = store::overdue(all, budget) as int;
    assert(store::sizes(store::evicted(all, budget)) =~= store::sizes(others).take(n));
    budget::lemma_sum_split(store::sizes(others), n);
}

/// Putting a slot with a new key at the end adds that key and changes no other.
pub proof fn lemma_push(slots: Seq<SlotView>, slot: SlotView)
    requires
        store::distinct_keys(slots),
        !store::has_key(slots, slot.key),
    ensures
        store::distinct_keys(slots.push(slot)),
        store::handle_of(slots.push(slot), slot.key) == Some(slot.handle),
        forall|other: KeyView|
            other != slot.key ==> #[trigger] store::handle_of(slots.push(slot), other)
                == store::handle_of(slots, other),
{
    let longer = slots.push(slot);
    assert(longer[slots.len() as int] == slot);
    assert forall|i: int| 0 <= i < slots.len() implies (#[trigger] longer[i]) == slots[i]
        && longer[i].key != slot.key by {}
    lemma_position(longer, slots.len() as int);
    assert forall|other: KeyView| other != slot.key implies #[trigger] store::handle_of(
        longer,
        other,
    ) == store::handle_of(slots, other) by {
        if store::has_key(slots, other) {
            let i = store::position_of(slots, other);
            assert(longer[i] == slots[i]);
            lemma_position(longer, i);
        }
        if store::has_key(longer, other) {
            let i = store::position_of(longer, other);
            assert(i < slots.len());
            assert(slots[i].key == other);
        }
    }
}

/// What `record` accepts, an immediate `find` on the same key returns.
pub proof fn law_record_then_find(slots: Seq<SlotView>, slot: SlotView, budget: nat)
    requires
        store::distinct_keys(slots),
        slot.size_bytes <= budget,
    ensures
        store::handle_of(store::trimmed(store::replaced(slots, slot), budget), slot.key) == Some(
            slot.handle,
        ),
{
    let all = store::replaced(slots, slot);
    lemma_without(slots, slot.key);
    lemma_push(store::without(slots, slot.key), slot);
    let last = all.len() - 1;
    assert(all[last] == slot);
    let sizes = store::sizes(all);
    budget::lemma_survives(sizes, budget, last);
    assert(sizes.skip(last) =~= seq![slot.size_bytes]);
    assert(budget::sum(seq![slot.size_bytes]) == slot.size_bytes) by {
        reveal_with_fuel(budget::sum, 2);
    }
    let kept = store::trimmed(all, budget);
    law_trimming_keeps_keys_distinct(all, budget);
    assert(kept[kept.len() - 1] == slot);
    lemma_position(kept, kept.len() - 1);
}

/// Recording a slot, using one and evicting all leave at most one slot for each key.
pub proof fn law_keys_stay_distinct(
    slots: Seq<SlotView>,
    slot: SlotView,
    key: KeyView,
    budget: nat,
)
    requires
        store::distinct_keys(slots),
    ensures
        store::distinct_keys(store::replaced(slots, slot)),
        store::distinct_keys(store::touched(slots, key)),
        store::distinct_keys(store::trimmed(slots, budget)),
{
    lemma_without(slots, slot.key);
    lemma_push(store::without(slots, slot.key), slot);
    lemma_without(slots, key);
    if store::has_key(slots, key) {
        lemma_push(store::without(slots, key), slots[store::position_of(slots, key)]);
    }
    law_trimming_keeps_keys_distinct(slots, budget);
}

/// An eviction pass leaves at most one slot for each key.
pub proof fn law_trimming_keeps_keys_distinct(slots: Seq<SlotView>, budget: nat)
    requires
        store::distinct_keys(slots),
    ensures
        store::distinct_keys(store::trimmed(slots, budget)),
{
    budget::lemma_excess(store::sizes(slots), budget);
    let n = store::overdue(slots, budget) as int;
    let kept = store::trimmed(slots, budget);
    assert forall|i: int, j: int| 0 <= i < j < kept.len() implies (#[trigger] kept[i]).key != (
    #[trigger] kept[j]).key by {
        assert(kept[i] == slots[n + i]);
        assert(kept[j] == slots[n + j]);
    }
}

/// `confirm_hit` on a key without a slot changes nothing.
pub proof fn law_confirm_hit_without_slot(slots: Seq<SlotView>, key: KeyView)
    requires
        !store::has_key(slots, key),
    ensures
        store::touched(slots, key) == slots,
{
}

/// `confirm_hit` changes what `find` returns for no key.
pub proof fn law_confirm_hit_then_find(slots: Seq<SlotView>, key: KeyView, other: KeyView)
    requires
        store::distinct_keys(slots),
    ensures
        store::handle_of(store::touched(slots, key), other) == store::handle_of(slots, other),
{
    if store::has_key(slots, key) {
        let p = store::position_of(slots, key);
        lemma_without(slots, key);
        lemma_push(store::without(slots, key), slots[p]);
        lemma_position(slots, p);
    }
}

/// Eviction takes the least recently used slots and no more of them than needed: what goes
/// stands before what stays, what stays fits the budget, and had one slot less gone, the
/// rest would not have fitted.
pub proof fn law_eviction(slots: Seq<SlotView>, budget: nat)
    ensures
        store::evicted(slots, budget) + store::trimmed(slots, budget) == slots,
        budget::sum(store::sizes(store::trimmed(slots, budget))) <= budget,
        forall|m: int|
            0 <= m < store::overdue(slots, budget) ==> budget::sum(
                store::sizes(#[trigger] slots.skip(m)),
            ) > budget,
{
    let sizes = store::sizes(slots);
    let n = store::overdue(slots, budget) as int;
    budget::lemma_excess(sizes, budget);
    assert(slots.take(n) + slots.skip(n) =~= slots);
    assert(store::sizes(slots.skip(n)) =~= sizes.skip(n));
    assert forall|m: int| 0 <= m < n implies budget::sum(store::sizes(#[trigger] slots.skip(m)))
        > budget by {
        assert(store::sizes(slots.skip(m)) =~= sizes.skip(m));
    }
}

/// A slot survives an eviction pass exactly when it fits the budget together with every slot
/// that was used after it.
pub proof fn law_survival(slots: Seq<SlotView>, budget: nat, i: int)
    requires
        store::distinct_keys(slots),
        0 <= i < slots.len(),
    ensures
        store::has_key(store::trimmed(slots, budget), slots[i].key) <==> budget::sum(
            store::sizes(slots.skip(i)),
        ) <= budget,
{
    let sizes = store::sizes(slots);
    let n = store::overdue(slots, budget) as int;
    let kept = store::trimmed(slots, budget);
    budget::lemma_excess(sizes, budget);
    budget::lemma_survives(sizes, budget, i);
    assert(store::sizes(slots.skip(i)) =~= sizes.skip(i));
    if n <= i {
        assert(kept[i - n] == slots[i]);
    }
    if store::has_key(kept, slots[i].key) {
        let j = store::position_of(kept, slots[i].key);
        assert(kept[j] == slots[n + j]);
    }
}

/// A slot that survives an eviction pass keeps its handle.
pub proof fn law_survivors_keep_their_handles(slots: Seq<SlotView>, budget: nat, key: KeyView)
    requires
        store::distinct_keys(slots),
        store::has_key(store::trimmed(slots, budget), key),
    ensures
        store::handle_of(store::trimmed(slots, budget), key) == store::handle_of(slots, key),
{
    let n = store::overdue(slots, budget) as int;
    let kept = store::trimmed(slots, budget);
    budget::lemma_excess(store::sizes(slots), budget);
    law_trimming_keeps_keys_distinct(slots, budget);
    let j = store::position_of(kept, key);
    assert(kept[j] == slots[n + j]);
    lemma_position(slots, n + j);
}

/// The slot used last is evicted last: after `confirm_hit` on a recorded key, an eviction
/// pass that removes its slot removes every other one too.
pub proof fn law_used_last_is_evicted_last(slots: Seq<SlotView>, key: KeyView, budget: nat)
    requires
        store::distinct_keys(slots),
        store::has_key(slots, key),
        !store::has_key(store::trimmed(store::touched(slots, key), budget), key),
    ensures
        store::trimmed(store::touched(slots, key), budget) == Seq::<SlotView>::empty(),
{
    let p = store::position_of(slots, key);
    let after = store::touched(slots, key);
    let kept = store::trimmed(after, budget);
    assert(after.last() == slots[p] && slots[p].key == key);
    budget::lemma_excess(store::sizes(after), budget);
    if kept.len() > 0 {
        assert(kept[kept.len() - 1] == after.last());
    }
}

/// A pass over slots that fit the budget removes nothing; so does a second pass.
pub proof fn law_eviction_is_idempotent(slots: Seq<SlotView>, budget: nat)
    ensures
        store::overdue(slots, budget) == 0 <==> budget::sum(store::sizes(slots)) <= budget,
        store::overdue(store::trimmed(slots, budget), budget) == 0,
        store::trimmed(store::trimmed(slots, budget), budget) == store::trimmed(slots, budget),
{
    let kept = store::trimmed(slots, budget);
    budget::lemma_no_excess(store::sizes(slots), budget);
    law_eviction(slots, budget);
    budget::lemma_no_excess(store::sizes(kept), budget);
    assert(kept.skip(0) =~= kept);
}

/// Using a slot does not change the total.
pub proof fn law_use_keeps_the_total(slots: Seq<SlotView>, key: KeyView)
    ensures
        budget::sum(store::sizes(store::touched(slots, key))) == budget::sum(
            store::sizes(slots),
        ),
{
    if store::has_key(slots, key) {
        lemma_without_sum(slots, key);
        lemma_push_sum(store::without(slots, key), slots[store::position_of(slots, key)]);
    }
}

/// Recording under one key takes no other key's handle for another: each keeps its own, or
/// is evicted.
pub proof fn law_record_keeps_other_handles(
    slots: Seq<SlotView>,
    slot: SlotView,
    budget: nat,
    other: KeyView,
)
    requires
        store::distinct_keys(slots),
        other != slot.key,
    ensures
        ({
            let after = store::trimmed(store::replaced(slots, slot), budget);
            store::has_key(after, other) ==> store::handle_of(after, other) == store::handle_of(
                slots,
                other,
            )
        }),
{
    let all = store::replaced(slots, slot);
    let after = store::trimmed(all, budget);
    lemma_without(slots, slot.key);
    lemma_push(store::without(slots, slot.key), slot);
    if store::has_key(after, other) {
        law_survivors_keep_their_handles(all, budget, other);
        assert(store::handle_of(all, other) == store::handle_of(slots, other));
    }
}

/// In a store with nothing recorded, `find` finds nothing and eviction removes nothing.
pub proof fn law_empty_store(key: KeyView, budget: nat)
    ensures
        store::handle_of(Seq::empty(), key) is None,
        store::overdue(Seq::empty(), budget) == 0,
        store::trimmed(Seq::empty(), budget) == Seq::<SlotView>::empty(),
{
    let none = Seq::<SlotView>::empty();
    assert(store::sizes(none) =~= Seq::<nat>::empty());
    assert(none.skip(0) =~= none);
}

} // verus!

//! The calls of a store as values, and what a store answers to them.
use vstd::prelude::*;

use crate::budget;
use crate::store;
use crate::store::{KvCacheStore, SlotView};
use crate::store_laws;
use crate::types::{
    CacheHandle, CacheKey, CacheMeta, ErrorView, EvictionReport, KeyView, KvCacheError,
};

verus! {

/// A call of a store.
#[derive(Debug)]
pub enum Call {
    Find { key: CacheKey },
    ConfirmHit { key: CacheKey },
    Record { key: CacheKey, handle: CacheHandle, meta: CacheMeta },
    EvictToBudget,
}

/// What a [`Call`] says.
#[verifier::ext_equal]
pub enum CallView {
    Find { key: KeyView },
    ConfirmHit { key: KeyView },
    Record { key: KeyView, handle: Seq<char>, size_bytes: nat, token_count: nat },
    EvictToBudget,
}

impl View for Call {
    type V = CallView;

    open spec fn view(&self) -> CallView {
        match self {
            Call::Find { key } => CallView::Find { key: key@ },
            Call::ConfirmHit { key } => CallView::ConfirmHit { key: key@ },
            Call::Record { key, handle, meta } => CallView::Record {
                key: key@,
                handle: handle@,
                size_bytes: meta.size_bytes as nat,
                token_count: meta.token_count as nat,
            },
            Call::EvictToBudget => CallView::EvictToBudget,
        }
    }
}

/// What a store answered.
#[derive(Debug)]
pub enum Answer {
    /// What a lookup found.
    Found(Option<CacheHandle>),
    /// A hit was confirmed, or a slot recorded.
    Done,
    /// What an eviction pass removed.
    Evicted(EvictionReport),
    Failed(KvCacheError),
}

/// What an [`Answer`] says.
#[verifier::ext_equal]
pub enum AnswerView {
    Found { handle: Option<Seq<char>> },
    Done,
    Evicted { evicted_count: nat, bytes_freed: nat },
    Failed { error: ErrorView },
}

impl View for Answer {
    type V = AnswerView;

    open spec fn view(&self) -> AnswerView {
        match self {
            Answer::Found(Some(handle)) => AnswerView::Found { handle: Some(handle@) },
            Answer::Found(None) => AnswerView::Found { handle: None },
            Answer::Done => AnswerView::Done,
            Answer::Evicted(report) => AnswerView::Evicted {
                evicted_count: report.evicted_count as nat,
                bytes_freed: report.bytes_freed as nat,
            },
            Answer::Failed(error) => AnswerView::Failed { error: error@ },
        }
    }
}

/// The slots of a store after `call`.
pub open spec fn slots_after(slots: Seq<SlotView>, budget: nat, call: CallView) -> Seq<SlotView> {
    match call {
        CallView::Find { .. } => slots,
        CallView::ConfirmHit { key } => store::touched(slots, key),
        CallView::Record { key, handle, size_bytes, .. } => if size_bytes <= budget {
            store::trimmed(store::replaced(slots, SlotView { key, handle, size_bytes }), budget)
        } else {
            slots
        },
        CallView::EvictToBudget => store::trimmed(slots, budget),
    }
}

/// What a store whose backend does not fail answers to `call`.
pub open spec fn answer_to(slots: Seq<SlotView>, budget: nat, call: CallView) -> AnswerView {
    match call {
        CallView::Find { key } => AnswerView::Found { handle: store::handle_of(slots, key) },
        CallView::ConfirmHit { .. } => AnswerView::Done,
        CallView::Record { size_bytes, .. } => if size_bytes <= budget {
            AnswerView::Done
        } else {
            AnswerView::Failed {
                error: ErrorView::SlotExceedsBudget { size_bytes, max_bytes: budget },
            }
        },
        CallView::EvictToBudget => {
            let gone = store::evicted(slots, budget);
            AnswerView::Evicted {
                evicted_count: gone.len(),
                bytes_freed: budget::sum(store::sizes(gone)),
            }
        },
    }
}

/// Whether `call` counts as a use.
pub open spec fn is_use(call: CallView, budget: nat) -> bool {
    match call {
        CallView::ConfirmHit { .. } => true,
        CallView::Record { size_bytes, .. } => size_bytes <= budget,
        _ => false,
    }
}

/// The slots of a store after `calls`, one at a time.
pub open spec fn slots_after_all(
    slots: Seq<SlotView>,
    budget: nat,
    calls: Seq<CallView>,
) -> Seq<SlotView>
    decreases calls.len(),
{
    if calls.len() == 0 {
        slots
    } else {
        slots_after(slots_after_all(slots, budget, calls.drop_last()), budget, calls.last())
    }
}

/// What a store whose backend does not fail answers to `calls`, one at a time.
pub open spec fn answers_to_all(
    slots: Seq<SlotView>,
    budget: nat,
    calls: Seq<CallView>,
) -> Seq<AnswerView>
    decreases calls.len(),
{
    if calls.len() == 0 {
        seq![]
    } else {
        let before = slots_after_all(slots, budget, calls.drop_last());
        answers_to_all(slots, budget, calls.drop_last()).push(
            answer_to(before, budget, calls.last()),
        )
    }
}

/// The answers to the first calls do not depend on the later ones.
pub proof fn lemma_answers_so_far(
    slots: Seq<SlotView>,
    budget: nat,
    calls: Seq<CallView>,
    n: nat,
)
    requires
        n <= calls.len(),
    ensures
        answers_to_all(slots, budget, calls).len() == calls.len(),
        answers_to_all(slots, budget, calls).take(n as int) == answers_to_all(
            slots,
            budget,
            calls.take(n as int),
        ),
    decreases calls.len(),
{
    if n == calls.len() {
        assert(calls.take(n as int) =~= calls);
        if n > 0 {
            lemma_answers_so_far(slots, budget, calls.drop_last(), 0);
        }
        assert(answers_to_all(slots, budget, calls).take(n as int) =~= answers_to_all(
            slots,
            budget,
            calls,
        ));
    } else {
        let fewer = calls.drop_last();
        lemma_answers_so_far(slots, budget, fewer, n);
        assert(fewer.take(n as int) =~= calls.take(n as int));
        assert(answers_to_all(slots, budget, calls).take(n as int) =~= answers_to_all(
            slots,
            budget,
            fewer,
        ).take(n as int));
    }
}

/// What a run of calls says.
pub open spec fn calls_view(calls: Seq<Call>) -> Seq<CallView> {
    calls.map_values(|call: Call| call@)
}

/// What a run of answers says.
pub open spec fn answers_view(answers: Seq<Answer>) -> Seq<AnswerView> {
    answers.map_values(|answer: Answer| answer@)
}

/// Makes a call of a store and returns its answer.
pub fn make_call<S: KvCacheStore>(store: &mut S, call: &Call) -> (answer: Answer)
    requires
        old(store).valid(),
        is_use(call@, old(store).budget()) ==> old(store).uses_left() > 0,
    ensures
        final(store).valid(),
        final(store).budget() == old(store).budget(),
        final(store).dependable() == old(store).dependable(),
        final(store).uses_left() + 1 >= old(store).uses_left(),
        !is_use(call@, old(store).budget()) ==> final(store).uses_left() >= old(
            store,
        ).uses_left(),
        ({
            ||| answer@ == answer_to(old(store).slots(), old(store).budget(), call@)
                && final(store).slots() == slots_after(
                old(store).slots(),
                old(store).budget(),
                call@,
            )
            ||| answer matches Answer::Failed(KvCacheError::Backend(_)) && !old(
                store,
            ).dependable()
        }),
{
    match call {
        Call::Find { key } => match store.find(key) {
            Ok(handle) => Answer::Found(handle),
            Err(e) => Answer::Failed(e),
        },
        Call::ConfirmHit { key } => match store.confirm_hit(key) {
            Ok(()) => Answer::Done,
            Err(e) => Answer::Failed(e),
        },
        Call::Record { key, handle, meta } => match store.record(key, handle.clone(), *meta) {
            Ok(()) => Answer::Done,
            Err(e) => Answer::Failed(e),
        },
        Call::EvictToBudget => match store.evict_to_budget() {
            Ok(report) => Answer::Evicted(report),
            Err(e) => Answer::Failed(e),
        },
    }
}

/// Makes calls of a dependable store, one at a time, and returns its answers.
pub fn make_calls<S: KvCacheStore>(store: &mut S, calls: &Vec<Call>) -> (answers: Vec<Answer>)
    requires
        old(store).valid(),
        old(store).dependable(),
        old(store).uses_left() >= calls.len(),
    ensures
        final(store).valid(),
        final(store).dependable(),
        final(store).budget() == old(store).budget(),
        final(store).uses_left() + calls.len() >= old(store).uses_left(),
        final(store).slots() == slots_after_all(
            old(store).slots(),
            old(store).budget(),
            calls_view(calls@),
        ),
        answers_view(answers@) == answers_to_all(
            old(store).slots(),
            old(store).budget(),
            calls_view(calls@),
        ),
{
    let ghost slots = store.slots();
    let ghost budget = store.budget();
    let ghost all = calls_view(calls@);
    let mut answers: Vec<Answer> = Vec::new();
    let mut i: usize = 0;
    assert(all.take(0) =~= Seq::<CallView>::empty());
    assert(answers_view(answers@) =~= Seq::<AnswerView>::empty());
    while i < calls.len()
        invariant
            i <= calls.len(),
            all == calls_view(calls@),
            store.valid(),
            store.dependable(),
            store.budget() == budget,
            budget == old(store).budget(),
            store.uses_left() + i >= old(store).uses_left(),
            old(store).uses_left() >= calls.len(),
            store.slots() == slots_after_all(slots, budget, all.take(i as int)),
            answers_view(answers@) == answers_to_all(slots, budget, all.take(i as int)),
        decreases calls.len() - i,
    {
        let ghost so_far = answers@;
        let answer = make_call(store, &calls[i]);
        answers.push(answer);
        proof {
            assert(all[i as int] == calls[i as int]@);
            assert(all.take(i + 1).drop_last() =~= all.take(i as int));
            assert(all.take(i + 1).last() == all[i as int]);
            assert(answers_view(answers@) =~= answers_view(so_far).push(answer@));
        }
        i = i + 1;
    }
    assert(all.take(i as int) =~= all);
    answers
}

/// The calls among `calls` that are no lookups.
pub open spec fn without_lookups(calls: Seq<CallView>) -> Seq<CallView>
    decreases calls.len(),
{
    if calls.len() == 0 {
        seq![]
    } else if calls.last() is Find {
        without_lookups(calls.drop_last())
    } else {
        without_lookups(calls.drop_last()).push(calls.last())
    }
}

/// The answers to the calls among `calls` that are no lookups.
pub open spec fn other_answers(calls: Seq<CallView>, answers: Seq<AnswerView>) -> Seq<AnswerView>
    recommends
        calls.len() == answers.len(),
    decreases calls.len(),
{
    if calls.len() == 0 {
        seq![]
    } else if calls.last() is Find {
        other_answers(calls.drop_last(), answers.drop_last())
    } else {
        other_answers(calls.drop_last(), answers.drop_last()).push(answers.last())
    }
}

/// Lookups leave no trace: without them, a run of calls leads to the same slots, and every
/// other call has the same answer. So a lookup never saves a slot from eviction.
pub proof fn law_lookups_leave_no_trace(slots: Seq<SlotView>, budget: nat, calls: Seq<CallView>)
    ensures
        slots_after_all(slots, budget, without_lookups(calls)) == slots_after_all(
            slots,
            budget,
            calls,
        ),
        answers_to_all(slots, budget, without_lookups(calls)) == other_answers(
            calls,
            answers_to_all(slots, budget, calls),
        ),
    decreases calls.len(),
{
    if calls.len() > 0 {
        let fewer = calls.drop_last();
        law_lookups_leave_no_trace(slots, budget, fewer);
        assert(answers_to_all(slots, budget, calls).drop_last() =~= answers_to_all(
            slots,
            budget,
            fewer,
        ));
        if !(calls.last() is Find) {
            let kept = without_lookups(calls);
            assert(kept.drop_last() =~= without_lookups(fewer));
        }
    }
}

/// A store is deterministic: of two stores with the same slots and the same budget, as two
/// new ones are, the same calls get the same answers and leave the same slots. Neither time
/// nor the layout of memory has a say.
pub proof fn law_same_calls_same_answers<S: KvCacheStore, T: KvCacheStore>(
    first: S,
    second: T,
    calls: Seq<Call>,
    first_answers: Seq<Answer>,
    second_answers: Seq<Answer>,
)
    requires
        first.slots() == second.slots(),
        first.budget() == second.budget(),
        answers_view(first_answers) == answers_to_all(
            first.slots(),
            first.budget(),
            calls_view(calls),
        ),
        answers_view(second_answers) == answers_to_all(
            second.slots(),
            second.budget(),
            calls_view(calls),
        ),
    ensures
        answers_view(first_answers) == answers_view(second_answers),
        slots_after_all(first.slots(), first.budget(), calls_view(calls)) == slots_after_all(
            second.slots(),
            second.budget(),
            calls_view(calls),
        ),
{
}

/// Between calls a store is within its budget: after any calls of a store that was within it,
/// as a new one is, an eviction pass removes nothing, and every lookup is as before.
pub proof fn law_nothing_is_left_to_evict(slots: Seq<SlotView>, budget: nat, calls: Seq<CallView>)
    requires
        budget::sum(store::sizes(slots)) <= budget,
    ensures
        ({
            let now = slots_after_all(slots, budget, calls);
            &&& budget::sum(store::sizes(now)) <= budget
            &&& answer_to(now, budget, CallView::EvictToBudget) == (AnswerView::Evicted {
                evicted_count: 0,
                bytes_freed: 0,
            })
            &&& slots_after(now, budget, CallView::EvictToBudget) == now
        }),
    decreases calls.len(),
{
    let now = slots_after_all(slots, budget, calls);
    if calls.len() > 0 {
        let before = slots_after_all(slots, budget, calls.drop_last());
        law_nothing_is_left_to_evict(slots, budget, calls.drop_last());
        match calls.last() {
            CallView::Find { .. } => {},
            CallView::ConfirmHit { key } => {
                store_laws::law_use_keeps_the_total(before, key);
            },
            CallView::Record { key, handle, size_bytes, .. } => {
                store_laws::law_eviction(
                    store::replaced(before, SlotView { key, handle, size_bytes }),
                    budget,
                );
            },
            CallView::EvictToBudget => {},
        }
    }
    store_laws::law_eviction_is_idempotent(now, budget);
    assert(now.skip(0) =~= now);
    assert(store::sizes(store::evicted(now, budget)) =~= Seq::<nat>::empty());
}

/// The answers of a store and its slots belong together, call by call: a lookup answers with
/// what was recorded last under its key and changes nothing; a hit on a key without a slot
/// changes nothing either; a record that fits is found at once, and one that does not is
/// refused with both sizes and leaves no trace; an eviction pass reports as many slots and
/// bytes as have gone, and afterwards the rest are within the budget.
pub proof fn law_answers_tell_what_happened(
    slots: Seq<SlotView>,
    budget: nat,
    key: KeyView,
    handle: Seq<char>,
    size_bytes: nat,
    token_count: nat,
)
    requires
        store::distinct_keys(slots),
    ensures
        ({
            let find = CallView::Find { key };
            let confirm_hit = CallView::ConfirmHit { key };
            let record = CallView::Record { key, handle, size_bytes, token_count };
            let evict = CallView::EvictToBudget;
            let recorded = slots_after(slots, budget, record);
            let left = slots_after(slots, budget, evict);
            &&& slots_after(slots, budget, find) == slots
            &&& forall|i: int|
                0 <= i < slots.len() && (#[trigger] slots[i]).key == key ==> answer_to(
                    slots,
                    budget,
                    find,
                ) == (AnswerView::Found { handle: Some(slots[i].handle) })
            &&& (forall|i: int| 0 <= i < slots.len() ==> (#[trigger] slots[i]).key != key) ==> {
                &&& answer_to(slots, budget, find) == (AnswerView::Found { handle: None })
                &&& slots_after(slots, budget, confirm_hit) == slots
            }
            &&& answer_to(slots, budget, confirm_hit) == AnswerView::Done
            &&& answer_to(slots_after(slots, budget, confirm_hit), budget, find) == answer_to(
                slots,
                budget,
                find,
            )
            &&& size_bytes <= budget ==> {
                &&& answer_to(slots, budget, record) == AnswerView::Done
                &&& answer_to(recorded, budget, find) == (AnswerView::Found {
                    handle: Some(handle),
                })
            }
            &&& size_bytes > budget ==> {
                &&& answer_to(slots, budget, record) == (AnswerView::Failed {
                    error: ErrorView::SlotExceedsBudget { size_bytes, max_bytes: budget },
                })
                &&& recorded == slots
            }
            &&& answer_to(slots, budget, evict) == (AnswerView::Evicted {
                evicted_count: (slots.len() - left.len()) as nat,
                bytes_freed: (budget::sum(store::sizes(slots)) - budget::sum(
                    store::sizes(left),
                )) as nat,
            })
            &&& left == slots.skip(slots.len() - left.len())
            &&& budget::sum(store::sizes(left)) <= budget
        }),
{
    assert forall|i: int| 0 <= i < slots.len() && (#[trigger] slots[i]).key == key implies answer_to(
        slots,
        budget,
        CallView::Find { key },
    ) == (AnswerView::Found { handle: Some(slots[i].handle) }) by {
        store_laws::lemma_position(slots, i);
    }
    store_laws::law_confirm_hit_then_find(slots, key, key);
    if size_bytes <= budget {
        store_laws::law_record_then_find(slots, SlotView { key, handle, size_bytes }, budget);
    }
    store_laws::law_eviction(slots, budget);
    let sizes = store::sizes(slots);
    let n = store::overdue(slots, budget) as int;
    budget::lemma_excess(sizes, budget);
    budget::lemma_sum_split(sizes, n);
    assert(store::sizes(store::evicted(slots, budget)) =~= sizes.take(n));
    assert(store::sizes(store::trimmed(slots, budget)) =~= sizes.skip(n));
}

} // verus!

//! A run through the behavior that every store shares.
use vstd::prelude::*;

use crate::budget;
use crate::calls;
use crate::calls::{make_call, Answer, AnswerView, Call, CallView};
use crate::store;
use crate::store::{KvCacheStore, SlotView};
use crate::store_laws;
use crate::types::{CacheHandle, CacheKey, CacheMeta, KeyView, KvCacheError};

verus! {

/// The keys of the run, told apart by their prefix.
pub open spec fn sample_key(prefix: Seq<char>) -> KeyView {
    KeyView {
        backend_id: "llama-server"@,
        model_id: "qwen3.5"@,
        build_hash: "b1"@,
        prefix_hash: prefix,
    }
}

/// Makes a key of the run.
pub fn key(prefix: &str) -> (key: CacheKey)
    ensures
        key@ == sample_key(prefix@),
{
    CacheKey {
        backend_id: "llama-server".to_owned(),
        model_id: "qwen3.5".to_owned(),
        build_hash: "b1".to_owned(),
        prefix_hash: prefix.to_owned(),
    }
}

/// A slot of the run.
pub open spec fn sample_slot(prefix: Seq<char>, handle: Seq<char>, size_bytes: nat) -> SlotView {
    SlotView { key: sample_key(prefix), handle, size_bytes }
}

/// How many calls the run makes.
pub open spec fn probes() -> int {
    12
}

/// The call of the run that comes at `step`, for a budget of `max_bytes`.
pub open spec fn probe_at(step: int, max_bytes: nat) -> CallView {
    let find = |prefix: Seq<char>| CallView::Find { key: sample_key(prefix) };
    let record = |prefix: Seq<char>, handle: Seq<char>, size_bytes: nat, token_count: nat|
        CallView::Record { key: sample_key(prefix), handle, size_bytes, token_count };
    let confirm_hit = |prefix: Seq<char>| CallView::ConfirmHit { key: sample_key(prefix) };
    if step == 0 {
        find("p1"@)
    } else if step == 1 {
        CallView::EvictToBudget
    } else if step == 2 {
        confirm_hit("p1"@)
    } else if step == 3 {
        record("p1"@, "p1.slot"@, 100, 10)
    } else if step == 4 {
        find("p1"@)
    } else if step == 5 {
        record("too-big"@, "too-big.slot"@, max_bytes + 1, 1)
    } else if step == 6 {
        find("too-big"@)
    } else if step == 7 {
        confirm_hit("p1"@)
    } else if step == 8 {
        record("p2"@, "p2.slot"@, 100, 1)
    } else if step == 9 {
        record("p3"@, "p3.slot"@, max_bytes, 1)
    } else if step == 10 {
        find("p3"@)
    } else {
        find("p2"@)
    }
}

/// Whether `answer` is what a store should answer at `step`.
pub open spec fn accepted_at(step: int, answer: AnswerView) -> bool {
    if step == 0 || step == 6 || step == 11 {
        answer == (AnswerView::Found { handle: None })
    } else if step == 1 {
        answer == (AnswerView::Evicted { evicted_count: 0, bytes_freed: 0 })
    } else if step == 4 {
        answer == (AnswerView::Found { handle: Some("p1.slot"@) })
    } else if step == 5 {
        answer matches AnswerView::Failed { error } && error is SlotExceedsBudget
    } else if step == 10 {
        answer matches AnswerView::Found { handle } && handle is Some
    } else {
        answer == AnswerView::Done
    }
}

/// The call of the run that comes at `step`, for a budget of `max_bytes`; nothing after the
/// last.
pub fn probe(step: usize, max_bytes: u64) -> (call: Option<Call>)
    requires
        max_bytes < u64::MAX,
    ensures
        match call {
            Some(call) => step < probes() && call@ == probe_at(step as int, max_bytes as nat),
            None => step >= probes(),
        },
{
    // Nothing recorded yet: nothing is found, there is nothing to evict, and a hit on a key
    // without a slot is no error.
    if step == 0 {
        Some(Call::Find { key: key("p1") })
    } else if step == 1 {
        Some(Call::EvictToBudget)
    } else if step == 2 {
        Some(Call::ConfirmHit { key: key("p1") })
    } else if step == 3 {
        // What was recorded is found.
        Some(record("p1", "p1.slot", 100, 10))
    } else if step == 4 {
        Some(Call::Find { key: key("p1") })
    } else if step == 5 {
        // A slot that alone exceeds the budget is refused, and nothing of it is recorded.
        Some(record("too-big", "too-big.slot", max_bytes + 1, 1))
    } else if step == 6 {
        Some(Call::Find { key: key("too-big") })
    } else if step == 7 {
        // Once the budget is exceeded, the least recently used slots go first.
        Some(Call::ConfirmHit { key: key("p1") })
    } else if step == 8 {
        Some(record("p2", "p2.slot", 100, 1))
    } else if step == 9 {
        Some(record("p3", "p3.slot", max_bytes, 1))
    } else if step == 10 {
        Some(Call::Find { key: key("p3") })
    } else if step == 11 {
        Some(Call::Find { key: key("p2") })
    } else {
        None
    }
}

/// Makes a call of `record`.
fn record(prefix: &str, handle: &str, size_bytes: u64, token_count: u64) -> (call: Call)
    ensures
        call@ == (CallView::Record {
            key: sample_key(prefix@),
            handle: handle@,
            size_bytes: size_bytes as nat,
            token_count: token_count as nat,
        }),
{
    Call::Record {
        key: key(prefix),
        handle: CacheHandle::new(handle),
        meta: CacheMeta { size_bytes, token_count },
    }
}

/// Whether `answer` is what a store should answer at `step`.
pub fn accepts(step: usize, answer: &Answer) -> (ok: bool)
    ensures
        ok == accepted_at(step as int, answer@),
{
    match answer {
        Answer::Found(None) => step == 0 || step == 6 || step == 11,
        Answer::Found(Some(handle)) => if step == 4 {
            handle.same_as(&CacheHandle::new("p1.slot"))
        } else {
            step == 10
        },
        Answer::Done => step == 2 || step == 3 || step >= 7 && step != 10 && step != 11,
        Answer::Evicted(report) => step == 1 && report.evicted_count == 0 && report.bytes_freed
            == 0,
        Answer::Failed(KvCacheError::SlotExceedsBudget { .. }) => step == 5,
        Answer::Failed(KvCacheError::Backend(_)) => false,
    }
}

/// All calls of the run, in order.
pub open spec fn script(max_bytes: nat) -> Seq<CallView> {
    Seq::new(probes() as nat, |step: int| probe_at(step, max_bytes))
}

/// Makes the calls of the run on an empty store with a budget of `max_bytes` and returns its
/// answers. An answer that the run does not accept is the last: of a store that keeps the
/// contract, only a failure of the backend can be one.
pub fn run_probes<S: KvCacheStore>(store: &mut S, max_bytes: u64) -> (answers: Vec<Answer>)
    requires
        old(store).valid(),
        old(store).slots() == Seq::<SlotView>::empty(),
        old(store).budget() == max_bytes,
        old(store).uses_left() >= 5,
        100 <= max_bytes < u64::MAX,
    ensures
        final(store).valid(),
        final(store).budget() == old(store).budget(),
        final(store).dependable() == old(store).dependable(),
        ({
            let all = calls::answers_to_all(
                Seq::empty(),
                max_bytes as nat,
                script(max_bytes as nat),
            );
            ||| {
                &&& calls::answers_view(answers@) == all
                &&& final(store).slots() == calls::slots_after_all(
                    Seq::empty(),
                    max_bytes as nat,
                    script(max_bytes as nat),
                )
            }
            ||| {
                &&& !old(store).dependable()
                &&& 0 < answers.len() <= probes()
                &&& answers@.last() matches Answer::Failed(KvCacheError::Backend(_))
                &&& calls::answers_view(answers@.drop_last()) == all.take(answers.len() - 1)
            }
        }),
{
    let ghost budget = max_bytes as nat;
    let ghost all = script(budget);
    let ghost none = Seq::<SlotView>::empty();
    let mut answers: Vec<Answer> = Vec::new();
    let mut step: usize = 0;
    assert(all.take(0) =~= Seq::<CallView>::empty());
    assert(calls::answers_view(answers@) =~= Seq::<AnswerView>::empty());
    loop
        invariant
            step <= probes(),
            100 <= max_bytes < u64::MAX,
            budget == max_bytes,
            all == script(budget),
            none == Seq::<SlotView>::empty(),
            store.valid(),
            store.budget() == budget,
            old(store).budget() == budget,
            store.dependable() == old(store).dependable(),
            store.uses_left() >= uses_from(step as int),
            store.slots() == slots_before(step as int, budget),
            store.slots() == calls::slots_after_all(none, budget, all.take(step as int)),
            calls::answers_view(answers@) == calls::answers_to_all(
                none,
                budget,
                all.take(step as int),
            ),
        decreases probes() - step,
    {
        let ghost so_far = answers@;
        let call = match probe(step, max_bytes) {
            Some(call) => call,
            None => {
                assert(all.take(step as int) =~= all);
                return answers;
            },
        };
        proof {
            lemma_step(step as int, budget);
            assert(all.take(step + 1).drop_last() =~= all.take(step as int));
            assert(all.take(step + 1).last() == call@);
        }
        let answer = make_call(store, &call);
        let accepted = accepts(step, &answer);
        answers.push(answer);
        proof {
            assert(answers@.drop_last() =~= so_far);
            assert(calls::answers_view(answers@) =~= calls::answers_view(so_far).push(answer@));
        }
        if !accepted {
            proof {
                calls::lemma_answers_so_far(none, budget, all, step as nat);
                assert(calls::answers_view(so_far).len() == so_far.len());
            }
            return answers;
        }
        step = step + 1;
    }
}

/// Whether answers are those of a whole run, each as it should be.
pub open spec fn all_accepted(answers: Seq<AnswerView>) -> bool {
    &&& answers.len() == probes()
    &&& forall|step: int| 0 <= step < probes() ==> accepted_at(step, #[trigger] answers[step])
}

/// Judges the answers of any store to the run.
pub fn judge(answers: &Vec<Answer>) -> (ok: bool)
    ensures
        ok == all_accepted(calls::answers_view(answers@)),
{
    let ghost all = calls::answers_view(answers@);
    if answers.len() != 12 {
        return false;
    }
    let mut step: usize = 0;
    while step < 12
        invariant
            step <= 12,
            answers.len() == 12,
            all == calls::answers_view(answers@),
            forall|i: int| 0 <= i < step ==> accepted_at(i, #[trigger] all[i]),
        decreases 12 - step,
    {
        assert(all[step as int] == answers[step as int]@);
        if !accepts(step, &answers[step]) {
            return false;
        }
        step = step + 1;
    }
    true
}

/// A store that keeps the contract and whose backend does not fail passes: each of its answers
/// to the run is accepted, and of the run's slots it keeps the last.
pub proof fn law_contract_passes(max_bytes: nat)
    requires
        100 <= max_bytes,
    ensures
        all_accepted(calls::answers_to_all(Seq::empty(), max_bytes, script(max_bytes))),
        calls::slots_after_all(Seq::empty(), max_bytes, script(max_bytes)) == seq![
            sample_slot("p3"@, "p3.slot"@, max_bytes),
        ],
{
    lemma_run(max_bytes, probes());
    assert(script(max_bytes).take(probes()) =~= script(max_bytes));
}

/// What the run tries out, for every budget: a lookup, an eviction pass and a hit before
/// anything is recorded; a record and a lookup under one key; a record of a slot larger than
/// the budget and a lookup under another; then a hit on the first, a record under a third key
/// and one of the size of the budget under a fourth, and lookups of these two.
pub proof fn law_run_covers_the_contract(max_bytes: nat, first: KeyView, large: KeyView)
    requires
        script(max_bytes)[0] == (CallView::Find { key: first }),
        script(max_bytes)[6] == (CallView::Find { key: large }),
    ensures
        ({
            let calls = script(max_bytes);
            &&& calls.len() == 12
            &&& calls[1] is EvictToBudget
            &&& calls[2] == (CallView::ConfirmHit { key: first })
            &&& calls[3] is Record && calls[3]->Record_key == first
            &&& calls[4] == (CallView::Find { key: first })
            &&& calls[5] is Record && calls[5]->Record_key == large && calls[5]->size_bytes
                > max_bytes
            &&& calls[7] == (CallView::ConfirmHit { key: first })
            &&& calls[8] is Record && calls[11] == (CallView::Find { key: calls[8]->Record_key })
            &&& calls[9] is Record && calls[10] == (CallView::Find { key: calls[9]->Record_key })
            &&& calls[9]->size_bytes == max_bytes
            &&& calls[3]->size_bytes > 0 && calls[8]->size_bytes > 0
            &&& first != large
            &&& calls[8]->Record_key != first
            &&& calls[9]->Record_key != first
            &&& calls[9]->Record_key != calls[8]->Record_key
        }),
{
    lemma_keys_differ();
}

/// Only the answers of a store that keeps the contract pass: at every step the accepted answer
/// is the one that follows from the calls before. Of a refusal the run asks only that it is
/// one, and of the last record only that it is found.
pub proof fn law_only_right_answers_pass(max_bytes: nat, step: int, answer: AnswerView)
    requires
        100 <= max_bytes,
        0 <= step < probes(),
    ensures
        ({
            let before = calls::slots_after_all(
                Seq::empty(),
                max_bytes,
                script(max_bytes).take(step),
            );
            let right = calls::answer_to(before, max_bytes, script(max_bytes)[step]);
            &&& accepted_at(step, right)
            &&& accepted_at(step, answer) ==> {
                ||| answer == right
                ||| step == 5 && (answer matches AnswerView::Failed { error } && error
                    is SlotExceedsBudget)
                ||| step == 10 && (answer matches AnswerView::Found { handle } && handle is Some)
            }
        }),
{
    lemma_run(max_bytes, step);
    lemma_step(step, max_bytes);
}

proof fn lemma_run(budget: nat, upto: int)
    requires
        100 <= budget,
        0 <= upto <= probes(),
    ensures
        ({
            let calls = script(budget).take(upto);
            let answers = calls::answers_to_all(Seq::empty(), budget, calls);
            &&& calls::slots_after_all(Seq::empty(), budget, calls) == slots_before(upto, budget)
            &&& answers.len() == upto
            &&& forall|step: int| 0 <= step < upto ==> accepted_at(step, #[trigger] answers[step])
        }),
    decreases upto,
{
    let calls = script(budget).take(upto);
    if upto > 0 {
        lemma_run(budget, upto - 1);
        lemma_step(upto - 1, budget);
        assert(calls.drop_last() =~= script(budget).take(upto - 1));
        assert(calls.last() == probe_at(upto - 1, budget));
    }
}

/// Takes an empty store with a budget of `max_bytes` through the run and says whether it
/// answered each call as it should. A failure of the backend ends the run.
pub fn assert_conformance<S: KvCacheStore>(store: &mut S, max_bytes: u64) -> (passed: Result<
    bool,
    KvCacheError,
>)
    requires
        old(store).valid(),
        old(store).slots() == Seq::<SlotView>::empty(),
        old(store).budget() == max_bytes,
        old(store).uses_left() >= 5,
        100 <= max_bytes < u64::MAX,
    ensures
        final(store).valid(),
        final(store).budget() == old(store).budget(),
        final(store).dependable() == old(store).dependable(),
        match passed {
            Ok(passed) => {
                &&& passed
                &&& final(store).slots() == seq![
                    sample_slot("p3"@, "p3.slot"@, max_bytes as nat),
                ]
            },
            Err(e) => e is Backend && !old(store).dependable(),
        },
{
    let mut answers = run_probes(store, max_bytes);
    proof {
        law_contract_passes(max_bytes as nat);
        let views = calls::answers_view(answers@);
        assert(answers.len() > 0 ==> views.last() == answers@.last()@);
        assert(all_accepted(views) ==> accepted_at(probes() - 1, views[probes() - 1]));
    }
    if judge(&answers) {
        return Ok(true);
    }
    match answers.pop() {
        Some(Answer::Failed(KvCacheError::Backend(words))) => Err(KvCacheError::Backend(words)),
        _ => Ok(false),
    }
}

/// How many of the calls from `step` on count as a use.
spec fn uses_from(step: int) -> nat {
    if step <= 2 {
        5
    } else if step == 3 {
        4
    } else if step <= 7 {
        3
    } else if step == 8 {
        2
    } else if step == 9 {
        1
    } else {
        0
    }
}

/// The slots of a store that comes to `step` of the run.
spec fn slots_before(step: int, budget: nat) -> Seq<SlotView> {
    let first = sample_slot("p1"@, "p1.slot"@, 100);
    let second = sample_slot("p2"@, "p2.slot"@, 100);
    let third = sample_slot("p3"@, "p3.slot"@, budget);
    if step <= 3 {
        seq![]
    } else if step <= 8 {
        seq![first]
    } else if step == 9 {
        store::trimmed(store::replaced(seq![first], second), budget)
    } else {
        seq![third]
    }
}

/// At every step of the run, a store that keeps the contract answers as it should and goes on
/// to the slots of the next step.
proof fn lemma_step(step: int, budget: nat)
    requires
        0 <= step < probes(),
        100 <= budget,
    ensures
        ({
            let slots = slots_before(step, budget);
            let call = probe_at(step, budget);
            &&& accepted_at(step, calls::answer_to(slots, budget, call))
            &&& calls::slots_after(slots, budget, call) == slots_before(step + 1, budget)
            &&& calls::is_use(call, budget) <==> uses_from(step) > uses_from(step + 1)
            &&& uses_from(step) <= uses_from(step + 1) + 1
        }),
{
    let none = Seq::<SlotView>::empty();
    let first = sample_slot("p1"@, "p1.slot"@, 100);
    let second = sample_slot("p2"@, "p2.slot"@, 100);
    let third = sample_slot("p3"@, "p3.slot"@, budget);
    let slots = slots_before(step, budget);
    lemma_keys_differ();
    if step <= 3 {
        assert(slots =~= none);
        lemma_first_stays(none, first, budget);
        lemma_nothing_to_trim(none, budget);
        assert(store::sizes(none) =~= Seq::<nat>::empty());
    } else if step <= 8 {
        assert(slots[0] == first);
        store_laws::lemma_position(slots, 0);
        assert(store::touched(slots, first.key) =~= slots);
    } else if step == 9 {
        lemma_second_stays(first, second, budget);
        lemma_only_last_stays(slots, second, third, budget);
    } else {
        assert(slots[0] == third);
        store_laws::lemma_position(slots, 0);
    }
}

/// The keys of the run are all different.
proof fn lemma_keys_differ()
    ensures
        sample_key("p1"@) != sample_key("p2"@),
        sample_key("p1"@) != sample_key("p3"@),
        sample_key("p2"@) != sample_key("p3"@),
        sample_key("p1"@) != sample_key("too-big"@),
{
    reveal_strlit("p1");
    reveal_strlit("p2");
    reveal_strlit("p3");
    reveal_strlit("too-big");
    assert("p1"@[1] == '1' && "p2"@[1] == '2' && "p3"@[1] == '3');
    assert("p1"@.len() == 2 && "too-big"@.len() == 7);
}

/// Slots within the budget all stay.
proof fn lemma_nothing_to_trim(slots: Seq<SlotView>, budget: nat)
    requires
        budget::sum(store::sizes(slots)) <= budget,
    ensures
        store::trimmed(slots, budget) == slots,
        store::evicted(slots, budget) == Seq::<SlotView>::empty(),
{
    budget::lemma_no_excess(store::sizes(slots), budget);
}

/// A slot under a new key comes last, and adds its size.
proof fn lemma_push_new(slots: Seq<SlotView>, slot: SlotView)
    requires
        !store::has_key(slots, slot.key),
    ensures
        store::replaced(slots, slot) == slots.push(slot),
        budget::sum(store::sizes(slots.push(slot))) == budget::sum(store::sizes(slots))
            + slot.size_bytes,
{
    store_laws::lemma_push_sum(slots, slot);
}

/// The first slot of a store stays.
proof fn lemma_first_stays(none: Seq<SlotView>, slot: SlotView, budget: nat)
    requires
        none.len() == 0,
        slot.size_bytes <= budget,
    ensures
        budget::sum(store::sizes(none)) == 0,
        budget::sum(store::sizes(store::replaced(none, slot))) == slot.size_bytes,
        budget::sum(store::sizes(seq![slot])) == slot.size_bytes,
        store::trimmed(store::replaced(none, slot), budget) == seq![slot],
{
    lemma_push_new(none, slot);
    assert(none.push(slot) =~= seq![slot]);
    lemma_nothing_to_trim(seq![slot], budget);
}

/// Of two slots that fit the budget one by one, the second stays.
proof fn lemma_second_stays(first: SlotView, second: SlotView, budget: nat)
    requires
        first.key != second.key,
        second.size_bytes <= budget,
    ensures
        ({
            let kept = store::trimmed(store::replaced(seq![first], second), budget);
            &&& kept == seq![first, second] || kept == seq![second]
            &&& budget::sum(store::sizes(kept)) <= first.size_bytes + second.size_bytes
        }),
{
    let both = seq![first].push(second);
    lemma_push_new(seq![first], second);
    lemma_first_stays(Seq::empty(), first, first.size_bytes);
    lemma_first_stays(Seq::empty(), second, budget);
    assert(both =~= seq![first, second]);
    assert(store::sizes(both).skip(1) =~= store::sizes(seq![second]));
    budget::lemma_survives(store::sizes(both), budget, 1);
    assert(both.skip(0) =~= both);
    assert(both.skip(1) =~= seq![second]);
}

/// A slot that fills the budget drives out all others.
proof fn lemma_only_last_stays(
    slots: Seq<SlotView>,
    before: SlotView,
    last: SlotView,
    budget: nat,
)
    requires
        slots.len() > 0,
        slots.last() == before,
        before.size_bytes > 0,
        !store::has_key(slots, last.key),
        last.size_bytes == budget,
    ensures
        budget::sum(store::sizes(store::replaced(slots, last))) == budget::sum(
            store::sizes(slots),
        ) + budget,
        store::trimmed(store::replaced(slots, last), budget) == seq![last],
{
    let all = slots.push(last);
    let n = slots.len() as int;
    lemma_push_new(slots, last);
    lemma_first_stays(Seq::empty(), last, budget);
    assert(store::sizes(all).skip(n) =~= store::sizes(seq![last]));
    budget::lemma_survives(store::sizes(all), budget, n);
    budget::lemma_sum_step(store::sizes(all), n - 1);
    budget::lemma_survives(store::sizes(all), budget, n - 1);
    assert(all.skip(n) =~= seq![last]);
}

} // verus!

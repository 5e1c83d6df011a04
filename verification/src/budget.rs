//! How many entries have to go before the rest fit a budget.
use vstd::prelude::*;

verus! {

/// The sum of all sizes.
pub open spec fn sum(sizes: Seq<nat>) -> nat
    decreases sizes.len(),
{
    if sizes.len() == 0 {
        0
    } else {
        sizes[0] + sum(sizes.drop_first())
    }
}

/// How many sizes have to be dropped from the front, one after the other, before the sum
/// of the others is at or under `target`.
pub open spec fn excess(sizes: Seq<nat>, target: nat) -> nat
    decreases sizes.len(),
{
    if sum(sizes) <= target || sizes.len() == 0 {
        0
    } else {
        1 + excess(sizes.drop_first(), target)
    }
}

pub proof fn lemma_sum_concat(a: Seq<nat>, b: Seq<nat>)
    ensures
        sum(a + b) == sum(a) + sum(b),
    decreases a.len(),
{
    if a.len() == 0 {
        assert(a + b =~= b);
    } else {
        lemma_sum_concat(a.drop_first(), b);
        assert((a + b).drop_first() =~= a.drop_first() + b);
    }
}

pub proof fn lemma_sum_push(a: Seq<nat>, x: nat)
    ensures
        sum(a.push(x)) == sum(a) + x,
{
    lemma_sum_concat(a, seq![x]);
    assert(sum(seq![x]) == x) by {
        reveal_with_fuel(sum, 2);
    }
    assert(a.push(x) =~= a + seq![x]);
}

/// The part before a position and the part from it on make up the whole.
pub proof fn lemma_sum_split(a: Seq<nat>, n: int)
    requires
        0 <= n <= a.len(),
    ensures
        sum(a) == sum(a.take(n)) + sum(a.skip(n)),
{
    lemma_sum_concat(a.take(n), a.skip(n));
    assert(a.take(n) + a.skip(n) =~= a);
}

/// Sizes of 64 bits each add up to no more than their number allows.
pub proof fn lemma_sum_bound(a: Seq<nat>)
    requires
        forall|i: int| 0 <= i < a.len() ==> #[trigger] a[i] <= u64::MAX,
    ensures
        sum(a) <= a.len() * 0xffff_ffff_ffff_ffff,
    decreases a.len(),
{
    if a.len() > 0 {
        let rest = a.drop_first();
        assert forall|i: int| 0 <= i < rest.len() implies #[trigger] rest[i] <= u64::MAX by {
            assert(rest[i] == a[i + 1]);
        }
        lemma_sum_bound(rest);
    }
}

/// Taking one size out lowers the sum by that size.
pub proof fn lemma_sum_remove(a: Seq<nat>, i: int)
    requires
        0 <= i < a.len(),
    ensures
        sum(a.remove(i)) + a[i] == sum(a),
{
    lemma_sum_split(a, i);
    lemma_sum_split(a.remove(i), i);
    assert(a.remove(i).take(i) =~= a.take(i));
    assert(a.remove(i).skip(i) =~= a.skip(i).drop_first());
}

/// What is dropped is just enough: the rest fit the target, and no shorter run of
/// leading entries would have left a rest that fits.
pub proof fn lemma_excess(sizes: Seq<nat>, target: nat)
    ensures
        excess(sizes, target) <= sizes.len(),
        sum(sizes.skip(excess(sizes, target) as int)) <= target,
        forall|m: int|
            0 <= m < excess(sizes, target) ==> sum(#[trigger] sizes.skip(m)) > target,
    decreases sizes.len(),
{
    if sum(sizes) <= target || sizes.len() == 0 {
        assert(sizes.skip(0) =~= sizes);
    } else {
        let rest = sizes.drop_first();
        let n = excess(rest, target);
        lemma_excess(rest, target);
        assert(sizes.skip((n + 1) as int) =~= rest.skip(n as int));
        assert forall|m: int| 0 <= m < n + 1 implies sum(#[trigger] sizes.skip(m)) > target by {
            if m == 0 {
                assert(sizes.skip(0) =~= sizes);
            } else {
                assert(sizes.skip(m) =~= rest.skip(m - 1));
            }
        }
    }
}

/// An entry stays exactly when it fits the target together with everything behind it.
pub proof fn lemma_survives(sizes: Seq<nat>, target: nat, i: int)
    requires
        0 <= i < sizes.len(),
    ensures
        excess(sizes, target) <= i <==> sum(sizes.skip(i)) <= target,
{
    let n = excess(sizes, target) as int;
    lemma_excess(sizes, target);
    if n <= i {
        lemma_sum_split(sizes.skip(n), i - n);
        assert(sizes.skip(n).skip(i - n) =~= sizes.skip(i));
    }
}

/// Dropping one size after the other while the rest exceed the target drops the excess.
pub proof fn lemma_dropping(sizes: Seq<nat>, target: nat, dropped: int)
    requires
        0 <= dropped <= excess(sizes, target),
    ensures
        dropped <= excess(sizes, target) <= sizes.len(),
        sum(sizes.skip(dropped)) <= target <==> dropped == excess(sizes, target),
        sum(sizes.skip(dropped)) <= sum(sizes),
        dropped < sizes.len() ==> sum(sizes.skip(dropped)) == sizes[dropped] + sum(
            sizes.skip(dropped + 1),
        ),
        dropped < sizes.len() ==> sum(sizes.take(dropped + 1)) == sum(sizes.take(dropped))
            + sizes[dropped],
        dropped < sizes.len() ==> sum(sizes.take(dropped + 1)) <= sum(sizes),
{
    lemma_excess(sizes, target);
    lemma_sum_split(sizes, dropped);
    if dropped < sizes.len() {
        lemma_survives(sizes, target, dropped);
        lemma_sum_step(sizes, dropped);
        lemma_sum_split(sizes, dropped + 1);
    }
}

/// Nothing goes while everything fits.
pub proof fn lemma_no_excess(sizes: Seq<nat>, target: nat)
    ensures
        excess(sizes, target) == 0 <==> sum(sizes) <= target,
{
    lemma_excess(sizes, target);
    assert(sizes.skip(0) =~= sizes);
}

/// How one step of dropping from the front moves the sum of what is left.
pub proof fn lemma_sum_step(sizes: Seq<nat>, i: int)
    requires
        0 <= i < sizes.len(),
    ensures
        sum(sizes.skip(i)) == sizes[i] + sum(sizes.skip(i + 1)),
        sum(sizes.take(i + 1)) == sum(sizes.take(i)) + sizes[i],
{
    assert(sizes.skip(i).drop_first() =~= sizes.skip(i + 1));
    assert(sizes.take(i + 1) =~= sizes.take(i).push(sizes[i]));
    lemma_sum_push(sizes.take(i), sizes[i]);
}

} // verus!

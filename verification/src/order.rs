//! Positions in the order of use: by timestamp, and by position where timestamps agree.
use vstd::prelude::*;

use crate::budget;

verus! {

/// Whether the entry at `i` was used before the one at `j`.
pub open spec fn before(stamps: Seq<i64>, i: int, j: int) -> bool {
    stamps[i] < stamps[j] || (stamps[i] == stamps[j] && i < j)
}

/// Every position below `n` once.
pub open spec fn is_arrangement(positions: Seq<int>, n: nat) -> bool {
    &&& positions.len() == n
    &&& forall|a: int| 0 <= a < n ==> 0 <= #[trigger] positions[a] < n
    &&& forall|a: int, b: int|
        0 <= a < b < n ==> #[trigger] positions[a] != #[trigger] positions[b]
    &&& forall|i: int| 0 <= i < n ==> #[trigger] positions.contains(i)
}

/// Every position once, least recently used first.
pub open spec fn is_use_order(stamps: Seq<i64>, positions: Seq<int>) -> bool {
    &&& is_arrangement(positions, stamps.len())
    &&& forall|a: int, b: int|
        0 <= a < b < positions.len() ==> before(
            stamps,
            #[trigger] positions[a],
            #[trigger] positions[b],
        )
}

/// The positions in the order of use.
pub open spec fn use_order(stamps: Seq<i64>) -> Seq<int> {
    choose|positions: Seq<int>| is_use_order(stamps, positions)
}

/// There is only one order of use.
pub proof fn lemma_use_order_unique(stamps: Seq<i64>, positions: Seq<int>)
    requires
        is_use_order(stamps, positions),
    ensures
        use_order(stamps) == positions,
{
    let other = use_order(stamps);
    assert(is_use_order(stamps, other));
    lemma_agree(stamps, positions, other, stamps.len());
    assert(other =~= positions);
}

proof fn lemma_agree(stamps: Seq<i64>, p: Seq<int>, q: Seq<int>, n: nat)
    requires
        is_use_order(stamps, p),
        is_use_order(stamps, q),
        n <= stamps.len(),
    ensures
        forall|a: int| 0 <= a < n ==> p[a] == q[a],
    decreases n,
{
    if n > 0 {
        lemma_agree(stamps, p, q, (n - 1) as nat);
        let a = n - 1;
        if p[a] != q[a] {
            assert(q.contains(p[a]));
            let b = choose|b: int| 0 <= b < q.len() && q[b] == p[a];
            assert(b > a) by {
                if b < a {
                    assert(p[b] == q[b]);
                }
            }
            assert(p.contains(q[a]));
            let c = choose|c: int| 0 <= c < p.len() && p[c] == q[a];
            assert(c > a) by {
                if c < a {
                    assert(p[c] == q[c]);
                }
            }
            assert(before(stamps, q[a], q[b]));
            assert(before(stamps, p[a], p[c]));
        }
    }
}

/// Entries can always be put in the order of use.
pub proof fn lemma_use_order_exists(stamps: Seq<i64>)
    ensures
        is_use_order(stamps, use_order(stamps)),
    decreases stamps.len(),
{
    if stamps.len() == 0 {
        assert(is_use_order(stamps, Seq::empty()));
    } else {
        let fewer = stamps.drop_last();
        lemma_use_order_exists(fewer);
        let p = use_order(fewer);
        let k = lemma_place(stamps, p, p.len());
        lemma_insertion(stamps, p, k);
    }
}

/// Where the last entry belongs among the others: behind those with stamps up to its own.
proof fn lemma_place(stamps: Seq<i64>, p: Seq<int>, upto: nat) -> (k: int)
    requires
        stamps.len() > 0,
        is_use_order(stamps.drop_last(), p),
        upto <= p.len(),
    ensures
        0 <= k <= upto,
        forall|a: int| 0 <= a < k ==> stamps[#[trigger] p[a]] <= stamps.last(),
        forall|a: int| k <= a < upto ==> stamps[#[trigger] p[a]] > stamps.last(),
    decreases upto,
{
    if upto == 0 {
        0
    } else {
        let last = upto - 1;
        if stamps[p[last]] > stamps.last() {
            lemma_place(stamps, p, last as nat)
        } else {
            assert forall|a: int| 0 <= a < upto implies stamps[#[trigger] p[a]]
                <= stamps.last() by {
                if a < last {
                    assert(before(stamps.drop_last(), p[a], p[last]));
                }
            }
            upto as int
        }
    }
}

/// The last entry, inserted where it belongs, completes the order of use.
pub proof fn lemma_insertion(stamps: Seq<i64>, p: Seq<int>, k: int)
    requires
        stamps.len() > 0,
        is_use_order(stamps.drop_last(), p),
        0 <= k <= p.len(),
        forall|a: int| 0 <= a < k ==> stamps[#[trigger] p[a]] <= stamps.last(),
        forall|a: int| k <= a < p.len() ==> stamps[#[trigger] p[a]] > stamps.last(),
    ensures
        is_use_order(stamps, p.insert(k, stamps.len() - 1)),
{
    let n = stamps.len() - 1;
    let q = p.insert(k, n);
    assert forall|i: int| 0 <= i < stamps.len() implies #[trigger] q.contains(i) by {
        if i == n {
            assert(q[k] == n);
        } else {
            assert(p.contains(i));
            let a = choose|a: int| 0 <= a < p.len() && p[a] == i;
            if a < k {
                assert(q[a] == i);
            } else {
                assert(q[a + 1] == i);
            }
        }
    }
    assert forall|a: int, b: int| 0 <= a < b < q.len() implies before(
        stamps,
        #[trigger] q[a],
        #[trigger] q[b],
    ) by {
        let pa = if a < k {
            a
        } else {
            a - 1
        };
        let pb = if b < k {
            b
        } else {
            b - 1
        };
        if a != k {
            assert(q[a] == p[pa]);
        }
        if b != k {
            assert(q[b] == p[pb]);
        }
        if a != k && b != k {
            assert(before(stamps.drop_last(), p[pa], p[pb]));
        }
    }
    assert forall|a: int, b: int| 0 <= a < b < q.len() implies #[trigger] q[a]
        != #[trigger] q[b] by {
        assert(before(stamps, q[a], q[b]));
    }
}

/// An entry that is used again after all others moves to the end of the order.
pub proof fn lemma_use_again(stamps: Seq<i64>, k: int, now: i64)
    requires
        0 <= k < stamps.len(),
        ({
            let i = use_order(stamps)[k];
            forall|j: int|
                0 <= j < stamps.len() && j != i ==> #[trigger] before(stamps.update(i, now), j, i)
        }),
    ensures
        use_order(stamps.update(use_order(stamps)[k], now)) == use_order(stamps).remove(k).push(
            use_order(stamps)[k],
        ),
{
    lemma_use_order_exists(stamps);
    let p = use_order(stamps);
    let i = p[k];
    let later = stamps.update(i, now);
    let q = p.remove(k).push(i);
    let n = stamps.len() as int;
    assert forall|a: int| 0 <= a < n - 1 implies (#[trigger] q[a]) == p[if a < k {
        a
    } else {
        a + 1
    }] && q[a] != i by {}
    assert(q[n - 1] == i);
    assert forall|j: int| 0 <= j < n implies #[trigger] q.contains(j) by {
        assert(p.contains(j));
        let a = choose|a: int| 0 <= a < p.len() && p[a] == j;
        if a < k {
            assert(q[a] == j);
        } else if a > k {
            assert(q[a - 1] == j);
        } else {
            assert(q[n - 1] == j);
        }
    }
    assert forall|a: int, b: int| 0 <= a < b < n implies before(
        later,
        #[trigger] q[a],
        #[trigger] q[b],
    ) by {
        let c = if a < k {
            a
        } else {
            a + 1
        };
        let d = if b < k {
            b
        } else {
            b + 1
        };
        if b < n - 1 {
            assert(before(stamps, p[c], p[d]));
        }
    }
    assert forall|a: int, b: int| 0 <= a < b < n implies #[trigger] q[a] != #[trigger] q[b] by {
        assert(before(later, q[a], q[b]));
    }
    lemma_use_order_unique(later, q);
}

/// A new entry that is used no earlier than the others comes last.
pub proof fn lemma_use_new(stamps: Seq<i64>, now: i64)
    requires
        forall|j: int| 0 <= j < stamps.len() ==> #[trigger] stamps[j] <= now,
    ensures
        use_order(stamps.push(now)) == use_order(stamps).push(stamps.len() as int),
{
    lemma_use_order_exists(stamps);
    let p = use_order(stamps);
    let longer = stamps.push(now);
    assert(longer.drop_last() =~= stamps);
    lemma_insertion(longer, p, p.len() as int);
    assert(p.insert(p.len() as int, stamps.len() as int) =~= p.push(stamps.len() as int));
    lemma_use_order_unique(longer, p.push(stamps.len() as int));
}

/// An arrangement of sizes has the same sum.
pub proof fn lemma_sum_arranged(sizes: Seq<nat>, positions: Seq<int>)
    requires
        is_arrangement(positions, sizes.len()),
    ensures
        budget::sum(positions.map_values(|i: int| sizes[i])) == budget::sum(sizes),
    decreases sizes.len(),
{
    let arranged = positions.map_values(|i: int| sizes[i]);
    if sizes.len() > 0 {
        let n = sizes.len() - 1;
        assert(positions.contains(n));
        let k = choose|k: int| 0 <= k < positions.len() && positions[k] == n;
        let fewer = sizes.drop_last();
        let rest = positions.remove(k);
        assert forall|i: int| 0 <= i < n implies #[trigger] rest.contains(i) by {
            assert(positions.contains(i));
            let a = choose|a: int| 0 <= a < positions.len() && positions[a] == i;
            if a < k {
                assert(rest[a] == i);
            } else {
                assert(rest[a - 1] == i);
            }
        }
        assert forall|a: int| 0 <= a < n implies 0 <= #[trigger] rest[a] < n by {
            if a < k {
                assert(rest[a] == positions[a]);
            } else {
                assert(rest[a] == positions[a + 1]);
            }
        }
        lemma_sum_arranged(fewer, rest);
        assert(rest.map_values(|i: int| fewer[i]) =~= arranged.remove(k));
        budget::lemma_sum_remove(arranged, k);
        budget::lemma_sum_push(fewer, sizes[n]);
        assert(fewer.push(sizes[n]) =~= sizes);
    } else {
        assert(arranged =~= sizes);
    }
}

/// The order of use goes by time; of entries used at the same time, the one that stands first
/// comes first. No entry is missing, and none comes twice.
pub proof fn law_order_of_use(stamps: Seq<i64>, a: int, b: int)
    requires
        0 <= a < b < stamps.len(),
    ensures
        ({
            let (i, j) = (use_order(stamps)[a], use_order(stamps)[b]);
            &&& use_order(stamps).len() == stamps.len()
            &&& 0 <= i < stamps.len()
            &&& 0 <= j < stamps.len()
            &&& i != j
            &&& stamps[i] <= stamps[j]
            &&& stamps[i] == stamps[j] ==> i < j
        }),
{
    lemma_use_order_exists(stamps);
    let p = use_order(stamps);
    assert(before(stamps, p[a], p[b]));
}

/// Puts positions in the order of use.
pub fn positions_in_use_order(stamps: &Vec<i64>) -> (positions: Vec<usize>)
    ensures
        positions@.map_values(|i: usize| i as int) == use_order(stamps@),
        is_use_order(stamps@, positions@.map_values(|i: usize| i as int)),
{
    let mut positions: Vec<usize> = Vec::new();
    let mut n: usize = 0;
    let ghost as_int = |i: usize| i as int;
    assert(is_use_order(stamps@.take(0), positions@.map_values(as_int)));
    while n < stamps.len()
        invariant
            n <= stamps.len(),
            positions.len() == n,
            as_int == |i: usize| i as int,
            is_use_order(stamps@.take(n as int), positions@.map_values(as_int)),
        decreases stamps.len() - n,
    {
        let ghost p = positions@.map_values(as_int);
        let ghost known = stamps@.take(n + 1);
        assert(known.drop_last() =~= stamps@.take(n as int));
        assert forall|a: int| 0 <= a < n implies (#[trigger] positions[a]) as int == p[a] && p[a]
            < n by {}
        let mut k: usize = n;
        while k > 0 && stamps[positions[k - 1]] > stamps[n]
            invariant
                n < stamps.len(),
                k <= n,
                positions.len() == n,
                as_int == |i: usize| i as int,
                p == positions@.map_values(as_int),
                known == stamps@.take(n + 1),
                is_use_order(known.drop_last(), p),
                forall|a: int| 0 <= a < n ==> (#[trigger] positions[a]) as int == p[a] && p[a] < n,
                forall|a: int| k <= a < n ==> known[#[trigger] p[a]] > known[n as int],
            decreases k,
        {
            k = k - 1;
        }
        assert forall|a: int| 0 <= a < k implies known[#[trigger] p[a]] <= known.last() by {
            assert(positions[k - 1] == p[k - 1]);
            if a < k - 1 {
                assert(before(known.drop_last(), p[a], p[k - 1]));
            }
        }
        proof {
            lemma_insertion(known, p, k as int);
        }
        positions.insert(k, n);
        assert(positions@.map_values(as_int) =~= p.insert(k as int, n as int));
        n = n + 1;
    }
    assert(stamps@.take(n as int) =~= stamps@);
    proof {
        lemma_use_order_unique(stamps@, positions@.map_values(as_int));
    }
    positions
}

} // verus!

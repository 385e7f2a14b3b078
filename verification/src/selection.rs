use crate::sortvec::{
    i64_leq_fn, law_sorted_snapshot_unique_i64, lemma_i64_leq_total_ordering,
    lemma_sorted_i64s_props, sorted_i64s,
};
use vstd::prelude::*;
use vstd::relations::sorted_by;
use vstd::multiset::group_multiset_axioms;
use vstd::seq_lib::{
    group_to_multiset_ensures, lemma_multiset_commutative, to_multiset_build, to_multiset_len,
};

verus! {

// Partition-based selection: the value at a target rank of the sorted
// order, found without sorting.  Each round partitions the remaining
// segment around a pivot into the values strictly below it, those equal to
// it, and those strictly above, and keeps only the group holding the rank.
// Average work is linear; a pathological pivot sequence degrades to
// quadratic, which the pivot strategy exists to avoid.
/// Picks the pivot position for a segment of a given length.  The choice
/// only steers performance, never the result: any answer is clamped into
/// the segment.
pub trait PivotStrategy {
    fn pick(&mut self, len: usize) -> usize;
}

/// The default strategy: the middle of the segment.
pub struct MidPivot;

impl PivotStrategy for MidPivot {
    fn pick(&mut self, len: usize) -> usize {
        len / 2
    }
}

/// A three-way split around `p` holds exactly the segment's values.
proof fn lemma_partition_sorted(
    seg: Seq<i64>,
    less: Seq<i64>,
    equal: Seq<i64>,
    greater: Seq<i64>,
    p: i64,
)
    requires
        seg.to_multiset() == less.to_multiset().add(equal.to_multiset()).add(
            greater.to_multiset(),
        ),
        forall|j: int| 0 <= j < less.len() ==> #[trigger] less[j] < p,
        forall|j: int| 0 <= j < equal.len() ==> #[trigger] equal[j] == p,
        forall|j: int| 0 <= j < greater.len() ==> #[trigger] greater[j] > p,
    ensures
        sorted_i64s(seg) == sorted_i64s(less) + equal + sorted_i64s(greater),
{
    broadcast use group_to_multiset_ensures;
    broadcast use group_multiset_axioms;

    lemma_i64_leq_total_ordering();
    lemma_sorted_i64s_props(less);
    lemma_sorted_i64s_props(greater);
    let sl = sorted_i64s(less);
    let sg = sorted_i64s(greater);
    assert forall|j: int| 0 <= j < sl.len() implies #[trigger] sl[j] < p by {
        assert(sl.to_multiset().contains(sl[j]));
        assert(less.to_multiset().contains(sl[j]));
        assert(less.contains(sl[j]));
    }
    assert forall|j: int| 0 <= j < sg.len() implies #[trigger] sg[j] > p by {
        assert(sg.to_multiset().contains(sg[j]));
        assert(greater.to_multiset().contains(sg[j]));
        assert(greater.contains(sg[j]));
    }
    let cat = sl + equal + sg;
    let leq = i64_leq_fn();
    assert forall|a: int, b: int| 0 <= a < b < cat.len() implies #[trigger] leq(
        cat[a],
        cat[b],
    ) by {
        let m1 = sl.len() as int;
        let m2 = m1 + equal.len();
        if b < m1 {
            assert(leq(sl[a], sl[b]));
        } else if a >= m2 {
            assert(leq(sg[a - m2], sg[b - m2]));
        } else if a < m1 && b < m2 {
            assert(cat[a] == sl[a] && cat[b] == equal[b - m1]);
        } else if a < m1 {
            assert(cat[a] == sl[a] && cat[b] == sg[b - m2]);
        } else if b < m2 {
            assert(cat[a] == equal[a - m1] && cat[b] == equal[b - m1]);
        } else {
            assert(cat[a] == equal[a - m1] && cat[b] == sg[b - m2]);
        }
    }
    assert(sorted_by(cat, leq));
    lemma_multiset_commutative(sl + equal, sg);
    lemma_multiset_commutative(sl, equal);
    assert((sl + equal) + sg =~= cat);
    assert(cat.to_multiset() =~= seg.to_multiset());
    law_sorted_snapshot_unique_i64(seg, cat);
}

/// The value at `rank` of the segment's sorted order, by repeated
/// three-way partition around the strategy's pivots.
pub fn select_rank_with<P: PivotStrategy>(v: &Vec<i64>, rank: usize, strategy: &mut P) -> (r: i64)
    requires
        rank < v@.len(),
    ensures
        r == sorted_i64s(v@)[rank as int],
{
    broadcast use group_to_multiset_ensures;
    broadcast use group_multiset_axioms;

    let mut seg = v.clone();
    let mut k = rank;
    proof {
        lemma_sorted_i64s_props(v@);
    }
    loop
        invariant
            k < seg@.len(),
            rank < v@.len(),
            sorted_i64s(seg@)[k as int] == sorted_i64s(v@)[rank as int],
        decreases seg@.len(),
    {
        let len = seg.len();
        let pick = strategy.pick(len);
        let pidx = if pick < len {
            pick
        } else {
            len - 1
        };
        let p = seg[pidx];
        let mut less: Vec<i64> = Vec::new();
        let mut equal: Vec<i64> = Vec::new();
        let mut greater: Vec<i64> = Vec::new();
        let mut i: usize = 0;
        proof {
            let e = Seq::<i64>::empty();
            assert(seg@.subrange(0, 0) =~= e);
            assert(less@ =~= e);
            assert(equal@ =~= e);
            assert(greater@ =~= e);
            to_multiset_len(e);
            assert(e.to_multiset().len() == 0);
            vstd::multiset::lemma_multiset_empty_len(e.to_multiset());
            assert(less@.to_multiset().add(equal@.to_multiset()).add(greater@.to_multiset())
                =~= seg@.subrange(0, 0).to_multiset());
        }
        while i < len
            invariant
                i <= len,
                len == seg@.len(),
                pidx < len,
                p == seg@[pidx as int],
                less@.to_multiset().add(equal@.to_multiset()).add(greater@.to_multiset())
                    =~= seg@.subrange(0, i as int).to_multiset(),
                forall|j: int| 0 <= j < less@.len() ==> #[trigger] less@[j] < p,
                forall|j: int| 0 <= j < equal@.len() ==> #[trigger] equal@[j] == p,
                forall|j: int| 0 <= j < greater@.len() ==> #[trigger] greater@[j] > p,
                i > pidx ==> equal@.len() >= 1,
            decreases len - i,
        {
            let x = seg[i];
            let ghost l0 = less@;
            let ghost e0 = equal@;
            let ghost g0 = greater@;
            let ghost pre = seg@.subrange(0, i as int);
            proof {
                assert(seg@.subrange(0, i + 1 as int) =~= pre.push(x));
                to_multiset_build(pre, x);
            }
            if x < p {
                less.push(x);
                proof {
                    assert(less@ =~= l0.push(x));
                    to_multiset_build(l0, x);
                }
            } else if x == p {
                equal.push(x);
                proof {
                    assert(equal@ =~= e0.push(x));
                    to_multiset_build(e0, x);
                }
            } else {
                greater.push(x);
                proof {
                    assert(greater@ =~= g0.push(x));
                    to_multiset_build(g0, x);
                }
            }
            proof {
                assert(less@.to_multiset().add(equal@.to_multiset()).add(greater@.to_multiset())
                    =~= seg@.subrange(0, i + 1 as int).to_multiset());
            }
            i = i + 1;
        }
        proof {
            assert(seg@.subrange(0, len as int) =~= seg@);
            lemma_partition_sorted(seg@, less@, equal@, greater@, p);
            lemma_sorted_i64s_props(less@);
            lemma_sorted_i64s_props(equal@);
            lemma_sorted_i64s_props(greater@);
            assert(seg@.len() == less@.len() + equal@.len() + greater@.len()) by {
                to_multiset_len(seg@);
                to_multiset_len(less@);
                to_multiset_len(equal@);
                to_multiset_len(greater@);
                assert(seg@.to_multiset().len() == less@.to_multiset().add(
                    equal@.to_multiset(),
                ).add(greater@.to_multiset()).len());
            }
        }
        let nl = less.len();
        let ne = equal.len();
        if k < nl {
            proof {
                assert(sorted_i64s(seg@)[k as int] == sorted_i64s(less@)[k as int]);
                assert(less@.len() < seg@.len());
            }
            seg = less;
        } else if k < nl + ne {
            proof {
                assert(sorted_i64s(seg@)[k as int] == equal@[k - nl]);
            }
            return p;
        } else {
            proof {
                assert(seg@.len() == less@.len() + equal@.len() + greater@.len());
                assert(sorted_i64s(seg@)[k as int] == sorted_i64s(greater@)[k - nl - ne]);
                assert(greater@.len() < seg@.len());
            }
            seg = greater;
            k = k - nl - ne;
        }
    }
}

/// The value at `rank` of the sorted order, under the default pivot
/// strategy.
pub fn select_rank(v: &Vec<i64>, rank: usize) -> (r: i64)
    requires
        rank < v@.len(),
    ensures
        r == sorted_i64s(v@)[rank as int],
{
    let mut strategy = MidPivot;
    select_rank_with(v, rank, &mut strategy)
}

} // verus!

use crate::fbits::{f64_leq_fn, le_f64_bits, lemma_f64_leq_total_ordering};
use vstd::prelude::*;
use vstd::relations::{sorted_by, total_ordering};
use vstd::seq_lib::{group_to_multiset_ensures, lemma_multiset_commutative, lemma_sorted_unique};

verus! {

// Verified ascending sorts for the two element kinds the statistics need:
// 64-bit signed integers under their native order, and float bit patterns
// under the IEEE 754 total order.  Each sort returns exactly the sequence
// that vstd's `sort_by` specification denotes, so every later statement
// about "the sorted column" is a statement about one well-defined sequence.
/// The i64 order as a first-class relation.
pub open spec fn i64_leq_fn() -> spec_fn(i64, i64) -> bool {
    |a: i64, b: i64| a <= b
}

pub proof fn lemma_i64_leq_total_ordering()
    ensures
        total_ordering(i64_leq_fn()),
{
    let leq = i64_leq_fn();
    assert forall|a: i64| #[trigger] leq(a, a) by {}
    assert forall|a: i64, b: i64| #[trigger] leq(a, b) && #[trigger] leq(b, a) implies a == b by {}
    assert forall|a: i64, b: i64| #[trigger] leq(a, b) || #[trigger] leq(b, a) by {}
}

/// The ascending reordering of a sequence of float bit patterns.
pub open spec fn sorted_f64s(s: Seq<u64>) -> Seq<u64> {
    s.sort_by(f64_leq_fn())
}

/// The ascending reordering of a sequence of 64-bit integers.
pub open spec fn sorted_i64s(s: Seq<i64>) -> Seq<i64> {
    s.sort_by(i64_leq_fn())
}

/// The ascending reordering keeps the length, is sorted, and holds the
/// same elements.
pub proof fn lemma_sorted_f64s_props(s: Seq<u64>)
    ensures
        sorted_f64s(s).len() == s.len(),
        sorted_by(sorted_f64s(s), f64_leq_fn()),
        sorted_f64s(s).to_multiset() == s.to_multiset(),
{
    broadcast use group_to_multiset_ensures;

    lemma_f64_leq_total_ordering();
    s.lemma_sort_by_ensures(f64_leq_fn());
    s.to_multiset_ensures();
    sorted_f64s(s).to_multiset_ensures();
}

/// The ascending reordering keeps the length, is sorted, and holds the
/// same elements.
pub proof fn lemma_sorted_i64s_props(s: Seq<i64>)
    ensures
        sorted_i64s(s).len() == s.len(),
        sorted_by(sorted_i64s(s), i64_leq_fn()),
        sorted_i64s(s).to_multiset() == s.to_multiset(),
{
    broadcast use group_to_multiset_ensures;

    lemma_i64_leq_total_ordering();
    s.lemma_sort_by_ensures(i64_leq_fn());
    s.to_multiset_ensures();
    sorted_i64s(s).to_multiset_ensures();
}

/// The sorted snapshot is canonical: any ascending sequence holding
/// exactly a column's values — however it was produced — is the snapshot
/// itself.  With the snapshot a function of the values alone, computing it
/// twice over unmodified values gives identical sequences.
pub proof fn law_sorted_snapshot_unique_f64(s: Seq<u64>, other: Seq<u64>)
    requires
        sorted_by(other, f64_leq_fn()),
        other.to_multiset() == s.to_multiset(),
    ensures
        other == sorted_f64s(s),
{
    lemma_f64_leq_total_ordering();
    lemma_sorted_f64s_props(s);
    lemma_sorted_unique(other, sorted_f64s(s), f64_leq_fn());
}

/// The sorted snapshot is canonical: any ascending sequence holding
/// exactly a column's values — however it was produced — is the snapshot
/// itself.  With the snapshot a function of the values alone, computing it
/// twice over unmodified values gives identical sequences.
pub proof fn law_sorted_snapshot_unique_i64(s: Seq<i64>, other: Seq<i64>)
    requires
        sorted_by(other, i64_leq_fn()),
        other.to_multiset() == s.to_multiset(),
    ensures
        other == sorted_i64s(s),
{
    lemma_i64_leq_total_ordering();
    lemma_sorted_i64s_props(s);
    lemma_sorted_unique(other, sorted_i64s(s), i64_leq_fn());
}

fn extend_from_idx<T: Copy>(r: &mut Vec<T>, v: &Vec<T>, start: usize)
    requires
        start < v.len(),
    ensures
        final(r)@ == old(r)@ + v@.subrange(start as int, v.len() as int),
{
    for i in start..v.len()
        invariant
            r@ =~= old(r)@ + v@.subrange(start as int, i as int),
    {
        r.push(v[i]);
    }
}

proof fn lemma_subrange_push<T>(s1: Seq<T>, start: int, end: int)
    requires
        0 <= start <= end < s1.len(),
    ensures
        s1.subrange(start, end).push(s1[end]) =~= s1.subrange(start, end + 1),
{
}

proof fn lemma_subrange_add<T>(s1: Seq<T>, start: int, mid: int, end: int)
    requires
        0 <= start <= mid <= end <= s1.len(),
    ensures
        s1.subrange(start, mid) + s1.subrange(mid, end) =~= s1.subrange(start, end),
{
}

fn merge_f64(v1: &Vec<u64>, v2: &Vec<u64>) -> (r: Vec<u64>)
    requires
        sorted_by(v1@, f64_leq_fn()),
        sorted_by(v2@, f64_leq_fn()),
    ensures
        r@.to_multiset() == (v1@ + v2@).to_multiset(),
        sorted_by(r@, f64_leq_fn()),
{
    broadcast use lemma_multiset_commutative;

    let ghost leq = f64_leq_fn();
    proof {
        lemma_f64_leq_total_ordering();
    }
    let mut r: Vec<u64> = Vec::new();
    let mut i1: usize = 0;
    let mut i2: usize = 0;
    assert(v1@.subrange(0 as int, i1 as int) == Seq::<u64>::empty());
    while i1 < v1.len() && i2 < v2.len()
        invariant
            0 <= i1 <= v1.len(),
            0 <= i2 <= v2.len(),
            leq == f64_leq_fn(),
            total_ordering(leq),
            sorted_by(v1@, leq),
            sorted_by(v2@, leq),
            forall|i: int|
                i1 < v1.len() ==> 0 <= i < r.len() ==> #[trigger] leq(r@[i], v1@[i1 as int]),
            forall|i: int|
                i2 < v2.len() ==> 0 <= i < r.len() ==> #[trigger] leq(r@[i], v2@[i2 as int]),
            r@.to_multiset() =~= (v1@.subrange(0 as int, i1 as int) + v2@.subrange(
                0 as int,
                i2 as int,
            )).to_multiset(),
            sorted_by(r@, leq),
        decreases v1.len() + v2.len() - i1 - i2,
    {
        proof {
            r@.to_multiset_ensures();
        }
        if le_f64_bits(v1[i1], v2[i2]) {
            assert(leq(v1@[i1 as int], v2@[i2 as int]));
            r.push(v1[i1]);
            proof {
                lemma_multiset_commutative(
                    v1@.subrange(0 as int, i1 as int),
                    v2@.subrange(0 as int, i2 as int),
                );
                v1@.subrange(0 as int, i1 as int).to_multiset_ensures();
                lemma_subrange_push(v1@, 0 as int, i1 as int);
                lemma_multiset_commutative(
                    v1@.subrange(0 as int, (i1 + 1) as int),
                    v2@.subrange(0 as int, i2 as int),
                );
            }
            i1 += 1;
            proof {
                assert forall|i: int| i1 < v1.len() && 0 <= i < r.len() implies #[trigger] leq(
                    r@[i],
                    v1@[i1 as int],
                ) by {
                    assert(leq(v1@[i1 - 1], v1@[i1 as int]));
                    if i < r.len() - 1 {
                        assert(leq(r@[i], v1@[i1 - 1]));
                    } else {
                        assert(r@[i] == v1@[i1 - 1]);
                    }
                }
            }
        } else {
            assert(!leq(v1@[i1 as int], v2@[i2 as int]));
            assert(leq(v2@[i2 as int], v1@[i1 as int]));
            r.push(v2[i2]);
            proof {
                lemma_multiset_commutative(
                    v1@.subrange(0 as int, i1 as int),
                    v2@.subrange(0 as int, i2 as int),
                );
                v2@.subrange(0 as int, i2 as int).to_multiset_ensures();
                lemma_subrange_push(v2@, 0 as int, i2 as int);
                lemma_multiset_commutative(
                    v1@.subrange(0 as int, i1 as int),
                    v2@.subrange(0 as int, (i2 + 1) as int),
                );
            }
            i2 += 1;
            proof {
                assert forall|i: int| i2 < v2.len() && 0 <= i < r.len() implies #[trigger] leq(
                    r@[i],
                    v2@[i2 as int],
                ) by {
                    assert(leq(v2@[i2 - 1], v2@[i2 as int]));
                    if i < r.len() - 1 {
                        assert(leq(r@[i], v2@[i2 - 1]));
                    } else {
                        assert(r@[i] == v2@[i2 - 1]);
                    }
                }
            }
        }
    }
    assert(v1@.subrange(0 as int, v1.len() as int) =~= v1@);
    assert(v2@.subrange(0 as int, v2.len() as int) =~= v2@);
    if i1 < v1.len() {
        let ghost r0 = r@;
        extend_from_idx(&mut r, v1, i1);
        proof {
            lemma_subrange_add(v1@, 0 as int, i1 as int, v1.len() as int);
            assert(r@.to_multiset() =~= (v1@ + v2@).to_multiset());
            assert forall|a: int, b: int| 0 <= a < b < r@.len() implies #[trigger] leq(
                r@[a],
                r@[b],
            ) by {
                let m = r0.len() as int;
                if b < m {
                    assert(leq(r0[a], r0[b]));
                } else if a >= m {
                    assert(r@[a] == v1@[i1 + (a - m)]);
                    assert(r@[b] == v1@[i1 + (b - m)]);
                    assert(leq(v1@[i1 + (a - m)], v1@[i1 + (b - m)]));
                } else {
                    assert(leq(r0[a], v1@[i1 as int]));
                    assert(r@[b] == v1@[i1 + (b - m)]);
                    assert(leq(v1@[i1 as int], v1@[i1 + (b - m)]));
                }
            }
        }
    } else if i2 < v2.len() {
        let ghost r0 = r@;
        extend_from_idx(&mut r, v2, i2);
        proof {
            lemma_subrange_add(v2@, 0 as int, i2 as int, v2.len() as int);
            assert(r@.to_multiset() =~= (v1@ + v2@).to_multiset());
            assert forall|a: int, b: int| 0 <= a < b < r@.len() implies #[trigger] leq(
                r@[a],
                r@[b],
            ) by {
                let m = r0.len() as int;
                if b < m {
                    assert(leq(r0[a], r0[b]));
                } else if a >= m {
                    assert(r@[a] == v2@[i2 + (a - m)]);
                    assert(r@[b] == v2@[i2 + (b - m)]);
                    assert(leq(v2@[i2 + (a - m)], v2@[i2 + (b - m)]));
                } else {
                    assert(leq(r0[a], v2@[i2 as int]));
                    assert(r@[b] == v2@[i2 + (b - m)]);
                    assert(leq(v2@[i2 as int], v2@[i2 + (b - m)]));
                }
            }
        }
    }
    r
}

fn merge_sort_f64(v: &Vec<u64>) -> (r: Vec<u64>)
    ensures
        r@.to_multiset() == v@.to_multiset(),
        sorted_by(r@, f64_leq_fn()),
    decreases v.len(),
{
    broadcast use lemma_multiset_commutative;

    let n = v.len();
    let mut v1 = v.clone();
    if n <= 1 {
        proof {
            lemma_f64_leq_total_ordering();
        }
        v1
    } else {
        let v2 = v1.split_off(n / 2);
        assert(v1@ + v2@ == v@);
        let r1 = merge_sort_f64(&v1);
        let r2 = merge_sort_f64(&v2);
        let r = merge_f64(&r1, &r2);
        proof {
            lemma_multiset_commutative(v1@, v2@);
            lemma_multiset_commutative(r1@, r2@);
        }
        r
    }
}

/// Sorts float bit patterns ascending in the IEEE 754 total order.  The
/// result is exactly the ascending reordering of the input.
pub fn sort_f64_bits(v: &Vec<u64>) -> (r: Vec<u64>)
    ensures
        r@ == sorted_f64s(v@),
        sorted_by(r@, f64_leq_fn()),
        r@.to_multiset() == v@.to_multiset(),
        r@.len() == v@.len(),
{
    broadcast use group_to_multiset_ensures;

    let r = merge_sort_f64(v);
    proof {
        lemma_f64_leq_total_ordering();
        v@.lemma_sort_by_ensures(f64_leq_fn());
        lemma_sorted_unique(r@, v@.sort_by(f64_leq_fn()), f64_leq_fn());
        v@.to_multiset_ensures();
        r@.to_multiset_ensures();
    }
    r
}

fn merge_i64(v1: &Vec<i64>, v2: &Vec<i64>) -> (r: Vec<i64>)
    requires
        sorted_by(v1@, i64_leq_fn()),
        sorted_by(v2@, i64_leq_fn()),
    ensures
        r@.to_multiset() == (v1@ + v2@).to_multiset(),
        sorted_by(r@, i64_leq_fn()),
{
    broadcast use lemma_multiset_commutative;

    let ghost leq = i64_leq_fn();
    proof {
        lemma_i64_leq_total_ordering();
    }
    let mut r: Vec<i64> = Vec::new();
    let mut i1: usize = 0;
    let mut i2: usize = 0;
    assert(v1@.subrange(0 as int, i1 as int) == Seq::<i64>::empty());
    while i1 < v1.len() && i2 < v2.len()
        invariant
            0 <= i1 <= v1.len(),
            0 <= i2 <= v2.len(),
            leq == i64_leq_fn(),
            total_ordering(leq),
            sorted_by(v1@, leq),
            sorted_by(v2@, leq),
            forall|i: int|
                i1 < v1.len() ==> 0 <= i < r.len() ==> #[trigger] leq(r@[i], v1@[i1 as int]),
            forall|i: int|
                i2 < v2.len() ==> 0 <= i < r.len() ==> #[trigger] leq(r@[i], v2@[i2 as int]),
            r@.to_multiset() =~= (v1@.subrange(0 as int, i1 as int) + v2@.subrange(
                0 as int,
                i2 as int,
            )).to_multiset(),
            sorted_by(r@, leq),
        decreases v1.len() + v2.len() - i1 - i2,
    {
        proof {
            r@.to_multiset_ensures();
        }
        if v1[i1] <= v2[i2] {
            assert(leq(v1@[i1 as int], v2@[i2 as int]));
            r.push(v1[i1]);
            proof {
                lemma_multiset_commutative(
                    v1@.subrange(0 as int, i1 as int),
                    v2@.subrange(0 as int, i2 as int),
                );
                v1@.subrange(0 as int, i1 as int).to_multiset_ensures();
                lemma_subrange_push(v1@, 0 as int, i1 as int);
                lemma_multiset_commutative(
                    v1@.subrange(0 as int, (i1 + 1) as int),
                    v2@.subrange(0 as int, i2 as int),
                );
            }
            i1 += 1;
            proof {
                assert forall|i: int| i1 < v1.len() && 0 <= i < r.len() implies #[trigger] leq(
                    r@[i],
                    v1@[i1 as int],
                ) by {
                    assert(leq(v1@[i1 - 1], v1@[i1 as int]));
                    if i < r.len() - 1 {
                        assert(leq(r@[i], v1@[i1 - 1]));
                    } else {
                        assert(r@[i] == v1@[i1 - 1]);
                    }
                }
            }
        } else {
            assert(!leq(v1@[i1 as int], v2@[i2 as int]));
            assert(leq(v2@[i2 as int], v1@[i1 as int]));
            r.push(v2[i2]);
            proof {
                lemma_multiset_commutative(
                    v1@.subrange(0 as int, i1 as int),
                    v2@.subrange(0 as int, i2 as int),
                );
                v2@.subrange(0 as int, i2 as int).to_multiset_ensures();
                lemma_subrange_push(v2@, 0 as int, i2 as int);
                lemma_multiset_commutative(
                    v1@.subrange(0 as int, i1 as int),
                    v2@.subrange(0 as int, (i2 + 1) as int),
                );
            }
            i2 += 1;
            proof {
                assert forall|i: int| i2 < v2.len() && 0 <= i < r.len() implies #[trigger] leq(
                    r@[i],
                    v2@[i2 as int],
                ) by {
                    assert(leq(v2@[i2 - 1], v2@[i2 as int]));
                    if i < r.len() - 1 {
                        assert(leq(r@[i], v2@[i2 - 1]));
                    } else {
                        assert(r@[i] == v2@[i2 - 1]);
                    }
                }
            }
        }
    }
    assert(v1@.subrange(0 as int, v1.len() as int) =~= v1@);
    assert(v2@.subrange(0 as int, v2.len() as int) =~= v2@);
    if i1 < v1.len() {
        let ghost r0 = r@;
        extend_from_idx(&mut r, v1, i1);
        proof {
            lemma_subrange_add(v1@, 0 as int, i1 as int, v1.len() as int);
            assert(r@.to_multiset() =~= (v1@ + v2@).to_multiset());
            assert forall|a: int, b: int| 0 <= a < b < r@.len() implies #[trigger] leq(
                r@[a],
                r@[b],
            ) by {
                let m = r0.len() as int;
                if b < m {
                    assert(leq(r0[a], r0[b]));
                } else if a >= m {
                    assert(r@[a] == v1@[i1 + (a - m)]);
                    assert(r@[b] == v1@[i1 + (b - m)]);
                    assert(leq(v1@[i1 + (a - m)], v1@[i1 + (b - m)]));
                } else {
                    assert(leq(r0[a], v1@[i1 as int]));
                    assert(r@[b] == v1@[i1 + (b - m)]);
                    assert(leq(v1@[i1 as int], v1@[i1 + (b - m)]));
                }
            }
        }
    } else if i2 < v2.len() {
        let ghost r0 = r@;
        extend_from_idx(&mut r, v2, i2);
        proof {
            lemma_subrange_add(v2@, 0 as int, i2 as int, v2.len() as int);
            assert(r@.to_multiset() =~= (v1@ + v2@).to_multiset());
            assert forall|a: int, b: int| 0 <= a < b < r@.len() implies #[trigger] leq(
                r@[a],
                r@[b],
            ) by {
                let m = r0.len() as int;
                if b < m {
                    assert(leq(r0[a], r0[b]));
                } else if a >= m {
                    assert(r@[a] == v2@[i2 + (a - m)]);
                    assert(r@[b] == v2@[i2 + (b - m)]);
                    assert(leq(v2@[i2 + (a - m)], v2@[i2 + (b - m)]));
                } else {
                    assert(leq(r0[a], v2@[i2 as int]));
                    assert(r@[b] == v2@[i2 + (b - m)]);
                    assert(leq(v2@[i2 as int], v2@[i2 + (b - m)]));
                }
            }
        }
    }
    r
}

fn merge_sort_i64(v: &Vec<i64>) -> (r: Vec<i64>)
    ensures
        r@.to_multiset() == v@.to_multiset(),
        sorted_by(r@, i64_leq_fn()),
    decreases v.len(),
{
    broadcast use lemma_multiset_commutative;

    let n = v.len();
    let mut v1 = v.clone();
    if n <= 1 {
        proof {
            lemma_i64_leq_total_ordering();
        }
        v1
    } else {
        let v2 = v1.split_off(n / 2);
        assert(v1@ + v2@ == v@);
        let r1 = merge_sort_i64(&v1);
        let r2 = merge_sort_i64(&v2);
        let r = merge_i64(&r1, &r2);
        proof {
            lemma_multiset_commutative(v1@, v2@);
            lemma_multiset_commutative(r1@, r2@);
        }
        r
    }
}

/// Sorts 64-bit integers ascending.  The result is exactly the ascending
/// reordering of the input.
pub fn sort_i64_vec(v: &Vec<i64>) -> (r: Vec<i64>)
    ensures
        r@ == sorted_i64s(v@),
        sorted_by(r@, i64_leq_fn()),
        r@.to_multiset() == v@.to_multiset(),
        r@.len() == v@.len(),
{
    broadcast use group_to_multiset_ensures;

    let r = merge_sort_i64(v);
    proof {
        lemma_i64_leq_total_ordering();
        v@.lemma_sort_by_ensures(i64_leq_fn());
        lemma_sorted_unique(r@, v@.sort_by(i64_leq_fn()), i64_leq_fn());
        v@.to_multiset_ensures();
        r@.to_multiset_ensures();
    }
    r
}

} // verus!

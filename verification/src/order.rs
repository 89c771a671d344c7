//! Sorting numbers, and the median that the pump heuristic compares against.

use vstd::prelude::*;
use vstd::relations::{sorted_by, total_ordering};

verus! {

/// The usual order of numbers.
pub open spec fn u32_leq() -> spec_fn(u32, u32) -> bool {
    |a: u32, b: u32| a <= b
}

/// The element at the middle position (`len / 2`, the upper one of the two
/// middle elements of an even count) of the sorted sequence, as picking
/// `sorted[len / 2]` after sorting gives it.
pub open spec fn median_spec(s: Seq<u32>) -> u32 {
    s.sort_by(u32_leq())[s.len() as int / 2]
}

proof fn lemma_u32_leq_total()
    ensures
        total_ordering(u32_leq()),
{
}

/// The median is the middle element of any ascending arrangement of the same
/// numbers: it does not depend on the order the numbers come in.
pub proof fn law_median_of_sorted(s: Seq<u32>, p: Seq<u32>)
    requires
        s.len() > 0,
        p.to_multiset() == s.to_multiset(),
        forall|a: int, b: int| 0 <= a < b < p.len() ==> #[trigger] p[a] <= #[trigger] p[b],
    ensures
        p.len() == s.len(),
        median_spec(s) == p[p.len() as int / 2],
{
    broadcast use vstd::seq_lib::group_to_multiset_ensures;

    lemma_u32_leq_total();
    s.lemma_sort_by_ensures(u32_leq());
    assert(sorted_by(p, u32_leq())) by {
        assert forall|a: int, b: int| 0 <= a < b < p.len() implies #[trigger] u32_leq()(p[a], p[b]) by {
            assert(p[a] <= p[b]);
        }
    }
    vstd::seq_lib::lemma_sorted_unique(p, s.sort_by(u32_leq()), u32_leq());
    assert(p.to_multiset().len() == p.len());
    assert(s.to_multiset().len() == s.len());
}

/// Numbers that are a rearrangement of each other have the same median.
pub proof fn law_median_order_free(s: Seq<u32>, t: Seq<u32>)
    requires
        s.len() > 0,
        s.to_multiset() == t.to_multiset(),
    ensures
        median_spec(s) == median_spec(t),
{
    broadcast use vstd::seq_lib::group_to_multiset_ensures;

    lemma_u32_leq_total();
    t.lemma_sort_by_ensures(u32_leq());
    let p = t.sort_by(u32_leq());
    assert(t.to_multiset().len() == t.len());
    assert(s.to_multiset().len() == s.len());
    assert forall|a: int, b: int| 0 <= a < b < p.len() implies #[trigger] p[a] <= #[trigger] p[b] by {
        assert(u32_leq()(p[a], p[b]));
    }
    law_median_of_sorted(s, p);
    law_median_of_sorted(t, p);
}

/// The numbers of `v` in ascending order.
pub fn sort_u32(v: &Vec<u32>) -> (r: Vec<u32>)
    ensures
        r@ == v@.sort_by(u32_leq()),
{
    broadcast use vstd::seq_lib::group_to_multiset_ensures;

    let mut r: Vec<u32> = Vec::new();
    let mut i: usize = 0;
    assert(v@.take(0) =~= Seq::<u32>::empty());
    while i < v.len()
        invariant
            i <= v@.len(),
            sorted_by(r@, u32_leq()),
            r@.to_multiset() == v@.take(i as int).to_multiset(),
        decreases v@.len() - i,
    {
        let x = v[i];
        let mut p: usize = 0;
        while p < r.len() && r[p] <= x
            invariant
                p <= r@.len(),
                forall|q: int| 0 <= q < p ==> r@[q] <= x,
            decreases r@.len() - p,
        {
            p = p + 1;
        }
        let ghost old_r = r@;
        proof {
            assert forall|q: int| p <= q < old_r.len() implies x < old_r[q] by {
                assert(x < old_r[p as int]);
                if q > p {
                    assert(u32_leq()(old_r[p as int], old_r[q]));
                }
            }
        }
        r.insert(p, x);
        proof {
            assert(r@ == old_r.insert(p as int, x));
            assert forall|a: int, b: int| 0 <= a < b < r@.len() implies #[trigger] u32_leq()(r@[a], r@[b]) by {
                if b < p {
                    assert(u32_leq()(old_r[a], old_r[b]));
                } else if b == p {
                    assert(r@[a] == old_r[a]);
                } else if a == p {
                    assert(r@[b] == old_r[b - 1]);
                } else if a < p {
                    assert(r@[b] == old_r[b - 1]);
                    assert(old_r[a] <= x);
                } else {
                    assert(u32_leq()(old_r[a - 1], old_r[b - 1]));
                }
            }
            assert(v@.take(i + 1) =~= v@.take(i as int).push(x));
            vstd::seq_lib::to_multiset_insert(old_r, p as int, x);
            vstd::seq_lib::to_multiset_build(v@.take(i as int), x);
        }
        i = i + 1;
    }
    proof {
        assert(v@.take(v@.len() as int) =~= v@);
        lemma_u32_leq_total();
        v@.lemma_sort_by_ensures(u32_leq());
        vstd::seq_lib::lemma_sorted_unique(r@, v@.sort_by(u32_leq()), u32_leq());
    }
    r
}

/// The middle element of the numbers of `v` after sorting them.
pub fn median(v: &Vec<u32>) -> (m: u32)
    requires
        v@.len() > 0,
    ensures
        m == median_spec(v@),
{
    let sorted = sort_u32(v);
    proof {
        lemma_u32_leq_total();
        v@.lemma_sort_by_ensures(u32_leq());
        broadcast use vstd::seq_lib::group_to_multiset_ensures;
        assert(v@.to_multiset().len() == v@.len());
        assert(sorted@.to_multiset().len() == sorted@.len());
        assert(sorted@.len() == v@.len());
    }
    sorted[sorted.len() / 2]
}

} // verus!

//! Sorting pairs of numbers: by the first, and by the second where the first
//! are equal.
use vstd::prelude::*;
use vstd::relations::{sorted_by, total_ordering};
use vstd::seq_lib::{lemma_multiset_commutative, lemma_sorted_unique};

verus! {

broadcast use vstd::seq_lib::group_to_multiset_ensures;

/// The order of pairs.
pub open spec fn pair_leq(a: (i64, i64), b: (i64, i64)) -> bool {
    a.0 < b.0 || (a.0 == b.0 && a.1 <= b.1)
}

/// The pairs in ascending order.
pub open spec fn sorted_pairs(s: Seq<(i64, i64)>) -> Seq<(i64, i64)> {
    s.sort_by(|a: (i64, i64), b: (i64, i64)| pair_leq(a, b))
}

pub open spec fn pairs_ascend(s: Seq<(i64, i64)>) -> bool {
    forall|i: int, j: int| 0 <= i < j < s.len() ==> pair_leq(#[trigger] s[i], #[trigger] s[j])
}

/// Sorted pairs ascend and are the same pairs.
pub proof fn lemma_sorted_pairs(s: Seq<(i64, i64)>)
    ensures
        pairs_ascend(sorted_pairs(s)),
        sorted_pairs(s).to_multiset() == s.to_multiset(),
        sorted_pairs(s).len() == s.len(),
{
    let leq = |a: (i64, i64), b: (i64, i64)| pair_leq(a, b);
    assert(total_ordering(leq));
    s.lemma_sort_by_ensures(leq);
    let r = sorted_pairs(s);
    assert forall|i: int, j: int| 0 <= i < j < r.len() implies pair_leq(
        #[trigger] r[i],
        #[trigger] r[j],
    ) by {
        assert(leq(r[i], r[j]));
    }
    assert(r.to_multiset().len() == r.len());
    assert(s.to_multiset().len() == s.len());
}

/// There is one way to sort pairs.
pub proof fn lemma_sorted_pairs_unique(s: Seq<(i64, i64)>, r: Seq<(i64, i64)>)
    requires
        pairs_ascend(r),
        r.to_multiset() == s.to_multiset(),
    ensures
        r == sorted_pairs(s),
{
    let leq = |a: (i64, i64), b: (i64, i64)| pair_leq(a, b);
    assert(total_ordering(leq));
    lemma_sorted_pairs(s);
    assert(sorted_by(r, leq));
    let t = sorted_pairs(s);
    assert(sorted_by(t, leq)) by {
        assert forall|i: int, j: int| 0 <= i < j < t.len() implies #[trigger] leq(t[i], t[j]) by {
            assert(pair_leq(t[i], t[j]));
        }
    }
    lemma_sorted_unique(r, t, leq);
}

fn pair_before(a: (i64, i64), b: (i64, i64)) -> (r: bool)
    ensures
        r == pair_leq(a, b),
{
    a.0 < b.0 || (a.0 == b.0 && a.1 <= b.1)
}

fn merge_pairs(a: &Vec<(i64, i64)>, b: &Vec<(i64, i64)>) -> (r: Vec<(i64, i64)>)
    requires
        pairs_ascend(a@),
        pairs_ascend(b@),
    ensures
        pairs_ascend(r@),
        r@.to_multiset() == a@.to_multiset().add(b@.to_multiset()),
{
    let mut out: Vec<(i64, i64)> = Vec::new();
    let mut i: usize = 0;
    let mut j: usize = 0;
    proof {
        assert(a@.take(0) =~= Seq::empty());
        assert(b@.take(0) =~= Seq::empty());
        assert(out@.to_multiset() =~= a@.take(0).to_multiset().add(b@.take(0).to_multiset()));
    }
    while i < a.len() || j < b.len()
        invariant
            i <= a@.len(),
            j <= b@.len(),
            pairs_ascend(a@),
            pairs_ascend(b@),
            pairs_ascend(out@),
            out@.to_multiset() == a@.take(i as int).to_multiset().add(
                b@.take(j as int).to_multiset(),
            ),
            forall|k: int, m: int|
                0 <= k < out@.len() && i <= m < a@.len() ==> pair_leq(
                    #[trigger] out@[k],
                    #[trigger] a@[m],
                ),
            forall|k: int, m: int|
                0 <= k < out@.len() && j <= m < b@.len() ==> pair_leq(
                    #[trigger] out@[k],
                    #[trigger] b@[m],
                ),
        decreases (a@.len() - i) + (b@.len() - j),
    {
        let from_a = if i == a.len() {
            false
        } else if j == b.len() {
            true
        } else {
            pair_before(a[i], b[j])
        };
        if from_a {
            let x = a[i];
            proof {
                assert(a@.take(i + 1) =~= a@.take(i as int).push(x));
                assert(out@.push(x).to_multiset() =~= a@.take(i + 1).to_multiset().add(
                    b@.take(j as int).to_multiset(),
                ));
            }
            out.push(x);
            i += 1;
        } else {
            let x = b[j];
            proof {
                assert(b@.take(j + 1) =~= b@.take(j as int).push(x));
                assert(out@.push(x).to_multiset() =~= a@.take(i as int).to_multiset().add(
                    b@.take(j + 1).to_multiset(),
                ));
            }
            out.push(x);
            j += 1;
        }
    }
    proof {
        assert(a@.take(i as int) =~= a@);
        assert(b@.take(j as int) =~= b@);
    }
    out
}

fn sort_range(v: &Vec<(i64, i64)>, lo: usize, hi: usize) -> (r: Vec<(i64, i64)>)
    requires
        lo <= hi <= v@.len(),
    ensures
        pairs_ascend(r@),
        r@.to_multiset() == v@.subrange(lo as int, hi as int).to_multiset(),
    decreases hi - lo,
{
    if hi - lo <= 1 {
        let mut r: Vec<(i64, i64)> = Vec::new();
        if lo < hi {
            r.push(v[lo]);
        }
        proof {
            assert(r@ =~= v@.subrange(lo as int, hi as int));
        }
        return r;
    }
    let mid: usize = lo + (hi - lo) / 2;
    let left = sort_range(v, lo, mid);
    let right = sort_range(v, mid, hi);
    proof {
        let a = v@.subrange(lo as int, mid as int);
        let b = v@.subrange(mid as int, hi as int);
        assert(v@.subrange(lo as int, hi as int) =~= a + b);
        lemma_multiset_commutative(a, b);
    }
    merge_pairs(&left, &right)
}

/// The pairs in ascending order.
pub fn sort_pairs(v: &Vec<(i64, i64)>) -> (r: Vec<(i64, i64)>)
    ensures
        r@ == sorted_pairs(v@),
{
    let r = sort_range(v, 0, v.len());
    proof {
        assert(v@.subrange(0, v@.len() as int) =~= v@);
        lemma_sorted_pairs_unique(v@, r@);
    }
    r
}

/// Sorted pairs are the same pairs, those with the smaller first number first, and those
/// with the smaller second number first where the first are equal.
pub proof fn law_sorted_by_the_first_number(s: Seq<(i64, i64)>, i: int, j: int)
    requires
        0 <= i < j < sorted_pairs(s).len(),
    ensures
        sorted_pairs(s)[i].0 <= sorted_pairs(s)[j].0,
        sorted_pairs(s)[i].0 == sorted_pairs(s)[j].0 ==> sorted_pairs(s)[i].1
            <= sorted_pairs(s)[j].1,
        sorted_pairs(s).to_multiset() == s.to_multiset(),
{
    lemma_sorted_pairs(s);
    assert(pair_leq(sorted_pairs(s)[i], sorted_pairs(s)[j]));
}

} // verus!

//! The union of time windows: how long something went on, however many windows
//! tell of it at once.
use crate::sorting::{lemma_sorted_pairs, pair_leq, pairs_ascend, sort_pairs, sorted_pairs};
use vstd::prelude::*;

verus! {

/// The windows with the overlapping and touching ones made one. The windows
/// come in ascending order; `cur` is the one that is still growing.
pub open spec fn fused(s: Seq<(i64, i64)>) -> Seq<(i64, i64)>
    decreases s.len(),
{
    if s.len() == 0 {
        Seq::empty()
    } else {
        let r = fused(s.drop_last());
        let w = s.last();
        if r.len() > 0 && w.0 <= r.last().1 {
            r.update(
                r.len() - 1,
                (
                    r.last().0,
                    if w.1 > r.last().1 {
                        w.1
                    } else {
                        r.last().1
                    },
                ),
            )
        } else {
            r.push(w)
        }
    }
}

/// The union of windows, as separate windows in order.
pub open spec fn union_of(s: Seq<(i64, i64)>) -> Seq<(i64, i64)> {
    fused(sorted_pairs(s))
}

/// The union of windows, as separate windows in order.
pub fn interval_union(intervals: &Vec<(i64, i64)>) -> (r: Vec<(i64, i64)>)
    ensures
        r@ == union_of(intervals@),
{
    let ordered = sort_pairs(intervals);
    let mut out: Vec<(i64, i64)> = Vec::new();
    let mut i: usize = 0;
    proof {
        assert(out@ =~= fused(ordered@.take(0)));
    }
    while i < ordered.len()
        invariant
            i <= ordered@.len(),
            out@ == fused(ordered@.take(i as int)),
        decreases ordered@.len() - i,
    {
        let w = ordered[i];
        proof {
            assert(ordered@.take(i + 1).drop_last() =~= ordered@.take(i as int));
            assert(ordered@.take(i + 1).last() == w);
        }
        let n: usize = out.len();
        if n > 0 && w.0 <= out[n - 1].1 {
            let last = out[n - 1];
            let e: i64 = if w.1 > last.1 {
                w.1
            } else {
                last.1
            };
            out.set(n - 1, (last.0, e));
        } else {
            out.push(w);
        }
        i += 1;
    }
    proof {
        assert(ordered@.take(i as int) =~= ordered@);
    }
    out
}

/// `t` lies in one of the windows.
pub open spec fn covers(s: Seq<(i64, i64)>, t: int) -> bool {
    exists|i: int| 0 <= i < s.len() && (#[trigger] s[i]).0 <= t <= s[i].1
}

/// The windows are in order, none of them touches the next, and each runs
/// forward.
pub open spec fn apart(s: Seq<(i64, i64)>) -> bool {
    &&& forall|i: int| 0 <= i < s.len() ==> (#[trigger] s[i]).0 <= s[i].1
    &&& forall|i: int, j: int|
        0 <= i < j < s.len() ==> (#[trigger] s[i]).1 < (#[trigger] s[j]).0
}

proof fn lemma_fused(s: Seq<(i64, i64)>, t: int)
    requires
        pairs_ascend(s),
        forall|i: int| 0 <= i < s.len() ==> (#[trigger] s[i]).0 <= s[i].1,
    ensures
        apart(fused(s)),
        covers(fused(s), t) <==> covers(s, t),
        s.len() > 0 ==> fused(s).len() > 0 && fused(s).last().0 <= s.last().0,
    decreases s.len(),
{
    if s.len() > 0 {
        let d = s.drop_last();
        let r = fused(d);
        let w = s.last();
        let out = fused(s);
        assert(w == s[s.len() - 1]);
        assert(pairs_ascend(d)) by {
            assert forall|i: int, j: int| 0 <= i < j < d.len() implies pair_leq(
                #[trigger] d[i],
                #[trigger] d[j],
            ) by {
                assert(d[i] == s[i] && d[j] == s[j]);
            }
        }
        assert forall|i: int| 0 <= i < d.len() implies (#[trigger] d[i]).0 <= d[i].1 by {
            assert(d[i] == s[i]);
        }
        lemma_fused(d, t);
        if d.len() > 0 {
            assert(pair_leq(s[s.len() - 2], s[s.len() - 1]));
            assert(d.last() == s[s.len() - 2]);
        }
        if covers(d, t) {
            let i = choose|i: int| 0 <= i < d.len() && (#[trigger] d[i]).0 <= t <= d[i].1;
            assert(s[i].0 <= t <= s[i].1);
        }
        if covers(s, t) {
            let i = choose|i: int| 0 <= i < s.len() && (#[trigger] s[i]).0 <= t <= s[i].1;
            if i < d.len() {
                assert(d[i].0 <= t <= d[i].1);
            }
        }
        let n = r.len() - 1;
        if r.len() > 0 && w.0 <= r.last().1 {
            assert(r.last() == r[n]);
            if covers(r, t) {
                let i = choose|i: int| 0 <= i < r.len() && (#[trigger] r[i]).0 <= t <= r[i].1;
                assert(out[i].0 <= t <= out[i].1);
            }
            if w.0 <= t <= w.1 {
                assert(out[n].0 <= t <= out[n].1);
            }
            if covers(out, t) {
                let i = choose|i: int| 0 <= i < out.len() && (#[trigger] out[i]).0 <= t <= out[i].1;
                if i < n {
                    assert(r[i].0 <= t <= r[i].1);
                } else if t <= r[n].1 {
                    assert(r[n].0 <= t <= r[n].1);
                } else {
                    assert(s[s.len() - 1].0 <= t <= s[s.len() - 1].1);
                }
            }
            assert forall|i: int, j: int| 0 <= i < j < out.len() implies (#[trigger] out[i]).1 < (
            #[trigger] out[j]).0 by {
                assert(r[i].1 < r[j].0);
            }
            assert forall|i: int| 0 <= i < out.len() implies (#[trigger] out[i]).0 <= out[i].1 by {
                assert(r[i].0 <= r[i].1);
            }
        } else {
            if covers(r, t) {
                let i = choose|i: int| 0 <= i < r.len() && (#[trigger] r[i]).0 <= t <= r[i].1;
                assert(out[i].0 <= t <= out[i].1);
            }
            if w.0 <= t <= w.1 {
                assert(out[n + 1].0 <= t <= out[n + 1].1);
            }
            if covers(out, t) {
                let i = choose|i: int| 0 <= i < out.len() && (#[trigger] out[i]).0 <= t <= out[i].1;
                if i <= n {
                    assert(r[i].0 <= t <= r[i].1);
                }
            }
            assert forall|i: int, j: int| 0 <= i < j < out.len() implies (#[trigger] out[i]).1 < (
            #[trigger] out[j]).0 by {
                if j <= n {
                    assert(r[i].1 < r[j].0);
                } else {
                    assert(r[i].1 <= r[n].1) by {
                        if i < n {
                            assert(r[i].1 < r[n].0);
                            assert(r[n].0 <= r[n].1);
                        }
                    }
                    assert(r.last() == r[n]);
                }
            }
            assert forall|i: int| 0 <= i < out.len() implies (#[trigger] out[i]).0 <= out[i].1 by {
                if i <= n {
                    assert(r[i].0 <= r[i].1);
                }
            }
        }
    }
}

/// The union of windows that run forward covers exactly the times that they
/// cover, by windows that are in order and apart: nothing is counted twice.
pub proof fn law_union_counts_once(s: Seq<(i64, i64)>, t: int)
    requires
        forall|i: int| 0 <= i < s.len() ==> (#[trigger] s[i]).0 <= s[i].1,
    ensures
        apart(union_of(s)),
        covers(union_of(s), t) <==> covers(s, t),
{
    broadcast use vstd::seq_lib::group_to_multiset_ensures;

    lemma_sorted_pairs(s);
    let r = sorted_pairs(s);
    assert forall|i: int| 0 <= i < r.len() implies (#[trigger] r[i]).0 <= r[i].1 by {
        assert(r.contains(r[i]));
        assert(r.to_multiset().count(r[i]) > 0);
        assert(s.contains(r[i]));
        let k = choose|k: int| 0 <= k < s.len() && s[k] == r[i];
        assert(s[k].0 <= s[k].1);
    }
    lemma_fused(r, t);
    if covers(s, t) {
        let i = choose|i: int| 0 <= i < s.len() && (#[trigger] s[i]).0 <= t <= s[i].1;
        assert(s.contains(s[i]));
        assert(s.to_multiset().count(s[i]) > 0);
        assert(r.contains(s[i]));
        let k = choose|k: int| 0 <= k < r.len() && r[k] == s[i];
        assert(r[k].0 <= t <= r[k].1);
    }
    if covers(r, t) {
        let i = choose|i: int| 0 <= i < r.len() && (#[trigger] r[i]).0 <= t <= r[i].1;
        assert(r.contains(r[i]));
        assert(r.to_multiset().count(r[i]) > 0);
        assert(s.contains(r[i]));
        let k = choose|k: int| 0 <= k < s.len() && s[k] == r[i];
        assert(s[k].0 <= t <= s[k].1);
    }
}

/// The union of windows inside `[lo, hi]` lies inside it.
pub proof fn law_union_stays_within(s: Seq<(i64, i64)>, lo: i64, hi: i64, k: int)
    requires
        forall|i: int| 0 <= i < s.len() ==> lo <= (#[trigger] s[i]).0 <= s[i].1 <= hi,
        0 <= k < union_of(s).len(),
    ensures
        lo <= union_of(s)[k].0 <= union_of(s)[k].1 <= hi,
{
    let u = union_of(s);
    law_union_counts_once(s, u[k].0 as int);
    law_union_counts_once(s, u[k].1 as int);
    assert(u[k].0 <= u[k].1);
    assert(covers(u, u[k].0 as int));
    assert(covers(u, u[k].1 as int));
    let a = choose|i: int| 0 <= i < s.len() && (#[trigger] s[i]).0 <= u[k].0 <= s[i].1;
    let b = choose|i: int| 0 <= i < s.len() && (#[trigger] s[i]).0 <= u[k].1 <= s[i].1;
    assert(lo <= s[a].0 && s[b].1 <= hi);
}

} // verus!

//! The order of strings. Strings are ordered character by character by code
//! point, which is also the order of their UTF-8 bytes.
use vstd::prelude::*;

verus! {

/// `a` stands before `b`.
pub open spec fn lex_less(a: Seq<char>, b: Seq<char>) -> bool
    decreases b.len(),
{
    if b.len() == 0 {
        false
    } else if a.len() == 0 {
        true
    } else if a[0] == b[0] {
        lex_less(a.skip(1), b.skip(1))
    } else {
        a[0] < b[0]
    }
}

/// A sequence of strings in strictly ascending order.
pub open spec fn ascending(s: Seq<Seq<char>>) -> bool {
    forall|i: int, j: int| 0 <= i < j < s.len() ==> lex_less(#[trigger] s[i], #[trigger] s[j])
}

pub proof fn lemma_less_irreflexive(a: Seq<char>)
    ensures
        !lex_less(a, a),
    decreases a.len(),
{
    if a.len() > 0 {
        lemma_less_irreflexive(a.skip(1));
    }
}

pub proof fn lemma_less_transitive(a: Seq<char>, b: Seq<char>, c: Seq<char>)
    requires
        lex_less(a, b),
        lex_less(b, c),
    ensures
        lex_less(a, c),
    decreases c.len(),
{
    if a.len() > 0 && b.len() > 0 && c.len() > 0 && a[0] == b[0] && b[0] == c[0] {
        lemma_less_transitive(a.skip(1), b.skip(1), c.skip(1));
    }
}

pub proof fn lemma_less_total(a: Seq<char>, b: Seq<char>)
    ensures
        a == b || lex_less(a, b) || lex_less(b, a),
    decreases a.len(),
{
    if a.len() > 0 && b.len() > 0 && a[0] == b[0] {
        lemma_less_total(a.skip(1), b.skip(1));
        if a.skip(1) == b.skip(1) {
            assert forall|i: int| 0 <= i < a.len() implies a[i] == b[i] by {
                if i > 0 {
                    assert(a.skip(1)[i - 1] == b.skip(1)[i - 1]);
                }
            }
            assert(a.len() == a.skip(1).len() + 1);
            assert(b.len() == b.skip(1).len() + 1);
            assert(a =~= b);
        }
    } else if a.len() == 0 && b.len() == 0 {
        assert(a =~= b);
    }
}

/// What two strings have in common at the front does not count.
pub proof fn lemma_less_same_front(c: Seq<char>, x: Seq<char>, y: Seq<char>)
    ensures
        lex_less(c + x, c + y) == lex_less(x, y),
    decreases c.len(),
{
    if c.len() == 0 {
        assert(c + x =~= x);
        assert(c + y =~= y);
    } else {
        lemma_less_same_front(c.skip(1), x, y);
        assert((c + x).skip(1) =~= c.skip(1) + x);
        assert((c + y).skip(1) =~= c.skip(1) + y);
    }
}

/// Where two fronts of one length differ, what follows them does not count.
pub proof fn lemma_less_by_front(x: Seq<char>, y: Seq<char>, u: Seq<char>, v: Seq<char>)
    requires
        x.len() == y.len(),
        lex_less(x, y),
    ensures
        lex_less(x + u, y + v),
    decreases x.len(),
{
    if x.len() > 0 {
        assert((x + u)[0] == x[0]);
        assert((y + v)[0] == y[0]);
        if x[0] == y[0] {
            lemma_less_by_front(x.skip(1), y.skip(1), u, v);
            assert((x + u).skip(1) =~= x.skip(1) + u);
            assert((y + v).skip(1) =~= y.skip(1) + v);
        }
    }
}

/// Whether `a` stands before `b`.
pub fn precedes(a: &Vec<char>, b: &Vec<char>) -> (r: bool)
    ensures
        r == lex_less(a@, b@),
{
    let mut i: usize = 0;
    proof {
        assert(a@.skip(0) =~= a@);
        assert(b@.skip(0) =~= b@);
    }
    loop
        invariant
            i <= a@.len(),
            i <= b@.len(),
            lex_less(a@, b@) == lex_less(a@.skip(i as int), b@.skip(i as int)),
        decreases a@.len() - i,
    {
        if i == b.len() {
            return false;
        }
        if i == a.len() {
            return true;
        }
        if a[i] != b[i] {
            return a[i] < b[i];
        }
        proof {
            assert(a@.skip(i as int).skip(1) =~= a@.skip(i + 1));
            assert(b@.skip(i as int).skip(1) =~= b@.skip(i + 1));
        }
        i += 1;
    }
}

/// How many of the strings stand before `x`.
pub open spec fn rank(s: Seq<Seq<char>>, x: Seq<char>) -> nat
    decreases s.len(),
{
    if s.len() == 0 {
        0
    } else {
        rank(s.drop_last(), x) + if lex_less(s.last(), x) {
            1nat
        } else {
            0nat
        }
    }
}

pub proof fn lemma_rank_is(s: Seq<Seq<char>>, x: Seq<char>, p: int)
    requires
        0 <= p <= s.len(),
        forall|i: int| 0 <= i < p ==> lex_less(#[trigger] s[i], x),
        forall|i: int| p <= i < s.len() ==> !lex_less(#[trigger] s[i], x),
    ensures
        rank(s, x) == p,
    decreases s.len(),
{
    if s.len() > 0 {
        let d = s.drop_last();
        if p == s.len() {
            lemma_rank_is(d, x, p - 1);
        } else {
            lemma_rank_is(d, x, p);
        }
    }
}

pub open spec fn char_seqs(v: Seq<Vec<char>>) -> Seq<Seq<char>> {
    v.map_values(|k: Vec<char>| k@)
}

/// The place of `x` among ascending keys: how many of them stand before it.
pub fn find_rank(keys: &Vec<Vec<char>>, x: &Vec<char>) -> (p: usize)
    requires
        ascending(char_seqs(keys@)),
    ensures
        p == rank(char_seqs(keys@), x@),
        p <= keys@.len(),
        forall|i: int| 0 <= i < p ==> lex_less(#[trigger] char_seqs(keys@)[i], x@),
        forall|i: int| p <= i < keys@.len() ==> !lex_less(#[trigger] char_seqs(keys@)[i], x@),
{
    let ghost s = char_seqs(keys@);
    let mut lo: usize = 0;
    let mut hi: usize = keys.len();
    while lo < hi
        invariant
            lo <= hi <= keys@.len(),
            s == char_seqs(keys@),
            ascending(s),
            forall|i: int| 0 <= i < lo ==> lex_less(#[trigger] s[i], x@),
            forall|i: int| hi <= i < s.len() ==> !lex_less(#[trigger] s[i], x@),
        decreases hi - lo,
    {
        let mid: usize = lo + (hi - lo) / 2;
        proof {
            assert(s[mid as int] == keys@[mid as int]@);
        }
        if precedes(&keys[mid], x) {
            proof {
                assert forall|i: int| 0 <= i < mid + 1 implies lex_less(#[trigger] s[i], x@) by {
                    if i < mid {
                        lemma_less_transitive(s[i], s[mid as int], x@);
                    }
                }
            }
            lo = mid + 1;
        } else {
            proof {
                assert forall|i: int| mid <= i < s.len() implies !lex_less(#[trigger] s[i], x@) by {
                    if i > mid && lex_less(s[i], x@) {
                        lemma_less_transitive(s[mid as int], s[i], x@);
                    }
                }
            }
            hi = mid;
        }
    }
    proof {
        lemma_rank_is(s, x@, lo as int);
    }
    lo
}

pub fn same_chars(a: &Vec<char>, b: &Vec<char>) -> (r: bool)
    ensures
        r == (a@ == b@),
{
    if a.len() != b.len() {
        return false;
    }
    let mut i: usize = 0;
    while i < a.len()
        invariant
            i <= a@.len() == b@.len(),
            forall|j: int| 0 <= j < i ==> a@[j] == b@[j],
        decreases a@.len() - i,
    {
        if a[i] != b[i] {
            return false;
        }
        i += 1;
    }
    proof {
        assert(a@ =~= b@);
    }
    true
}

/// The first character in which two texts differ decides which stands first; and a text
/// stands before what only goes on from it.
pub proof fn law_the_first_difference_decides(
    c: Seq<char>,
    a: char,
    x: Seq<char>,
    b: char,
    y: Seq<char>,
)
    requires
        a < b,
    ensures
        lex_less(c + (seq![a] + x), c + (seq![b] + y)),
        !lex_less(c + (seq![b] + y), c + (seq![a] + x)),
        lex_less(c, c + (seq![a] + x)),
        !lex_less(c + (seq![a] + x), c),
{
    let p = seq![a] + x;
    let q = seq![b] + y;
    let e = Seq::<char>::empty();
    assert(p[0] == a);
    assert(q[0] == b);
    lemma_less_same_front(c, p, q);
    lemma_less_same_front(c, q, p);
    lemma_less_same_front(c, e, p);
    lemma_less_same_front(c, p, e);
    assert(c + e =~= c);
}

} // verus!

//! The order of paths: part by part, the root before `.`, that before `..`, that
//! before names.
use crate::order::{
    lemma_less_irreflexive, lemma_less_total, lemma_less_transitive, lex_less, precedes,
};
use crate::paths::{Part, PathPart, part_views};
use crate::text::to_chars;
use vstd::prelude::*;
use vstd::string::*;

verus! {

pub open spec fn part_rank(p: PathPart) -> int {
    match p {
        PathPart::Root => 0,
        PathPart::Current => 1,
        PathPart::Up => 2,
        PathPart::Name(_) => 3,
    }
}

pub open spec fn part_less(a: PathPart, b: PathPart) -> bool {
    match (a, b) {
        (PathPart::Name(x), PathPart::Name(y)) => lex_less(x, y),
        _ => part_rank(a) < part_rank(b),
    }
}

/// `a` stands before `b`.
pub open spec fn path_less(a: Seq<PathPart>, b: Seq<PathPart>) -> bool
    decreases b.len(),
{
    if b.len() == 0 {
        false
    } else if a.len() == 0 {
        true
    } else if a[0] == b[0] {
        path_less(a.skip(1), b.skip(1))
    } else {
        part_less(a[0], b[0])
    }
}

proof fn lemma_part_order(a: PathPart, b: PathPart, c: PathPart)
    ensures
        !part_less(a, a),
        part_less(a, b) && part_less(b, c) ==> part_less(a, c),
        a == b || part_less(a, b) || part_less(b, a),
{
    match (a, b, c) {
        (PathPart::Name(x), PathPart::Name(y), PathPart::Name(z)) => {
            lemma_less_irreflexive(x);
            lemma_less_total(x, y);
            if lex_less(x, y) && lex_less(y, z) {
                lemma_less_transitive(x, y, z);
            }
        },
        (PathPart::Name(x), PathPart::Name(y), _) => {
            lemma_less_irreflexive(x);
            lemma_less_total(x, y);
        },
        (PathPart::Name(x), _, _) => {
            lemma_less_irreflexive(x);
        },
        _ => {},
    }
}

pub proof fn lemma_path_irreflexive(a: Seq<PathPart>)
    ensures
        !path_less(a, a),
    decreases a.len(),
{
    if a.len() > 0 {
        lemma_path_irreflexive(a.skip(1));
    }
}

pub proof fn lemma_path_transitive(a: Seq<PathPart>, b: Seq<PathPart>, c: Seq<PathPart>)
    requires
        path_less(a, b),
        path_less(b, c),
    ensures
        path_less(a, c),
    decreases c.len(),
{
    if a.len() > 0 && b.len() > 0 && c.len() > 0 {
        lemma_part_order(a[0], b[0], c[0]);
        lemma_part_order(c[0], b[0], a[0]);
        if a[0] == b[0] && b[0] == c[0] {
            lemma_path_transitive(a.skip(1), b.skip(1), c.skip(1));
        } else if a[0] == c[0] {
            lemma_part_order(a[0], a[0], a[0]);
        }
    }
}

pub proof fn lemma_path_total(a: Seq<PathPart>, b: Seq<PathPart>)
    ensures
        a == b || path_less(a, b) || path_less(b, a),
    decreases a.len(),
{
    if a.len() > 0 && b.len() > 0 {
        lemma_part_order(a[0], b[0], b[0]);
        if a[0] == b[0] {
            lemma_path_total(a.skip(1), b.skip(1));
            if a.skip(1) == b.skip(1) {
                assert(a.len() == a.skip(1).len() + 1);
                assert(b.len() == b.skip(1).len() + 1);
                assert forall|i: int| 0 <= i < a.len() implies a[i] == b[i] by {
                    if i > 0 {
                        assert(a.skip(1)[i - 1] == b.skip(1)[i - 1]);
                    }
                }
                assert(a =~= b);
            }
        }
    } else if a.len() == 0 && b.len() == 0 {
        assert(a =~= b);
    }
}

fn rank_of(p: &Part) -> (r: u8)
    ensures
        r == part_rank(p@),
{
    match p {
        Part::Root => 0,
        Part::Current => 1,
        Part::Up => 2,
        Part::Name(_) => 3,
    }
}

fn part_precedes(a: &Part, b: &Part) -> (r: bool)
    ensures
        r == part_less(a@, b@),
{
    match (a, b) {
        (Part::Name(x), Part::Name(y)) => {
            let u = to_chars(x.as_str());
            let v = to_chars(y.as_str());
            precedes(&u, &v)
        },
        _ => rank_of(a) < rank_of(b),
    }
}

/// Whether `a` stands before `b`.
pub fn path_precedes(a: &Vec<Part>, b: &Vec<Part>) -> (r: bool)
    ensures
        r == path_less(part_views(a@), part_views(b@)),
{
    let ghost x = part_views(a@);
    let ghost y = part_views(b@);
    let mut i: usize = 0;
    proof {
        assert(x.skip(0) =~= x);
        assert(y.skip(0) =~= y);
    }
    loop
        invariant
            i <= a@.len(),
            i <= b@.len(),
            x == part_views(a@),
            y == part_views(b@),
            path_less(x, y) == path_less(x.skip(i as int), y.skip(i as int)),
        decreases a@.len() - i,
    {
        if i == b.len() {
            return false;
        }
        if i == a.len() {
            return true;
        }
        proof {
            assert(x.skip(i as int)[0] == a@[i as int]@);
            assert(y.skip(i as int)[0] == b@[i as int]@);
            lemma_part_order(a@[i as int]@, b@[i as int]@, b@[i as int]@);
            lemma_part_order(b@[i as int]@, a@[i as int]@, b@[i as int]@);
        }
        if part_precedes(&a[i], &b[i]) {
            return true;
        }
        if part_precedes(&b[i], &a[i]) {
            return false;
        }
        proof {
            assert(x.skip(i as int).skip(1) =~= x.skip(i + 1));
            assert(y.skip(i as int).skip(1) =~= y.skip(i + 1));
        }
        i += 1;
    }
}

proof fn lemma_path_same_front(c: Seq<PathPart>, x: Seq<PathPart>, y: Seq<PathPart>)
    ensures
        path_less(c + x, c + y) == path_less(x, y),
    decreases c.len(),
{
    if c.len() == 0 {
        assert(c + x =~= x);
        assert(c + y =~= y);
    } else {
        lemma_path_same_front(c.skip(1), x, y);
        assert((c + x).skip(1) =~= c.skip(1) + x);
        assert((c + y).skip(1) =~= c.skip(1) + y);
    }
}

/// The first part in which two paths differ decides which stands first: the root before
/// `.`, that before `..`, that before any name, and names as texts are ordered; and a
/// directory stands before what is in it.
pub proof fn law_the_first_part_decides(
    c: Seq<PathPart>,
    n: Seq<char>,
    m: Seq<char>,
    x: Seq<PathPart>,
    y: Seq<PathPart>,
)
    requires
        lex_less(n, m),
    ensures
        path_less(c + (seq![PathPart::Name(n)] + x), c + (seq![PathPart::Name(m)] + y)),
        !path_less(c + (seq![PathPart::Name(m)] + y), c + (seq![PathPart::Name(n)] + x)),
        path_less(c + (seq![PathPart::Root] + x), c + (seq![PathPart::Current] + y)),
        path_less(c + (seq![PathPart::Current] + x), c + (seq![PathPart::Up] + y)),
        path_less(c + (seq![PathPart::Up] + x), c + (seq![PathPart::Name(n)] + y)),
        path_less(c, c + (seq![PathPart::Name(n)] + x)),
{
    lemma_less_irreflexive(n);
    if lex_less(m, n) {
        lemma_less_transitive(n, m, n);
    }
    let e = Seq::<PathPart>::empty();
    let pn = seq![PathPart::Name(n)] + x;
    let pm = seq![PathPart::Name(m)] + y;
    let pr = seq![PathPart::Root] + x;
    let cx = seq![PathPart::Current] + x;
    let cy = seq![PathPart::Current] + y;
    let ux = seq![PathPart::Up] + x;
    let uy = seq![PathPart::Up] + y;
    let ny = seq![PathPart::Name(n)] + y;
    assert(pn[0] == PathPart::Name(n));
    assert(pm[0] == PathPart::Name(m));
    assert(pr[0] == PathPart::Root);
    assert(cx[0] == PathPart::Current);
    assert(cy[0] == PathPart::Current);
    assert(ux[0] == PathPart::Up);
    assert(uy[0] == PathPart::Up);
    assert(ny[0] == PathPart::Name(n));
    lemma_path_same_front(c, pn, pm);
    lemma_path_same_front(c, pm, pn);
    lemma_path_same_front(c, pr, cy);
    lemma_path_same_front(c, cx, uy);
    lemma_path_same_front(c, ux, ny);
    lemma_path_same_front(c, e, pn);
    assert(c + e =~= c);
}

} // verus!

//! Paths as sequences of parts, taken apart the way Unix hosts do it: runs of
//! slashes and inner `.` parts say nothing.
use crate::text::{
    from_chars, from_range, joined, law_joined_parts_come_apart, lemma_pieces_single, opt_str,
    pieces, split_any, str_eq, strs, to_chars,
};
use vstd::prelude::*;
use vstd::string::*;

verus! {

/// One part of a path.
#[derive(Debug, Clone, PartialEq, Eq)]
pub enum Part {
    /// The leading `/`.
    Root,
    /// A leading `.`.
    Current,
    /// `..`.
    Up,
    Name(String),
}

/// One part of a path, as text.
pub enum PathPart {
    Root,
    Current,
    Up,
    Name(Seq<char>),
}

impl View for Part {
    type V = PathPart;

    open spec fn view(&self) -> PathPart {
        match self {
            Part::Root => PathPart::Root,
            Part::Current => PathPart::Current,
            Part::Up => PathPart::Up,
            Part::Name(n) => PathPart::Name(n@),
        }
    }
}

pub open spec fn part_views(v: Seq<Part>) -> Seq<PathPart> {
    v.map_values(|p: Part| p@)
}

pub open spec fn paths_of(v: Seq<Vec<Part>>) -> Seq<Seq<PathPart>> {
    v.map_values(|p: Vec<Part>| part_views(p@))
}

/// The parts of a path, where there is one.
pub open spec fn opt_path(p: Option<Vec<Part>>) -> Option<Seq<PathPart>> {
    match p {
        Some(v) => Some(part_views(v@)),
        None => None,
    }
}

pub open spec fn is_rooted(s: Seq<char>) -> bool {
    s.len() > 0 && s[0] == '/'
}

/// The parts that the pieces between the slashes stand for.
pub open spec fn body_parts(ps: Seq<Seq<char>>, rooted: bool) -> Seq<PathPart>
    decreases ps.len(),
{
    if ps.len() == 0 {
        Seq::empty()
    } else {
        let r = body_parts(ps.drop_last(), rooted);
        let p = ps.last();
        if p.len() == 0 {
            r
        } else if p == "."@ {
            if ps.len() == 1 && !rooted {
                r.push(PathPart::Current)
            } else {
                r
            }
        } else if p == ".."@ {
            r.push(PathPart::Up)
        } else {
            r.push(PathPart::Name(p))
        }
    }
}

/// The parts of a path.
pub open spec fn path_parts(s: Seq<char>) -> Seq<PathPart> {
    if is_rooted(s) {
        seq![PathPart::Root] + body_parts(pieces(s, seq!['/']), true)
    } else {
        body_parts(pieces(s, seq!['/']), false)
    }
}

/// The directory that a path stands in.
pub open spec fn parent_path(p: Seq<PathPart>) -> Option<Seq<PathPart>> {
    if p.len() > 0 && p.last() != PathPart::Root {
        Some(p.drop_last())
    } else {
        None
    }
}

/// The path `rel` seen from `base`.
pub open spec fn joined_path(base: Seq<PathPart>, rel: Seq<char>) -> Seq<PathPart> {
    if is_rooted(rel) || base.len() == 0 {
        path_parts(rel)
    } else {
        base + body_parts(pieces(rel, seq!['/']), true)
    }
}

/// The name at the end of a path.
pub open spec fn last_name(p: Seq<PathPart>) -> Option<Seq<char>> {
    if p.len() > 0 {
        match p.last() {
            PathPart::Name(n) => Some(n),
            _ => None,
        }
    } else {
        None
    }
}

/// Where the last dot of a name stands, if it is not its first character.
pub open spec fn dot_at(name: Seq<char>, i: int) -> bool {
    0 < i < name.len() && name[i] == '.' && forall|j: int| i < j < name.len() ==> name[j] != '.'
}

/// The extension of a file name: what follows its last dot.
pub open spec fn extension_of(name: Seq<char>) -> Option<Seq<char>> {
    if exists|i: int| #[trigger] dot_at(name, i) {
        Some(name.skip((choose|i: int| #[trigger] dot_at(name, i)) + 1))
    } else {
        None
    }
}

/// A file name without its extension.
pub open spec fn stem_of(name: Seq<char>) -> Seq<char> {
    if exists|i: int| #[trigger] dot_at(name, i) {
        name.take(choose|i: int| #[trigger] dot_at(name, i))
    } else {
        name
    }
}

/// The path with every `.` dropped and every `..` taken back, by the text alone.
pub open spec fn normalized(p: Seq<PathPart>) -> Seq<PathPart>
    decreases p.len(),
{
    if p.len() == 0 {
        Seq::empty()
    } else {
        let r = normalized(p.drop_last());
        match p.last() {
            PathPart::Current => r,
            PathPart::Up => match parent_path(r) {
                Some(q) => q,
                None => r,
            },
            PathPart::Root => seq![PathPart::Root],
            PathPart::Name(n) => r.push(PathPart::Name(n)),
        }
    }
}

fn push_body(parts: &mut Vec<Part>, text: &str, rooted: bool)
    ensures
        part_views(final(parts)@) == part_views(old(parts)@) + body_parts(
            pieces(text@, seq!['/']),
            rooted,
        ),
{
    let seps = ['/'];
    let ps = split_any(text, &seps);
    let ghost all = strs(ps@);
    let ghost base = part_views(parts@);
    proof {
        assert(seps@ =~= seq!['/']);
        assert(base + body_parts(all.take(0), rooted) =~= base);
    }
    let mut i: usize = 0;
    while i < ps.len()
        invariant
            i <= ps@.len(),
            all == strs(ps@),
            part_views(parts@) == base + body_parts(all.take(i as int), rooted),
        decreases ps@.len() - i,
    {
        let p = ps[i].as_str();
        let ghost before_parts = part_views(parts@);
        let ghost r = body_parts(all.take(i as int), rooted);
        proof {
            assert(all.take(i + 1).drop_last() =~= all.take(i as int));
            assert(all.take(i + 1).last() == p@);
        }
        if !p.is_empty() {
            if str_eq(p, ".") {
                if i == 0 && !rooted {
                    parts.push(Part::Current);
                    proof {
                        assert(part_views(parts@) =~= before_parts.push(PathPart::Current));
                        assert(before_parts.push(PathPart::Current) =~= base + r.push(
                            PathPart::Current,
                        ));
                    }
                }
            } else if str_eq(p, "..") {
                parts.push(Part::Up);
                proof {
                    assert(part_views(parts@) =~= before_parts.push(PathPart::Up));
                    assert(before_parts.push(PathPart::Up) =~= base + r.push(PathPart::Up));
                }
            } else {
                parts.push(Part::Name(ps[i].clone()));
                proof {
                    assert(part_views(parts@) =~= before_parts.push(PathPart::Name(p@)));
                    assert(before_parts.push(PathPart::Name(p@)) =~= base + r.push(
                        PathPart::Name(p@),
                    ));
                }
            }
        }
        i += 1;
    }
    proof {
        assert(all.take(i as int) =~= all);
    }
}

fn text_is_rooted(s: &str) -> (r: bool)
    ensures
        r == is_rooted(s@),
{
    let v = to_chars(s);
    v.len() > 0 && v[0] == '/'
}

/// The parts of a path.
pub fn parse_path(text: &str) -> (r: Vec<Part>)
    ensures
        part_views(r@) == path_parts(text@),
{
    let mut parts: Vec<Part> = Vec::new();
    let rooted = text_is_rooted(text);
    if rooted {
        parts.push(Part::Root);
    }
    let ghost base = part_views(parts@);
    push_body(&mut parts, text, rooted);
    proof {
        if rooted {
            assert(base =~= seq![PathPart::Root]);
        } else {
            assert(base =~= Seq::empty());
            assert(part_views(parts@) =~= path_parts(text@));
        }
    }
    parts
}

fn copy_part(p: &Part) -> (r: Part)
    ensures
        r@ == p@,
{
    match p {
        Part::Root => Part::Root,
        Part::Current => Part::Current,
        Part::Up => Part::Up,
        Part::Name(n) => Part::Name(n.clone()),
    }
}

/// The first `n` parts of a path.
pub fn take_parts(p: &Vec<Part>, n: usize) -> (r: Vec<Part>)
    requires
        n <= p@.len(),
    ensures
        part_views(r@) == part_views(p@).take(n as int),
{
    let mut out: Vec<Part> = Vec::new();
    let mut i: usize = 0;
    while i < n
        invariant
            i <= n <= p@.len(),
            part_views(out@) == part_views(p@).take(i as int),
        decreases n - i,
    {
        let c = copy_part(&p[i]);
        proof {
            assert(part_views(out@.push(c)) =~= part_views(out@).push(c@));
            assert(part_views(p@).take(i + 1) =~= part_views(p@).take(i as int).push(
                p@[i as int]@,
            ));
        }
        out.push(c);
        i += 1;
    }
    out
}

/// A copy of a path.
pub fn copy_path(p: &Vec<Part>) -> (r: Vec<Part>)
    ensures
        part_views(r@) == part_views(p@),
{
    let r = take_parts(p, p.len());
    proof {
        assert(part_views(p@).take(p@.len() as int) =~= part_views(p@));
    }
    r
}

fn same_part(a: &Part, b: &Part) -> (r: bool)
    ensures
        r == (a@ == b@),
{
    match (a, b) {
        (Part::Root, Part::Root) => true,
        (Part::Current, Part::Current) => true,
        (Part::Up, Part::Up) => true,
        (Part::Name(x), Part::Name(y)) => *x == *y,
        _ => false,
    }
}

/// Whether two paths have the same parts.
pub fn same_path(a: &Vec<Part>, b: &Vec<Part>) -> (r: bool)
    ensures
        r == (part_views(a@) == part_views(b@)),
{
    if a.len() != b.len() {
        proof {
            assert(part_views(a@).len() != part_views(b@).len());
        }
        return false;
    }
    let mut i: usize = 0;
    while i < a.len()
        invariant
            i <= a@.len() == b@.len(),
            forall|j: int| 0 <= j < i ==> part_views(a@)[j] == part_views(b@)[j],
        decreases a@.len() - i,
    {
        if !same_part(&a[i], &b[i]) {
            proof {
                assert(part_views(a@)[i as int] != part_views(b@)[i as int]);
            }
            return false;
        }
        i += 1;
    }
    proof {
        assert(part_views(a@) =~= part_views(b@));
    }
    true
}

/// Whether a path is among the given ones.
pub fn has_path(v: &Vec<Vec<Part>>, p: &Vec<Part>) -> (r: bool)
    ensures
        r == paths_of(v@).contains(part_views(p@)),
{
    let mut i: usize = 0;
    while i < v.len()
        invariant
            i <= v@.len(),
            forall|j: int| 0 <= j < i ==> paths_of(v@)[j] != part_views(p@),
        decreases v@.len() - i,
    {
        proof {
            assert(paths_of(v@)[i as int] == part_views(v@[i as int]@));
        }
        if same_path(&v[i], p) {
            return true;
        }
        i += 1;
    }
    false
}

/// The directory that a path stands in.
pub fn parent(p: &Vec<Part>) -> (r: Option<Vec<Part>>)
    ensures
        match r {
            Some(q) => parent_path(part_views(p@)) == Some(part_views(q@)),
            None => parent_path(part_views(p@)) is None,
        },
{
    if p.len() == 0 {
        return None;
    }
    proof {
        assert(part_views(p@).last() == p@.last()@);
    }
    match p[p.len() - 1] {
        Part::Root => None,
        _ => {
            let q = take_parts(p, p.len() - 1);
            proof {
                assert(part_views(q@) =~= part_views(p@).drop_last());
            }
            Some(q)
        },
    }
}

/// The path `rel` seen from `base`.
pub fn join_path(base: &Vec<Part>, rel: &str) -> (r: Vec<Part>)
    ensures
        part_views(r@) == joined_path(part_views(base@), rel@),
{
    if text_is_rooted(rel) || base.len() == 0 {
        return parse_path(rel);
    }
    let mut out = copy_path(base);
    push_body(&mut out, rel, true);
    out
}

/// The name at the end of a path.
pub fn file_name(p: &Vec<Part>) -> (r: Option<String>)
    ensures
        opt_str(r) == last_name(part_views(p@)),
{
    if p.len() == 0 {
        return None;
    }
    proof {
        assert(part_views(p@).last() == p@.last()@);
    }
    match &p[p.len() - 1] {
        Part::Name(n) => Some(n.clone()),
        _ => None,
    }
}

fn last_dot(v: &Vec<char>) -> (r: Option<usize>)
    ensures
        match r {
            Some(i) => dot_at(v@, i as int) && forall|j: int| dot_at(v@, j) ==> j == i,
            None => forall|j: int| !#[trigger] dot_at(v@, j),
        },
{
    let mut i: usize = v.len();
    while i > 0
        invariant
            i <= v@.len(),
            forall|j: int| i <= j < v@.len() ==> v@[j] != '.',
        decreases i,
    {
        i -= 1;
        if v[i] == '.' {
            if i == 0 {
                return None;
            }
            return Some(i);
        }
    }
    None
}

/// The extension of a file name.
pub fn extension(name: &str) -> (r: Option<String>)
    ensures
        opt_str(r) == extension_of(name@),
{
    let v = to_chars(name);
    let n: usize = v.len();
    match last_dot(&v) {
        Some(i) => {
            proof {
                assert(i < n);
                assert(dot_at(name@, i as int));
                assert(v@.subrange(i + 1, v@.len() as int) =~= v@.skip(i + 1));
            }
            Some(from_range(&v, i + 1, n))
        },
        None => None,
    }
}

/// A file name without its extension.
pub fn file_stem(name: &str) -> (r: String)
    ensures
        r@ == stem_of(name@),
{
    let v = to_chars(name);
    match last_dot(&v) {
        Some(i) => {
            proof {
                assert(dot_at(name@, i as int));
                assert(v@.subrange(0, i as int) =~= v@.take(i as int));
            }
            from_range(&v, 0, i)
        },
        None => from_chars(&v),
    }
}

/// Whether a file name has the given extension.
pub fn has_extension(name: &str, ext: &str) -> (r: bool)
    ensures
        r == (extension_of(name@) == Some(ext@)),
{
    match extension(name) {
        Some(e) => str_eq(e.as_str(), ext),
        None => false,
    }
}

/// The path with every `.` dropped and every `..` taken back, by the text alone:
/// the path need not exist.
pub fn lexical_normalize(path: &Vec<Part>) -> (r: Vec<Part>)
    ensures
        part_views(r@) == normalized(part_views(path@)),
{
    let ghost all = part_views(path@);
    let mut out: Vec<Part> = Vec::new();
    let mut i: usize = 0;
    proof {
        assert(part_views(out@) =~= normalized(all.take(0)));
    }
    while i < path.len()
        invariant
            i <= path@.len(),
            all == part_views(path@),
            part_views(out@) == normalized(all.take(i as int)),
        decreases path@.len() - i,
    {
        let ghost r = part_views(out@);
        proof {
            assert(all.take(i + 1).drop_last() =~= all.take(i as int));
            assert(all.take(i + 1).last() == path@[i as int]@);
        }
        match &path[i] {
            Part::Current => {},
            Part::Up => match parent(&out) {
                Some(q) => {
                    out = q;
                },
                None => {},
            },
            Part::Root => {
                out = Vec::new();
                out.push(Part::Root);
                proof {
                    assert(part_views(out@) =~= seq![PathPart::Root]);
                }
            },
            Part::Name(n) => {
                let c = Part::Name(n.clone());
                proof {
                    assert(part_views(out@.push(c)) =~= r.push(c@));
                }
                out.push(c);
            },
        }
        i += 1;
    }
    proof {
        assert(all.take(i as int) =~= all);
    }
    out
}

/// A path that goes down only.
pub open spec fn goes_down(p: Seq<PathPart>) -> bool {
    forall|i: int|
        0 <= i < p.len() ==> ((#[trigger] p[i]) is Name || p[i] is Current)
}

/// A path without `.` and `..`.
pub open spec fn is_plain(p: Seq<PathPart>) -> bool {
    forall|i: int| 0 <= i < p.len() ==> ((#[trigger] p[i]) is Name || p[i] is Root)
}

/// A normalized path holds neither `.` nor `..`.
pub proof fn law_normalized_is_plain(p: Seq<PathPart>)
    ensures
        is_plain(normalized(p)),
    decreases p.len(),
{
    if p.len() > 0 {
        law_normalized_is_plain(p.drop_last());
    }
}

proof fn lemma_plain_is_normalized(p: Seq<PathPart>)
    requires
        is_plain(p),
        forall|i: int| 0 < i < p.len() ==> !((#[trigger] p[i]) is Root),
    ensures
        normalized(p) == p,
    decreases p.len(),
{
    if p.len() > 0 {
        let d = p.drop_last();
        assert forall|i: int| 0 < i < d.len() implies !((#[trigger] d[i]) is Root) by {
            assert(d[i] == p[i]);
        }
        assert(is_plain(d)) by {
            assert forall|i: int| 0 <= i < d.len() implies ((#[trigger] d[i]) is Name
                || d[i] is Root) by {
                assert(d[i] == p[i]);
            }
        }
        lemma_plain_is_normalized(d);
        assert(p[p.len() - 1] == p.last());
        assert(normalized(p) =~= p);
    }
}

proof fn lemma_normalized_root(p: Seq<PathPart>)
    ensures
        forall|i: int| 0 < i < normalized(p).len() ==> !((#[trigger] normalized(p)[i]) is Root),
    decreases p.len(),
{
    if p.len() > 0 {
        let r = normalized(p.drop_last());
        lemma_normalized_root(p.drop_last());
        assert forall|i: int| 0 < i < normalized(p).len() implies !((#[trigger] normalized(
            p,
        )[i]) is Root) by {
            if i < r.len() {
                assert(normalized(p)[i] == r[i]);
            }
        }
    }
}

/// Normalizing twice is normalizing once.
pub proof fn law_normalize_is_idempotent(p: Seq<PathPart>)
    ensures
        normalized(normalized(p)) == normalized(p),
{
    law_normalized_is_plain(p);
    lemma_normalized_root(p);
    lemma_plain_is_normalized(normalized(p));
}

/// A path that goes down only stays, seen from any directory, inside it.
pub proof fn law_going_down_stays_inside(base: Seq<PathPart>, rel: Seq<PathPart>)
    requires
        goes_down(rel),
    ensures
        normalized(base).len() <= normalized(base + rel).len(),
        normalized(base + rel).take(normalized(base).len() as int) == normalized(base),
    decreases rel.len(),
{
    if rel.len() == 0 {
        assert(base + rel =~= base);
        assert(normalized(base).take(normalized(base).len() as int) =~= normalized(base));
    } else {
        let d = rel.drop_last();
        assert(goes_down(d)) by {
            assert forall|i: int| 0 <= i < d.len() implies ((#[trigger] d[i]) is Name
                || d[i] is Current) by {
                assert(d[i] == rel[i]);
            }
        }
        law_going_down_stays_inside(base, d);
        assert((base + rel).drop_last() =~= base + d);
        assert(rel[rel.len() - 1] == rel.last());
        let n = normalized(base).len() as int;
        assert(normalized(base + rel).take(n) =~= normalized(base + d).take(n));
    }
}

/// A name behind a path is one more part of it.
pub proof fn law_joining_a_name(base: Seq<PathPart>, name: Seq<char>)
    requires
        base.len() > 0,
        name.len() > 0,
        !name.contains('/'),
        name != "."@,
        name != ".."@,
    ensures
        joined_path(base, name) == base.push(PathPart::Name(name)),
        path_parts(name) == seq![PathPart::Name(name)],
{
    assert(name.contains(name[0]));
    lemma_pieces_single(name, '/');
    let ps = seq![name];
    assert(ps.drop_last() =~= Seq::empty());
    assert(body_parts(ps.drop_last(), true) =~= Seq::empty());
    assert(body_parts(ps.drop_last(), false) =~= Seq::empty());
    assert(body_parts(ps, true) =~= seq![PathPart::Name(name)]);
    assert(body_parts(ps, false) =~= seq![PathPart::Name(name)]);
    assert(base + seq![PathPart::Name(name)] =~= base.push(PathPart::Name(name)));
}

/// The directory of a path with a name at its end is the path without it, and the name is
/// its last.
pub proof fn law_parent_and_name(p: Seq<PathPart>, name: Seq<char>)
    ensures
        parent_path(p.push(PathPart::Name(name))) == Some(p),
        last_name(p.push(PathPart::Name(name))) == Some(name),
        parent_path(seq![PathPart::Root]) is None,
        parent_path(Seq::empty()) is None,
{
    assert(p.push(PathPart::Name(name)).drop_last() =~= p);
}

/// A name of a stem, a dot and an extension is taken apart at its last dot; one without a
/// dot, or with one only in front, has no extension.
pub proof fn law_names_come_apart(stem: Seq<char>, ext: Seq<char>)
    requires
        stem.len() > 0,
        !ext.contains('.'),
    ensures
        extension_of(stem + seq!['.'] + ext) == Some(ext),
        stem_of(stem + seq!['.'] + ext) == stem,
        extension_of(ext) is None,
        extension_of(seq!['.'] + ext) is None,
        stem_of(ext) == ext,
{
    let n = stem + seq!['.'] + ext;
    let i = stem.len() as int;
    assert forall|j: int| i < j < n.len() implies n[j] != '.' by {
        assert(n[j] == ext[j - i - 1]);
        assert(ext.contains(ext[j - i - 1]));
    }
    assert(dot_at(n, i));
    let k = choose|k: int| #[trigger] dot_at(n, k);
    assert(k == i);
    assert(n.skip(i + 1) =~= ext);
    assert(n.take(i) =~= stem);
    assert forall|j: int| !#[trigger] dot_at(ext, j) by {
        if dot_at(ext, j) {
            assert(ext.contains(ext[j]));
        }
    }
    let h = seq!['.'] + ext;
    assert forall|j: int| !#[trigger] dot_at(h, j) by {
        if dot_at(h, j) {
            assert(h[j] == ext[j - 1]);
            assert(ext.contains(ext[j - 1]));
        }
    }
}

/// An absolute path is what it was joined from: its names between slashes.
pub proof fn law_absolute_paths_have_their_names(names: Seq<Seq<char>>)
    requires
        names.len() > 0,
        forall|i: int|
            0 <= i < names.len() ==> (#[trigger] names[i]).len() > 0 && !names[i].contains('/')
                && names[i] != "."@ && names[i] != ".."@,
    ensures
        path_parts(seq!['/'] + joined(names, seq!['/'])) == seq![PathPart::Root]
            + names.map_values(|n: Seq<char>| PathPart::Name(n)),
        path_parts(joined(names, seq!['/'])) == names.map_values(
            |n: Seq<char>| PathPart::Name(n),
        ),
{
    let e = Seq::<char>::empty();
    let all = seq![e] + names;
    let text = joined(names, seq!['/']);
    law_joined_parts_come_apart(names, '/');
    assert forall|i: int| 0 <= i < all.len() implies !(#[trigger] all[i]).contains('/') by {
        if i > 0 {
            assert(all[i] == names[i - 1]);
        }
    }
    law_joined_parts_come_apart(all, '/');
    lemma_joined_front(names, seq!['/']);
    lemma_body_of_names(names, true, Seq::empty());
    lemma_body_of_names(names, false, Seq::empty());
    lemma_body_of_names(names, true, seq![e]);
    assert(Seq::<Seq<char>>::empty() + names =~= names);
    assert(body_parts(seq![e], true) =~= Seq::empty()) by {
        assert(seq![e].drop_last() =~= Seq::empty());
    }
    assert(text.len() > 0 && text[0] != '/') by {
        lemma_joined_first(names, seq!['/']);
        assert(names[0].contains(names[0][0]));
    }
    assert(Seq::<PathPart>::empty() + names.map_values(|n: Seq<char>| PathPart::Name(n))
        =~= names.map_values(|n: Seq<char>| PathPart::Name(n)));
}

proof fn lemma_joined_first(names: Seq<Seq<char>>, sep: Seq<char>)
    requires
        names.len() > 0,
        names[0].len() > 0,
    ensures
        joined(names, sep).len() > 0,
        joined(names, sep)[0] == names[0][0],
    decreases names.len(),
{
    if names.len() > 1 {
        assert(names.drop_last()[0] == names[0]);
        lemma_joined_first(names.drop_last(), sep);
    }
}

proof fn lemma_joined_front(names: Seq<Seq<char>>, sep: Seq<char>)
    requires
        names.len() > 0,
    ensures
        joined(seq![Seq::<char>::empty()] + names, sep) == sep + joined(names, sep),
    decreases names.len(),
{
    let e = Seq::<char>::empty();
    let all = seq![e] + names;
    assert(all.drop_last() =~= seq![e] + names.drop_last());
    assert(all.last() == names.last());
    if names.len() == 1 {
        assert(all.drop_last() =~= seq![e]);
        assert(joined(all.drop_last(), sep) =~= e);
        assert(e + sep + names[0] =~= sep + names[0]);
    } else {
        lemma_joined_front(names.drop_last(), sep);
        let j = joined(names.drop_last(), sep);
        assert((sep + j) + sep + names.last() =~= sep + (j + sep + names.last()));
    }
}

proof fn lemma_body_of_names(names: Seq<Seq<char>>, rooted: bool, front: Seq<Seq<char>>)
    requires
        forall|i: int|
            0 <= i < names.len() ==> (#[trigger] names[i]).len() > 0 && names[i] != "."@
                && names[i] != ".."@,
    ensures
        body_parts(front + names, rooted) == body_parts(front, rooted) + names.map_values(
            |n: Seq<char>| PathPart::Name(n),
        ),
    decreases names.len(),
{
    let f = |n: Seq<char>| PathPart::Name(n);
    if names.len() == 0 {
        assert(front + names =~= front);
        assert(body_parts(front, rooted) + names.map_values(f) =~= body_parts(front, rooted));
    } else {
        let d = names.drop_last();
        assert forall|i: int| 0 <= i < d.len() implies (#[trigger] d[i]).len() > 0 && d[i] != "."@
            && d[i] != ".."@ by {
            assert(d[i] == names[i]);
        }
        lemma_body_of_names(d, rooted, front);
        assert((front + names).drop_last() =~= front + d);
        assert((front + names).last() == names.last());
        assert(names[names.len() - 1].len() > 0);
        assert(names.map_values(f) =~= d.map_values(f).push(f(names.last())));
        assert((body_parts(front, rooted) + d.map_values(f)).push(f(names.last()))
            =~= body_parts(front, rooted) + names.map_values(f));
    }
}

/// `..` takes the name before it back, and `.` says nothing.
pub proof fn law_normalizing_takes_back(p: Seq<PathPart>, name: Seq<char>)
    ensures
        normalized(p.push(PathPart::Name(name)).push(PathPart::Up)) == normalized(p),
        normalized(p.push(PathPart::Current)) == normalized(p),
        normalized(p.push(PathPart::Name(name))) == normalized(p).push(PathPart::Name(name)),
{
    let q = p.push(PathPart::Name(name));
    assert(q.push(PathPart::Up).drop_last() =~= q);
    assert(q.drop_last() =~= p);
    assert(p.push(PathPart::Current).drop_last() =~= p);
    assert(normalized(q).drop_last() =~= normalized(p));
}

/// A path from the root replaces what it is joined to.
pub proof fn law_rooted_paths_replace(base: Seq<PathPart>, rel: Seq<char>)
    ensures
        rel.len() > 0 && rel[0] == '/' ==> joined_path(base, rel) == path_parts(rel),
        base.len() == 0 ==> joined_path(base, rel) == path_parts(rel),
        base.len() > 0 && (rel.len() == 0 || rel[0] != '/') ==> joined_path(base, rel).len()
            >= base.len() && joined_path(base, rel).take(base.len() as int) == base,
{
    let j = joined_path(base, rel);
    if base.len() > 0 && (rel.len() == 0 || rel[0] != '/') {
        assert(j.take(base.len() as int) =~= base);
    }
}

} // verus!

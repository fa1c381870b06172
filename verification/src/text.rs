//! Text primitives: the small string algebra that every other module states
//! its contracts in. A string is its sequence of characters.
use vstd::prelude::*;
use vstd::string::*;
use vstd::utf8::{decode_utf8, valid_utf8};

verus! {

/// `String::push` appends one character to the end of the string.
pub assume_specification[ String::push ](s: &mut String, c: char)
    ensures
        final(s)@ == old(s)@.push(c),
;

/// What `String::from_utf8_lossy` makes of the bytes.
pub uninterp spec fn utf8_lossy(bytes: Seq<u8>) -> Seq<char>;

/// Calls `String::from_utf8_lossy`. Bytes that are UTF-8 are decoded; what is
/// put in the place of others is only named.
#[verifier::external_body]
pub(crate) fn lossy_text(bytes: &[u8]) -> (r: String)
    ensures
        r@ == utf8_lossy(bytes@),
        valid_utf8(bytes@) ==> r@ == decode_utf8(bytes@),
{
    String::from_utf8_lossy(bytes).into_owned()
}

/// The characters with the Unicode `White_Space` property.
pub open spec fn is_white(c: char) -> bool {
    ||| '\u{9}' <= c <= '\u{d}'
    ||| c == ' '
    ||| c == '\u{85}'
    ||| c == '\u{a0}'
    ||| c == '\u{1680}'
    ||| '\u{2000}' <= c <= '\u{200a}'
    ||| c == '\u{2028}'
    ||| c == '\u{2029}'
    ||| c == '\u{202f}'
    ||| c == '\u{205f}'
    ||| c == '\u{3000}'
}

/// `s` without its leading white space.
pub open spec fn trimmed_start(s: Seq<char>) -> Seq<char>
    decreases s.len(),
{
    if s.len() > 0 && is_white(s[0]) {
        trimmed_start(s.skip(1))
    } else {
        s
    }
}

/// `s` without its trailing white space.
pub open spec fn trimmed_end(s: Seq<char>) -> Seq<char>
    decreases s.len(),
{
    if s.len() > 0 && is_white(s.last()) {
        trimmed_end(s.drop_last())
    } else {
        s
    }
}

/// `s` without its leading and trailing white space.
pub open spec fn trimmed(s: Seq<char>) -> Seq<char> {
    trimmed_end(trimmed_start(s))
}

pub open spec fn lowered_char(c: char) -> char {
    if 'A' <= c <= 'Z' {
        (c as u8 + 32) as u8 as char
    } else {
        c
    }
}

/// `s` with the ASCII capitals made small.
pub open spec fn lowered(s: Seq<char>) -> Seq<char> {
    s.map_values(|c: char| lowered_char(c))
}

pub open spec fn has_prefix(s: Seq<char>, p: Seq<char>) -> bool {
    p.len() <= s.len() && s.take(p.len() as int) == p
}

pub open spec fn has_suffix(s: Seq<char>, p: Seq<char>) -> bool {
    p.len() <= s.len() && s.skip(s.len() - p.len()) == p
}

/// The pieces between the separators, one more than there are separators.
pub open spec fn pieces(s: Seq<char>, seps: Seq<char>) -> Seq<Seq<char>>
    decreases s.len(),
{
    if s.len() == 0 {
        seq![Seq::empty()]
    } else {
        let r = pieces(s.drop_last(), seps);
        if seps.contains(s.last()) {
            r.push(Seq::empty())
        } else {
            r.update(r.len() - 1, r.last().push(s.last()))
        }
    }
}

/// The text before the first `c`, or all of it.
pub open spec fn before(s: Seq<char>, c: char) -> Seq<char>
    decreases s.len(),
{
    if s.len() == 0 || s[0] == c {
        Seq::empty()
    } else {
        seq![s[0]] + before(s.skip(1), c)
    }
}

pub open spec fn without_cr(s: Seq<char>) -> Seq<char> {
    if s.len() > 0 && s.last() == '\r' {
        s.drop_last()
    } else {
        s
    }
}

/// The lines of a text: `\n` and `\r\n` end a line; what follows the last line
/// ending is a line of its own unless it is empty.
pub open spec fn line_seq(s: Seq<char>) -> Seq<Seq<char>> {
    let p = pieces(s, seq!['\n']);
    let ended = p.drop_last().map_values(|l: Seq<char>| without_cr(l));
    if p.last().len() == 0 {
        ended
    } else {
        ended.push(p.last())
    }
}

/// The parts one after another with `sep` between neighbours.
pub open spec fn joined(parts: Seq<Seq<char>>, sep: Seq<char>) -> Seq<char>
    decreases parts.len(),
{
    if parts.len() == 0 {
        Seq::empty()
    } else if parts.len() == 1 {
        parts[0]
    } else {
        joined(parts.drop_last(), sep) + sep + parts.last()
    }
}

/// `p` stands in `s` at position `i`.
pub open spec fn occurs_at(s: Seq<char>, p: Seq<char>, i: int) -> bool {
    0 <= i <= s.len() - p.len() && s.subrange(i, i + p.len()) == p
}

pub open spec fn occurs(s: Seq<char>, p: Seq<char>) -> bool {
    exists|i: int| #[trigger] occurs_at(s, p, i)
}

/// `i` is the last place where `p` stands in `s`.
pub open spec fn occurs_last_at(s: Seq<char>, p: Seq<char>, i: int) -> bool {
    occurs_at(s, p, i) && forall|j: int| i < j ==> !#[trigger] occurs_at(s, p, j)
}

pub open spec fn strs(v: Seq<String>) -> Seq<Seq<char>> {
    v.map_values(|s: String| s@)
}

pub open spec fn opt_str(o: Option<String>) -> Option<Seq<char>> {
    match o {
        Some(s) => Some(s@),
        None => None,
    }
}

pub open spec fn opt_ref(o: Option<&String>) -> Option<Seq<char>> {
    match o {
        Some(s) => Some(s@),
        None => None,
    }
}

/// The characters of a string.
pub fn to_chars(s: &str) -> (v: Vec<char>)
    ensures
        v@ == s@,
{
    let mut v: Vec<char> = Vec::new();
    for c in it: s.chars()
        invariant
            it.seq() == s@,
            v@ == it.seq().take(it.index() as int),
    {
        v.push(c);
    }
    v
}

/// The string of the characters `v[lo..hi]`.
pub fn from_range(v: &Vec<char>, lo: usize, hi: usize) -> (r: String)
    requires
        lo <= hi <= v@.len(),
    ensures
        r@ == v@.subrange(lo as int, hi as int),
{
    let mut r = String::new();
    let mut i: usize = lo;
    while i < hi
        invariant
            lo <= i <= hi <= v@.len(),
            r@ == v@.subrange(lo as int, i as int),
        decreases hi - i,
    {
        r.push(v[i]);
        i += 1;
    }
    r
}

/// The string of all the characters of `v`.
pub fn from_chars(v: &Vec<char>) -> (r: String)
    ensures
        r@ == v@,
{
    from_range(v, 0, v.len())
}

/// Whether two strings hold the same characters.
pub fn str_eq(a: &str, b: &str) -> (r: bool)
    ensures
        r == (a@ == b@),
{
    a.to_owned() == b.to_owned()
}

pub fn char_is_white(c: char) -> (r: bool)
    ensures
        r == is_white(c),
{
    ('\u{9}' <= c && c <= '\u{d}') || c == ' ' || c == '\u{85}' || c == '\u{a0}' || c == '\u{1680}'
        || ('\u{2000}' <= c && c <= '\u{200a}') || c == '\u{2028}' || c == '\u{2029}' || c
        == '\u{202f}' || c == '\u{205f}' || c == '\u{3000}'
}

proof fn lemma_trimmed_start(s: Seq<char>, k: int)
    requires
        0 <= k <= s.len(),
        forall|i: int| 0 <= i < k ==> is_white(#[trigger] s[i]),
        k < s.len() ==> !is_white(s[k]),
    ensures
        trimmed_start(s) == s.skip(k),
    decreases k,
{
    if k > 0 {
        assert(s.skip(1).skip(k - 1) =~= s.skip(k));
        assert forall|i: int| 0 <= i < k - 1 implies is_white(#[trigger] s.skip(1)[i]) by {
            assert(s.skip(1)[i] == s[i + 1]);
        }
        lemma_trimmed_start(s.skip(1), k - 1);
    } else {
        assert(s.skip(0) =~= s);
    }
}

proof fn lemma_trimmed_end(s: Seq<char>, k: int)
    requires
        0 <= k <= s.len(),
        forall|i: int| k <= i < s.len() ==> is_white(#[trigger] s[i]),
        k > 0 ==> !is_white(s[k - 1]),
    ensures
        trimmed_end(s) == s.take(k),
    decreases s.len() - k,
{
    if k < s.len() {
        assert(s.drop_last().take(k) =~= s.take(k));
        lemma_trimmed_end(s.drop_last(), k);
    } else {
        assert(s.take(k) =~= s);
    }
}

/// `s` without its leading white space.
pub fn trim_start(s: &str) -> (r: String)
    ensures
        r@ == trimmed_start(s@),
{
    let v = to_chars(s);
    let mut i: usize = 0;
    while i < v.len() && char_is_white(v[i])
        invariant
            i <= v@.len(),
            forall|j: int| 0 <= j < i ==> is_white(#[trigger] v@[j]),
        decreases v@.len() - i,
    {
        i += 1;
    }
    proof {
        lemma_trimmed_start(v@, i as int);
    }
    from_range(&v, i, v.len())
}

/// `s` without its trailing white space.
pub fn trim_end(s: &str) -> (r: String)
    ensures
        r@ == trimmed_end(s@),
{
    let v = to_chars(s);
    let mut k: usize = v.len();
    while k > 0 && char_is_white(v[k - 1])
        invariant
            k <= v@.len(),
            forall|j: int| k <= j < v@.len() ==> is_white(#[trigger] v@[j]),
        decreases k,
    {
        k -= 1;
    }
    proof {
        lemma_trimmed_end(v@, k as int);
    }
    from_range(&v, 0, k)
}

/// `s` without its leading and trailing white space.
pub fn trim(s: &str) -> (r: String)
    ensures
        r@ == trimmed(s@),
{
    let t = trim_start(s);
    trim_end(t.as_str())
}

/// `s` with the ASCII capitals made small.
pub fn to_lower(s: &str) -> (r: String)
    ensures
        r@ == lowered(s@),
{
    let v = to_chars(s);
    let mut r = String::new();
    let mut i: usize = 0;
    while i < v.len()
        invariant
            i <= v@.len(),
            r@ == lowered(v@.take(i as int)),
        decreases v@.len() - i,
    {
        let c = v[i];
        let l = if 'A' <= c && c <= 'Z' {
            (c as u8 + 32) as char
        } else {
            c
        };
        r.push(l);
        proof {
            assert(lowered(v@.take(i + 1)) =~= lowered(v@.take(i as int)).push(lowered_char(c)));
        }
        i += 1;
    }
    proof {
        assert(v@.take(i as int) =~= v@);
    }
    r
}

/// Whether `s` begins with `p`.
pub fn starts_with(s: &str, p: &str) -> (r: bool)
    ensures
        r == has_prefix(s@, p@),
{
    let a = to_chars(s);
    let b = to_chars(p);
    if b.len() > a.len() {
        return false;
    }
    let mut i: usize = 0;
    while i < b.len()
        invariant
            a@ == s@,
            b@ == p@,
            i <= b@.len() <= a@.len(),
            forall|j: int| 0 <= j < i ==> a@[j] == b@[j],
        decreases b@.len() - i,
    {
        if a[i] != b[i] {
            proof {
                assert(a@.take(b@.len() as int)[i as int] != b@[i as int]);
            }
            return false;
        }
        i += 1;
    }
    proof {
        assert(a@.take(b@.len() as int) =~= b@);
    }
    true
}

/// Whether `s` ends with `p`.
pub fn ends_with(s: &str, p: &str) -> (r: bool)
    ensures
        r == has_suffix(s@, p@),
{
    let a = to_chars(s);
    let b = to_chars(p);
    if b.len() > a.len() {
        return false;
    }
    let n: usize = a.len();
    let off: usize = n - b.len();
    let mut i: usize = 0;
    while i < b.len()
        invariant
            a@ == s@,
            b@ == p@,
            n == a@.len(),
            i <= b@.len() <= n,
            off == n - b@.len(),
            forall|j: int| 0 <= j < i ==> a@[off + j] == b@[j],
        decreases b@.len() - i,
    {
        if a[off + i] != b[i] {
            proof {
                assert(a@.skip(off as int)[i as int] != b@[i as int]);
            }
            return false;
        }
        i += 1;
    }
    proof {
        assert(a@.skip(off as int) =~= b@);
    }
    true
}

/// What follows the prefix `p`, where `s` has it.
pub fn strip_prefix(s: &str, p: &str) -> (r: Option<String>)
    ensures
        r is Some <==> has_prefix(s@, p@),
        r is Some ==> r->0@ == s@.skip(p@.len() as int),
{
    if starts_with(s, p) {
        let v = to_chars(s);
        let b = to_chars(p);
        Some(from_range(&v, b.len(), v.len()))
    } else {
        None
    }
}

/// What precedes the suffix `p`, where `s` has it.
pub fn strip_suffix(s: &str, p: &str) -> (r: Option<String>)
    ensures
        r is Some <==> has_suffix(s@, p@),
        r is Some ==> r->0@ == s@.take(s@.len() - p@.len()),
{
    if ends_with(s, p) {
        let v = to_chars(s);
        let b = to_chars(p);
        Some(from_range(&v, 0, v.len() - b.len()))
    } else {
        None
    }
}

/// Whether `c` is one of `seps`.
pub fn is_one_of(c: char, seps: &[char]) -> (r: bool)
    ensures
        r == seps@.contains(c),
{
    let mut k: usize = 0;
    while k < seps.len()
        invariant
            k <= seps@.len(),
            forall|j: int| 0 <= j < k ==> seps@[j] != c,
        decreases seps@.len() - k,
    {
        if seps[k] == c {
            return true;
        }
        k += 1;
    }
    false
}

pub proof fn lemma_pieces_nonempty(s: Seq<char>, seps: Seq<char>)
    ensures
        pieces(s, seps).len() >= 1,
    decreases s.len(),
{
    if s.len() > 0 {
        lemma_pieces_nonempty(s.drop_last(), seps);
    }
}

pub proof fn lemma_pieces_without(s: Seq<char>, sep: char, i: int)
    requires
        0 <= i < pieces(s, seq![sep]).len(),
    ensures
        !pieces(s, seq![sep])[i].contains(sep),
    decreases s.len(),
{
    if s.len() > 0 {
        let r = pieces(s.drop_last(), seq![sep]);
        lemma_pieces_nonempty(s.drop_last(), seq![sep]);
        let out = pieces(s, seq![sep]);
        if s.last() == sep {
            assert(seq![sep].contains(sep)) by {
                assert(seq![sep][0] == sep);
            }
            if i < r.len() {
                lemma_pieces_without(s.drop_last(), sep, i);
            }
        } else {
            if i < r.len() - 1 {
                lemma_pieces_without(s.drop_last(), sep, i);
            } else {
                lemma_pieces_without(s.drop_last(), sep, r.len() - 1);
                assert(out[i] == r.last().push(s.last()));
                if out[i].contains(sep) {
                    let k = choose|k: int| 0 <= k < out[i].len() && out[i][k] == sep;
                    assert(r.last()[k] == sep);
                }
            }
        }
    }
}

/// The pieces of `s` between the separators `seps`.
pub fn split_any(s: &str, seps: &[char]) -> (r: Vec<String>)
    ensures
        strs(r@) == pieces(s@, seps@),
        r@.len() >= 1,
{
    let v = to_chars(s);
    let mut out: Vec<String> = Vec::new();
    let mut cur = String::new();
    let mut i: usize = 0;
    proof {
        assert(strs(out@).push(cur@) =~= seq![Seq::<char>::empty()]);
    }
    while i < v.len()
        invariant
            i <= v@.len(),
            strs(out@).push(cur@) == pieces(v@.take(i as int), seps@),
        decreases v@.len() - i,
    {
        let c = v[i];
        let ghost before_out = strs(out@);
        let ghost before_cur = cur@;
        proof {
            assert(v@.take(i + 1).drop_last() =~= v@.take(i as int));
            assert(v@.take(i + 1).last() == c);
        }
        if is_one_of(c, seps) {
            out.push(cur);
            cur = String::new();
            proof {
                assert(strs(out@) =~= before_out.push(before_cur));
            }
        } else {
            cur.push(c);
            proof {
                assert(before_out.push(cur@) =~= before_out.push(before_cur).update(
                    before_out.len() as int,
                    before_cur.push(c),
                ));
            }
        }
        i += 1;
    }
    proof {
        assert(v@.take(i as int) =~= v@);
        assert(strs(out@.push(cur)) =~= strs(out@).push(cur@));
    }
    out.push(cur);
    out
}

/// The lines of a text.
pub fn lines(s: &str) -> (r: Vec<String>)
    ensures
        strs(r@) == line_seq(s@),
{
    let seps = ['\n'];
    let parts = split_any(s, &seps);
    proof {
        assert(seps@ =~= seq!['\n']);
    }
    let ghost p = pieces(s@, seq!['\n']);
    let n: usize = parts.len() - 1;
    let mut out: Vec<String> = Vec::new();
    let mut i: usize = 0;
    while i < n
        invariant
            i <= n,
            n == parts@.len() - 1,
            strs(parts@) == p,
            out@.len() == i,
            forall|j: int| 0 <= j < i ==> (#[trigger] out@[j])@ == without_cr(p[j]),
        decreases n - i,
    {
        let v = to_chars(parts[i].as_str());
        proof {
            assert(p[i as int] == parts@[i as int]@);
        }
        let line = if v.len() > 0 && v[v.len() - 1] == '\r' {
            from_range(&v, 0, v.len() - 1)
        } else {
            from_range(&v, 0, v.len())
        };
        proof {
            assert(line@ =~= without_cr(p[i as int]));
        }
        out.push(line);
        i += 1;
    }
    proof {
        assert(p.last() == parts@[n as int]@);
        assert(strs(out@) =~= p.drop_last().map_values(|l: Seq<char>| without_cr(l)));
    }
    if !parts[n].as_str().is_empty() {
        let last = parts[n].clone();
        proof {
            assert(strs(out@.push(last)) =~= strs(out@).push(last@));
        }
        out.push(last);
    }
    out
}

/// The parts one after another with `sep` between neighbours.
pub fn join(parts: &Vec<String>, sep: &str) -> (r: String)
    ensures
        r@ == joined(strs(parts@), sep@),
{
    let mut r = String::new();
    let mut i: usize = 0;
    let ghost all = strs(parts@);
    while i < parts.len()
        invariant
            i <= parts@.len(),
            all == strs(parts@),
            r@ == joined(all.take(i as int), sep@),
        decreases parts@.len() - i,
    {
        proof {
            assert(all.take(i + 1).drop_last() =~= all.take(i as int));
            assert(all.take(i + 1).last() == parts@[i as int]@);
        }
        if i > 0 {
            r.append(sep);
        }
        r.append(parts[i].as_str());
        proof {
            if i == 0 {
                assert(r@ =~= parts@[0]@);
                assert(all.take(1)[0] == parts@[0]@);
            }
        }
        i += 1;
    }
    proof {
        assert(all.take(i as int) =~= all);
    }
    r
}

/// The first place where `c` stands in `s`.
pub fn find_char(s: &str, c: char) -> (r: Option<usize>)
    ensures
        match r {
            Some(i) => i < s@.len() && s@[i as int] == c && forall|j: int| 0 <= j < i ==> s@[j] != c,
            None => !s@.contains(c),
        },
{
    let v = to_chars(s);
    let mut i: usize = 0;
    while i < v.len()
        invariant
            v@ == s@,
            i <= v@.len(),
            forall|j: int| 0 <= j < i ==> v@[j] != c,
        decreases v@.len() - i,
    {
        if v[i] == c {
            return Some(i);
        }
        i += 1;
    }
    None
}

pub proof fn lemma_before_is(s: Seq<char>, c: char, i: int)
    requires
        0 <= i <= s.len(),
        forall|j: int| 0 <= j < i ==> s[j] != c,
        i < s.len() ==> s[i] == c,
    ensures
        before(s, c) == s.take(i),
    decreases i,
{
    if i > 0 {
        assert forall|j: int| 0 <= j < i - 1 implies s.skip(1)[j] != c by {
            assert(s.skip(1)[j] == s[j + 1]);
        }
        lemma_before_is(s.skip(1), c, i - 1);
        assert(s.take(i) =~= seq![s[0]] + s.skip(1).take(i - 1));
    } else {
        assert(s.take(0) =~= Seq::empty());
    }
}

/// How many characters stand before the first `c`.
pub fn index_before(s: &str, c: char) -> (i: usize)
    ensures
        i == before(s@, c).len(),
        i <= s@.len(),
        before(s@, c) == s@.take(i as int),
        i < s@.len() ==> s@[i as int] == c,
        i < s@.len() <==> s@.contains(c),
{
    match find_char(s, c) {
        Some(i) => {
            proof {
                lemma_before_is(s@, c, i as int);
            }
            i
        },
        None => {
            let v = to_chars(s);
            proof {
                assert forall|j: int| 0 <= j < s@.len() implies s@[j] != c by {
                    assert(s@.contains(s@[j]));
                }
                lemma_before_is(s@, c, s@.len() as int);
            }
            v.len()
        },
    }
}

/// The text before the first `c`, or all of it.
pub fn take_before(s: &str, c: char) -> (r: String)
    ensures
        r@ == before(s@, c),
{
    let i = index_before(s, c);
    let v = to_chars(s);
    from_range(&v, 0, i)
}

fn matches_at(v: &Vec<char>, p: &Vec<char>, i: usize) -> (r: bool)
    requires
        i + p@.len() <= v@.len(),
    ensures
        r == occurs_at(v@, p@, i as int),
{
    let n: usize = v.len();
    let mut k: usize = 0;
    while k < p.len()
        invariant
            n == v@.len(),
            k <= p@.len(),
            i + p@.len() <= n,
            forall|j: int| 0 <= j < k ==> v@[i + j] == p@[j],
        decreases p@.len() - k,
    {
        if v[i + k] != p[k] {
            proof {
                assert(v@.subrange(i as int, i + p@.len())[k as int] != p@[k as int]);
            }
            return false;
        }
        k += 1;
    }
    proof {
        assert(v@.subrange(i as int, i + p@.len()) =~= p@);
    }
    true
}

/// The last place where `p` stands in `s`, counted in characters.
pub fn rfind(s: &str, p: &str) -> (r: Option<usize>)
    ensures
        match r {
            Some(i) => occurs_last_at(s@, p@, i as int),
            None => !occurs(s@, p@),
        },
{
    let v = to_chars(s);
    let b = to_chars(p);
    if b.len() > v.len() {
        return None;
    }
    let mut i: usize = v.len() - b.len();
    loop
        invariant
            v@ == s@,
            b@ == p@,
            i + b@.len() <= v@.len(),
            forall|j: int| i < j ==> !#[trigger] occurs_at(v@, b@, j),
        decreases i,
    {
        if matches_at(&v, &b, i) {
            return Some(i);
        }
        if i == 0 {
            return None;
        }
        i -= 1;
    }
}

/// Whether `p` stands anywhere in `s`.
pub fn contains_str(s: &str, p: &str) -> (r: bool)
    ensures
        r == occurs(s@, p@),
{
    match rfind(s, p) {
        Some(i) => {
            proof {
                assert(occurs_at(s@, p@, i as int));
            }
            true
        },
        None => false,
    }
}

pub fn cat2(a: &str, b: &str) -> (r: String)
    ensures
        r@ == a@ + b@,
{
    let mut r = a.to_owned();
    r.append(b);
    r
}

pub fn cat3(a: &str, b: &str, c: &str) -> (r: String)
    ensures
        r@ == a@ + b@ + c@,
{
    let mut r = cat2(a, b);
    r.append(c);
    r
}

pub fn cat4(a: &str, b: &str, c: &str, d: &str) -> (r: String)
    ensures
        r@ == a@ + b@ + c@ + d@,
{
    let mut r = cat3(a, b, c);
    r.append(d);
    r
}

pub fn cat5(a: &str, b: &str, c: &str, d: &str, e: &str) -> (r: String)
    ensures
        r@ == a@ + b@ + c@ + d@ + e@,
{
    let mut r = cat4(a, b, c, d);
    r.append(e);
    r
}

pub proof fn lemma_pieces_append(a: Seq<char>, c: char, b: Seq<char>)
    requires
        !b.contains(c),
    ensures
        pieces(a + seq![c] + b, seq![c]) == pieces(a, seq![c]).push(b),
    decreases b.len(),
{
    let whole = a + seq![c] + b;
    assert(seq![c].contains(c)) by {
        assert(seq![c][0] == c);
    }
    if b.len() == 0 {
        assert(whole.drop_last() =~= a);
        assert(whole.last() == c);
        assert(b =~= Seq::empty());
    } else {
        let d = b.drop_last();
        assert(whole.drop_last() =~= a + seq![c] + d);
        assert(!d.contains(c)) by {
            if d.contains(c) {
                let k = choose|k: int| 0 <= k < d.len() && d[k] == c;
                assert(b[k] == c);
            }
        }
        lemma_pieces_append(a, c, d);
        assert(b.contains(b.last())) by {
            assert(b[b.len() - 1] == b.last());
        }
        assert(whole.last() == b.last());
        let r = pieces(a, seq![c]).push(d);
        assert(r.update(r.len() - 1, d.push(b.last())) =~= pieces(a, seq![c]).push(b)) by {
            assert(d.push(b.last()) =~= b);
        }
    }
}

pub proof fn lemma_pieces_single(a: Seq<char>, c: char)
    requires
        !a.contains(c),
    ensures
        pieces(a, seq![c]) == seq![a],
    decreases a.len(),
{
    if a.len() == 0 {
        assert(a =~= Seq::empty());
    } else {
        let d = a.drop_last();
        assert(!d.contains(c)) by {
            if d.contains(c) {
                let k = choose|k: int| 0 <= k < d.len() && d[k] == c;
                assert(a[k] == c);
            }
        }
        lemma_pieces_single(d, c);
        assert(a.contains(a.last())) by {
            assert(a[a.len() - 1] == a.last());
        }
        assert(d.push(a.last()) =~= a);
        assert(seq![d].update(0, a) =~= seq![a]);
    }
}

/// What is white space and what is not, of the characters that lists and files are written
/// with.
pub proof fn law_white_space(c: char)
    ensures
        c == ' ' || c == '\t' || c == '\n' || c == '\r' ==> is_white(c),
        '!' <= c <= '~' ==> !is_white(c),
{
}

proof fn lemma_trimmed_start_of(a: Seq<char>, s: Seq<char>)
    requires
        forall|i: int| 0 <= i < a.len() ==> is_white(#[trigger] a[i]),
        s.len() > 0 ==> !is_white(s[0]),
    ensures
        trimmed_start(a + s) == s,
    decreases a.len(),
{
    if a.len() > 0 {
        assert((a + s)[0] == a[0]);
        assert((a + s).skip(1) =~= a.skip(1) + s);
        lemma_trimmed_start_of(a.skip(1), s);
    } else {
        assert(a + s =~= s);
    }
}

proof fn lemma_trimmed_end_of(s: Seq<char>, b: Seq<char>)
    requires
        forall|i: int| 0 <= i < b.len() ==> is_white(#[trigger] b[i]),
        s.len() > 0 ==> !is_white(s.last()),
    ensures
        trimmed_end(s + b) == s,
    decreases b.len(),
{
    if b.len() > 0 {
        assert((s + b).last() == b.last());
        assert(b.last() == b[b.len() - 1]);
        assert((s + b).drop_last() =~= s + b.drop_last());
        lemma_trimmed_end_of(s, b.drop_last());
    } else {
        assert(s + b =~= s);
    }
}

/// Trimming takes the white space at both ends away and nothing else.
pub proof fn law_trimming_takes_the_ends(a: Seq<char>, s: Seq<char>, b: Seq<char>)
    requires
        forall|i: int| 0 <= i < a.len() ==> is_white(#[trigger] a[i]),
        forall|i: int| 0 <= i < b.len() ==> is_white(#[trigger] b[i]),
        s.len() > 0 ==> !is_white(s[0]) && !is_white(s.last()),
    ensures
        trimmed(a + s + b) == s,
        trimmed(s) == s,
        trimmed_end(s + b) == s,
        trimmed_start(a + s) == s,
{
    if s.len() == 0 {
        let e = Seq::<char>::empty();
        assert(s =~= e);
        assert(a + s + b =~= (a + b) + e);
        assert forall|i: int| 0 <= i < (a + b).len() implies is_white(#[trigger] (a + b)[i]) by {
            if i < a.len() {
                assert((a + b)[i] == a[i]);
            } else {
                assert((a + b)[i] == b[i - a.len()]);
            }
        }
        lemma_trimmed_start_of(a + b, e);
    } else {
        assert(a + s + b =~= a + (s + b));
        assert((s + b)[0] == s[0]);
        lemma_trimmed_start_of(a, s + b);
    }
    lemma_trimmed_end_of(s, b);
    lemma_trimmed_start_of(a, s);
    lemma_trimmed_start_of(Seq::empty(), s);
    assert(Seq::<char>::empty() + s =~= s);
    lemma_trimmed_end_of(s, Seq::empty());
    assert(s + Seq::<char>::empty() =~= s);
}

/// Small letters stand in the place of capitals, and nothing else changes.
pub proof fn law_lowering_makes_letters_small(s: Seq<char>, i: int)
    requires
        0 <= i < s.len(),
    ensures
        lowered(s).len() == s.len(),
        'A' <= s[i] <= 'Z' ==> lowered(s)[i] as int == s[i] as int + 32,
        !('A' <= s[i] <= 'Z') ==> lowered(s)[i] == s[i],
{
}

/// What stands before the first separator is all up to it, and the whole text where there
/// is none.
pub proof fn law_before_the_first(a: Seq<char>, c: char, b: Seq<char>)
    requires
        !a.contains(c),
    ensures
        before(a + seq![c] + b, c) == a,
        before(a, c) == a,
{
    let w = a + seq![c] + b;
    assert forall|j: int| 0 <= j < a.len() implies w[j] != c by {
        assert(a.contains(a[j]));
        assert(w[j] == a[j]);
    }
    assert forall|j: int| 0 <= j < a.len() implies a[j] != c by {
        assert(a.contains(a[j]));
    }
    assert(w[a.len() as int] == c);
    lemma_before_is(w, c, a.len() as int);
    assert(w.take(a.len() as int) =~= a);
    lemma_before_is(a, c, a.len() as int);
    assert(a.take(a.len() as int) =~= a);
}

/// Parts without the separator come out of their joined text again.
pub proof fn law_joined_parts_come_apart(parts: Seq<Seq<char>>, c: char)
    requires
        parts.len() > 0,
        forall|i: int| 0 <= i < parts.len() ==> !(#[trigger] parts[i]).contains(c),
    ensures
        pieces(joined(parts, seq![c]), seq![c]) == parts,
    decreases parts.len(),
{
    if parts.len() == 1 {
        lemma_pieces_single(parts[0], c);
        assert(seq![parts[0]] =~= parts);
    } else {
        let d = parts.drop_last();
        assert forall|i: int| 0 <= i < d.len() implies !(#[trigger] d[i]).contains(c) by {
            assert(d[i] == parts[i]);
        }
        law_joined_parts_come_apart(d, c);
        assert(!parts[parts.len() - 1].contains(c));
        lemma_pieces_append(joined(d, seq![c]), c, parts.last());
        assert(d.push(parts.last()) =~= parts);
    }
}

/// A text of these lines, each with a line end behind it.
pub open spec fn text_of_lines(ls: Seq<Seq<char>>) -> Seq<char>
    decreases ls.len(),
{
    if ls.len() == 0 {
        Seq::empty()
    } else {
        text_of_lines(ls.drop_last()) + ls.last() + seq!['\n']
    }
}

/// A line as a text can hold it: without a line end, and without the character that is
/// taken for part of one.
pub open spec fn is_line(l: Seq<char>) -> bool {
    !l.contains('\n') && (l.len() > 0 ==> l.last() != '\r')
}

proof fn lemma_pieces_of_lines(ls: Seq<Seq<char>>)
    requires
        forall|i: int| 0 <= i < ls.len() ==> is_line(#[trigger] ls[i]),
    ensures
        pieces(text_of_lines(ls), seq!['\n']) == ls.push(Seq::empty()),
    decreases ls.len(),
{
    let c = '\n';
    if ls.len() == 0 {
        assert(ls.push(Seq::empty()) =~= seq![Seq::<char>::empty()]);
    } else {
        let d = ls.drop_last();
        assert forall|i: int| 0 <= i < d.len() implies is_line(#[trigger] d[i]) by {
            assert(d[i] == ls[i]);
        }
        lemma_pieces_of_lines(d);
        let t = text_of_lines(d);
        let l = ls.last();
        assert(is_line(ls[ls.len() - 1]));
        lemma_pieces_grow(t, l, c);
        let p = pieces(t, seq![c]);
        assert(p.last() =~= Seq::empty());
        assert(p.update(p.len() - 1, p.last() + l) =~= ls);
        let w = t + l;
        assert(seq![c].contains(c)) by {
            assert(seq![c][0] == c);
        }
        assert((w + seq![c]).drop_last() =~= w);
        assert((w + seq![c]).last() == c);
    }
}

/// Text without separators goes on the last piece.
proof fn lemma_pieces_grow(t: Seq<char>, l: Seq<char>, c: char)
    requires
        !l.contains(c),
    ensures
        ({
            let p = pieces(t, seq![c]);
            pieces(t + l, seq![c]) == p.update(p.len() - 1, p.last() + l)
        }),
    decreases l.len(),
{
    let p = pieces(t, seq![c]);
    lemma_pieces_nonempty(t, seq![c]);
    if l.len() == 0 {
        assert(t + l =~= t);
        assert(p.last() + l =~= p.last());
        assert(p.update(p.len() - 1, p.last()) =~= p);
    } else {
        let d = l.drop_last();
        assert(!d.contains(c)) by {
            if d.contains(c) {
                let k = choose|k: int| 0 <= k < d.len() && d[k] == c;
                assert(l[k] == c);
            }
        }
        lemma_pieces_grow(t, d, c);
        assert((t + l).drop_last() =~= t + d);
        assert((t + l).last() == l.last());
        assert(l.contains(l[l.len() - 1]));
        assert(!seq![c].contains(l.last()));
        let q = p.update(p.len() - 1, p.last() + d);
        assert((p.last() + d).push(l.last()) =~= p.last() + l);
        assert(q.update(q.len() - 1, (p.last() + d).push(l.last())) =~= p.update(
            p.len() - 1,
            p.last() + l,
        ));
    }
}

/// The lines of a text are the lines that it was written with.
pub proof fn law_lines_come_back(ls: Seq<Seq<char>>)
    requires
        forall|i: int| 0 <= i < ls.len() ==> is_line(#[trigger] ls[i]),
    ensures
        line_seq(text_of_lines(ls)) == ls,
{
    lemma_pieces_of_lines(ls);
    let p = pieces(text_of_lines(ls), seq!['\n']);
    assert(p.drop_last() =~= ls);
    assert(p.last() =~= Seq::empty());
    assert(ls.map_values(|l: Seq<char>| without_cr(l)) =~= ls) by {
        assert forall|i: int| 0 <= i < ls.len() implies without_cr(ls[i]) == ls[i] by {
            assert(is_line(ls[i]));
        }
    }
}

/// A prefix and a suffix are what a text begins and ends with.
pub proof fn law_prefixes_and_suffixes(a: Seq<char>, b: Seq<char>)
    ensures
        has_prefix(a + b, a),
        has_suffix(a + b, b),
        a.len() > 0 ==> !has_prefix(b.take(0), a),
        a.len() > 0 ==> !has_suffix(b.take(0), a),
{
    assert((a + b).take(a.len() as int) =~= a);
    assert((a + b).skip(a.len() as int) =~= b);
}

/// What stands between separators of any kind is a piece of its own.
pub proof fn lemma_pieces_joined(a: Seq<char>, seps: Seq<char>, c: char, b: Seq<char>)
    requires
        seps.contains(c),
        forall|i: int| 0 <= i < b.len() ==> !seps.contains(#[trigger] b[i]),
    ensures
        pieces(a + seq![c] + b, seps) == pieces(a, seps).push(b),
    decreases b.len(),
{
    let whole = a + seq![c] + b;
    if b.len() == 0 {
        assert(whole.drop_last() =~= a);
        assert(whole.last() == c);
        assert(b =~= Seq::empty());
    } else {
        let d = b.drop_last();
        assert forall|i: int| 0 <= i < d.len() implies !seps.contains(#[trigger] d[i]) by {
            assert(d[i] == b[i]);
        }
        lemma_pieces_joined(a, seps, c, d);
        assert(whole.drop_last() =~= a + seq![c] + d);
        assert(whole.last() == b.last());
        assert(b.last() == b[b.len() - 1]);
        let r = pieces(a, seps).push(d);
        assert(d.push(b.last()) =~= b);
        assert(r.update(r.len() - 1, b) =~= pieces(a, seps).push(b));
    }
}

/// A text without separators is one piece.
pub proof fn lemma_one_piece(a: Seq<char>, seps: Seq<char>)
    requires
        forall|i: int| 0 <= i < a.len() ==> !seps.contains(#[trigger] a[i]),
    ensures
        pieces(a, seps) == seq![a],
    decreases a.len(),
{
    if a.len() == 0 {
        assert(a =~= Seq::empty());
    } else {
        let d = a.drop_last();
        assert forall|i: int| 0 <= i < d.len() implies !seps.contains(#[trigger] d[i]) by {
            assert(d[i] == a[i]);
        }
        lemma_one_piece(d, seps);
        assert(a.last() == a[a.len() - 1]);
        assert(d.push(a.last()) =~= a);
        assert(seq![d].update(0, a) =~= seq![a]);
    }
}

} // verus!

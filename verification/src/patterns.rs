//! The regular expressions of the tool, matched by the `regex` crate.
use crate::text::{
    has_prefix, has_suffix, is_white, law_prefixes_and_suffixes, lemma_pieces_append,
    lemma_pieces_single, opt_str, pieces, trimmed, trimmed_end, trimmed_start,
};
use vstd::prelude::*;
use vstd::string::*;

verus! {

/// A line of a `Cartfile.resolved`: a kind, a quoted name, a quoted version.
pub const CARTFILE_LINE: &'static str = r#"^\s*(\S+)\s+["']([^"']+)["']\s+["']([^"']+)["']\s*$"#;

/// The bundle directory in the load path of a framework.
pub const OTOOL_FRAMEWORK: &'static str = r"/([^/]+\.framework)/";

/// The load path on a line of `otool -L`.
pub const OTOOL_LINE: &'static str = r"^\s*([^\s]+)\s+\(compatibility version";

pub open spec fn is_quote(c: char) -> bool {
    c == '"' || c == '\''
}

pub open spec fn all_white(s: Seq<char>) -> bool {
    forall|i: int| 0 <= i < s.len() ==> is_white(#[trigger] s[i])
}

pub open spec fn none_white(s: Seq<char>) -> bool {
    forall|i: int| 0 <= i < s.len() ==> !is_white(#[trigger] s[i])
}

pub open spec fn none_quote(s: Seq<char>) -> bool {
    forall|i: int| 0 <= i < s.len() ==> !is_quote(#[trigger] s[i])
}

/// The quotes of a line stand at `a < b < c < d`: a kind without white space
/// and then white space before the first, a name between the first two, white
/// space between the middle two, a version between the last two, and white
/// space behind.
pub open spec fn cartfile_quotes(line: Seq<char>, a: int, b: int, c: int, d: int) -> bool {
    &&& 0 <= a && a + 1 < b && b + 1 < c && c + 1 < d && d < line.len()
    &&& is_quote(line[a]) && is_quote(line[b]) && is_quote(line[c]) && is_quote(line[d])
    &&& trimmed_end(line.take(a)).len() < a
    &&& trimmed(line.take(a)).len() > 0
    &&& none_white(trimmed(line.take(a)))
    &&& none_quote(line.subrange(a + 1, b))
    &&& all_white(line.subrange(b + 1, c))
    &&& none_quote(line.subrange(c + 1, d))
    &&& all_white(line.skip(d + 1))
}

/// Name and version of a `Cartfile.resolved` line. Such a line can be taken
/// apart in one way only: the last quote closes the version.
pub open spec fn cartfile_fields(line: Seq<char>) -> Option<(Seq<char>, Seq<char>)> {
    if exists|a: int, b: int, c: int, d: int| #[trigger] cartfile_quotes(line, a, b, c, d) {
        let (a, b, c, d) = choose|a: int, b: int, c: int, d: int| #[trigger]
            cartfile_quotes(line, a, b, c, d);
        Some((line.subrange(a + 1, b), line.subrange(c + 1, d)))
    } else {
        None
    }
}

/// Calls `Regex::captures` for the second and third group of
/// [`CARTFILE_LINE`]. The pattern is anchored at both ends, so it matches
/// exactly the lines that [`cartfile_fields`] takes apart, and its groups are
/// the text between the quotes.
#[verifier::external_body]
pub(crate) fn capture_cartfile(pattern: &str, line: &str) -> (r: Option<(String, String)>)
    requires
        pattern@ == CARTFILE_LINE@,
    ensures
        match (r, cartfile_fields(line@)) {
            (Some(f), Some(g)) => f.0@ == g.0 && f.1@ == g.1,
            (None, None) => true,
            _ => false,
        },
{
    let re = regex::Regex::new(pattern).expect("a valid pattern");
    let c = re.captures(line)?;
    Some((c[2].to_string(), c[3].to_string()))
}

/// The leading characters that are not white space.
pub open spec fn leading_word(s: Seq<char>) -> Seq<char>
    decreases s.len(),
{
    if s.len() == 0 || is_white(s[0]) {
        Seq::empty()
    } else {
        seq![s[0]] + leading_word(s.skip(1))
    }
}

/// The load path on a line of `otool -L`: the first word, where the
/// compatibility version follows it.
pub open spec fn otool_load_path(line: Seq<char>) -> Option<Seq<char>> {
    let t = trimmed_start(line);
    let word = leading_word(t);
    let rest = t.skip(word.len() as int);
    if word.len() > 0 && trimmed_start(rest).len() < rest.len() && has_prefix(
        trimmed_start(rest),
        "(compatibility version"@,
    ) {
        Some(word)
    } else {
        None
    }
}

/// Calls `Regex::captures` for the first group of [`OTOOL_LINE`]: the first
/// word of a line on which white space and `(compatibility version` follow it.
#[verifier::external_body]
pub(crate) fn capture_otool_line(pattern: &str, line: &str) -> (r: Option<String>)
    requires
        pattern@ == OTOOL_LINE@,
    ensures
        opt_str(r) == otool_load_path(line@),
{
    let re = regex::Regex::new(pattern).expect("a valid pattern");
    let c = re.captures(line)?;
    Some(c[1].to_string())
}

pub open spec fn is_framework_dir(name: Seq<char>) -> bool {
    has_suffix(name, ".framework"@) && name.len() > ".framework"@.len()
}

/// The first directory of a path, with a slash on either side, that is a
/// framework bundle.
pub open spec fn first_framework(dirs: Seq<Seq<char>>) -> Option<Seq<char>>
    decreases dirs.len(),
{
    if dirs.len() < 3 {
        None
    } else if is_framework_dir(dirs[1]) {
        Some(dirs[1])
    } else {
        first_framework(dirs.skip(1))
    }
}

/// The framework bundle that a load path goes through.
pub open spec fn framework_in(path: Seq<char>) -> Option<Seq<char>> {
    first_framework(pieces(path, seq!['/']))
}

/// Calls `Regex::captures` for the first group of [`OTOOL_FRAMEWORK`]. The
/// leftmost match is the first run of characters other than `/` that stands
/// between two slashes and ends in `.framework` behind at least one other
/// character.
#[verifier::external_body]
pub(crate) fn capture_framework(pattern: &str, path: &str) -> (r: Option<String>)
    requires
        pattern@ == OTOOL_FRAMEWORK@,
    ensures
        opt_str(r) == framework_in(path@),
{
    let re = regex::Regex::new(pattern).expect("a valid pattern");
    let c = re.captures(path)?;
    Some(c[1].to_string())
}

proof fn lemma_first_word(w: Seq<char>, rest: Seq<char>)
    requires
        none_white(w),
        rest.len() > 0 ==> is_white(rest[0]),
    ensures
        leading_word(w + rest) == w,
    decreases w.len(),
{
    let s = w + rest;
    if w.len() == 0 {
        assert(s =~= rest);
        assert(w =~= Seq::empty());
    } else {
        let t = w.skip(1);
        assert forall|i: int| 0 <= i < t.len() implies !is_white(#[trigger] t[i]) by {
            assert(t[i] == w[i + 1]);
        }
        lemma_first_word(t, rest);
        assert(s.skip(1) =~= t + rest);
        assert(s[0] == w[0]);
        assert(seq![w[0]] + t =~= w);
    }
}

/// A line of `otool -L` tells the path in front of its compatibility version, whatever
/// stands behind; a line without one tells nothing.
pub proof fn law_load_paths_come_first(w: Seq<char>, rest: Seq<char>)
    requires
        w.len() > 0,
        forall|i: int| 0 <= i < w.len() ==> '!' <= #[trigger] w[i] <= '~',
    ensures
        otool_load_path(seq!['\t'] + w + " (compatibility version"@ + rest) == Some(w),
        otool_load_path(w) is None,
        otool_load_path(w + seq![':']) is None,
{
    reveal_strlit(" (compatibility version");
    reveal_strlit("(compatibility version");
    let mid = " (compatibility version"@;
    let tail = mid + rest;
    let line = seq!['\t'] + w + mid + rest;
    let e = Seq::<char>::empty();
    assert forall|i: int| 0 <= i < w.len() implies !is_white(#[trigger] w[i]) by {
        assert('!' <= w[i] <= '~');
    }
    assert(line =~= seq!['\t'] + (w + tail));
    assert((w + tail)[0] == w[0]);
    assert(line[0] == '\t');
    assert(line.skip(1) =~= w + tail);
    assert(trimmed_start(w + tail) == w + tail);
    assert(trimmed_start(line) == w + tail);
    assert(tail[0] == ' ');
    lemma_first_word(w, tail);
    assert((w + tail).skip(w.len() as int) =~= tail);
    let after = tail.skip(1);
    assert(after[0] == '(');
    assert(trimmed_start(after) == after);
    assert(trimmed_start(tail) == after);
    assert(after.take("(compatibility version"@.len() as int) =~= "(compatibility version"@);
    lemma_first_word(w, e);
    assert(w + e =~= w);
    assert(w.skip(w.len() as int) =~= e);
    let wc = w + seq![':'];
    assert(wc[0] == w[0]);
    assert forall|i: int| 0 <= i < wc.len() implies !is_white(#[trigger] wc[i]) by {
        if i < w.len() {
            assert(wc[i] == w[i]);
        }
    }
    lemma_first_word(wc, e);
    assert(wc + e =~= wc);
    assert(wc.skip(wc.len() as int) =~= e);
}

/// The framework that a path goes through is the first directory on it of that kind.
pub proof fn law_frameworks_on_a_path(a: Seq<char>, n: Seq<char>, b: Seq<char>)
    requires
        !a.contains('/'),
        !n.contains('/'),
        !b.contains('/'),
        n.len() > 0,
    ensures
        framework_in(a + seq!['/'] + (n + ".framework"@) + seq!['/'] + b) == Some(
            n + ".framework"@,
        ),
        framework_in(a + seq!['/'] + b) is None,
{
    reveal_strlit(".framework");
    let f = n + ".framework"@;
    assert(!f.contains('/')) by {
        if f.contains('/') {
            let k = choose|k: int| 0 <= k < f.len() && f[k] == '/';
            if k < n.len() {
                assert(n[k] == '/');
            } else {
                assert(f[k] == ".framework"@[k - n.len()]);
            }
        }
    }
    lemma_pieces_single(a, '/');
    lemma_pieces_append(a, '/', f);
    lemma_pieces_append(a + seq!['/'] + f, '/', b);
    lemma_pieces_append(a, '/', b);
    law_prefixes_and_suffixes(n, ".framework"@);
    let ds = pieces(a + seq!['/'] + f + seq!['/'] + b, seq!['/']);
    assert(ds =~= seq![a, f, b]);
    assert(ds[1] == f);
    assert(is_framework_dir(f));
}

} // verus!

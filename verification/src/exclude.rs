//! Files that are left alone: patterns in which a star stands for any run of characters
//! and a question mark for any one character, slashes too.
use crate::text::{strs, to_chars};
use vstd::prelude::*;
use vstd::string::*;

verus! {

/// The `sourcemaps` commands.
#[derive(Debug)]
pub enum SourcemapsCommand {
    /// Stamp bundles and their source maps with debug ids.
    Inject {
        paths: Vec<String>,
        /// Patterns of files that are left alone.
        exclude: Vec<String>,
        /// Stamp also where a page pins the hash of a script.
        allow_sri: bool,
        /// Tell what would change, and write nothing.
        dry_run: bool,
    },
}

/// A text matches a pattern: a star stands for any run of characters, a question mark for
/// any one, and every other character for itself.
pub open spec fn glob_matches(pattern: Seq<char>, text: Seq<char>) -> bool
    decreases pattern.len() + text.len(),
{
    if pattern.len() == 0 {
        text.len() == 0
    } else if pattern[0] == '*' {
        glob_matches(pattern.skip(1), text) || (text.len() > 0 && glob_matches(
            pattern,
            text.skip(1),
        ))
    } else {
        text.len() > 0 && (pattern[0] == '?' || text[0] == pattern[0]) && glob_matches(
            pattern.skip(1),
            text.skip(1),
        )
    }
}

/// Whether a text matches a pattern.
pub fn matches_pattern(pattern: &str, text: &str) -> (r: bool)
    ensures
        r == glob_matches(pattern@, text@),
{
    let p = to_chars(pattern);
    let t = to_chars(text);
    let n: usize = t.len();
    // What the rest of the pattern says of the text from each place on, and of its end.
    let mut row: Vec<bool> = Vec::new();
    let mut end = true;
    let mut j: usize = 0;
    while j < n
        invariant
            j <= n,
            row@.len() == j,
            forall|k: int| 0 <= k < j ==> !#[trigger] row@[k],
        decreases n - j,
    {
        row.push(false);
        j += 1;
    }
    let mut i: usize = p.len();
    proof {
        assert(p@.skip(i as int).len() == 0);
        assert(t@.skip(n as int).len() == 0);
        assert forall|k: int| 0 <= k < n implies #[trigger] row@[k] == glob_matches(
            p@.skip(i as int),
            t@.skip(k),
        ) by {
            assert(t@.skip(k).len() > 0);
        }
    }
    while i > 0
        invariant
            i <= p@.len(),
            n == t@.len(),
            row@.len() == n,
            end == glob_matches(p@.skip(i as int), t@.skip(n as int)),
            forall|k: int|
                0 <= k < n ==> #[trigger] row@[k] == glob_matches(p@.skip(i as int), t@.skip(k)),
        decreases i,
    {
        let ghost below = p@.skip(i as int);
        i -= 1;
        let c = p[i];
        let ghost here = p@.skip(i as int);
        proof {
            assert(here[0] == c);
            assert(here.skip(1) =~= below);
            assert(t@.skip(n as int).len() == 0);
        }
        let mut old_right = end;
        end = c == '*' && end;
        let mut new_right = end;
        let mut k: usize = n;
        while k > 0
            invariant
                k <= n,
                n == t@.len(),
                row@.len() == n,
                here.len() > 0,
                here[0] == c,
                here.skip(1) == below,
                old_right == glob_matches(below, t@.skip(k as int)),
                new_right == glob_matches(here, t@.skip(k as int)),
                forall|q: int|
                    0 <= q < k ==> #[trigger] row@[q] == glob_matches(below, t@.skip(q)),
                forall|q: int|
                    k <= q < n ==> #[trigger] row@[q] == glob_matches(here, t@.skip(q)),
            decreases k,
        {
            proof {
                assert(t@.skip(k - 1).skip(1) =~= t@.skip(k as int));
                assert(t@.skip(k - 1)[0] == t@[k - 1]);
            }
            k -= 1;
            let old_here = row[k];
            let v = if c == '*' {
                old_here || new_right
            } else {
                (c == '?' || t[k] == c) && old_right
            };
            row.set(k, v);
            old_right = old_here;
            new_right = v;
        }
    }
    proof {
        assert(p@.skip(0) =~= p@);
        assert(t@.skip(0) =~= t@);
    }
    if n == 0 {
        end
    } else {
        row[0]
    }
}

/// A file is left alone where one of the patterns matches one of the forms that its
/// path can be written in.
pub open spec fn excluded_by(patterns: Seq<Seq<char>>, forms: Seq<Seq<char>>) -> bool {
    exists|i: int, j: int|
        0 <= i < patterns.len() && 0 <= j < forms.len() && #[trigger] glob_matches(
            patterns[i],
            forms[j],
        )
}

/// Whether a file is left alone. `forms` are the forms of its path: absolute, from the
/// current directory, and from each of the directories that were named.
pub fn is_excluded(patterns: &Vec<String>, forms: &Vec<String>) -> (r: bool)
    ensures
        r == excluded_by(strs(patterns@), strs(forms@)),
{
    let ghost ps = strs(patterns@);
    let ghost fs = strs(forms@);
    let mut i: usize = 0;
    while i < patterns.len()
        invariant
            i <= patterns@.len(),
            ps == strs(patterns@),
            fs == strs(forms@),
            forall|a: int, b: int|
                0 <= a < i && 0 <= b < fs.len() ==> !#[trigger] glob_matches(ps[a], fs[b]),
        decreases patterns@.len() - i,
    {
        let mut j: usize = 0;
        while j < forms.len()
            invariant
                i < patterns@.len(),
                j <= forms@.len(),
                ps == strs(patterns@),
                fs == strs(forms@),
                forall|a: int, b: int|
                    0 <= a < i && 0 <= b < fs.len() ==> !#[trigger] glob_matches(ps[a], fs[b]),
                forall|b: int| 0 <= b < j ==> !#[trigger] glob_matches(ps[i as int], fs[b]),
            decreases forms@.len() - j,
        {
            proof {
                assert(ps[i as int] == patterns@[i as int]@);
                assert(fs[j as int] == forms@[j as int]@);
            }
            if matches_pattern(patterns[i].as_str(), forms[j].as_str()) {
                proof {
                    assert(glob_matches(ps[i as int], fs[j as int]));
                }
                return true;
            }
            j += 1;
        }
        i += 1;
    }
    false
}

/// A pattern without wildcards matches itself and nothing else.
pub proof fn law_plain_patterns_match_themselves(p: Seq<char>, t: Seq<char>)
    requires
        !p.contains('*'),
        !p.contains('?'),
    ensures
        glob_matches(p, t) <==> t == p,
    decreases p.len(),
{
    if p.len() == 0 {
        assert(t.len() == 0 ==> t =~= p);
    } else {
        assert(p.contains(p[0]));
        let q = p.skip(1);
        assert(!q.contains('*') && !q.contains('?')) by {
            if q.contains('*') {
                let k = choose|k: int| 0 <= k < q.len() && q[k] == '*';
                assert(p[k + 1] == '*');
            }
            if q.contains('?') {
                let k = choose|k: int| 0 <= k < q.len() && q[k] == '?';
                assert(p[k + 1] == '?');
            }
        }
        if t.len() > 0 {
            law_plain_patterns_match_themselves(q, t.skip(1));
            assert(p =~= seq![p[0]] + q);
            assert(t =~= seq![t[0]] + t.skip(1));
        }
    }
}

/// A question mark in front of a pattern stands for exactly one character.
pub proof fn law_question_marks_stand_for_one(p: Seq<char>, c: char, t: Seq<char>)
    ensures
        glob_matches(seq!['?'] + p, seq![c] + t) <==> glob_matches(p, t),
        !glob_matches(seq!['?'] + p, Seq::empty()),
{
    assert((seq!['?'] + p).skip(1) =~= p);
    assert((seq![c] + t).skip(1) =~= t);
}

/// A star in front of a pattern stands for any run of characters: it matches exactly the
/// texts that end in something that the rest matches.
pub proof fn law_stars_stand_for_any_run(p: Seq<char>, t: Seq<char>)
    ensures
        glob_matches(seq!['*'] + p, t) <==> exists|k: int|
            0 <= k <= t.len() && #[trigger] glob_matches(p, t.skip(k)),
    decreases t.len(),
{
    let s = seq!['*'] + p;
    assert(s[0] == '*');
    assert(s.skip(1) =~= p);
    assert(t.skip(0) =~= t);
    if t.len() > 0 {
        let u = t.skip(1);
        law_stars_stand_for_any_run(p, u);
        assert(glob_matches(s, t) == (glob_matches(p, t) || glob_matches(s, u)));
        if glob_matches(p, t) {
            assert(glob_matches(p, t.skip(0)));
        } else if glob_matches(s, u) {
            let k = choose|k: int| 0 <= k <= u.len() && #[trigger] glob_matches(p, u.skip(k));
            assert(t.skip(k + 1) =~= u.skip(k));
            assert(glob_matches(p, t.skip(k + 1)));
        } else {
            assert forall|k: int| 0 <= k <= t.len() implies !#[trigger] glob_matches(
                p,
                t.skip(k),
            ) by {
                if k > 0 {
                    assert(u.skip(k - 1) =~= t.skip(k));
                    assert(!glob_matches(p, u.skip(k - 1)));
                }
            }
        }
    } else {
        assert(glob_matches(s, t) == glob_matches(p, t));
        assert(glob_matches(p, t) == glob_matches(p, t.skip(0)));
        assert forall|k: int| 0 <= k <= t.len() implies t.skip(k) == t by {
            assert(k == 0);
        }
    }
}

/// One pattern that matches one form of a path is enough, and without patterns nothing is
/// left alone.
pub proof fn law_one_pattern_is_enough(
    patterns: Seq<Seq<char>>,
    forms: Seq<Seq<char>>,
    i: int,
    j: int,
)
    requires
        0 <= i < patterns.len(),
        0 <= j < forms.len(),
        glob_matches(patterns[i], forms[j]),
    ensures
        excluded_by(patterns, forms),
        !excluded_by(Seq::empty(), forms),
        !excluded_by(patterns, Seq::empty()),
{
}

} // verus!

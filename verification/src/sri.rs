//! Scripts whose hashes the pages of a build pin.
//!
//! Stamping a script changes its bytes, so a page that pins its hash would refuse
//! it. Only a script that is to be stamped counts.
use crate::error::{Error, Failure, failure, input_invalid};
use crate::numeral::{dec_u64, decimal};
use crate::path_order::{
    lemma_path_irreflexive, lemma_path_total, lemma_path_transitive, path_less, path_precedes,
};
use crate::paths::{
    Part, PathPart, copy_path, extension, extension_of, file_name, has_path, is_rooted, join_path,
    joined_path, last_name, lexical_normalize, normalized, parent, parent_path, parse_path,
    part_views, path_parts, paths_of, same_path,
};
use crate::text::{
    before, cat3, from_chars, from_range, has_prefix, index_before, is_white,
    law_before_the_first, law_trimming_takes_the_ends, lowered, occurs_at, opt_str, str_eq, strs,
    take_before, to_chars, to_lower, trim, trimmed,
};
use crate::titles::after;
use vstd::prelude::*;
use vstd::string::*;

verus! {

pub const SCRIPT_TAG: &'static str = r"(?is)<script\b[^>]*>";

pub const LINK_TAG: &'static str = r"(?is)<link\b[^>]*>";

pub const HTML_COMMENT: &'static str = r"(?s)<!--.*?-->";

pub const PRELOADS_SCRIPT: &'static str = r#"(?i)\brel\s*=\s*["']?(modulepreload|preload)"#;

pub const INTEGRITY_ATTR: &'static str =
    r#"(?i)[\s"'<]integrity\s*=\s*("[^"]*"|'[^']*'|[^\s>]+)"#;

pub const SRC_ATTR: &'static str = r#"(?i)[\s"'<]src\s*=\s*("[^"]*"|'[^']*'|[^\s>]+)"#;

pub const HREF_ATTR: &'static str = r#"(?i)[\s"'<]href\s*=\s*("[^"]*"|'[^']*'|[^\s>]+)"#;

pub const ABSOLUTE_URL_PREFIX: &'static str = r"^([a-zA-Z][a-zA-Z0-9+.-]*:)?//";

/// What a pattern matches in a text, from left to right without overlap.
pub uninterp spec fn regex_finds(pattern: Seq<char>, text: Seq<char>) -> Seq<Seq<char>>;

/// Whether a pattern matches in a text.
pub uninterp spec fn regex_matches(pattern: Seq<char>, text: Seq<char>) -> bool;

/// The first group of the leftmost match of a pattern in a text.
pub uninterp spec fn regex_group(pattern: Seq<char>, text: Seq<char>) -> Option<Seq<char>>;

/// Calls `Regex::find_iter` with one of the two tag patterns. The result is named
/// [`regex_finds`]; nothing more is said of it.
#[verifier::external_body]
pub(crate) fn find_tags(pattern: &str, text: &str) -> (r: Vec<String>)
    requires
        pattern@ == SCRIPT_TAG@ || pattern@ == LINK_TAG@,
    ensures
        strs(r@) == regex_finds(pattern@, text@),
{
    let re = regex::Regex::new(pattern).expect("a valid pattern");
    re.find_iter(text).map(|m| m.as_str().to_string()).collect()
}

/// Calls `Regex::is_match` with [`PRELOADS_SCRIPT`]. The result is named
/// [`regex_matches`]; nothing more is said of it.
#[verifier::external_body]
pub(crate) fn tag_preloads(pattern: &str, tag: &str) -> (r: bool)
    requires
        pattern@ == PRELOADS_SCRIPT@,
    ensures
        r == regex_matches(pattern@, tag@),
{
    regex::Regex::new(pattern).expect("a valid pattern").is_match(tag)
}

/// Calls `Regex::captures` with one of the attribute patterns. The first group is
/// named [`regex_group`]; nothing more is said of it.
#[verifier::external_body]
pub(crate) fn capture_attribute(pattern: &str, tag: &str) -> (r: Option<String>)
    requires
        pattern@ == INTEGRITY_ATTR@ || pattern@ == SRC_ATTR@ || pattern@ == HREF_ATTR@,
    ensures
        opt_str(r) == regex_group(pattern@, tag@),
{
    let re = regex::Regex::new(pattern).expect("a valid pattern");
    let c = re.captures(tag)?;
    c.get(1).map(|m| m.as_str().to_string())
}

/// The first place at `from` or behind it where `p` stands in `s`.
pub open spec fn first_from(s: Seq<char>, p: Seq<char>, from: int) -> Option<int>
    decreases s.len() + 1 - from,
{
    if from < 0 || from > s.len() {
        None
    } else if occurs_at(s, p, from) {
        Some(from)
    } else {
        first_from(s, p, from + 1)
    }
}

/// A comment that is closed stands at the front of `s`: its length.
pub open spec fn comment_in_front(s: Seq<char>) -> Option<int> {
    if has_prefix(s, "<!--"@) {
        match first_from(s, "-->"@, 4) {
            Some(i) => Some(i + 3),
            None => None,
        }
    } else {
        None
    }
}

/// The text without its comments.
pub open spec fn comments_removed(s: Seq<char>) -> Seq<char>
    decreases s.len(),
{
    if s.len() == 0 {
        Seq::empty()
    } else {
        match comment_in_front(s) {
            Some(n) => comments_removed(after(s, n)),
            None => seq![s[0]] + comments_removed(s.skip(1)),
        }
    }
}

/// Calls `Regex::replace_all` with [`HTML_COMMENT`] and nothing in the place of the
/// matches: each goes from `<!--` to the next `-->`, also over line ends.
#[verifier::external_body]
pub(crate) fn remove_comments(pattern: &str, text: &str, by: &str) -> (r: String)
    requires
        pattern@ == HTML_COMMENT@,
        by@.len() == 0,
    ensures
        r@ == comments_removed(text@),
{
    let re = regex::Regex::new(pattern).expect("a valid pattern");
    re.replace_all(text, by).into_owned()
}

pub open spec fn is_letter(c: char) -> bool {
    ('A' <= c <= 'Z') || ('a' <= c <= 'z')
}

pub open spec fn is_scheme_char(c: char) -> bool {
    is_letter(c) || ('0' <= c <= '9') || c == '+' || c == '.' || c == '-'
}

/// The leading characters that can stand in a scheme.
pub open spec fn scheme_run(s: Seq<char>) -> Seq<char>
    decreases s.len(),
{
    if s.len() == 0 || !is_scheme_char(s[0]) {
        Seq::empty()
    } else {
        seq![s[0]] + scheme_run(s.skip(1))
    }
}

/// What follows the `//` of an absolute URL, with a scheme in front of it or
/// without.
pub open spec fn after_slashes(s: Seq<char>) -> Option<Seq<char>> {
    let n = scheme_run(s).len() as int;
    if has_prefix(s, "//"@) {
        Some(s.skip(2))
    } else if s.len() > 0 && is_letter(s[0]) && has_prefix(s.skip(n), "://"@) {
        Some(s.skip(n + 3))
    } else {
        None
    }
}

/// Calls `Regex::find` with [`ABSOLUTE_URL_PREFIX`] and gives what follows the
/// match. The pattern is anchored at the start: an optional scheme, a letter
/// first, with a colon behind it, then two slashes.
#[verifier::external_body]
pub(crate) fn split_origin(pattern: &str, url: &str) -> (r: Option<String>)
    requires
        pattern@ == ABSOLUTE_URL_PREFIX@,
    ensures
        opt_str(r) == after_slashes(url@),
{
    let re = regex::Regex::new(pattern).expect("a valid pattern");
    let m = re.find(url)?;
    Some(url[m.end()..].to_string())
}

/// A value in quotes of one kind on both sides.
pub open spec fn is_quoted(s: Seq<char>) -> bool {
    s.len() >= 2 && ((s[0] == '"' && s.last() == '"') || (s[0] == '\'' && s.last() == '\''))
}

/// The value of an attribute without the quotes round it.
pub open spec fn unquoted(s: Seq<char>) -> Seq<char> {
    if is_quoted(s) {
        s.subrange(1, s.len() - 1)
    } else {
        s
    }
}

/// The value of an attribute without the quotes round it.
pub fn unquote(value: &str) -> (r: String)
    ensures
        r@ == unquoted(value@),
{
    let v = to_chars(value);
    let n: usize = v.len();
    if n >= 2 && ((v[0] == '"' && v[n - 1] == '"') || (v[0] == '\'' && v[n - 1] == '\'')) {
        from_range(&v, 1, n - 1)
    } else {
        from_chars(&v)
    }
}

/// The URL that a tag pins, given its `integrity` and its URL. An empty
/// `integrity` pins nothing.
pub open spec fn pin_of(integrity: Option<Seq<char>>, url: Option<Seq<char>>) -> Option<Seq<char>> {
    if integrity is Some && trimmed(unquoted(integrity->0)).len() > 0 && url is Some {
        Some(unquoted(url->0))
    } else {
        None
    }
}

/// The URL that a tag pins, given its `integrity` and its URL.
pub fn pinned_url(integrity: &Option<String>, url: &Option<String>) -> (r: Option<String>)
    ensures
        opt_str(r) == pin_of(opt_str(*integrity), opt_str(*url)),
{
    match (integrity, url) {
        (Some(i), Some(u)) => {
            let q = unquote(i.as_str());
            let t = trim(q.as_str());
            if t.as_str().is_empty() {
                None
            } else {
                Some(unquote(u.as_str()))
            }
        },
        _ => None,
    }
}

/// The URLs that the tags pin.
pub open spec fn pins_of_tags(tags: Seq<Seq<char>>, attr: Seq<char>, preloads: bool) -> Seq<
    Seq<char>,
>
    decreases tags.len(),
{
    if tags.len() == 0 {
        Seq::empty()
    } else {
        let r = pins_of_tags(tags.drop_last(), attr, preloads);
        let tag = tags.last();
        let pin = pin_of(regex_group(INTEGRITY_ATTR@, tag), regex_group(attr, tag));
        if (preloads ==> regex_matches(PRELOADS_SCRIPT@, tag)) && pin is Some {
            r.push(pin->0)
        } else {
            r
        }
    }
}

/// The URLs that a page pins: those of its scripts, and those of its links that
/// preload scripts.
pub open spec fn page_pins(source: Seq<char>) -> Seq<Seq<char>> {
    let markup = comments_removed(source);
    pins_of_tags(regex_finds(SCRIPT_TAG@, markup), SRC_ATTR@, false) + pins_of_tags(
        regex_finds(LINK_TAG@, markup),
        HREF_ATTR@,
        true,
    )
}

fn add_pins(out: &mut Vec<String>, tags: &Vec<String>, attr: &str, preloads: bool)
    requires
        attr@ == SRC_ATTR@ || attr@ == HREF_ATTR@,
    ensures
        strs(final(out)@) == strs(old(out)@) + pins_of_tags(strs(tags@), attr@, preloads),
{
    let ghost all = strs(tags@);
    let ghost base = strs(out@);
    let mut i: usize = 0;
    proof {
        assert(base + pins_of_tags(all.take(0), attr@, preloads) =~= base);
    }
    while i < tags.len()
        invariant
            i <= tags@.len(),
            attr@ == SRC_ATTR@ || attr@ == HREF_ATTR@,
            all == strs(tags@),
            strs(out@) == base + pins_of_tags(all.take(i as int), attr@, preloads),
        decreases tags@.len() - i,
    {
        let tag = tags[i].as_str();
        let ghost r = pins_of_tags(all.take(i as int), attr@, preloads);
        proof {
            assert(all.take(i + 1).drop_last() =~= all.take(i as int));
            assert(all.take(i + 1).last() == tag@);
        }
        if !preloads || tag_preloads(PRELOADS_SCRIPT, tag) {
            let integrity = capture_attribute(INTEGRITY_ATTR, tag);
            let url = capture_attribute(attr, tag);
            match pinned_url(&integrity, &url) {
                Some(u) => {
                    proof {
                        assert(strs(out@.push(u)) =~= strs(out@).push(u@));
                        assert(base + r.push(u@) =~= (base + r).push(u@));
                    }
                    out.push(u);
                },
                None => {},
            }
        }
        i += 1;
    }
    proof {
        assert(all.take(i as int) =~= all);
    }
}

/// The URLs that a page pins.
pub fn list_page_pins(source: &str) -> (r: Vec<String>)
    ensures
        strs(r@) == page_pins(source@),
{
    proof {
        reveal_strlit("");
    }
    let markup = remove_comments(HTML_COMMENT, source, "");
    let scripts = find_tags(SCRIPT_TAG, markup.as_str());
    let links = find_tags(LINK_TAG, markup.as_str());
    let mut out: Vec<String> = Vec::new();
    proof {
        assert(strs(out@) =~= Seq::empty());
    }
    add_pins(&mut out, &scripts, SRC_ATTR, false);
    add_pins(&mut out, &links, HREF_ATTR, true);
    proof {
        assert(strs(out@) =~= page_pins(source@));
    }
    out
}

/// The path that a URL names: without its origin, query and fragment.
pub open spec fn url_path(url: Seq<char>) -> Seq<char> {
    let t = trimmed(url);
    let path = match after_slashes(t) {
        Some(rest) => {
            let host = before(rest, '/');
            if host.len() < rest.len() {
                rest.skip(host.len() as int + 1)
            } else {
                Seq::empty()
            }
        },
        None => t,
    };
    trimmed(before(before(path, '?'), '#'))
}

/// The path that a URL names.
pub fn path_of_url(url: &str) -> (r: String)
    ensures
        r@ == url_path(url@),
{
    let t = trim(url);
    let path = match split_origin(ABSOLUTE_URL_PREFIX, t.as_str()) {
        Some(rest) => {
            let v = to_chars(rest.as_str());
            let i = index_before(rest.as_str(), '/');
            if i < v.len() {
                proof {
                    assert(v@.subrange(i + 1, v@.len() as int) =~= rest@.skip(i + 1));
                }
                from_range(&v, i + 1, v.len())
            } else {
                String::new()
            }
        },
        None => t,
    };
    let q = take_before(path.as_str(), '?');
    let f = take_before(q.as_str(), '#');
    trim(f.as_str())
}

/// Where a URL literally points: from the page, or from each of the roots where it
/// begins with a slash.
pub open spec fn literal_places(
    roots: Seq<Seq<PathPart>>,
    html_dir: Seq<PathPart>,
    path: Seq<char>,
) -> Seq<Seq<PathPart>> {
    if is_rooted(path) {
        roots.map_values(|r: Seq<PathPart>| normalized(joined_path(r, path.skip(1))))
    } else {
        seq![normalized(joined_path(html_dir, path))]
    }
}

/// The first of the places that is a target.
pub open spec fn first_target(places: Seq<Seq<PathPart>>, targets: Seq<Seq<PathPart>>) -> Option<
    Seq<PathPart>,
>
    decreases places.len(),
{
    if places.len() == 0 {
        None
    } else if targets.contains(places[0]) {
        Some(places[0])
    } else {
        first_target(places.skip(1), targets)
    }
}

/// The first target with a given file name.
pub open spec fn first_named(targets: Seq<Seq<PathPart>>, name: Seq<char>) -> Option<Seq<PathPart>>
    decreases targets.len(),
{
    if targets.len() == 0 {
        None
    } else if last_name(targets[0]) == Some(name) {
        Some(targets[0])
    } else {
        first_named(targets.skip(1), name)
    }
}

/// The target that a URL names: where it literally points, or else the first one
/// of its file name.
pub open spec fn pinned_target(
    roots: Seq<Seq<PathPart>>,
    targets: Seq<Seq<PathPart>>,
    html_dir: Seq<PathPart>,
    url: Seq<char>,
) -> Option<Seq<PathPart>> {
    let path = url_path(url);
    if path.len() == 0 {
        None
    } else {
        match first_target(literal_places(roots, html_dir, path), targets) {
            Some(t) => Some(t),
            None => match last_name(path_parts(path)) {
                Some(name) => first_named(targets, name),
                None => None,
            },
        }
    }
}

/// The target that a URL names, by its path; both the roots and the targets come in
/// the order in which they count.
pub fn resolve_pinned_target(
    roots: &Vec<Vec<Part>>,
    targets: &Vec<Vec<Part>>,
    html_dir: &Vec<Part>,
    url: &str,
) -> (r: Option<Vec<Part>>)
    ensures
        match r {
            Some(p) => pinned_target(
                paths_of(roots@),
                paths_of(targets@),
                part_views(html_dir@),
                url@,
            ) == Some(part_views(p@)),
            None => pinned_target(
                paths_of(roots@),
                paths_of(targets@),
                part_views(html_dir@),
                url@,
            ) is None,
        },
{
    let path = path_of_url(url);
    let v = to_chars(path.as_str());
    if v.len() == 0 {
        return None;
    }
    let ghost places = literal_places(paths_of(roots@), part_views(html_dir@), path@);
    let ghost ts = paths_of(targets@);
    if v[0] == '/' {
        let rest = from_range(&v, 1, v.len());
        proof {
            assert(rest@ =~= path@.skip(1));
            assert(places.skip(0) =~= places);
        }
        let mut i: usize = 0;
        while i < roots.len()
            invariant
                i <= roots@.len(),
                rest@ == path@.skip(1),
                is_rooted(path@),
                ts == paths_of(targets@),
                places == literal_places(paths_of(roots@), part_views(html_dir@), path@),
                places.len() == roots@.len(),
                path@ == url_path(url@),
                path@.len() > 0,
                first_target(places, ts) == first_target(places.skip(i as int), ts),
            decreases roots@.len() - i,
        {
            let joined_root = join_path(&roots[i], rest.as_str());
            let place = lexical_normalize(&joined_root);
            proof {
                assert(places[i as int] == normalized(
                    joined_path(paths_of(roots@)[i as int], path@.skip(1)),
                ));
                assert(places.skip(i as int)[0] == part_views(place@));
                assert(places.skip(i as int).skip(1) =~= places.skip(i + 1));
            }
            if has_path(targets, &place) {
                return Some(place);
            }
            i += 1;
        }
        proof {
            assert(places.skip(i as int).len() == 0);
            assert(first_target(places, ts) is None);
        }
    } else {
        let joined_page = join_path(html_dir, path.as_str());
        let place = lexical_normalize(&joined_page);
        proof {
            assert(places[0] == part_views(place@));
            assert(places.skip(1).len() == 0);
        }
        if has_path(targets, &place) {
            return Some(place);
        }
        proof {
            assert(places.len() == 1);
            assert(first_target(places.skip(1), ts) is None);
            assert(first_target(places, ts) is None);
        }
    }
    let parts = parse_path(path.as_str());
    match file_name(&parts) {
        None => None,
        Some(name) => {
            let mut k: usize = 0;
            proof {
                assert(ts.skip(0) =~= ts);
            }
            while k < targets.len()
                invariant
                    k <= targets@.len(),
                    ts == paths_of(targets@),
                    path@ == url_path(url@),
                    path@.len() > 0,
                    places == literal_places(paths_of(roots@), part_views(html_dir@), path@),
                    first_target(places, ts) is None,
                    last_name(path_parts(path@)) == Some(name@),
                    first_named(ts, name@) == first_named(ts.skip(k as int), name@),
                decreases targets@.len() - k,
            {
                proof {
                    assert(ts.skip(k as int)[0] == part_views(targets@[k as int]@));
                    assert(ts.skip(k as int).skip(1) =~= ts.skip(k + 1));
                }
                match file_name(&targets[k]) {
                    Some(n) => {
                        if n == name {
                            return Some(copy_path(&targets[k]));
                        }
                    },
                    None => {},
                }
                k += 1;
            }
            proof {
                assert(ts.skip(k as int).len() == 0);
            }
            None
        },
    }
}

proof fn lemma_first_target_found(places: Seq<Seq<PathPart>>, targets: Seq<Seq<PathPart>>)
    ensures
        first_target(places, targets) is Some ==> targets.contains(first_target(places, targets)->0),
    decreases places.len(),
{
    if places.len() > 0 {
        lemma_first_target_found(places.skip(1), targets);
    }
}

proof fn lemma_first_named_found(targets: Seq<Seq<PathPart>>, name: Seq<char>)
    ensures
        first_named(targets, name) is Some ==> targets.contains(first_named(targets, name)->0),
    decreases targets.len(),
{
    if targets.len() > 0 {
        lemma_first_named_found(targets.skip(1), name);
        let r = first_named(targets.skip(1), name);
        if r is Some {
            let k = choose|k: int| 0 <= k < targets.skip(1).len() && targets.skip(1)[k] == r->0;
            assert(targets[k + 1] == r->0);
        }
        assert(targets.contains(targets[0]));
    }
}

/// What a URL is taken to name is a script that is to be stamped, whatever the URL.
pub proof fn law_only_targets_are_pinned(
    roots: Seq<Seq<PathPart>>,
    targets: Seq<Seq<PathPart>>,
    html_dir: Seq<PathPart>,
    url: Seq<char>,
)
    requires
        pinned_target(roots, targets, html_dir, url) is Some,
    ensures
        targets.contains(pinned_target(roots, targets, html_dir, url)->0),
{
    let path = url_path(url);
    lemma_first_target_found(literal_places(roots, html_dir, path), targets);
    if last_name(path_parts(path)) is Some {
        lemma_first_named_found(targets, last_name(path_parts(path))->0);
    }
}

/// A file name that a browser loads as a page.
pub fn is_html(name: &str) -> (r: bool)
    ensures
        r == (extension_of(name@) is Some && {
            let e = lowered(extension_of(name@)->0);
            e == "html"@ || e == "htm"@ || e == "xhtml"@
        }),
{
    match extension(name) {
        Some(e) => {
            let l = to_lower(e.as_str());
            str_eq(l.as_str(), "html") || str_eq(l.as_str(), "htm") || str_eq(l.as_str(), "xhtml")
        },
        None => false,
    }
}

/// A page with its text.
#[derive(Debug)]
pub struct Page {
    pub path: Vec<Part>,
    pub source: String,
}

/// How many entries of a directory above are looked at.
pub const MAX_ENTRIES: usize = 2000;

/// The directory whose pages count for a path that was given: the path, or the
/// directory that it is in where it is a file.
pub open spec fn base_of(root: Seq<PathPart>, is_file: bool) -> Seq<PathPart> {
    if is_file {
        match parent_path(root) {
            Some(p) => p,
            None => seq![PathPart::Current],
        }
    } else {
        root
    }
}

/// The directory whose pages count for a path that was given.
pub fn page_base(root: &Vec<Part>, is_file: bool) -> (r: Vec<Part>)
    ensures
        part_views(r@) == base_of(part_views(root@), is_file),
{
    if !is_file {
        return copy_path(root);
    }
    match parent(root) {
        Some(p) => p,
        None => {
            let r = vec![Part::Current];
            proof {
                assert(part_views(r@) =~= seq![PathPart::Current]);
            }
            r
        },
    }
}

/// The paths of the pages that count: those under the directory, or else, where there are
/// none, those directly in the one above. Whether a page can be read plays no part.
pub fn pages_that_count(under: Vec<Vec<Part>>, above: Vec<Vec<Part>>) -> (r: Vec<Vec<Part>>)
    ensures
        r == if under@.len() > 0 {
            under
        } else {
            above
        },
{
    if under.len() > 0 {
        under
    } else {
        above
    }
}

/// A script whose hash a page pins.
#[derive(Debug, PartialEq, Eq)]
pub struct PinnedScript {
    pub html: Vec<Part>,
    pub script: Vec<Part>,
}

/// Page and script of a pin.
pub struct Pinned {
    pub html: Seq<PathPart>,
    pub script: Seq<PathPart>,
}

impl View for PinnedScript {
    type V = Pinned;

    open spec fn view(&self) -> Pinned {
        Pinned { html: part_views(self.html@), script: part_views(self.script@) }
    }
}

pub open spec fn pins(v: Seq<PinnedScript>) -> Seq<Pinned> {
    v.map_values(|p: PinnedScript| p@)
}

pub open spec fn pin_less(a: Pinned, b: Pinned) -> bool {
    path_less(a.html, b.html) || (a.html == b.html && path_less(a.script, b.script))
}

/// Pins in strictly ascending order: none occurs twice.
pub open spec fn pins_ascend(s: Seq<Pinned>) -> bool {
    forall|i: int, j: int| 0 <= i < j < s.len() ==> pin_less(#[trigger] s[i], #[trigger] s[j])
}

/// The directory of a page.
pub open spec fn page_dir(path: Seq<PathPart>) -> Seq<PathPart> {
    match parent_path(path) {
        Some(d) => d,
        None => seq![PathPart::Current],
    }
}

/// A page pins a script by one of its URLs.
pub open spec fn page_pins_script(
    roots: Seq<Seq<PathPart>>,
    targets: Seq<Seq<PathPart>>,
    page: Page,
    p: Pinned,
) -> bool {
    p.html == part_views(page.path@) && exists|k: int|
        0 <= k < page_pins(page.source@).len() && pinned_target(
            roots,
            targets,
            page_dir(part_views(page.path@)),
            #[trigger] page_pins(page.source@)[k],
        ) == Some(p.script)
}

proof fn lemma_pin_order(a: Pinned, b: Pinned, c: Pinned)
    ensures
        !pin_less(a, a),
        pin_less(a, b) && pin_less(b, c) ==> pin_less(a, c),
        a == b || pin_less(a, b) || pin_less(b, a),
{
    lemma_path_irreflexive(a.html);
    lemma_path_irreflexive(a.script);
    lemma_path_total(a.html, b.html);
    lemma_path_total(a.script, b.script);
    if path_less(a.html, b.html) && path_less(b.html, c.html) {
        lemma_path_transitive(a.html, b.html, c.html);
    }
    if path_less(a.script, b.script) && path_less(b.script, c.script) {
        lemma_path_transitive(a.script, b.script, c.script);
    }
}

fn pin_precedes(a: &PinnedScript, b: &PinnedScript) -> (r: bool)
    ensures
        r == pin_less(a@, b@),
{
    path_precedes(&a.html, &b.html) || (same_path(&a.html, &b.html) && path_precedes(
        &a.script,
        &b.script,
    ))
}

fn add_pin(found: &mut Vec<PinnedScript>, p: PinnedScript)
    requires
        pins_ascend(pins(old(found)@)),
    ensures
        pins_ascend(pins(final(found)@)),
        forall|x: Pinned| #[trigger]
            pins(final(found)@).contains(x) <==> pins(old(found)@).contains(x) || x == p@,
{
    let ghost s = pins(found@);
    let mut i: usize = 0;
    while i < found.len() && pin_precedes(&found[i], &p)
        invariant
            i <= found@.len(),
            s == pins(found@),
            forall|k: int| 0 <= k < i ==> pin_less(#[trigger] s[k], p@),
        decreases found@.len() - i,
    {
        proof {
            assert(s[i as int] == found@[i as int]@);
        }
        i += 1;
    }
    if i < found.len() && same_path(&found[i].html, &p.html) && same_path(
        &found[i].script,
        &p.script,
    ) {
        proof {
            assert(s[i as int] == found@[i as int]@);
            assert(s[i as int] == p@);
            assert(s.contains(s[i as int]));
        }
        return;
    }
    proof {
        let out = s.insert(i as int, p@);
        assert(pins(found@.insert(i as int, p)) =~= out);
        if i < found@.len() {
            assert(s[i as int] == found@[i as int]@);
            lemma_pin_order(s[i as int], p@, p@);
            assert(pin_less(p@, s[i as int]));
        }
        assert forall|a: int, b: int| 0 <= a < b < out.len() implies pin_less(
            #[trigger] out[a],
            #[trigger] out[b],
        ) by {
            if b < i {
                assert(out[a] == s[a] && out[b] == s[b]);
            } else if b == i {
                assert(out[a] == s[a]);
            } else if a < i {
                assert(out[a] == s[a] && out[b] == s[b - 1]);
            } else if a == i {
                assert(out[b] == s[b - 1]);
                if b - 1 > i {
                    assert(pin_less(s[i as int], s[b - 1]));
                    lemma_pin_order(p@, s[i as int], s[b - 1]);
                }
            } else {
                assert(out[a] == s[a - 1] && out[b] == s[b - 1]);
            }
        }
        assert forall|x: Pinned| #[trigger] out.contains(x) <==> s.contains(x) || x == p@ by {
            if out.contains(x) {
                let k = choose|k: int| 0 <= k < out.len() && out[k] == x;
                if k < i {
                    assert(s[k] == x);
                } else if k > i {
                    assert(s[k - 1] == x);
                }
            }
            if s.contains(x) {
                let k = choose|k: int| 0 <= k < s.len() && s[k] == x;
                if k < i {
                    assert(out[k] == x);
                } else {
                    assert(out[k + 1] == x);
                }
            }
            assert(out[i as int] == p@);
        }
    }
    found.insert(i, p);
}

/// A pin by one of the first `n` URLs of a page.
pub open spec fn pinned_upto(
    roots: Seq<Seq<PathPart>>,
    targets: Seq<Seq<PathPart>>,
    page: Page,
    n: int,
    p: Pinned,
) -> bool {
    p.html == part_views(page.path@) && exists|k: int|
        0 <= k < n && pinned_target(
            roots,
            targets,
            page_dir(part_views(page.path@)),
            #[trigger] page_pins(page.source@)[k],
        ) == Some(p.script)
}

fn add_page(
    found: &mut Vec<PinnedScript>,
    roots: &Vec<Vec<Part>>,
    targets: &Vec<Vec<Part>>,
    page: &Page,
)
    requires
        pins_ascend(pins(old(found)@)),
    ensures
        pins_ascend(pins(final(found)@)),
        forall|x: Pinned| #[trigger]
            pins(final(found)@).contains(x) <==> pins(old(found)@).contains(x) || page_pins_script(
                paths_of(roots@),
                paths_of(targets@),
                *page,
                x,
            ),
{
    let urls = list_page_pins(page.source.as_str());
    let dir = match parent(&page.path) {
        Some(d) => d,
        None => {
            let mut d: Vec<Part> = Vec::new();
            d.push(Part::Current);
            proof {
                assert(part_views(d@) =~= seq![PathPart::Current]);
            }
            d
        },
    };
    let ghost base = pins(found@);
    let ghost rs = paths_of(roots@);
    let ghost ts = paths_of(targets@);
    let ghost all = page_pins(page.source@);
    let mut i: usize = 0;
    while i < urls.len()
        invariant
            i <= urls@.len(),
            strs(urls@) == all,
            all == page_pins(page.source@),
            rs == paths_of(roots@),
            ts == paths_of(targets@),
            part_views(dir@) == page_dir(part_views(page.path@)),
            pins_ascend(pins(found@)),
            forall|x: Pinned| #[trigger]
                pins(found@).contains(x) <==> base.contains(x) || pinned_upto(
                    rs,
                    ts,
                    *page,
                    i as int,
                    x,
                ),
        decreases urls@.len() - i,
    {
        let ghost mid = pins(found@);
        proof {
            assert(all[i as int] == urls@[i as int]@);
        }
        let target = resolve_pinned_target(roots, targets, &dir, urls[i].as_str());
        let ghost t = pinned_target(rs, ts, part_views(dir@), all[i as int]);
        match target {
            Some(script) => {
                let p = PinnedScript { html: copy_path(&page.path), script };
                let ghost pv = p@;
                add_pin(found, p);
                proof {
                    assert forall|x: Pinned| #[trigger] pins(found@).contains(x) <==> base.contains(x)
                        || pinned_upto(rs, ts, *page, i + 1, x) by {
                        assert(mid.contains(x) <==> base.contains(x) || pinned_upto(
                            rs,
                            ts,
                            *page,
                            i as int,
                            x,
                        ));
                        assert(pinned_upto(rs, ts, *page, i + 1, x) <==> pinned_upto(
                            rs,
                            ts,
                            *page,
                            i as int,
                            x,
                        ) || x == pv) by {
                            if pinned_upto(rs, ts, *page, i + 1, x) {
                                let k = choose|k: int|
                                    0 <= k < i + 1 && pinned_target(
                                        rs,
                                        ts,
                                        page_dir(part_views(page.path@)),
                                        #[trigger] page_pins(page.source@)[k],
                                    ) == Some(x.script);
                                assert(k == i ==> x == pv);
                            }
                            if x == pv {
                                assert(pinned_target(
                                    rs,
                                    ts,
                                    page_dir(part_views(page.path@)),
                                    page_pins(page.source@)[i as int],
                                ) == Some(x.script));
                            }
                        }
                    }
                }
            },
            None => {
                proof {
                    assert forall|x: Pinned| #[trigger] pins(found@).contains(x) <==> base.contains(x)
                        || pinned_upto(rs, ts, *page, i + 1, x) by {
                        assert(mid.contains(x) <==> base.contains(x) || pinned_upto(
                            rs,
                            ts,
                            *page,
                            i as int,
                            x,
                        ));
                        if pinned_upto(rs, ts, *page, i + 1, x) {
                            let k = choose|k: int|
                                0 <= k < i + 1 && pinned_target(
                                    rs,
                                    ts,
                                    page_dir(part_views(page.path@)),
                                    #[trigger] page_pins(page.source@)[k],
                                ) == Some(x.script);
                            assert(k != i);
                        }
                    }
                }
            },
        }
        i += 1;
    }
    proof {
        assert(strs(urls@).len() == urls@.len());
        assert forall|x: Pinned| #[trigger] pins(found@).contains(x) <==> base.contains(x) || page_pins_script(
            rs,
            ts,
            *page,
            x,
        ) by {
            assert(pinned_upto(rs, ts, *page, i as int, x) <==> page_pins_script(rs, ts, *page, x));
        }
    }
}

/// The scripts to be stamped whose hashes the pages pin, in order and each once.
/// Nothing to stamp means nothing pinned.
pub fn find_pinned_scripts(
    roots: &Vec<Vec<Part>>,
    targets: &Vec<Vec<Part>>,
    pages: &Vec<Page>,
) -> (r: Vec<PinnedScript>)
    ensures
        pins_ascend(pins(r@)),
        forall|x: Pinned| #[trigger]
            pins(r@).contains(x) <==> targets@.len() > 0 && exists|i: int|
                0 <= i < pages@.len() && page_pins_script(
                    paths_of(roots@),
                    paths_of(targets@),
                    #[trigger] pages@[i],
                    x,
                ),
{
    let mut found: Vec<PinnedScript> = Vec::new();
    proof {
        assert(pins(found@) =~= Seq::empty());
    }
    if targets.len() == 0 {
        return found;
    }
    let ghost rs = paths_of(roots@);
    let ghost ts = paths_of(targets@);
    let mut i: usize = 0;
    while i < pages.len()
        invariant
            i <= pages@.len(),
            rs == paths_of(roots@),
            ts == paths_of(targets@),
            pins_ascend(pins(found@)),
            forall|x: Pinned| #[trigger]
                pins(found@).contains(x) <==> exists|k: int|
                    0 <= k < i && page_pins_script(rs, ts, #[trigger] pages@[k], x),
        decreases pages@.len() - i,
    {
        let ghost mid = pins(found@);
        add_page(&mut found, roots, targets, &pages[i]);
        proof {
            assert forall|x: Pinned| #[trigger] pins(found@).contains(x) <==> exists|k: int|
                0 <= k < i + 1 && page_pins_script(rs, ts, #[trigger] pages@[k], x) by {
                if mid.contains(x) {
                    let k = choose|k: int|
                        0 <= k < i && page_pins_script(rs, ts, #[trigger] pages@[k], x);
                    assert(page_pins_script(rs, ts, pages@[k], x));
                }
                if exists|k: int| 0 <= k < i + 1 && page_pins_script(rs, ts, #[trigger] pages@[k], x) {
                    let k = choose|k: int|
                        0 <= k < i + 1 && page_pins_script(rs, ts, #[trigger] pages@[k], x);
                    if k < i {
                        assert(mid.contains(x));
                    }
                }
            }
        }
        i += 1;
    }
    found
}

/// What is said where stamping would break pages.
pub open spec fn pins_text(n: nat) -> Seq<char> {
    "the build pins the hashes of "@ + decimal(n)
        + " script(s) that would be stamped (Subresource Integrity), and a browser would refuse to run them; stamp before the hashes are computed, --exclude the pinned files, or pass --allow-sri if the hashes are recomputed afterwards"@
}

/// Stamping is refused where a page pins the hash of a script that would be stamped,
/// unless that was allowed.
pub fn check_pins(pinned: &Vec<PinnedScript>, allow_sri: bool) -> (r: Result<(), Error>)
    ensures
        if pinned@.len() > 0 && !allow_sri {
            failure(r) == Some(Failure::InputInvalid(pins_text(pinned@.len())))
        } else {
            r is Ok
        },
{
    if pinned.len() > 0 && !allow_sri {
        let n = dec_u64(pinned.len() as u64);
        let m = cat3(
            "the build pins the hashes of ",
            n.as_str(),
            " script(s) that would be stamped (Subresource Integrity), and a browser would refuse to run them; stamp before the hashes are computed, --exclude the pinned files, or pass --allow-sri if the hashes are recomputed afterwards",
        );
        return Err(input_invalid(m.as_str()));
    }
    Ok(())
}

/// Quotes of one kind on both sides are taken off, and nothing else is.
pub proof fn law_quotes_are_taken_off(v: Seq<char>)
    ensures
        unquoted(seq!['"'] + v + seq!['"']) == v,
        unquoted(seq!['\''] + v + seq!['\'']) == v,
        unquoted(seq!['"'] + v + seq!['\'']) == seq!['"'] + v + seq!['\''],
        v.len() > 0 && v[0] != '"' && v[0] != '\'' ==> unquoted(v) == v,
{
    let a = seq!['"'] + v + seq!['"'];
    let b = seq!['\''] + v + seq!['\''];
    assert(a.subrange(1, a.len() - 1) =~= v);
    assert(b.subrange(1, b.len() - 1) =~= v);
}

/// A tag pins its URL where it has one and an `integrity` that is not blank.
pub proof fn law_what_a_tag_pins(i: Seq<char>, u: Seq<char>)
    ensures
        trimmed(unquoted(i)).len() > 0 ==> pin_of(Some(i), Some(u)) == Some(unquoted(u)),
        trimmed(unquoted(i)).len() == 0 ==> pin_of(Some(i), Some(u)) is None,
        pin_of(None, Some(u)) is None,
        pin_of(Some(i), None) is None,
{
}

/// A URL is pinned by tags where one of them pins it; of links only those that preload
/// count.
pub proof fn law_urls_that_tags_pin(
    tags: Seq<Seq<char>>,
    attr: Seq<char>,
    preloads: bool,
    u: Seq<char>,
)
    ensures
        pins_of_tags(tags, attr, preloads).contains(u) <==> exists|k: int|
            0 <= k < tags.len() && (preloads ==> regex_matches(
                r#"(?i)\brel\s*=\s*["']?(modulepreload|preload)"#@,
                tags[k],
            )) && pin_of(
                regex_group(
                    r#"(?i)[\s"'<]integrity\s*=\s*("[^"]*"|'[^']*'|[^\s>]+)"#@,
                    tags[k],
                ),
                regex_group(attr, #[trigger] tags[k]),
            ) == Some(u),
    decreases tags.len(),
{
    if tags.len() > 0 {
        let d = tags.drop_last();
        law_urls_that_tags_pin(d, attr, preloads, u);
        let r = pins_of_tags(d, attr, preloads);
        let t = tags.last();
        let pin = pin_of(regex_group(INTEGRITY_ATTR@, t), regex_group(attr, t));
        let here = (preloads ==> regex_matches(PRELOADS_SCRIPT@, t)) && pin == Some(u);
        let n = tags.len() - 1;
        assert(tags[n] == t);
        if r.contains(u) {
            let k = choose|k: int|
                0 <= k < d.len() && (preloads ==> regex_matches(PRELOADS_SCRIPT@, d[k])) && pin_of(
                    regex_group(INTEGRITY_ATTR@, d[k]),
                    regex_group(attr, #[trigger] d[k]),
                ) == Some(u);
            assert(tags[k] == d[k]);
            let j = choose|j: int| 0 <= j < r.len() && r[j] == u;
            assert(pins_of_tags(tags, attr, preloads)[j] == u);
        }
        if here {
            assert(pins_of_tags(tags, attr, preloads) == r.push(u));
            assert(r.push(u)[r.len() as int] == u);
        }
        if pins_of_tags(tags, attr, preloads).contains(u) && !here {
            let w = pins_of_tags(tags, attr, preloads);
            let j = choose|j: int| 0 <= j < w.len() && w[j] == u;
            if w == r {
                assert(r[j] == u);
            } else {
                assert(w == r.push(pin->0));
                if j < r.len() {
                    assert(r[j] == u);
                }
            }
            assert(r.contains(u));
        }
        assert forall|k: int|
            0 <= k < tags.len() && (preloads ==> regex_matches(PRELOADS_SCRIPT@, tags[k]))
                && pin_of(
                regex_group(INTEGRITY_ATTR@, tags[k]),
                regex_group(attr, #[trigger] tags[k]),
            ) == Some(u) implies pins_of_tags(tags, attr, preloads).contains(u) by {
            if k < n {
                assert(d[k] == tags[k]);
                assert(r.contains(u));
                let j = choose|j: int| 0 <= j < r.len() && r[j] == u;
                assert(pins_of_tags(tags, attr, preloads)[j] == u);
            }
        }
    }
}

/// A page pins the scripts that its script tags name by `src` and its links by `href`, in
/// what is left of it without comments.
pub proof fn law_what_a_page_pins(source: Seq<char>)
    ensures
        page_pins(source) == pins_of_tags(
            regex_finds(r"(?is)<script\b[^>]*>"@, comments_removed(source)),
            r#"(?i)[\s"'<]src\s*=\s*("[^"]*"|'[^']*'|[^\s>]+)"#@,
            false,
        ) + pins_of_tags(
            regex_finds(r"(?is)<link\b[^>]*>"@, comments_removed(source)),
            r#"(?i)[\s"'<]href\s*=\s*("[^"]*"|'[^']*'|[^\s>]+)"#@,
            true,
        ),
{
}

/// A plain relative path in a URL is what it names, without query and fragment.
pub proof fn law_urls_name_their_path(p: Seq<char>, q: Seq<char>)
    requires
        p.len() > 0,
        forall|i: int|
            0 <= i < p.len() ==> ('a' <= #[trigger] p[i] <= 'z') || p[i] == '.' || p[i] == '-',
        forall|i: int| 0 <= i < q.len() ==> 'a' <= #[trigger] q[i] <= 'z',
        q.len() > 0,
    ensures
        url_path(p) == p,
        url_path(p + seq!['?'] + q) == p,
        url_path(p + seq!['#'] + q) == p,
{
    lemma_plain_url(p, Seq::empty());
    lemma_plain_url(p, seq!['?'] + q);
    lemma_plain_url(p, seq!['#'] + q);
    assert(p + Seq::<char>::empty() =~= p);
    assert(p + seq!['?'] + q =~= p + (seq!['?'] + q));
    assert(p + seq!['#'] + q =~= p + (seq!['#'] + q));
    assert forall|i: int| 0 <= i < p.len() implies p[i] != '?' && p[i] != '#' by {
        assert(('a' <= p[i] <= 'z') || p[i] == '.' || p[i] == '-');
    }
    assert(!p.contains('?') && !p.contains('#'));
    law_before_the_first(p, '?', q);
    law_before_the_first(p, '#', q);
    let ph = p + seq!['#'] + q;
    assert forall|i: int| 0 <= i < ph.len() implies ph[i] != '?' by {
        if i < p.len() {
            assert(ph[i] == p[i]);
        } else if i > p.len() {
            assert(ph[i] == q[i - p.len() - 1]);
        }
    }
    assert(!ph.contains('?'));
    law_before_the_first(ph, '?', q);
    let e = Seq::<char>::empty();
    assert(!is_white(p[0]) && !is_white(p[p.len() - 1])) by {
        assert(('a' <= p[0] <= 'z') || p[0] == '.' || p[0] == '-');
        let l = p.len() - 1;
        assert(('a' <= p[l] <= 'z') || p[l] == '.' || p[l] == '-');
    }
    assert(p.last() == p[p.len() - 1]);
    law_trimming_takes_the_ends(e, p, e);
}

/// What begins with a plain path has no origin, and nothing to trim.
proof fn lemma_plain_url(p: Seq<char>, t: Seq<char>)
    requires
        p.len() > 0,
        forall|i: int|
            0 <= i < p.len() ==> ('a' <= #[trigger] p[i] <= 'z') || p[i] == '.' || p[i] == '-',
        t.len() > 0 ==> (t[0] == '?' || t[0] == '#') && 'a' <= t.last() <= 'z',
    ensures
        trimmed(p + t) == p + t,
        after_slashes(p + t) is None,
{
    reveal_strlit("//");
    reveal_strlit("://");
    let w = p + t;
    assert(w[0] == p[0]);
    assert(('a' <= p[0] <= 'z') || p[0] == '.' || p[0] == '-');
    assert(w.last() == if t.len() > 0 {
        t.last()
    } else {
        p[p.len() - 1]
    });
    let l = p.len() - 1;
    assert(('a' <= p[l] <= 'z') || p[l] == '.' || p[l] == '-');
    let e = Seq::<char>::empty();
    law_trimming_takes_the_ends(e, w, e);
    assert(!has_prefix(w, "//"@)) by {
        if has_prefix(w, "//"@) {
            assert(w.take(2)[0] == w[0]);
            assert("//"@[0] == '/');
        }
    }
    lemma_scheme_of_plain(p, t);
    let n = scheme_run(w).len() as int;
    assert(n == p.len());
    assert(!has_prefix(w.skip(n), "://"@)) by {
        if has_prefix(w.skip(n), "://"@) {
            assert(w.skip(n) =~= t);
            assert(t.take(3)[0] == t[0]);
            assert("://"@[0] == ':');
        }
    }
}

proof fn lemma_scheme_of_plain(p: Seq<char>, t: Seq<char>)
    requires
        forall|i: int|
            0 <= i < p.len() ==> ('a' <= #[trigger] p[i] <= 'z') || p[i] == '.' || p[i] == '-',
        t.len() > 0 ==> t[0] == '?' || t[0] == '#',
    ensures
        scheme_run(p + t) == p,
    decreases p.len(),
{
    let w = p + t;
    if p.len() == 0 {
        assert(w =~= t);
        assert(p =~= Seq::empty());
    } else {
        let u = p.skip(1);
        assert forall|i: int| 0 <= i < u.len() implies ('a' <= #[trigger] u[i] <= 'z') || u[i]
            == '.' || u[i] == '-' by {
            assert(u[i] == p[i + 1]);
        }
        lemma_scheme_of_plain(u, t);
        assert(w.skip(1) =~= u + t);
        assert(w[0] == p[0]);
        assert(seq![p[0]] + u =~= p);
    }
}

/// Which script a URL names: a rooted one is looked for from the first root that has it,
/// any other from the directory of the page; and only where nothing is there, the first
/// script of its file name is taken.
pub proof fn law_scripts_by_preference(
    roots: Seq<Seq<PathPart>>,
    targets: Seq<Seq<PathPart>>,
    html_dir: Seq<PathPart>,
    url: Seq<char>,
)
    ensures
        ({
            let path = url_path(url);
            let r = pinned_target(roots, targets, html_dir, url);
            let literal = normalized(joined_path(html_dir, path));
            let name = last_name(path_parts(path));
            let from_root = roots.len() > 0 && targets.contains(
                normalized(joined_path(roots[0], path.skip(1))),
            );
            &&& path.len() == 0 ==> r is None
            &&& path.len() > 0 && path[0] != '/' && targets.contains(literal) ==> r == Some(literal)
            &&& path.len() > 0 && path[0] == '/' && from_root ==> r == Some(
                normalized(joined_path(roots[0], path.skip(1))),
            )
            &&& path.len() > 0 && path[0] != '/' && !targets.contains(literal) && name is Some
                ==> r == first_named(targets, name->0)
            &&& path.len() > 0 && path[0] != '/' && !targets.contains(literal) && name is None
                ==> r is None
        }),
{
    let path = url_path(url);
    let ps = literal_places(roots, html_dir, path);
    if path.len() > 0 && path[0] != '/' {
        assert(ps =~= seq![normalized(joined_path(html_dir, path))]);
        assert(ps[0] == normalized(joined_path(html_dir, path)));
        assert(ps.skip(1).len() == 0);
        assert(first_target(ps.skip(1), targets) is None);
    }
    if path.len() > 0 && path[0] == '/' && roots.len() > 0 {
        assert(ps[0] == normalized(joined_path(roots[0], path.skip(1))));
    }
}

/// The first script of a name is one of that name, and none before it is.
pub proof fn law_the_first_of_a_name(targets: Seq<Seq<PathPart>>, name: Seq<char>, i: int)
    requires
        0 <= i < targets.len(),
        last_name(targets[i]) == Some(name),
        forall|j: int| 0 <= j < i ==> last_name(#[trigger] targets[j]) != Some(name),
    ensures
        first_named(targets, name) == Some(targets[i]),
    decreases i,
{
    if i > 0 {
        assert(last_name(targets[0]) != Some(name));
        let t = targets.skip(1);
        assert(t[i - 1] == targets[i]);
        assert forall|j: int| 0 <= j < i - 1 implies last_name(#[trigger] t[j]) != Some(name) by {
            assert(t[j] == targets[j + 1]);
        }
        law_the_first_of_a_name(t, name, i - 1);
    }
}

/// The text without a comment is what stands before and behind it, and a text that opens no
/// comment stays.
pub proof fn law_comments_are_taken_out(a: Seq<char>, c: Seq<char>, b: Seq<char>)
    requires
        !a.contains('<'),
        !c.contains('-'),
        !b.contains('<'),
    ensures
        comments_removed(a) == a,
        comments_removed(a + ("<!--"@ + c + "-->"@ + b)) == a + b,
{
    reveal_strlit("<!--");
    reveal_strlit("-->");
    lemma_nothing_to_remove(a, Seq::empty());
    assert(a + Seq::<char>::empty() =~= a);
    let t = "<!--"@ + c + "-->"@ + b;
    lemma_nothing_to_remove(a, t);
    assert(t.take(4) =~= "<!--"@);
    lemma_comment_ends(c, b, 4);
    let n = 4 + c.len() + 3;
    assert(after(t, n as int) =~= b);
    lemma_nothing_to_remove(b, Seq::empty());
    assert(b + Seq::<char>::empty() =~= b);
}

proof fn lemma_comment_ends(c: Seq<char>, b: Seq<char>, from: int)
    requires
        !c.contains('-'),
        4 <= from <= 4 + c.len(),
    ensures
        first_from("<!--"@ + c + "-->"@ + b, "-->"@, from) == Some((4 + c.len()) as int),
    decreases 4 + c.len() - from,
{
    reveal_strlit("<!--");
    reveal_strlit("-->");
    let t = "<!--"@ + c + "-->"@ + b;
    if from < 4 + c.len() {
        assert(!occurs_at(t, "-->"@, from)) by {
            if occurs_at(t, "-->"@, from) {
                assert(t.subrange(from, from + 3)[0] == t[from]);
                assert(t[from] == c[from - 4]);
                assert(c.contains(c[from - 4]));
            }
        }
        lemma_comment_ends(c, b, from + 1);
    } else {
        assert(t.subrange(from, from + 3) =~= "-->"@);
        assert(occurs_at(t, "-->"@, from));
    }
}

proof fn lemma_nothing_to_remove(a: Seq<char>, t: Seq<char>)
    requires
        !a.contains('<'),
    ensures
        comments_removed(a + t) == a + comments_removed(t),
    decreases a.len(),
{
    reveal_strlit("<!--");
    let w = a + t;
    if a.len() == 0 {
        assert(w =~= t);
        assert(a + comments_removed(t) =~= comments_removed(t));
    } else {
        assert(w[0] == a[0]);
        assert(a.contains(a[0]));
        assert(!has_prefix(w, "<!--"@)) by {
            if has_prefix(w, "<!--"@) {
                assert(w.take(4)[0] == w[0]);
                assert("<!--"@[0] == '<');
            }
        }
        let u = a.skip(1);
        assert(!u.contains('<')) by {
            if u.contains('<') {
                let k = choose|k: int| 0 <= k < u.len() && u[k] == '<';
                assert(a[k + 1] == '<');
            }
        }
        lemma_nothing_to_remove(u, t);
        assert(w.skip(1) =~= u + t);
        assert(seq![a[0]] + (u + comments_removed(t)) =~= a + comments_removed(t));
    }
}

/// The pages of a directory count for it, and for a file those of the directory it is in.
pub proof fn law_where_pages_are_looked_for(dir: Seq<PathPart>, name: Seq<char>)
    ensures
        base_of(dir, false) == dir,
        base_of(dir.push(PathPart::Name(name)), true) == dir,
        page_dir(dir.push(PathPart::Name(name))) == dir,
        base_of(Seq::empty(), true) == seq![PathPart::Current],
{
    assert(dir.push(PathPart::Name(name)).drop_last() =~= dir);
}

/// Pins are told page by page, and for one page script by script.
pub proof fn law_order_of_pins(a: Pinned, b: Pinned)
    ensures
        path_less(a.html, b.html) ==> pin_less(a, b),
        a.html == b.html ==> (pin_less(a, b) <==> path_less(a.script, b.script)),
        path_less(b.html, a.html) ==> !pin_less(a, b),
{
    lemma_path_irreflexive(a.html);
    if path_less(b.html, a.html) && path_less(a.html, b.html) {
        lemma_path_transitive(a.html, b.html, a.html);
    }
}

/// What is said where pages pin scripts tells how many.
pub proof fn law_what_is_said_of_pins(n: nat)
    ensures
        pins_text(n) == "the build pins the hashes of "@ + decimal(n)
            + " script(s) that would be stamped (Subresource Integrity), and a browser would refuse to run them; stamp before the hashes are computed, --exclude the pinned files, or pass --allow-sri if the hashes are recomputed afterwards"@,
{
}

/// A page pins every script that one of its URLs leads to, under the page's own path.
pub proof fn law_pages_pin_what_their_urls_name(
    roots: Seq<Seq<PathPart>>,
    targets: Seq<Seq<PathPart>>,
    page: Page,
    k: int,
    script: Seq<PathPart>,
)
    requires
        0 <= k < page_pins(page.source@).len(),
        pinned_target(
            roots,
            targets,
            page_dir(part_views(page.path@)),
            page_pins(page.source@)[k],
        ) == Some(script),
    ensures
        page_pins_script(roots, targets, page, Pinned { html: part_views(page.path@), script }),
{
}

/// The origin of a URL does not count for the path that it names.
pub proof fn law_origins_do_not_count(host: Seq<char>, p: Seq<char>)
    requires
        p.len() > 0,
        forall|i: int|
            0 <= i < p.len() ==> ('a' <= #[trigger] p[i] <= 'z') || p[i] == '.' || p[i] == '-',
        forall|i: int|
            0 <= i < host.len() ==> ('a' <= #[trigger] host[i] <= 'z') || host[i] == '.',
    ensures
        url_path("//"@ + (host + seq!['/'] + p)) == p,
{
    reveal_strlit("//");
    let rest = host + seq!['/'] + p;
    let u = "//"@ + rest;
    let e = Seq::<char>::empty();
    let l = p.len() - 1;
    assert(('a' <= p[l] <= 'z') || p[l] == '.' || p[l] == '-');
    assert(('a' <= p[0] <= 'z') || p[0] == '.' || p[0] == '-');
    assert(p.last() == p[l]);
    assert(u[0] == '/');
    assert(u.last() == p[l]);
    law_trimming_takes_the_ends(e, u, e);
    law_trimming_takes_the_ends(e, p, e);
    assert(u.take(2) =~= "//"@);
    assert(u.skip(2) =~= rest);
    assert(!host.contains('/')) by {
        if host.contains('/') {
            let k = choose|k: int| 0 <= k < host.len() && host[k] == '/';
            assert(('a' <= host[k] <= 'z') || host[k] == '.');
        }
    }
    law_before_the_first(host, '/', p);
    assert(rest.skip(host.len() as int + 1) =~= p);
    assert(!p.contains('?') && !p.contains('#')) by {
        if p.contains('?') {
            let k = choose|k: int| 0 <= k < p.len() && p[k] == '?';
            assert(('a' <= p[k] <= 'z') || p[k] == '.' || p[k] == '-');
        }
        if p.contains('#') {
            let k = choose|k: int| 0 <= k < p.len() && p[k] == '#';
            assert(('a' <= p[k] <= 'z') || p[k] == '.' || p[k] == '-');
        }
    }
    law_before_the_first(p, '?', e);
    law_before_the_first(p, '#', e);
}

} // verus!

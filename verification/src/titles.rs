//! The titles of build steps: which kind of work they tell of, and how they are
//! shown without the name of the user or the place of a file on the machine.
use crate::patterns::{leading_word, none_white};
use crate::text::{
    cat2, from_range, has_prefix, is_white, lemma_pieces_append, lemma_pieces_nonempty,
    lemma_pieces_single, lemma_pieces_without, occurs, occurs_at, pieces, split_any, starts_with,
    strs, to_chars,
};
use vstd::prelude::*;
use vstd::string::*;

verus! {

/// The kinds of work that build time is told by.
#[derive(Debug, Clone, Copy, PartialEq, Eq, Structural)]
pub enum Category {
    Native,
    Resources,
    Packaging,
    Other,
}

impl Category {
    pub open spec fn name(self) -> Seq<char> {
        match self {
            Category::Native => "native"@,
            Category::Resources => "resources"@,
            Category::Packaging => "packaging"@,
            Category::Other => "other"@,
        }
    }

    /// The name of a category.
    pub fn as_str(self) -> (r: &'static str)
        ensures
            r@ == self.name(),
    {
        match self {
            Category::Native => "native",
            Category::Resources => "resources",
            Category::Packaging => "packaging",
            Category::Other => "other",
        }
    }
}

pub open spec fn native_pattern_seq() -> Seq<Seq<char>> {
    seq![
        r"(?i)^Compile \S+\.(swift|m|mm|c|cpp|cxx|cc)\b"@,
        r"^CompileSwiftSources\b"@,
        r"^CompileC\b"@,
        r"^CompileSwift\b"@,
        r"^Planning Swift module\b"@,
        r"^SwiftDriver\b"@,
        r"^Emit(?:ting)? [Ss]wift [Mm]odule\b"@,
        r"^Emitting module for\b"@,
        r"^SwiftMergeGeneratedHeaders\b"@,
        r"^SwiftVerifyEmittedModuleInterface\b"@,
        r"^Generate Swift Constant Values\b"@,
        r"^Compiling Clang module\b"@,
        r"^Precompile module\b"@,
        r"^Explicitly Built\b"@,
        r"^Discovering version info for swiftc\b"@,
        r"(?i)^Extract app intents metadata\b"@,
    ]
}

pub open spec fn resources_pattern_seq() -> Seq<Seq<char>> {
    seq![
        r"(?i)^Compile asset catalog"@,
        r"^CompileAssetCatalog\b"@,
        r"^CompileStoryboard\b"@,
        r"^CompileXIB\b"@,
        r"^CompileXCStrings\b"@,
        r"^LinkStoryboards\b"@,
        r"^CompileStrings\b"@,
        r"^ProcessInfoPlistFile\b"@,
        r"^CpResource\b"@,
        r"^CopyPlistFile\b"@,
        r"^CopyStringsFile\b"@,
        r"^CopyTiffFile\b"@,
        r"^CopyPNGFile\b"@,
        r"^GenerateAssetSymbols\b"@,
    ]
}

pub open spec fn packaging_pattern_seq() -> Seq<Seq<char>> {
    seq![
        r"^Link\b"@,
        r"^Ld\b"@,
        r"^CodeSign\b"@,
        r"^Sign \b"@,
        r"^SignManifestFile\b"@,
        r"^Strip\b"@,
        r"^Touch\b"@,
        r"^Embed\b"@,
        r"^ProcessProductPackaging\b"@,
        r"^RegisterExecutionPolicyException\b"@,
        r"^Validate\b"@,
        r"^GenerateDSYMFile\b"@,
        r"^CreateUniversalBinary\b"@,
        r"^Copy Swift standard libraries\b"@,
    ]
}

/// A `regex` set of patterns.
#[verifier::external_type_specification]
#[verifier::external_body]
pub struct ExRegexSet(regex::RegexSet);

/// The patterns that a set was made of.
pub uninterp spec fn set_patterns(set: regex::RegexSet) -> Seq<Seq<char>>;

/// What `RegexSet::is_match` says of a set of patterns and a text.
pub uninterp spec fn any_matches(patterns: Seq<Seq<char>>, text: Seq<char>) -> bool;

/// Calls `RegexSet::new`. The set is made of the given patterns, each of the
/// three lists of this module being valid.
#[verifier::external_body]
pub(crate) fn compile_set(patterns: &Vec<&'static str>) -> (r: regex::RegexSet)
    requires
        str_views(patterns@) == native_pattern_seq() || str_views(patterns@)
            == resources_pattern_seq() || str_views(patterns@) == packaging_pattern_seq(),
    ensures
        set_patterns(r) == str_views(patterns@),
{
    regex::RegexSet::new(patterns).expect("valid patterns")
}

/// Calls `RegexSet::is_match`: whether one of the patterns matches. The result is
/// named [`any_matches`]; nothing more is said of it.
#[verifier::external_body]
pub(crate) fn set_is_match(set: &regex::RegexSet, text: &str) -> (r: bool)
    ensures
        r == any_matches(set_patterns(*set), text@),
{
    set.is_match(text)
}

pub open spec fn str_views(v: Seq<&'static str>) -> Seq<Seq<char>> {
    v.map_values(|s: &'static str| s@)
}

fn native_patterns() -> (r: Vec<&'static str>)
    ensures
        str_views(r@) == native_pattern_seq(),
{
    let r = vec![
        r"(?i)^Compile \S+\.(swift|m|mm|c|cpp|cxx|cc)\b",
        r"^CompileSwiftSources\b",
        r"^CompileC\b",
        r"^CompileSwift\b",
        r"^Planning Swift module\b",
        r"^SwiftDriver\b",
        r"^Emit(?:ting)? [Ss]wift [Mm]odule\b",
        r"^Emitting module for\b",
        r"^SwiftMergeGeneratedHeaders\b",
        r"^SwiftVerifyEmittedModuleInterface\b",
        r"^Generate Swift Constant Values\b",
        r"^Compiling Clang module\b",
        r"^Precompile module\b",
        r"^Explicitly Built\b",
        r"^Discovering version info for swiftc\b",
        r"(?i)^Extract app intents metadata\b",
    ];
    proof {
        assert(str_views(r@) =~= native_pattern_seq());
    }
    r
}

fn resources_patterns() -> (r: Vec<&'static str>)
    ensures
        str_views(r@) == resources_pattern_seq(),
{
    let r = vec![
        r"(?i)^Compile asset catalog",
        r"^CompileAssetCatalog\b",
        r"^CompileStoryboard\b",
        r"^CompileXIB\b",
        r"^CompileXCStrings\b",
        r"^LinkStoryboards\b",
        r"^CompileStrings\b",
        r"^ProcessInfoPlistFile\b",
        r"^CpResource\b",
        r"^CopyPlistFile\b",
        r"^CopyStringsFile\b",
        r"^CopyTiffFile\b",
        r"^CopyPNGFile\b",
        r"^GenerateAssetSymbols\b",
    ];
    proof {
        assert(str_views(r@) =~= resources_pattern_seq());
    }
    r
}

fn packaging_patterns() -> (r: Vec<&'static str>)
    ensures
        str_views(r@) == packaging_pattern_seq(),
{
    let r = vec![
        r"^Link\b",
        r"^Ld\b",
        r"^CodeSign\b",
        r"^Sign \b",
        r"^SignManifestFile\b",
        r"^Strip\b",
        r"^Touch\b",
        r"^Embed\b",
        r"^ProcessProductPackaging\b",
        r"^RegisterExecutionPolicyException\b",
        r"^Validate\b",
        r"^GenerateDSYMFile\b",
        r"^CreateUniversalBinary\b",
        r"^Copy Swift standard libraries\b",
    ];
    proof {
        assert(str_views(r@) =~= packaging_pattern_seq());
    }
    r
}

/// The category of a title, given which lists of patterns match it. Native work
/// comes before resources, resources before packaging; an empty title has none.
pub open spec fn category_by(
    title: Seq<char>,
    native: bool,
    resources: bool,
    packaging: bool,
) -> Option<Category> {
    if title.len() == 0 {
        None
    } else if has_prefix(title, "Compiling Clang module"@) || native {
        Some(Category::Native)
    } else if resources {
        Some(Category::Resources)
    } else if packaging {
        Some(Category::Packaging)
    } else {
        Some(Category::Other)
    }
}

/// The category of a title.
pub open spec fn category_of(title: Seq<char>) -> Option<Category> {
    category_by(
        title,
        any_matches(native_pattern_seq(), title),
        any_matches(resources_pattern_seq(), title),
        any_matches(packaging_pattern_seq(), title),
    )
}

/// The category of a title, given which lists of patterns match it.
pub fn pick_category(title: &str, native: bool, resources: bool, packaging: bool) -> (r: Option<
    Category,
>)
    ensures
        r == category_by(title@, native, resources, packaging),
{
    if title.is_empty() {
        return None;
    }
    if starts_with(title, "Compiling Clang module") || native {
        Some(Category::Native)
    } else if resources {
        Some(Category::Resources)
    } else if packaging {
        Some(Category::Packaging)
    } else {
        Some(Category::Other)
    }
}

/// The three lists of patterns, ready for use.
pub struct Classifier {
    native: regex::RegexSet,
    resources: regex::RegexSet,
    packaging: regex::RegexSet,
}

impl Classifier {
    pub closed spec fn wf(&self) -> bool {
        &&& set_patterns(self.native) == native_pattern_seq()
        &&& set_patterns(self.resources) == resources_pattern_seq()
        &&& set_patterns(self.packaging) == packaging_pattern_seq()
    }

    pub fn new() -> (r: Classifier)
        ensures
            r.wf(),
    {
        Classifier {
            native: compile_set(&native_patterns()),
            resources: compile_set(&resources_patterns()),
            packaging: compile_set(&packaging_patterns()),
        }
    }

    /// The category of a title.
    pub fn classify(&self, title: &str) -> (r: Option<Category>)
        requires
            self.wf(),
        ensures
            r == category_of(title@),
    {
        pick_category(
            title,
            set_is_match(&self.native, title),
            set_is_match(&self.resources, title),
            set_is_match(&self.packaging, title),
        )
    }
}

/// The category of a title.
pub fn classify_section_title(title: &str) -> (r: Option<Category>)
    ensures
        r == category_of(title@),
{
    Classifier::new().classify(title)
}

/// What follows the last slash of a path.
pub open spec fn basename(s: Seq<char>) -> Seq<char> {
    pieces(s, seq!['/']).last()
}

/// What follows the last slash of a path.
pub fn os_basename(s: &str) -> (r: String)
    ensures
        r@ == basename(s@),
{
    let seps = ['/'];
    let parts = split_any(s, &seps);
    proof {
        assert(seps@ =~= seq!['/']);
        assert(strs(parts@).last() == parts@.last()@);
    }
    parts[parts.len() - 1].clone()
}

/// The home directory of a user.
pub const USER_HOME: &'static str = r"/Users/[A-Za-z0-9._\-]+";

/// A temporary file of a user.
pub const PRIVATE_FOLDERS: &'static str = r"/private/var/folders/\S+";

/// An absolute path that is a word of its own.
pub const ABSOLUTE_PATH: &'static str = r"(^|\s)(/\S+)";

pub open spec fn is_user_char(c: char) -> bool {
    ('A' <= c <= 'Z') || ('a' <= c <= 'z') || ('0' <= c <= '9') || c == '.' || c == '_' || c == '-'
}

/// The leading characters that can stand in a user name.
pub open spec fn user_run(s: Seq<char>) -> Seq<char>
    decreases s.len(),
{
    if s.len() == 0 || !is_user_char(s[0]) {
        Seq::empty()
    } else {
        seq![s[0]] + user_run(s.skip(1))
    }
}

/// A home directory stands at the front of `s`.
pub open spec fn home_in_front(s: Seq<char>) -> bool {
    has_prefix(s, "/Users/"@) && user_run(s.skip("/Users/"@.len() as int)).len() > 0
}

/// What follows the first `n` characters, where there are so many; at least one
/// character is passed over.
pub open spec fn after(s: Seq<char>, n: int) -> Seq<char> {
    if 1 <= n <= s.len() {
        s.skip(n)
    } else {
        s.skip(1)
    }
}

/// The text with `<home>` for every home directory.
pub open spec fn homes_hidden(s: Seq<char>) -> Seq<char>
    decreases s.len(),
{
    if s.len() == 0 {
        Seq::empty()
    } else if home_in_front(s) {
        let n = "/Users/"@.len() + user_run(s.skip("/Users/"@.len() as int)).len();
        "<home>"@ + homes_hidden(after(s, n as int))
    } else {
        seq![s[0]] + homes_hidden(s.skip(1))
    }
}

/// A temporary file stands at the front of `s`.
pub open spec fn folder_in_front(s: Seq<char>) -> bool {
    has_prefix(s, "/private/var/folders/"@) && leading_word(
        s.skip("/private/var/folders/"@.len() as int),
    ).len() > 0
}

/// The text with the file name alone for every temporary file.
pub open spec fn folders_collapsed(s: Seq<char>) -> Seq<char>
    decreases s.len(),
{
    if s.len() == 0 {
        Seq::empty()
    } else if folder_in_front(s) {
        let w = leading_word(s);
        basename(w) + folders_collapsed(after(s, w.len() as int))
    } else {
        seq![s[0]] + folders_collapsed(s.skip(1))
    }
}

/// An absolute path without its directories, or as it is where it ends in a
/// slash.
pub open spec fn shortened(path: Seq<char>) -> Seq<char> {
    if basename(path).len() == 0 {
        path
    } else {
        basename(path)
    }
}

/// An absolute path of more than the slash stands at the front of `s`.
pub open spec fn path_in_front(s: Seq<char>) -> bool {
    s.len() > 1 && s[0] == '/' && !is_white(s[1])
}

/// The text with the file name alone for every word that is an absolute path.
/// `fresh` says that a word begins here because the text does.
pub open spec fn paths_shortened(s: Seq<char>, fresh: bool) -> Seq<char>
    decreases s.len(),
{
    if s.len() == 0 {
        Seq::empty()
    } else if fresh && path_in_front(s) {
        let w = leading_word(s);
        shortened(w) + paths_shortened(after(s, w.len() as int), false)
    } else if is_white(s[0]) && path_in_front(s.skip(1)) {
        let w = leading_word(s.skip(1));
        seq![s[0]] + shortened(w) + paths_shortened(after(s, 1 + w.len() as int), false)
    } else {
        seq![s[0]] + paths_shortened(s.skip(1), false)
    }
}

/// A title as it is shown.
pub open spec fn sanitized(title: Seq<char>) -> Seq<char> {
    paths_shortened(folders_collapsed(homes_hidden(title)), true)
}

/// Calls `Regex::replace_all` with [`USER_HOME`] and the replacement `<home>`.
/// Matches are taken from left to right without overlap, each as long as the
/// user name goes on.
#[verifier::external_body]
pub(crate) fn replace_homes(pattern: &str, text: &str, by: &str) -> (r: String)
    requires
        pattern@ == USER_HOME@,
        by@ == "<home>"@,
    ensures
        r@ == homes_hidden(text@),
{
    let re = regex::Regex::new(pattern).expect("a valid pattern");
    re.replace_all(text, by).into_owned()
}

/// Calls `Regex::replace_all` with [`PRIVATE_FOLDERS`] and the base name of each
/// match. Matches are taken from left to right without overlap, each up to the
/// next white space.
#[verifier::external_body]
pub(crate) fn replace_folders(pattern: &str, text: &str) -> (r: String)
    requires
        pattern@ == PRIVATE_FOLDERS@,
    ensures
        r@ == folders_collapsed(text@),
{
    let re = regex::Regex::new(pattern).expect("a valid pattern");
    re.replace_all(text, |c: &regex::Captures| os_basename(&c[0])).into_owned()
}

/// Calls `Regex::replace_all` with [`ABSOLUTE_PATH`] and, for each match, what
/// stands before the path and the path made short. Matches are taken from left
/// to right without overlap, each up to the next white space.
#[verifier::external_body]
pub(crate) fn replace_paths(pattern: &str, text: &str) -> (r: String)
    requires
        pattern@ == ABSOLUTE_PATH@,
    ensures
        r@ == paths_shortened(text@, true),
{
    let re = regex::Regex::new(pattern).expect("a valid pattern");
    re.replace_all(text, |c: &regex::Captures| shorten_path(&c[1], &c[2])).into_owned()
}

/// What stands before a path, and the path made short.
pub fn shorten_path(boundary: &str, path: &str) -> (r: String)
    ensures
        r@ == boundary@ + shortened(path@),
{
    let base = os_basename(path);
    if base.as_str().is_empty() {
        cat2(boundary, path)
    } else {
        cat2(boundary, base.as_str())
    }
}

/// A title without the name of the user and the places of files.
pub fn sanitize_section_title_for_emission(title: &str) -> (r: String)
    ensures
        r@ == sanitized(title@),
{
    let hidden = replace_homes(USER_HOME, title, "<home>");
    let collapsed = replace_folders(PRIVATE_FOLDERS, hidden.as_str());
    replace_paths(ABSOLUTE_PATH, collapsed.as_str())
}

/// The most characters of a title that are shown.
pub const MAX_TITLE_CHARS: usize = 255;

/// A title as it is shown, at most so long.
pub open spec fn shown_title(title: Seq<char>) -> Seq<char> {
    let s = sanitized(title);
    if s.len() <= MAX_TITLE_CHARS {
        s
    } else {
        s.take(MAX_TITLE_CHARS as int)
    }
}

/// A title as it is shown, at most so long.
pub fn show_title(title: &str) -> (r: String)
    ensures
        r@ == shown_title(title@),
{
    let s = sanitize_section_title_for_emission(title);
    let v = to_chars(s.as_str());
    if v.len() <= MAX_TITLE_CHARS {
        s
    } else {
        from_range(&v, 0, MAX_TITLE_CHARS)
    }
}

proof fn lemma_user_run_prefix(s: Seq<char>)
    ensures
        user_run(s).len() <= s.len(),
    decreases s.len(),
{
    if s.len() > 0 && is_user_char(s[0]) {
        lemma_user_run_prefix(s.skip(1));
    }
}

/// What the hidden text begins with, up to a `<`, the text itself begins with.
proof fn lemma_hidden_prefix(s: Seq<char>, q: Seq<char>)
    requires
        has_prefix(homes_hidden(s), q),
        !q.contains('<'),
    ensures
        has_prefix(s, q),
    decreases q.len(),
{
    reveal_strlit("<home>");
    let h = homes_hidden(s);
    if q.len() == 0 {
        assert(s.take(0) =~= q);
    } else {
        assert(q[0] == h[0]) by {
            assert(h.take(q.len() as int)[0] == q[0]);
        }
        assert(q.contains(q[0]));
        if home_in_front(s) {
            assert("<home>"@[0] == '<');
            assert(h[0] == '<');
        } else {
            let q1 = q.skip(1);
            let h1 = homes_hidden(s.skip(1));
            assert(h.skip(1) =~= h1);
            assert(h1.take(q1.len() as int) =~= q1) by {
                assert forall|i: int| 0 <= i < q1.len() implies h1[i] == q1[i] by {
                    assert(h.take(q.len() as int)[i + 1] == q[i + 1]);
                }
            }
            assert(!q1.contains('<')) by {
                if q1.contains('<') {
                    let k = choose|k: int| 0 <= k < q1.len() && q1[k] == '<';
                    assert(q[k + 1] == '<');
                }
            }
            lemma_hidden_prefix(s.skip(1), q1);
            assert(s.take(q.len() as int) =~= q) by {
                assert forall|i: int| 0 <= i < q.len() implies s[i] == q[i] by {
                    if i > 0 {
                        assert(s.skip(1).take(q1.len() as int)[i - 1] == q1[i - 1]);
                    }
                }
            }
        }
    }
}

/// Once home directories are hidden, no `/Users/` with a user name behind it is
/// left in a title.
proof fn lemma_no_home_is_left(title: Seq<char>, c: char, i: int)
    requires
        is_user_char(c),
    ensures
        !occurs_at(homes_hidden(title), "/Users/"@.push(c), i),
    decreases title.len(),
{
    reveal_strlit("/Users/");
    reveal_strlit("<home>");
    let h = homes_hidden(title);
    let q = "/Users/"@.push(c);
    if title.len() > 0 && occurs_at(h, q, i) {
        assert(h.subrange(i, i + q.len())[0] == q[0]);
        assert forall|k: int| 0 <= k < q.len() implies h[i + k] == q[k] by {
            assert(h.subrange(i, i + q.len())[k] == q[k]);
        }
        if home_in_front(title) {
            let n = "/Users/"@.len() + user_run(title.skip("/Users/"@.len() as int)).len();
            lemma_user_run_prefix(title.skip("/Users/"@.len() as int));
            let rest = homes_hidden(title.skip(n as int));
            assert(h =~= "<home>"@ + rest);
            if i >= 6 {
                assert(rest.subrange(i - 6, i - 6 + q.len()) =~= q) by {
                    assert forall|k: int| 0 <= k < q.len() implies rest[i - 6 + k] == q[k] by {
                        assert(h[i + k] == rest[i - 6 + k]);
                    }
                }
                lemma_no_home_is_left(title.skip(n as int), c, i - 6);
            } else {
                assert(h[i] == "<home>"@[i]);
            }
        } else {
            let rest = homes_hidden(title.skip(1));
            assert(h =~= seq![title[0]] + rest);
            if i >= 1 {
                assert(rest.subrange(i - 1, i - 1 + q.len()) =~= q) by {
                    assert forall|k: int| 0 <= k < q.len() implies rest[i - 1 + k] == q[k] by {
                        assert(h[i + k] == rest[i - 1 + k]);
                    }
                }
                lemma_no_home_is_left(title.skip(1), c, i - 1);
            } else {
                assert(h.take(q.len() as int) =~= q);
                assert(!q.contains('<'));
                lemma_hidden_prefix(title, q);
                assert(title.take(8) =~= q);
                assert(title.take(7) =~= "/Users/"@) by {
                    assert forall|k: int| 0 <= k < 7 implies title[k] == "/Users/"@[k] by {
                        assert(title.take(8)[k] == q[k]);
                    }
                }
                assert(title.skip(7)[0] == c) by {
                    assert(title.take(8)[7] == c);
                }
                assert(home_in_front(title));
            }
        }
    }
}

proof fn lemma_leading_word(s: Seq<char>)
    ensures
        leading_word(s).len() <= s.len(),
        leading_word(s) == s.take(leading_word(s).len() as int),
        none_white(leading_word(s)),
        leading_word(s).len() == s.len() || is_white(s[leading_word(s).len() as int]),
    decreases s.len(),
{
    let w = leading_word(s);
    if s.len() == 0 || is_white(s[0]) {
        assert(w =~= s.take(0));
    } else {
        lemma_leading_word(s.skip(1));
        let v = leading_word(s.skip(1));
        assert(w =~= s.take(w.len() as int)) by {
            assert forall|k: int| 0 <= k < w.len() implies w[k] == s[k] by {
                if k > 0 {
                    assert(s.skip(1).take(v.len() as int)[k - 1] == s[k]);
                }
            }
        }
        assert forall|k: int| 0 <= k < w.len() implies !is_white(#[trigger] w[k]) by {
            if k > 0 {
                assert(w[k] == v[k - 1]);
            }
        }
        if w.len() < s.len() {
            assert(s.skip(1)[v.len() as int] == s[w.len() as int]);
        }
    }
}

proof fn lemma_basename(s: Seq<char>)
    ensures
        !basename(s).contains('/'),
{
    lemma_pieces_nonempty(s, seq!['/']);
    lemma_pieces_without(s, '/', pieces(s, seq!['/']).len() - 1);
}

/// A chunk that is followed by white space: a text without white space that stands at
/// `i` stands in the chunk or behind it.
proof fn lemma_split(chunk: Seq<char>, rest: Seq<char>, q: Seq<char>, i: int)
    requires
        occurs_at(chunk + rest, q, i),
        none_white(q),
        q.len() > 0,
        rest.len() > 0 ==> is_white(rest[0]),
    ensures
        occurs_at(chunk, q, i) || (i >= chunk.len() && occurs_at(rest, q, i - chunk.len())),
{
    let all = chunk + rest;
    assert forall|k: int| 0 <= k < q.len() implies all[i + k] == q[k] by {
        assert(all.subrange(i, i + q.len())[k] == q[k]);
    }
    if i + q.len() <= chunk.len() {
        assert(chunk.subrange(i, i + q.len()) =~= q) by {
            assert forall|k: int| 0 <= k < q.len() implies chunk[i + k] == q[k] by {
                assert(all[i + k] == chunk[i + k]);
            }
        }
    } else if i >= chunk.len() {
        let j = i - chunk.len();
        assert(rest.subrange(j, j + q.len()) =~= q) by {
            assert forall|k: int| 0 <= k < q.len() implies rest[j + k] == q[k] by {
                assert(all[i + k] == rest[j + k]);
            }
        }
    } else {
        let k = chunk.len() - i;
        assert(all[i + k] == rest[0]);
        assert(is_white(q[k]));
    }
}

proof fn lemma_front(s: Seq<char>, q: Seq<char>)
    requires
        has_prefix(s, q),
    ensures
        occurs_at(s, q, 0),
        forall|k: int| 0 <= k < q.len() ==> s[k] == q[k],
{
    assert(s.subrange(0, q.len() as int) =~= s.take(q.len() as int));
    assert forall|k: int| 0 <= k < q.len() implies s[k] == q[k] by {
        assert(s.take(q.len() as int)[k] == q[k]);
    }
}

proof fn lemma_shift(s: Seq<char>, n: int, q: Seq<char>, i: int)
    requires
        0 <= n <= s.len(),
        occurs_at(s.skip(n), q, i),
    ensures
        occurs_at(s, q, n + i),
{
    assert(s.subrange(n + i, n + i + q.len()) =~= s.skip(n).subrange(i, i + q.len()));
}

/// What a collapsed text begins with, the text begins with, unless a temporary file
/// stands within.
proof fn lemma_collapsed_prefix(s: Seq<char>, p: Seq<char>) -> (k: int)
    requires
        has_prefix(folders_collapsed(s), p),
        none_white(p),
    ensures
        has_prefix(s, p) || (0 <= k < p.len() && k <= s.len() && s.take(k) == p.take(k)
            && folder_in_front(s.skip(k)) && !p.skip(k).contains('/')),
    decreases p.len(),
{
    let f = folders_collapsed(s);
    if p.len() == 0 {
        assert(s.take(0) =~= p);
        0
    } else {
        lemma_front(f, p);
        if folder_in_front(s) {
            let w = leading_word(s);
            let b = basename(w);
            let rest = folders_collapsed(after(s, w.len() as int));
            lemma_leading_word(s);
            lemma_basename(w);
            lemma_folder_word(s);
            assert(f =~= b + rest);
            assert(p.skip(0) =~= p);
            assert(s.skip(0) =~= s);
            assert(s.take(0) =~= p.take(0));
            if p.contains('/') {
                let m = choose|m: int| 0 <= m < p.len() && p[m] == '/';
                if m < b.len() {
                    assert(f[m] == b[m]);
                    assert(b.contains('/'));
                } else {
                    lemma_collapsed_first(s.skip(w.len() as int));
                    assert(f[b.len() as int] == rest[0]);
                    assert(p[b.len() as int] == rest[0]);
                }
            }
            0
        } else {
            let q = p.skip(1);
            let rest = folders_collapsed(s.skip(1));
            assert(f =~= seq![s[0]] + rest);
            assert(rest.take(q.len() as int) =~= q) by {
                assert forall|m: int| 0 <= m < q.len() implies rest[m] == q[m] by {
                    assert(f[m + 1] == p[m + 1]);
                }
            }
            assert forall|m: int| 0 <= m < q.len() implies !is_white(#[trigger] q[m]) by {
                assert(q[m] == p[m + 1]);
            }
            let k = lemma_collapsed_prefix(s.skip(1), q);
            if has_prefix(s.skip(1), q) {
                lemma_front(s.skip(1), q);
                assert(s.take(p.len() as int) =~= p) by {
                    assert forall|m: int| 0 <= m < p.len() implies s[m] == p[m] by {
                        if m > 0 {
                            assert(s.skip(1)[m - 1] == q[m - 1]);
                        }
                    }
                }
            } else {
                assert(s.take(k + 1) =~= p.take(k + 1)) by {
                    assert forall|m: int| 0 <= m < k + 1 implies s[m] == p[m] by {
                        if m > 0 {
                            assert(s.skip(1).take(k)[m - 1] == q.take(k)[m - 1]);
                        }
                    }
                }
                assert(s.skip(1).skip(k) =~= s.skip(k + 1));
                assert(q.skip(k) =~= p.skip(k + 1));
            }
            k + 1
        }
    }
}

/// The word at the front of a temporary file is not empty.
proof fn lemma_folder_word(s: Seq<char>)
    requires
        folder_in_front(s),
    ensures
        1 <= leading_word(s).len() <= s.len(),
{
    reveal_strlit("/private/var/folders/");
    lemma_leading_word(s);
    lemma_front(s, "/private/var/folders/"@);
    assert(s[0] == '/');
}

/// A collapsed text that begins behind a word begins with white space.
proof fn lemma_collapsed_first(s: Seq<char>)
    requires
        s.len() > 0 ==> is_white(s[0]),
    ensures
        folders_collapsed(s).len() > 0 ==> s.len() > 0 && folders_collapsed(s)[0] == s[0],
        folders_collapsed(s).len() > 0 ==> is_white(folders_collapsed(s)[0]),
        s.len() == 0 ==> folders_collapsed(s).len() == 0,
{
    reveal_strlit("/private/var/folders/");
    if s.len() > 0 && folder_in_front(s) {
        lemma_front(s, "/private/var/folders/"@);
    }
}

/// A home directory at the front of which a temporary file stands in the place of the
/// user's name.
pub open spec fn masked_folder() -> Seq<char> {
    "/Users//private/var/folders/"@
}

proof fn lemma_collapsed_occurs(s: Seq<char>, c: char, i: int)
    requires
        is_user_char(c),
        occurs_at(folders_collapsed(s), "/Users/"@.push(c), i),
    ensures
        occurs(s, "/Users/"@.push(c)) || occurs(s, masked_folder()),
    decreases s.len(),
{
    reveal_strlit("/Users/");
    reveal_strlit("/private/var/folders/");
    reveal_strlit("/Users//private/var/folders/");
    let q = "/Users/"@.push(c);
    let f = folders_collapsed(s);
    assert(none_white(q));
    assert forall|k: int| 0 <= k < q.len() implies f[i + k] == q[k] by {
        assert(f.subrange(i, i + q.len())[k] == q[k]);
    }
    if s.len() == 0 {
    } else if folder_in_front(s) {
        let w = leading_word(s);
        lemma_leading_word(s);
        lemma_folder_word(s);
        lemma_basename(w);
        let rest = folders_collapsed(s.skip(w.len() as int));
        assert(f =~= basename(w) + rest);
        lemma_collapsed_first(s.skip(w.len() as int));
        lemma_split(basename(w), rest, q, i);
        if occurs_at(basename(w), q, i) {
            assert(basename(w).subrange(i, i + q.len())[0] == q[0]);
            assert(basename(w)[i] == '/');
            assert(basename(w).contains('/'));
        } else {
            lemma_collapsed_occurs(s.skip(w.len() as int), c, i - basename(w).len());
            lemma_lift(s, w.len() as int, q, masked_folder());
        }
    } else {
        let rest = folders_collapsed(s.skip(1));
        assert(f =~= seq![s[0]] + rest);
        if i >= 1 {
            assert(rest.subrange(i - 1, i - 1 + q.len()) =~= q) by {
                assert forall|k: int| 0 <= k < q.len() implies rest[i - 1 + k] == q[k] by {
                    assert(f[i + k] == rest[i - 1 + k]);
                }
            }
            lemma_collapsed_occurs(s.skip(1), c, i - 1);
            lemma_lift(s, 1, q, masked_folder());
        } else {
            assert(f.take(q.len() as int) =~= q);
            let k = lemma_collapsed_prefix(s, q);
            if has_prefix(s, q) {
                lemma_front(s, q);
            } else {
                assert(q.skip(k).len() == q.len() - k);
                if k <= 6 {
                    assert(q.skip(k)[6 - k] == '/');
                    assert(q.skip(k).contains('/'));
                }
                assert(k == 7);
                lemma_front(s.skip(7), "/private/var/folders/"@);
                let m = masked_folder();
                assert(m.len() == 28);
                assert(s.subrange(0, 28) =~= m) by {
                    assert forall|j: int| 0 <= j < 28 implies s[j] == m[j] by {
                        if j < 7 {
                            assert(s.take(7)[j] == q.take(7)[j]);
                        } else {
                            assert(s.skip(7)[j - 7] == "/private/var/folders/"@[j - 7]);
                        }
                    }
                }
                assert(occurs_at(s, m, 0));
            }
        }
    }
}

proof fn lemma_lift(s: Seq<char>, n: int, p: Seq<char>, q: Seq<char>)
    requires
        0 <= n <= s.len(),
        occurs(s.skip(n), p) || occurs(s.skip(n), q),
    ensures
        occurs(s, p) || occurs(s, q),
{
    if occurs(s.skip(n), p) {
        let i = choose|i: int| occurs_at(s.skip(n), p, i);
        lemma_shift(s, n, p, i);
    } else {
        let i = choose|i: int| occurs_at(s.skip(n), q, i);
        lemma_shift(s, n, q, i);
    }
}

/// What stands in a hidden text, begins with a slash and has no `<` in it stands in the
/// text itself.
proof fn lemma_hidden_occurs(s: Seq<char>, q: Seq<char>, i: int)
    requires
        occurs_at(homes_hidden(s), q, i),
        q.len() > 0,
        q[0] == '/',
        !q.contains('<'),
    ensures
        occurs(s, q),
    decreases s.len(),
{
    reveal_strlit("/Users/");
    reveal_strlit("<home>");
    let h = homes_hidden(s);
    assert forall|k: int| 0 <= k < q.len() implies h[i + k] == q[k] by {
        assert(h.subrange(i, i + q.len())[k] == q[k]);
    }
    if s.len() == 0 {
    } else if home_in_front(s) {
        let n = "/Users/"@.len() + user_run(s.skip("/Users/"@.len() as int)).len();
        lemma_user_run_prefix(s.skip("/Users/"@.len() as int));
        let rest = homes_hidden(s.skip(n as int));
        assert(h =~= "<home>"@ + rest);
        if i < 6 {
            assert(h[i] == "<home>"@[i]);
            assert(h[i + 0] == q[0]);
        } else {
            assert(rest.subrange(i - 6, i - 6 + q.len()) =~= q) by {
                assert forall|k: int| 0 <= k < q.len() implies rest[i - 6 + k] == q[k] by {
                    assert(h[i + k] == rest[i - 6 + k]);
                }
            }
            lemma_hidden_occurs(s.skip(n as int), q, i - 6);
            lemma_lift(s, n as int, q, q);
        }
    } else {
        let rest = homes_hidden(s.skip(1));
        assert(h =~= seq![s[0]] + rest);
        if i >= 1 {
            assert(rest.subrange(i - 1, i - 1 + q.len()) =~= q) by {
                assert forall|k: int| 0 <= k < q.len() implies rest[i - 1 + k] == q[k] by {
                    assert(h[i + k] == rest[i - 1 + k]);
                }
            }
            lemma_hidden_occurs(s.skip(1), q, i - 1);
            lemma_lift(s, 1, q, q);
        } else {
            assert(h.take(q.len() as int) =~= q);
            lemma_hidden_prefix(s, q);
            lemma_front(s, q);
        }
    }
}

/// What a shortened text begins with, up to white space, the text begins with.
proof fn lemma_shortened_prefix(s: Seq<char>, p: Seq<char>)
    requires
        has_prefix(paths_shortened(s, false), p),
        none_white(p),
    ensures
        has_prefix(s, p),
    decreases p.len(),
{
    let f = paths_shortened(s, false);
    if p.len() == 0 {
        assert(s.take(0) =~= p);
    } else {
        lemma_front(f, p);
        if is_white(s[0]) && path_in_front(s.skip(1)) {
            let w = leading_word(s.skip(1));
            assert(f =~= seq![s[0]] + (shortened(w) + paths_shortened(
                after(s, 1 + w.len() as int),
                false,
            )));
            assert(is_white(p[0]));
        } else {
            let q = p.skip(1);
            let rest = paths_shortened(s.skip(1), false);
            assert(f =~= seq![s[0]] + rest);
            assert(rest.take(q.len() as int) =~= q) by {
                assert forall|m: int| 0 <= m < q.len() implies rest[m] == q[m] by {
                    assert(f[m + 1] == p[m + 1]);
                }
            }
            assert forall|m: int| 0 <= m < q.len() implies !is_white(#[trigger] q[m]) by {
                assert(q[m] == p[m + 1]);
            }
            lemma_shortened_prefix(s.skip(1), q);
            lemma_front(s.skip(1), q);
            assert(s.take(p.len() as int) =~= p) by {
                assert forall|m: int| 0 <= m < p.len() implies s[m] == p[m] by {
                    if m > 0 {
                        assert(s.skip(1)[m - 1] == q[m - 1]);
                    }
                }
            }
        }
    }
}

/// A shortened text that begins behind a word begins with white space.
proof fn lemma_shortened_first(s: Seq<char>)
    requires
        s.len() > 0 ==> is_white(s[0]),
    ensures
        paths_shortened(s, false).len() > 0 ==> is_white(paths_shortened(s, false)[0]),
{
}

/// What stands in the shortened word at the front of a text, with a slash in it, stands
/// in the text.
proof fn lemma_in_word(s: Seq<char>, q: Seq<char>, i: int)
    requires
        occurs_at(shortened(leading_word(s)), q, i),
        q.len() > 0,
        q[0] == '/',
    ensures
        occurs(s, q),
{
    let w = leading_word(s);
    lemma_leading_word(s);
    lemma_basename(w);
    assert(shortened(w).subrange(i, i + q.len())[0] == q[0]);
    assert(shortened(w)[i] == '/');
    if basename(w).len() > 0 {
        assert(basename(w).contains('/'));
    }
    assert(s.subrange(i, i + q.len()) =~= w.subrange(i, i + q.len()));
    assert(occurs_at(s, q, i));
}

proof fn lemma_shortened_occurs(s: Seq<char>, fresh: bool, q: Seq<char>, i: int)
    requires
        occurs_at(paths_shortened(s, fresh), q, i),
        q.len() > 0,
        q[0] == '/',
        none_white(q),
    ensures
        occurs(s, q),
    decreases s.len(),
{
    let f = paths_shortened(s, fresh);
    assert forall|k: int| 0 <= k < q.len() implies f[i + k] == q[k] by {
        assert(f.subrange(i, i + q.len())[k] == q[k]);
    }
    if s.len() == 0 {
    } else if fresh && path_in_front(s) {
        let w = leading_word(s);
        let n = w.len() as int;
        lemma_leading_word(s);
        let rest = paths_shortened(s.skip(n), false);
        assert(!is_white('/'));
        assert(n >= 1);
        assert(f =~= shortened(w) + rest);
        lemma_shortened_first(s.skip(n));
        lemma_split(shortened(w), rest, q, i);
        if occurs_at(shortened(w), q, i) {
            lemma_in_word(s, q, i);
        } else {
            lemma_shortened_occurs(s.skip(n), false, q, i - shortened(w).len());
            lemma_lift(s, n, q, q);
        }
    } else if is_white(s[0]) && path_in_front(s.skip(1)) {
        let t = s.skip(1);
        let w = leading_word(t);
        let n = 1 + w.len() as int;
        lemma_leading_word(t);
        let rest = paths_shortened(s.skip(n), false);
        assert(!is_white('/'));
        let chunk = seq![s[0]] + shortened(w);
        assert(f =~= chunk + rest);
        if n < s.len() {
            assert(s.skip(n)[0] == t[w.len() as int]);
        }
        lemma_shortened_first(s.skip(n));
        lemma_split(chunk, rest, q, i);
        if occurs_at(chunk, q, i) {
            assert(chunk.subrange(i, i + q.len())[0] == q[0]);
            if i == 0 {
                assert(chunk[0] == s[0]);
                assert(is_white(q[0]));
            }
            assert(shortened(w).subrange(i - 1, i - 1 + q.len()) =~= chunk.subrange(
                i,
                i + q.len(),
            ));
            lemma_in_word(t, q, i - 1);
            lemma_lift(s, 1, q, q);
        } else {
            lemma_shortened_occurs(s.skip(n), false, q, i - chunk.len());
            lemma_lift(s, n, q, q);
        }
    } else {
        let rest = paths_shortened(s.skip(1), false);
        assert(f =~= seq![s[0]] + rest);
        if i >= 1 {
            assert(rest.subrange(i - 1, i - 1 + q.len()) =~= q) by {
                assert forall|k: int| 0 <= k < q.len() implies rest[i - 1 + k] == q[k] by {
                    assert(f[i + k] == rest[i - 1 + k]);
                }
            }
            lemma_shortened_occurs(s.skip(1), false, q, i - 1);
            lemma_lift(s, 1, q, q);
        } else {
            let p = q.skip(1);
            assert(rest.take(p.len() as int) =~= p) by {
                assert forall|k: int| 0 <= k < p.len() implies rest[k] == p[k] by {
                    assert(f[k + 1] == q[k + 1]);
                }
            }
            assert forall|m: int| 0 <= m < p.len() implies !is_white(#[trigger] p[m]) by {
                assert(p[m] == q[m + 1]);
            }
            lemma_shortened_prefix(s.skip(1), p);
            lemma_front(s.skip(1), p);
            assert(s.subrange(0, q.len() as int) =~= q) by {
                assert forall|k: int| 0 <= k < q.len() implies s[k] == q[k] by {
                    if k > 0 {
                        assert(s.skip(1)[k - 1] == p[k - 1]);
                    } else {
                        assert(f[0] == q[0]);
                    }
                }
            }
            assert(occurs_at(s, q, 0));
        }
    }
}

/// No title is shown with `/Users/` and a user name in it, with one exception: where in
/// the title a path of temporary files stood directly behind `/Users/`, so that it was
/// no home directory before that path was shortened.
pub proof fn law_user_names_are_hidden(title: Seq<char>, c: char)
    requires
        is_user_char(c),
        occurs(shown_title(title), "/Users/"@.push(c)),
    ensures
        occurs(title, masked_folder()),
{
    reveal_strlit("/Users/");
    reveal_strlit("/Users//private/var/folders/");
    let q = "/Users/"@.push(c);
    let s = sanitized(title);
    let i = choose|i: int| occurs_at(shown_title(title), q, i);
    assert(s.subrange(i, i + q.len()) =~= shown_title(title).subrange(i, i + q.len()));
    assert(occurs_at(s, q, i));
    assert(none_white(q));
    let h = homes_hidden(title);
    lemma_shortened_occurs(folders_collapsed(h), true, q, i);
    let j = choose|j: int| occurs_at(folders_collapsed(h), q, j);
    lemma_collapsed_occurs(h, c, j);
    if occurs(h, q) {
        let k = choose|k: int| occurs_at(h, q, k);
        lemma_no_home_is_left(title, c, k);
    }
    let m = masked_folder();
    let k = choose|k: int| occurs_at(h, m, k);
    assert(!m.contains('<'));
    lemma_hidden_occurs(title, m, k);
}

/// What a step is counted as: native work where one of the native patterns matches, whatever
/// else matches; resources where one of theirs does and no native one; packaging where one
/// of theirs does and none of the others; and otherwise the rest. A step without a title is
/// not counted.
pub proof fn law_steps_are_counted_once(title: Seq<char>)
    ensures
        ({
            let native = has_prefix(title, "Compiling Clang module"@) || any_matches(
                native_pattern_seq(),
                title,
            );
            let resources = any_matches(resources_pattern_seq(), title);
            let packaging = any_matches(packaging_pattern_seq(), title);
            &&& category_of(title) is None <==> title.len() == 0
            &&& title.len() > 0 ==> {
                &&& category_of(title) == Some(Category::Native) <==> native
                &&& category_of(title) == Some(Category::Resources) <==> !native && resources
                &&& category_of(title) == Some(Category::Packaging) <==> !native && !resources
                    && packaging
                &&& category_of(title) == Some(Category::Other) <==> !native && !resources
                    && !packaging
            }
        }),
{
}

/// Each category goes by its own name.
pub proof fn law_categories_have_names(a: Category, b: Category)
    ensures
        a.name() == b.name() ==> a == b,
        Category::Native.name() == "native"@,
        Category::Resources.name() == "resources"@,
        Category::Packaging.name() == "packaging"@,
        Category::Other.name() == "other"@,
{
    reveal_strlit("native");
    reveal_strlit("resources");
    reveal_strlit("packaging");
    reveal_strlit("other");
    assert(Category::Native.name()[0] == 'n');
    assert(Category::Resources.name()[0] == 'r');
    assert(Category::Packaging.name()[0] == 'p');
    assert(Category::Other.name()[0] == 'o');
}

/// The patterns by which steps are told apart: compiling sources and modules is native work,
/// asset catalogs, storyboards, strings and property lists are resources, and linking,
/// signing and what surrounds them is packaging.
pub proof fn law_patterns_of_the_categories()
    ensures
        native_pattern_seq().len() == 16,
        native_pattern_seq().contains(r"(?i)^Compile \S+\.(swift|m|mm|c|cpp|cxx|cc)\b"@),
        native_pattern_seq().contains(r"^CompileSwiftSources\b"@),
        native_pattern_seq().contains(r"^CompileC\b"@),
        native_pattern_seq().contains(r"^CompileSwift\b"@),
        native_pattern_seq().contains(r"^SwiftDriver\b"@),
        native_pattern_seq().contains(r"^Precompile module\b"@),
        resources_pattern_seq().len() == 14,
        resources_pattern_seq().contains(r"(?i)^Compile asset catalog"@),
        resources_pattern_seq().contains(r"^CompileStoryboard\b"@),
        resources_pattern_seq().contains(r"^CompileXIB\b"@),
        resources_pattern_seq().contains(r"^ProcessInfoPlistFile\b"@),
        resources_pattern_seq().contains(r"^CpResource\b"@),
        packaging_pattern_seq().len() == 14,
        packaging_pattern_seq().contains(r"^Link\b"@),
        packaging_pattern_seq().contains(r"^Ld\b"@),
        packaging_pattern_seq().contains(r"^CodeSign\b"@),
        packaging_pattern_seq().contains(r"^Strip\b"@),
        packaging_pattern_seq().contains(r"^GenerateDSYMFile\b"@),
{
    let n = native_pattern_seq();
    assert(n[0] == r"(?i)^Compile \S+\.(swift|m|mm|c|cpp|cxx|cc)\b"@ && n[1]
        == r"^CompileSwiftSources\b"@ && n[2] == r"^CompileC\b"@ && n[3] == r"^CompileSwift\b"@
        && n[5] == r"^SwiftDriver\b"@ && n[12] == r"^Precompile module\b"@);
    let r = resources_pattern_seq();
    assert(r[0] == r"(?i)^Compile asset catalog"@ && r[2] == r"^CompileStoryboard\b"@ && r[3]
        == r"^CompileXIB\b"@ && r[7] == r"^ProcessInfoPlistFile\b"@ && r[8] == r"^CpResource\b"@);
    let p = packaging_pattern_seq();
    assert(p[0] == r"^Link\b"@ && p[1] == r"^Ld\b"@ && p[2] == r"^CodeSign\b"@ && p[5]
        == r"^Strip\b"@ && p[11] == r"^GenerateDSYMFile\b"@);
}

/// A title is shown with at most 255 characters, cut at its end.
pub proof fn law_titles_are_cut_at_the_end(title: Seq<char>)
    ensures
        shown_title(title).len() <= 255,
        sanitized(title).len() <= 255 ==> shown_title(title) == sanitized(title),
        has_prefix(sanitized(title), shown_title(title)),
{
    assert(sanitized(title).take(sanitized(title).len() as int) =~= sanitized(title));
}

/// What follows the last slash of a path is its base name.
pub proof fn law_base_names(dir: Seq<char>, name: Seq<char>)
    requires
        !name.contains('/'),
    ensures
        basename(dir + seq!['/'] + name) == name,
        basename(name) == name,
        name.len() > 0 ==> shortened(dir + seq!['/'] + name) == name,
{
    lemma_pieces_append(dir, '/', name);
    lemma_pieces_single(name, '/');
}

proof fn lemma_no_slash_stays(s: Seq<char>, fresh: bool)
    requires
        !s.contains('/'),
    ensures
        homes_hidden(s) == s,
        folders_collapsed(s) == s,
        paths_shortened(s, fresh) == s,
    decreases s.len(),
{
    if s.len() > 0 {
        reveal_strlit("/Users/");
        reveal_strlit("/private/var/folders/");
        assert(s.contains(s[0]));
        let d = s.skip(1);
        assert(!d.contains('/')) by {
            if d.contains('/') {
                let k = choose|k: int| 0 <= k < d.len() && d[k] == '/';
                assert(s[k + 1] == '/');
            }
        }
        assert(has_prefix(s, "/Users/"@) ==> s.take("/Users/"@.len() as int)[0] == '/');
        assert(has_prefix(s, "/private/var/folders/"@) ==> s.take(
            "/private/var/folders/"@.len() as int,
        )[0] == '/');
        lemma_no_slash_stays(d, false);
        assert(path_in_front(d) ==> d[0] == '/');
        assert(d.len() > 0 ==> d.contains(d[0]));
        assert(seq![s[0]] + d =~= s);
    } else {
        assert(s =~= Seq::empty());
    }
}

/// A title without a slash names no place on the machine and is shown as it is.
pub proof fn law_titles_without_paths_stay(title: Seq<char>)
    requires
        !title.contains('/'),
    ensures
        sanitized(title) == title,
{
    lemma_no_slash_stays(title, true);
}

/// The patterns of the three kinds of work, in full and in the order in which they are tried.
pub proof fn law_patterns_in_full(i: int)
    ensures
        native_pattern_seq().len() == 16,
        i == 0 ==> native_pattern_seq()[i] == r"(?i)^Compile \S+\.(swift|m|mm|c|cpp|cxx|cc)\b"@,
        i == 1 ==> native_pattern_seq()[i] == r"^CompileSwiftSources\b"@,
        i == 2 ==> native_pattern_seq()[i] == r"^CompileC\b"@,
        i == 3 ==> native_pattern_seq()[i] == r"^CompileSwift\b"@,
        i == 4 ==> native_pattern_seq()[i] == r"^Planning Swift module\b"@,
        i == 5 ==> native_pattern_seq()[i] == r"^SwiftDriver\b"@,
        i == 6 ==> native_pattern_seq()[i] == r"^Emit(?:ting)? [Ss]wift [Mm]odule\b"@,
        i == 7 ==> native_pattern_seq()[i] == r"^Emitting module for\b"@,
        i == 8 ==> native_pattern_seq()[i] == r"^SwiftMergeGeneratedHeaders\b"@,
        i == 9 ==> native_pattern_seq()[i] == r"^SwiftVerifyEmittedModuleInterface\b"@,
        i == 10 ==> native_pattern_seq()[i] == r"^Generate Swift Constant Values\b"@,
        i == 11 ==> native_pattern_seq()[i] == r"^Compiling Clang module\b"@,
        i == 12 ==> native_pattern_seq()[i] == r"^Precompile module\b"@,
        i == 13 ==> native_pattern_seq()[i] == r"^Explicitly Built\b"@,
        i == 14 ==> native_pattern_seq()[i] == r"^Discovering version info for swiftc\b"@,
        i == 15 ==> native_pattern_seq()[i] == r"(?i)^Extract app intents metadata\b"@,
        resources_pattern_seq().len() == 14,
        i == 0 ==> resources_pattern_seq()[i] == r"(?i)^Compile asset catalog"@,
        i == 1 ==> resources_pattern_seq()[i] == r"^CompileAssetCatalog\b"@,
        i == 2 ==> resources_pattern_seq()[i] == r"^CompileStoryboard\b"@,
        i == 3 ==> resources_pattern_seq()[i] == r"^CompileXIB\b"@,
        i == 4 ==> resources_pattern_seq()[i] == r"^CompileXCStrings\b"@,
        i == 5 ==> resources_pattern_seq()[i] == r"^LinkStoryboards\b"@,
        i == 6 ==> resources_pattern_seq()[i] == r"^CompileStrings\b"@,
        i == 7 ==> resources_pattern_seq()[i] == r"^ProcessInfoPlistFile\b"@,
        i == 8 ==> resources_pattern_seq()[i] == r"^CpResource\b"@,
        i == 9 ==> resources_pattern_seq()[i] == r"^CopyPlistFile\b"@,
        i == 10 ==> resources_pattern_seq()[i] == r"^CopyStringsFile\b"@,
        i == 11 ==> resources_pattern_seq()[i] == r"^CopyTiffFile\b"@,
        i == 12 ==> resources_pattern_seq()[i] == r"^CopyPNGFile\b"@,
        i == 13 ==> resources_pattern_seq()[i] == r"^GenerateAssetSymbols\b"@,
        packaging_pattern_seq().len() == 14,
        i == 0 ==> packaging_pattern_seq()[i] == r"^Link\b"@,
        i == 1 ==> packaging_pattern_seq()[i] == r"^Ld\b"@,
        i == 2 ==> packaging_pattern_seq()[i] == r"^CodeSign\b"@,
        i == 3 ==> packaging_pattern_seq()[i] == r"^Sign \b"@,
        i == 4 ==> packaging_pattern_seq()[i] == r"^SignManifestFile\b"@,
        i == 5 ==> packaging_pattern_seq()[i] == r"^Strip\b"@,
        i == 6 ==> packaging_pattern_seq()[i] == r"^Touch\b"@,
        i == 7 ==> packaging_pattern_seq()[i] == r"^Embed\b"@,
        i == 8 ==> packaging_pattern_seq()[i] == r"^ProcessProductPackaging\b"@,
        i == 9 ==> packaging_pattern_seq()[i] == r"^RegisterExecutionPolicyException\b"@,
        i == 10 ==> packaging_pattern_seq()[i] == r"^Validate\b"@,
        i == 11 ==> packaging_pattern_seq()[i] == r"^GenerateDSYMFile\b"@,
        i == 12 ==> packaging_pattern_seq()[i] == r"^CreateUniversalBinary\b"@,
        i == 13 ==> packaging_pattern_seq()[i] == r"^Copy Swift standard libraries\b"@,
{
}

} // verus!

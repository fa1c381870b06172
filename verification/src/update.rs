//! Updating the tool in place: which version to go to, where it is found, and
//! whether it is time to look.
use std::cmp::Ordering;
use crate::build_env::{all_digits, is_digits};
use crate::digest::{hex_text, sha256, sha256_hex};
use crate::env::nonblank;
use crate::error::{Error, Failure, config_invalid, failure, input_invalid};
use crate::numeral::{
    dec_u64, decimal, law_numbers_are_read_as_written, law_only_digits_are_numbers, natural_value,
    parse_u64,
};
use crate::patterns::leading_word;
use crate::text::{
    cat2, cat4, cat5, char_is_white, contains_str, from_range, has_prefix, has_suffix, is_white,
    law_prefixes_and_suffixes, law_trimming_takes_the_ends, lemma_one_piece, lemma_pieces_joined,
    lowered, occurs, occurs_at, opt_str, pieces, split_any, str_eq, strs, to_chars, to_lower,
    trim, trim_start, trimmed, trimmed_start,
};
use vstd::prelude::*;
use vstd::string::*;

verus! {

/// Where releases are published.
pub const DOWNLOAD_BASE: &'static str = "https://download.bugsee.com/cli";

/// The arguments of `update`.
#[derive(Debug)]
pub struct UpdateArgs {
    /// Only tell whether there is a newer version.
    pub check: bool,
    /// Go to this version.
    pub version: Option<String>,
    /// Install even where the version is already there.
    pub force: bool,
    /// Look at most once in this time, and never fail.
    pub max_age: Option<String>,
}

/// What `format!("{:?}", ..)` writes for a string.
pub uninterp spec fn debug_quoted(s: Seq<char>) -> Seq<char>;

/// Calls `format!` with `{:?}`: the string in quotes, with escapes. The result is
/// named [`debug_quoted`]; nothing more is said of it.
#[verifier::external_body]
pub(crate) fn debug_quote(s: &str) -> (r: String)
    ensures
        r@ == debug_quoted(s@),
{
    format!("{s:?}")
}

/// Where releases are looked for: the mirror that a variable names, where it is
/// set and not blank.
pub open spec fn base_url(mirror: Option<Seq<char>>) -> Seq<char> {
    if nonblank(mirror) is Some {
        mirror->0
    } else {
        DOWNLOAD_BASE@
    }
}

/// Where releases are looked for. `mirror` is the variable
/// `BUGSEE_CLI_UPDATE_BASE_URL`.
pub fn download_base(mirror: &Option<String>) -> (r: String)
    ensures
        r@ == base_url(opt_str(*mirror)),
{
    match mirror {
        Some(s) => {
            let t = trim(s.as_str());
            if t.as_str().is_empty() {
                DOWNLOAD_BASE.to_owned()
            } else {
                s.clone()
            }
        },
        None => DOWNLOAD_BASE.to_owned(),
    }
}

/// The target triple of a host, where releases are published for it.
pub open spec fn triple_of(os: Seq<char>, arch: Seq<char>) -> Option<Seq<char>> {
    if os == "macos"@ && arch == "aarch64"@ {
        Some("aarch64-apple-darwin"@)
    } else if os == "macos"@ && arch == "x86_64"@ {
        Some("x86_64-apple-darwin"@)
    } else if os == "linux"@ && arch == "aarch64"@ {
        Some("aarch64-unknown-linux-gnu"@)
    } else if os == "linux"@ && arch == "x86_64"@ {
        Some("x86_64-unknown-linux-gnu"@)
    } else if os == "windows"@ && arch == "x86_64"@ {
        Some("x86_64-pc-windows-msvc"@)
    } else {
        None
    }
}

/// The target triple of a host, where releases are published for it.
pub fn host_triple(os: &str, arch: &str) -> (r: Option<&'static str>)
    ensures
        match r {
            Some(t) => triple_of(os@, arch@) == Some(t@),
            None => triple_of(os@, arch@) is None,
        },
{
    if str_eq(os, "macos") && str_eq(arch, "aarch64") {
        Some("aarch64-apple-darwin")
    } else if str_eq(os, "macos") && str_eq(arch, "x86_64") {
        Some("x86_64-apple-darwin")
    } else if str_eq(os, "linux") && str_eq(arch, "aarch64") {
        Some("aarch64-unknown-linux-gnu")
    } else if str_eq(os, "linux") && str_eq(arch, "x86_64") {
        Some("x86_64-unknown-linux-gnu")
    } else if str_eq(os, "windows") && str_eq(arch, "x86_64") {
        Some("x86_64-pc-windows-msvc")
    } else {
        None
    }
}

/// The leading digits of a text.
pub open spec fn leading_digits(s: Seq<char>) -> Seq<char>
    decreases s.len(),
{
    if s.len() == 0 || !('0' <= s[0] <= '9') {
        Seq::empty()
    } else {
        seq![s[0]] + leading_digits(s.skip(1))
    }
}

/// The number that a segment begins with; zero where it begins with none or with
/// one that does not fit 64 bits.
pub open spec fn segment_value(s: Seq<char>) -> nat {
    match natural_value(leading_digits(s), 10) {
        Some(n) if n <= u64::MAX => n,
        _ => 0,
    }
}

pub open spec fn version_separators() -> Seq<char> {
    seq!['.', '-', '+']
}

/// The numbers of a version.
pub open spec fn version_parts(v: Seq<char>) -> Seq<nat> {
    pieces(v, version_separators()).map_values(|s: Seq<char>| segment_value(s))
}

pub open spec fn major(v: Seq<char>) -> nat {
    version_parts(v)[0]
}

pub open spec fn nats(v: Seq<u64>) -> Seq<nat> {
    v.map_values(|n: u64| n as nat)
}

proof fn lemma_leading_digits_are(s: Seq<char>, k: int)
    requires
        0 <= k <= s.len(),
        forall|i: int| 0 <= i < k ==> '0' <= #[trigger] s[i] <= '9',
        k < s.len() ==> !('0' <= s[k] <= '9'),
    ensures
        leading_digits(s) == s.take(k),
    decreases k,
{
    if k > 0 {
        assert forall|i: int| 0 <= i < k - 1 implies '0' <= #[trigger] s.skip(1)[i] <= '9' by {
            assert(s.skip(1)[i] == s[i + 1]);
        }
        lemma_leading_digits_are(s.skip(1), k - 1);
        assert(s.take(k) =~= seq![s[0]] + s.skip(1).take(k - 1));
    } else {
        assert(s.take(0) =~= Seq::empty());
    }
}

fn read_segment(s: &str) -> (r: u64)
    ensures
        r == segment_value(s@),
{
    let v = to_chars(s);
    let mut k: usize = 0;
    while k < v.len() && '0' <= v[k] && v[k] <= '9'
        invariant
            k <= v@.len(),
            forall|i: int| 0 <= i < k ==> '0' <= #[trigger] v@[i] <= '9',
        decreases v@.len() - k,
    {
        k += 1;
    }
    proof {
        lemma_leading_digits_are(v@, k as int);
    }
    let d = from_range(&v, 0, k);
    match parse_u64(d.as_str()) {
        Some(n) => n,
        None => 0,
    }
}

/// The numbers of a version: those that its segments begin with.
pub fn components(v: &str) -> (r: Vec<u64>)
    ensures
        nats(r@) == version_parts(v@),
        r@.len() >= 1,
{
    let seps = ['.', '-', '+'];
    let segs = split_any(v, &seps);
    proof {
        assert(seps@ =~= version_separators());
    }
    let ghost all = strs(segs@);
    let mut out: Vec<u64> = Vec::new();
    let mut i: usize = 0;
    while i < segs.len()
        invariant
            i <= segs@.len(),
            all == strs(segs@),
            out@.len() == i,
            forall|k: int| 0 <= k < i ==> #[trigger] out@[k] as nat == segment_value(all[k]),
        decreases segs@.len() - i,
    {
        proof {
            assert(all[i as int] == segs@[i as int]@);
        }
        out.push(read_segment(segs[i].as_str()));
        i += 1;
    }
    proof {
        assert(nats(out@) =~= version_parts(v@));
    }
    out
}

/// The major version.
pub fn major_of(v: &str) -> (r: u64)
    ensures
        r == major(v@),
{
    let c = components(v);
    proof {
        assert(nats(c@)[0] == c@[0] as nat);
    }
    c[0]
}

/// How one version stands to another.
#[derive(Debug, Clone, Copy, PartialEq, Eq, Structural)]
pub enum Age {
    Older,
    Same,
    Newer,
}

pub open spec fn part_at(v: Seq<nat>, i: int) -> nat {
    if 0 <= i < v.len() {
        v[i]
    } else {
        0
    }
}

/// How the numbers `a` stand to the numbers `b` from place `i` on: the first
/// place where they differ decides; a missing number is zero.
pub open spec fn age_from(a: Seq<nat>, b: Seq<nat>, i: int) -> Age
    decreases a.len() + b.len() - i,
{
    if i < 0 || (i >= a.len() && i >= b.len()) {
        Age::Same
    } else if part_at(a, i) < part_at(b, i) {
        Age::Older
    } else if part_at(a, i) > part_at(b, i) {
        Age::Newer
    } else {
        age_from(a, b, i + 1)
    }
}

/// How version `a` stands to version `b`.
pub open spec fn version_age(a: Seq<char>, b: Seq<char>) -> Age {
    age_from(version_parts(a), version_parts(b), 0)
}

/// How version `a` stands to version `b`.
pub fn age_of(a: &str, b: &str) -> (r: Age)
    ensures
        r == version_age(a@, b@),
{
    let x = components(a);
    let y = components(b);
    let ghost p = version_parts(a@);
    let ghost q = version_parts(b@);
    let mut i: usize = 0;
    while i < x.len() || i < y.len()
        invariant
            p == version_parts(a@),
            q == version_parts(b@),
            nats(x@) == p,
            nats(y@) == q,
            i <= x@.len() || i <= y@.len(),
            version_age(a@, b@) == age_from(p, q, i as int),
        decreases x@.len() + y@.len() - i,
    {
        let u: u64 = if i < x.len() {
            x[i]
        } else {
            0
        };
        let w: u64 = if i < y.len() {
            y[i]
        } else {
            0
        };
        proof {
            assert(p.len() == x@.len() && q.len() == y@.len());
            if i < x@.len() {
                assert(p[i as int] == x@[i as int] as nat);
            }
            if i < y@.len() {
                assert(q[i as int] == y@[i as int] as nat);
            }
        }
        if u < w {
            return Age::Older;
        }
        if u > w {
            return Age::Newer;
        }
        i += 1;
    }
    proof {
        assert(p.len() == x@.len() && q.len() == y@.len());
    }
    Age::Same
}

/// The order of two versions, number by number.
pub fn cmp_versions(a: &str, b: &str) -> (r: Ordering)
    ensures
        match version_age(a@, b@) {
            Age::Older => r == Ordering::Less,
            Age::Same => r == Ordering::Equal,
            Age::Newer => r == Ordering::Greater,
        },
{
    match age_of(a, b) {
        Age::Older => Ordering::Less,
        Age::Same => Ordering::Equal,
        Age::Newer => Ordering::Greater,
    }
}

proof fn lemma_age_flips(a: Seq<nat>, b: Seq<nat>, i: int)
    ensures
        age_from(a, b, i) == Age::Older <==> age_from(b, a, i) == Age::Newer,
        age_from(a, b, i) == Age::Same <==> age_from(b, a, i) == Age::Same,
    decreases a.len() + b.len() - i,
{
    if i >= 0 && (i < a.len() || i < b.len()) && part_at(a, i) == part_at(b, i) {
        lemma_age_flips(a, b, i + 1);
    }
}

proof fn lemma_age_transitive(a: Seq<nat>, b: Seq<nat>, c: Seq<nat>, i: int)
    requires
        i >= 0,
        age_from(a, b, i) != Age::Newer,
        age_from(b, c, i) != Age::Newer,
    ensures
        age_from(a, c, i) != Age::Newer,
        age_from(a, c, i) == Age::Same ==> age_from(a, b, i) == Age::Same && age_from(b, c, i)
            == Age::Same,
    decreases a.len() + b.len() + c.len() - i,
{
    if i >= a.len() && i >= b.len() && i >= c.len() {
    } else {
        let x = part_at(a, i);
        let y = part_at(b, i);
        let z = part_at(c, i);
        assert(x <= y) by {
            if i < a.len() || i < b.len() {
            }
        }
        assert(y <= z);
        if x == y && y == z {
            assert(age_from(a, b, i + 1) == age_from(a, b, i)) by {
                if i >= a.len() && i >= b.len() {
                    assert(age_from(a, b, i + 1) == Age::Same);
                }
            }
            assert(age_from(b, c, i + 1) == age_from(b, c, i)) by {
                if i >= b.len() && i >= c.len() {
                    assert(age_from(b, c, i + 1) == Age::Same);
                }
            }
            assert(age_from(a, c, i + 1) == age_from(a, c, i)) by {
                if i >= a.len() && i >= c.len() {
                    assert(age_from(a, c, i + 1) == Age::Same);
                }
            }
            lemma_age_transitive(a, b, c, i + 1);
        }
    }
}

/// Versions are ordered: turning the two round turns the answer round, and of
/// three versions the order of the outer two follows from the others.
pub proof fn law_versions_are_ordered(a: Seq<char>, b: Seq<char>, c: Seq<char>)
    ensures
        version_age(a, b) == Age::Older <==> version_age(b, a) == Age::Newer,
        version_age(a, b) == Age::Same <==> version_age(b, a) == Age::Same,
        version_age(a, a) == Age::Same,
        version_age(a, b) != Age::Newer && version_age(b, c) != Age::Newer ==> version_age(a, c)
            != Age::Newer,
{
    let x = version_parts(a);
    let y = version_parts(b);
    let z = version_parts(c);
    lemma_age_flips(x, y, 0);
    lemma_age_flips(x, x, 0);
    if version_age(a, b) != Age::Newer && version_age(b, c) != Age::Newer {
        lemma_age_transitive(x, y, z, 0);
    }
}

/// The version to go to: the latest one, where it is newer and of the same major
/// version.
pub open spec fn update_target(current: Seq<char>, latest: Seq<char>) -> Option<Seq<char>> {
    if major(latest) == major(current) && version_age(latest, current) == Age::Newer {
        Some(latest)
    } else {
        None
    }
}

/// The version to go to: the latest one, where it is newer and of the same major
/// version.
pub fn decide_target(current: &str, latest: &str) -> (r: Option<String>)
    ensures
        opt_str(r) == update_target(current@, latest@),
{
    if major_of(latest) == major_of(current) && age_of(latest, current) == Age::Newer {
        Some(latest.to_owned())
    } else {
        None
    }
}

/// An update never goes to an older version or to another major version, and
/// there is none where the latest version is the current one.
pub proof fn law_updates_do_not_break(current: Seq<char>, latest: Seq<char>)
    ensures
        update_target(current, latest) is Some ==> version_age(current, latest) == Age::Older
            && major(current) == major(latest),
        update_target(current, current) is None,
        update_target(current, latest) is Some ==> update_target(latest, current) is None,
{
    let x = version_parts(current);
    let y = version_parts(latest);
    lemma_age_flips(x, y, 0);
    lemma_age_flips(x, x, 0);
}

/// Where the latest version of the current major version is told.
pub open spec fn channel(base: Seq<char>, current: Seq<char>) -> Seq<char> {
    base + "/v"@ + decimal(major(current)) + ".x/version.txt"@
}

/// Where the latest version of the current major version is told.
pub fn channel_url(base: &str, current: &str) -> (r: String)
    ensures
        r@ == channel(base@, current@),
{
    let m = dec_u64(major_of(current));
    cat4(base, "/v", m.as_str(), ".x/version.txt")
}

/// The archive of a release.
pub open spec fn archive_url(base: Seq<char>, version: Seq<char>, triple: Seq<char>) -> Seq<char> {
    base + "/v"@ + version + "/bugsee-cli-"@ + triple + (if occurs(triple, "windows"@) {
        ".zip"@
    } else {
        ".tar.xz"@
    })
}

/// Where the archive of a release is, and where its checksum is.
pub fn artifact_urls(base: &str, version: &str, triple: &str) -> (r: (String, String))
    ensures
        r.0@ == archive_url(base@, version@, triple@),
        r.1@ == archive_url(base@, version@, triple@) + ".sha256"@,
{
    let ext = if contains_str(triple, "windows") {
        ".zip"
    } else {
        ".tar.xz"
    };
    let head = cat5(base, "/v", version, "/bugsee-cli-", triple);
    let art = cat2(head.as_str(), ext);
    let sha = cat2(art.as_str(), ".sha256");
    (art, sha)
}

/// The name of the tool's binary for a target triple.
pub fn binary_name(triple: &str) -> (r: &'static str)
    ensures
        r@ == if occurs(triple@, "windows"@) {
            "bugsee-cli.exe"@
        } else {
            "bugsee-cli"@
        },
{
    if contains_str(triple, "windows") {
        "bugsee-cli.exe"
    } else {
        "bugsee-cli"
    }
}

pub open spec fn is_version_char(c: char) -> bool {
    ('A' <= c <= 'Z') || ('a' <= c <= 'z') || ('0' <= c <= '9') || c == '.' || c == '-' || c == '+'
}

/// The numbers in front of a pre-release or build label.
pub open spec fn version_core(v: Seq<char>) -> Seq<char> {
    pieces(v, seq!['-', '+'])[0]
}

/// A clean version: letters, digits, dots, hyphens and pluses, with at least three
/// dotted numbers in front.
pub open spec fn is_clean_version(v: Seq<char>) -> bool {
    let core = pieces(version_core(v), seq!['.']);
    &&& v.len() > 0
    &&& forall|i: int| 0 <= i < v.len() ==> is_version_char(#[trigger] v[i])
    &&& core.len() >= 3
    &&& forall|i: int| 0 <= i < core.len() ==> is_digits(#[trigger] core[i])
}

fn has_version_chars(s: &str) -> (r: bool)
    ensures
        r == (forall|i: int| 0 <= i < s@.len() ==> is_version_char(#[trigger] s@[i])),
{
    let v = to_chars(s);
    let mut i: usize = 0;
    while i < v.len()
        invariant
            v@ == s@,
            i <= v@.len(),
            forall|j: int| 0 <= j < i ==> is_version_char(#[trigger] v@[j]),
        decreases v@.len() - i,
    {
        let c = v[i];
        if !(('A' <= c && c <= 'Z') || ('a' <= c && c <= 'z') || ('0' <= c && c <= '9') || c == '.'
            || c == '-' || c == '+') {
            return false;
        }
        i += 1;
    }
    true
}

/// The version, trimmed, where it is clean. It goes into a URL, so nothing else
/// may.
pub fn validate_version(v: &str) -> (r: Result<String, Error>)
    ensures
        r is Ok <==> is_clean_version(trimmed(v@)),
        r is Ok ==> r->Ok_0@ == trimmed(v@),
        r is Err ==> failure(r) == Some(
            Failure::InputInvalid("not a valid X.Y.Z version: "@ + debug_quoted(trimmed(v@))),
        ),
{
    let t = trim(v);
    let labels = ['-', '+'];
    let dots = ['.'];
    let heads = split_any(t.as_str(), &labels);
    let core = split_any(heads[0].as_str(), &dots);
    let ghost parts = strs(core@);
    proof {
        assert(labels@ =~= seq!['-', '+']);
        assert(dots@ =~= seq!['.']);
        assert(strs(heads@)[0] == heads@[0]@);
    }
    let mut ok = !t.as_str().is_empty() && has_version_chars(t.as_str()) && core.len() >= 3;
    let mut i: usize = 0;
    let mut numeric = true;
    while i < core.len()
        invariant
            i <= core@.len(),
            parts == strs(core@),
            numeric == (forall|k: int| 0 <= k < i ==> is_digits(#[trigger] parts[k])),
        decreases core@.len() - i,
    {
        proof {
            assert(parts[i as int] == core@[i as int]@);
        }
        if !all_digits(core[i].as_str()) {
            numeric = false;
        }
        i += 1;
    }
    ok = ok && numeric;
    if ok {
        Ok(t)
    } else {
        let q = debug_quote(t.as_str());
        let m = cat2("not a valid X.Y.Z version: ", q.as_str());
        Err(input_invalid(m.as_str()))
    }
}

/// A version that is accepted holds no path separator, whatever was asked for.
pub proof fn law_versions_stay_in_the_url(v: Seq<char>, i: int)
    requires
        is_clean_version(trimmed(v)),
        0 <= i < trimmed(v).len(),
    ensures
        trimmed(v)[i] != '/' && trimmed(v)[i] != '\\' && trimmed(v)[i] != '?' && trimmed(v)[i]
            != '#',
{
    assert(is_version_char(trimmed(v)[i]));
}

/// What came of an update.
#[derive(Debug, Clone, Copy, PartialEq, Eq, Structural)]
pub enum UpdateAction {
    Updated,
    UpToDate,
    Available,
    /// It was not yet time to look.
    Throttled,
    /// Looking failed, and that was let pass.
    Skipped,
}

impl UpdateAction {
    pub open spec fn name(self) -> Seq<char> {
        match self {
            UpdateAction::Updated => "updated"@,
            UpdateAction::UpToDate => "up-to-date"@,
            UpdateAction::Available => "available"@,
            UpdateAction::Throttled => "throttled"@,
            UpdateAction::Skipped => "skipped"@,
        }
    }

    /// The name of an outcome.
    pub fn as_str(self) -> (r: &'static str)
        ensures
            r@ == self.name(),
    {
        match self {
            UpdateAction::Updated => "updated",
            UpdateAction::UpToDate => "up-to-date",
            UpdateAction::Available => "available",
            UpdateAction::Throttled => "throttled",
            UpdateAction::Skipped => "skipped",
        }
    }
}

/// A duration by its digits and the number of seconds of its unit.
pub open spec fn duration_parts(s: Seq<char>) -> (Seq<char>, nat) {
    if s.len() == 0 {
        (s, 1)
    } else if s.last() == 's' {
        (s.drop_last(), 1)
    } else if s.last() == 'm' {
        (s.drop_last(), 60)
    } else if s.last() == 'h' {
        (s.drop_last(), 3600)
    } else if s.last() == 'd' {
        (s.drop_last(), 86400)
    } else {
        (s, 1)
    }
}

/// A duration in seconds, at most what fits 64 bits; `None` where it is none.
pub open spec fn duration_secs(s: Seq<char>) -> Option<nat> {
    let p = duration_parts(trimmed(s));
    match natural_value(trimmed(p.0), 10) {
        Some(n) if n <= u64::MAX => Some(
            if n * p.1 <= u64::MAX {
                n * p.1
            } else {
                u64::MAX as nat
            },
        ),
        _ => None,
    }
}

/// A duration in seconds: a number with `s`, `m`, `h` or `d` behind it, or a bare
/// number of seconds.
pub fn parse_duration(s: &str) -> (r: Result<u64, Error>)
    ensures
        match duration_secs(s@) {
            Some(n) => r is Ok && r->Ok_0 == n,
            None => failure(r) == Some(
                Failure::InputInvalid(
                    "invalid --max-age duration: "@ + debug_quoted(trimmed(s@)),
                ),
            ),
        },
{
    let t = trim(s);
    let v = to_chars(t.as_str());
    let n: usize = v.len();
    let last = if n > 0 {
        v[n - 1]
    } else {
        ' '
    };
    let (cut, mult): (usize, u64) = if n == 0 {
        (n, 1)
    } else if last == 's' {
        (n - 1, 1)
    } else if last == 'm' {
        (n - 1, 60)
    } else if last == 'h' {
        (n - 1, 3600)
    } else if last == 'd' {
        (n - 1, 86400)
    } else {
        (n, 1)
    };
    let num = from_range(&v, 0, cut);
    proof {
        assert(v@.subrange(0, n as int) =~= v@);
        assert(n > 0 ==> v@.subrange(0, n - 1) =~= v@.drop_last());
        assert(num@ == duration_parts(t@).0);
    }
    let d = trim(num.as_str());
    match parse_u64(d.as_str()) {
        Some(k) => {
            let wide: u128 = (k as u128) * (mult as u128);
            proof {
                assert((k as nat) * (mult as nat) == wide);
            }
            if wide <= 0xffff_ffff_ffff_ffff {
                Ok(wide as u64)
            } else {
                Ok(0xffff_ffff_ffff_ffff)
            }
        },
        None => {
            let q = debug_quote(t.as_str());
            let m = cat2("invalid --max-age duration: ", q.as_str());
            Err(input_invalid(m.as_str()))
        },
    }
}

/// Whether a look at time `last` is still fresh at time `now`. A time of zero or
/// in the future is not believed.
pub fn is_fresh(last: u64, now: u64, ttl_secs: u64) -> (r: bool)
    ensures
        r == (0 < last <= now && now - last < ttl_secs),
{
    last > 0 && last <= now && now - last < ttl_secs
}

/// Whether it is not yet time to look. `last` is when it was looked last, as far
/// as that is known.
pub fn is_throttled(max_age: Option<u64>, last: Option<u64>, now: u64) -> (r: bool)
    ensures
        r == (max_age is Some && last is Some && 0 < last->0 <= now && now - last->0
            < max_age->0),
{
    match (max_age, last) {
        (Some(ttl), Some(l)) => is_fresh(l, now, ttl),
        _ => false,
    }
}

/// The time that is written next to the tool, out of the text of its file.
pub fn parse_last_check(text: &str) -> (r: Option<u64>)
    ensures
        match natural_value(trimmed(text@), 10) {
            Some(n) => if n <= u64::MAX { r == Some(n as u64) } else { r is None },
            None => r is None,
        },
{
    let t = trim(text);
    parse_u64(t.as_str())
}

/// The name under which builds for a host are published.
pub fn published_triple(os: &str, arch: &str) -> (r: Result<&'static str, Error>)
    ensures
        match triple_of(os@, arch@) {
            Some(t) => r is Ok && r->Ok_0@ == t,
            None => failure(r) == Some(
                Failure::ConfigInvalid(
                    "no published bugsee-cli build for this host ("@ + os@ + "/"@ + arch@
                        + "); self-update is unavailable — install via your package manager instead"@,
                ),
            ),
        },
{
    match host_triple(os, arch) {
        Some(t) => Ok(t),
        None => {
            let m = cat5(
                "no published bugsee-cli build for this host (",
                os,
                "/",
                arch,
                "); self-update is unavailable — install via your package manager instead",
            );
            Err(config_invalid(m.as_str()))
        },
    }
}

/// What is told of an attempt to update that an age was set for: a failure is let
/// pass. `None` where the attempt speaks for itself.
pub fn attempt_action(max_age: Option<u64>, failed: bool) -> (r: Option<UpdateAction>)
    ensures
        r == if max_age is Some && failed {
            Some(UpdateAction::Skipped)
        } else {
            None
        },
{
    if max_age.is_some() && failed {
        Some(UpdateAction::Skipped)
    } else {
        None
    }
}

/// What an update is to do.
#[derive(Debug, PartialEq, Eq)]
pub enum UpdateStep {
    /// Tell this outcome for this version.
    Report(String, UpdateAction),
    /// Install this version.
    Install(String),
}

/// What an update is to do, as text.
pub enum UpdatePlan {
    Report(Seq<char>, UpdateAction),
    Install(Seq<char>),
}

impl View for UpdateStep {
    type V = UpdatePlan;

    open spec fn view(&self) -> UpdatePlan {
        match self {
            UpdateStep::Report(v, a) => UpdatePlan::Report(v@, *a),
            UpdateStep::Install(v) => UpdatePlan::Install(v@),
        }
    }
}

/// What is done with a version that was settled on.
pub open spec fn step_for(current: Seq<char>, target: Seq<char>, check: bool, force: bool) -> UpdatePlan {
    if check {
        UpdatePlan::Report(target, UpdateAction::Available)
    } else if target == current && !force {
        UpdatePlan::Report(target, UpdateAction::UpToDate)
    } else {
        UpdatePlan::Install(target)
    }
}

/// What an update is to do, given the version that was asked for or else the text
/// that tells the latest one; `None` where that version is not clean.
pub open spec fn update_step(
    current: Seq<char>,
    explicit: Option<Seq<char>>,
    latest_text: Seq<char>,
    check: bool,
    force: bool,
) -> Option<UpdatePlan> {
    match explicit {
        Some(e) => if is_clean_version(trimmed(e)) {
            Some(step_for(current, trimmed(e), check, force))
        } else {
            None
        },
        None => {
            let latest = trimmed(latest_text);
            if is_clean_version(latest) {
                match update_target(current, latest) {
                    Some(t) => Some(step_for(current, t, check, force)),
                    None => Some(UpdatePlan::Report(latest, UpdateAction::UpToDate)),
                }
            } else {
                None
            }
        },
    }
}

fn settle(current: &str, target: String, check: bool, force: bool) -> (r: UpdateStep)
    ensures
        r@ == step_for(current@, target@, check, force),
{
    if check {
        UpdateStep::Report(target, UpdateAction::Available)
    } else if str_eq(target.as_str(), current) && !force {
        UpdateStep::Report(target, UpdateAction::UpToDate)
    } else {
        UpdateStep::Install(target)
    }
}

/// What an update is to do. `explicit` is the version that was asked for;
/// otherwise `latest_text` is the text that tells the latest one.
pub fn plan_update(
    current: &str,
    explicit: &Option<String>,
    latest_text: &str,
    check: bool,
    force: bool,
) -> (r: Result<UpdateStep, Error>)
    ensures
        match update_step(current@, opt_str(*explicit), latest_text@, check, force) {
            Some(s) => r is Ok && r->Ok_0@ == s,
            None => failure(r) == Some(
                Failure::InputInvalid(
                    "not a valid X.Y.Z version: "@ + debug_quoted(
                        trimmed(
                            match *explicit {
                                Some(e) => e@,
                                None => latest_text@,
                            },
                        ),
                    ),
                ),
            ),
        },
{
    match explicit {
        Some(e) => match validate_version(e.as_str()) {
            Ok(t) => Ok(settle(current, t, check, force)),
            Err(err) => Err(err),
        },
        None => {
            match validate_version(latest_text) {
                Ok(latest) => match decide_target(current, latest.as_str()) {
                    Some(t) => Ok(settle(current, t, check, force)),
                    None => Ok(UpdateStep::Report(latest, UpdateAction::UpToDate)),
                },
                Err(err) => Err(err),
            }
        },
    }
}

/// An update that was not asked for by version installs nothing but a newer
/// release of the same major version, and a check installs nothing at all.
pub proof fn law_installs_are_safe(
    current: Seq<char>,
    explicit: Option<Seq<char>>,
    latest_text: Seq<char>,
    check: bool,
    force: bool,
    v: Seq<char>,
)
    requires
        update_step(current, explicit, latest_text, check, force) == Some(UpdatePlan::Install(v)),
    ensures
        !check,
        is_clean_version(v),
        explicit is None ==> version_age(v, current) == Age::Newer && major(v) == major(current),
{
}

/// The checksum in a checksum file: its first word.
pub open spec fn sidecar_checksum(text: Seq<char>) -> Seq<char> {
    leading_word(trimmed_start(text))
}

proof fn lemma_leading_word_is(s: Seq<char>, k: int)
    requires
        0 <= k <= s.len(),
        forall|i: int| 0 <= i < k ==> !is_white(#[trigger] s[i]),
        k < s.len() ==> is_white(s[k]),
    ensures
        leading_word(s) == s.take(k),
    decreases k,
{
    if k > 0 {
        assert forall|i: int| 0 <= i < k - 1 implies !is_white(#[trigger] s.skip(1)[i]) by {
            assert(s.skip(1)[i] == s[i + 1]);
        }
        lemma_leading_word_is(s.skip(1), k - 1);
        assert(s.take(k) =~= seq![s[0]] + s.skip(1).take(k - 1));
    } else {
        assert(s.take(0) =~= Seq::empty());
    }
}

/// The checksum in a checksum file: its first word.
pub fn parse_sha256_sidecar(text: &str) -> (r: String)
    ensures
        r@ == sidecar_checksum(text@),
{
    let t = trim_start(text);
    let v = to_chars(t.as_str());
    let mut k: usize = 0;
    while k < v.len() && !char_is_white(v[k])
        invariant
            k <= v@.len(),
            forall|i: int| 0 <= i < k ==> !is_white(#[trigger] v@[i]),
        decreases v@.len() - k,
    {
        k += 1;
    }
    proof {
        lemma_leading_word_is(v@, k as int);
    }
    from_range(&v, 0, k)
}

/// Whether the bytes of an archive have the checksum that its checksum file tells,
/// in capitals or not.
pub fn checksum_matches(bytes: &[u8], sidecar: &str) -> (r: bool)
    ensures
        r == (lowered(sidecar_checksum(sidecar@)) == lowered(hex_text(sha256(bytes@)))),
{
    let expected = parse_sha256_sidecar(sidecar);
    let actual = sha256_hex(bytes);
    let a = to_lower(expected.as_str());
    let b = to_lower(actual.as_str());
    a == b
}

/// A version with three numbers.
pub open spec fn dotted(a: nat, b: nat, c: nat) -> Seq<char> {
    decimal(a) + seq!['.'] + decimal(b) + seq!['.'] + decimal(c)
}

proof fn lemma_digits_lead(d: Seq<char>, rest: Seq<char>)
    requires
        forall|i: int| 0 <= i < d.len() ==> '0' <= #[trigger] d[i] <= '9',
        rest.len() > 0 ==> !('0' <= rest[0] <= '9'),
    ensures
        leading_digits(d + rest) == d,
    decreases d.len(),
{
    let w = d + rest;
    if d.len() == 0 {
        assert(w =~= rest);
        assert(d =~= Seq::empty());
    } else {
        let t = d.skip(1);
        assert forall|i: int| 0 <= i < t.len() implies '0' <= #[trigger] t[i] <= '9' by {
            assert(t[i] == d[i + 1]);
        }
        lemma_digits_lead(t, rest);
        assert(w.skip(1) =~= t + rest);
        assert(w[0] == d[0]);
        assert(seq![d[0]] + t =~= d);
    }
}

proof fn lemma_number_of_a_segment(n: nat)
    requires
        n <= u64::MAX,
    ensures
        segment_value(decimal(n)) == n,
        forall|i: int|
            0 <= i < decimal(n).len() ==> !version_separators().contains(#[trigger] decimal(n)[i]),
        forall|i: int| 0 <= i < decimal(n).len() ==> !seq!['.'].contains(#[trigger] decimal(n)[i]),
        forall|i: int|
            0 <= i < decimal(n).len() ==> !seq!['-', '+'].contains(#[trigger] decimal(n)[i]),
        is_digits(decimal(n)),
{
    law_numbers_are_read_as_written(n);
    let e = Seq::<char>::empty();
    lemma_digits_lead(decimal(n), e);
    assert(decimal(n) + e =~= decimal(n));
}

proof fn lemma_numbers_of_a_version(a: nat, b: nat, c: nat)
    requires
        a <= u64::MAX,
        b <= u64::MAX,
        c <= u64::MAX,
    ensures
        version_parts(dotted(a, b, c)) == seq![a, b, c],
        version_parts(decimal(a) + seq!['.'] + decimal(b)) == seq![a, b],
        version_parts(decimal(a)) == seq![a],
{
    lemma_number_of_a_segment(a);
    lemma_number_of_a_segment(b);
    lemma_number_of_a_segment(c);
    let seps = version_separators();
    assert(seps[0] == '.');
    assert(seps.contains('.'));
    lemma_one_piece(decimal(a), seps);
    lemma_pieces_joined(decimal(a), seps, '.', decimal(b));
    lemma_pieces_joined(decimal(a) + seq!['.'] + decimal(b), seps, '.', decimal(c));
    let f = |s: Seq<char>| segment_value(s);
    assert(version_parts(decimal(a)) =~= seq![a]);
    assert(version_parts(decimal(a) + seq!['.'] + decimal(b)) =~= seq![a, b]);
    assert(version_parts(dotted(a, b, c)) =~= seq![a, b, c]);
}

proof fn lemma_age_of_three(p: Seq<nat>, q: Seq<nat>)
    requires
        p.len() <= 3,
        q.len() == 3,
    ensures
        age_from(p, q, 0) == (if part_at(p, 0) != part_at(q, 0) {
            if part_at(p, 0) < part_at(q, 0) {
                Age::Older
            } else {
                Age::Newer
            }
        } else if part_at(p, 1) != part_at(q, 1) {
            if part_at(p, 1) < part_at(q, 1) {
                Age::Older
            } else {
                Age::Newer
            }
        } else if part_at(p, 2) != part_at(q, 2) {
            if part_at(p, 2) < part_at(q, 2) {
                Age::Older
            } else {
                Age::Newer
            }
        } else {
            Age::Same
        }),
{
    assert(age_from(p, q, 3) == Age::Same);
    assert(age_from(p, q, 2) == if part_at(p, 2) < part_at(q, 2) {
        Age::Older
    } else if part_at(p, 2) > part_at(q, 2) {
        Age::Newer
    } else {
        age_from(p, q, 3)
    });
    assert(age_from(p, q, 1) == if part_at(p, 1) < part_at(q, 1) {
        Age::Older
    } else if part_at(p, 1) > part_at(q, 1) {
        Age::Newer
    } else {
        age_from(p, q, 2)
    });
}

/// Which of two versions is newer: the major number decides, then the minor number, then
/// the patch; and a number that is missing is zero.
pub proof fn law_numbers_decide_which_version_is_newer(
    a: nat,
    b: nat,
    c: nat,
    x: nat,
    y: nat,
    z: nat,
)
    requires
        a <= u64::MAX,
        b <= u64::MAX,
        c <= u64::MAX,
        x <= u64::MAX,
        y <= u64::MAX,
        z <= u64::MAX,
    ensures
        version_age(dotted(a, b, c), dotted(x, y, z)) == Age::Newer <==> a > x || (a == x && (b > y
            || (b == y && c > z))),
        version_age(dotted(a, b, c), dotted(x, y, z)) == Age::Older <==> a < x || (a == x && (b < y
            || (b == y && c < z))),
        version_age(decimal(a) + seq!['.'] + decimal(b), dotted(a, b, 0)) == Age::Same,
        version_age(decimal(a), dotted(a, 0, 0)) == Age::Same,
        major(dotted(a, b, c)) == a,
{
    lemma_numbers_of_a_version(a, b, c);
    lemma_numbers_of_a_version(x, y, z);
    lemma_numbers_of_a_version(a, b, 0);
    lemma_numbers_of_a_version(a, 0, 0);
    lemma_age_of_three(seq![a, b, c], seq![x, y, z]);
    lemma_age_of_three(seq![a, b], seq![a, b, 0]);
    lemma_age_of_three(seq![a], seq![a, 0, 0]);
}

/// An update goes to a later minor version or patch of the same major version, and to
/// nothing else.
pub proof fn law_where_an_update_goes(a: nat, b: nat, c: nat, x: nat, y: nat, z: nat)
    requires
        a <= u64::MAX,
        b <= u64::MAX,
        c <= u64::MAX,
        x <= u64::MAX,
        y <= u64::MAX,
        z <= u64::MAX,
    ensures
        x == a && (y > b || (y == b && z > c)) ==> update_target(dotted(a, b, c), dotted(x, y, z))
            == Some(dotted(x, y, z)),
        !(x == a && (y > b || (y == b && z > c))) ==> update_target(
            dotted(a, b, c),
            dotted(x, y, z),
        ) is None,
{
    law_numbers_decide_which_version_is_newer(x, y, z, a, b, c);
    law_numbers_decide_which_version_is_newer(a, b, c, x, y, z);
}

proof fn lemma_three_numbers_are_clean(a: nat, b: nat, c: nat)
    requires
        a <= u64::MAX,
        b <= u64::MAX,
        c <= u64::MAX,
    ensures
        is_clean_version(dotted(a, b, c)),
{
    lemma_number_of_a_segment(a);
    lemma_number_of_a_segment(b);
    lemma_number_of_a_segment(c);
    law_numbers_are_read_as_written(a);
    law_numbers_are_read_as_written(b);
    law_numbers_are_read_as_written(c);
    let v = dotted(a, b, c);
    let da = decimal(a);
    let db = decimal(b);
    let dc = decimal(c);
    assert forall|i: int| 0 <= i < v.len() implies is_version_char(#[trigger] v[i])
        && !seq!['-', '+'].contains(v[i]) by {
        if i < da.len() {
            assert(v[i] == da[i]);
        } else if i == da.len() {
            assert(v[i] == '.');
        } else if i < da.len() + 1 + db.len() {
            assert(v[i] == db[i - da.len() - 1]);
        } else if i == da.len() + 1 + db.len() {
            assert(v[i] == '.');
        } else {
            assert(v[i] == dc[i - da.len() - db.len() - 2]);
        }
    }
    lemma_one_piece(v, seq!['-', '+']);
    let dot = seq!['.'];
    assert(dot[0] == '.');
    assert(dot.contains('.'));
    lemma_one_piece(da, dot);
    lemma_pieces_joined(da, dot, '.', db);
    lemma_pieces_joined(da + seq!['.'] + db, dot, '.', dc);
    let core = pieces(version_core(v), dot);
    assert(core =~= seq![da, db, dc]);
    assert forall|i: int| 0 <= i < core.len() implies is_digits(#[trigger] core[i]) by {
        if i == 0 {
        } else if i == 1 {
        } else {
            assert(i == 2);
        }
    }
}

/// Which versions are accepted: three numbers with dots are; a text with any other sign than
/// letters, digits, dots, hyphens and pluses is not, and neither is one number or two.
pub proof fn law_which_versions_are_accepted(a: nat, b: nat, c: nat, s: Seq<char>, i: int)
    requires
        a <= u64::MAX,
        b <= u64::MAX,
        c <= u64::MAX,
    ensures
        is_clean_version(dotted(a, b, c)),
        !is_clean_version(decimal(a)),
        !is_clean_version(decimal(a) + seq!['.'] + decimal(b)),
        !is_clean_version(Seq::empty()),
        0 <= i < s.len() && !('A' <= s[i] <= 'Z') && !('a' <= s[i] <= 'z') && !('0' <= s[i] <= '9')
            && s[i] != '.' && s[i] != '-' && s[i] != '+' ==> !is_clean_version(s),
{
    lemma_three_numbers_are_clean(a, b, c);
    lemma_number_of_a_segment(a);
    lemma_number_of_a_segment(b);
    let da = decimal(a);
    let db = decimal(b);
    let ab = da + seq!['.'] + db;
    let cut = seq!['-', '+'];
    let dot = seq!['.'];
    assert(dot[0] == '.');
    assert(dot.contains('.'));
    assert forall|k: int| 0 <= k < ab.len() implies !cut.contains(#[trigger] ab[k]) by {
        if k < da.len() {
            assert(ab[k] == da[k]);
        } else if k == da.len() {
            assert(ab[k] == '.');
        } else {
            assert(ab[k] == db[k - da.len() - 1]);
        }
    }
    lemma_one_piece(da, cut);
    lemma_one_piece(ab, cut);
    lemma_one_piece(da, dot);
    lemma_pieces_joined(da, dot, '.', db);
    assert(pieces(version_core(da), dot).len() == 1);
    assert(pieces(version_core(ab), dot).len() == 2);
}

/// What an update does with a version that it can go to: a check tells that it is there, the
/// current version is left unless that is forced, and any other is installed. Without a
/// version that was asked for, one that is no later release of the same major version is as
/// good as the current one.
pub proof fn law_what_an_update_does(
    current: Seq<char>,
    v: Seq<char>,
    latest: Seq<char>,
    check: bool,
    force: bool,
)
    requires
        is_clean_version(trimmed(v)),
    ensures
        ({
            let asked = update_step(current, Some(v), latest, check, force);
            let told = update_step(current, None, v, check, force);
            let t = trimmed(v);
            let later = version_age(t, current) == Age::Newer && major(t) == major(current);
            &&& check ==> asked == Some(UpdatePlan::Report(t, UpdateAction::Available))
            &&& !check && (t != current || force) ==> asked == Some(UpdatePlan::Install(t))
            &&& !check && t == current && !force ==> asked == Some(
                UpdatePlan::Report(t, UpdateAction::UpToDate),
            )
            &&& !later ==> told == Some(UpdatePlan::Report(t, UpdateAction::UpToDate))
            &&& later && check ==> told == Some(UpdatePlan::Report(t, UpdateAction::Available))
            &&& later && !check ==> told == Some(UpdatePlan::Install(t))
        }),
{
    law_versions_are_ordered(current, trimmed(v), current);
    law_versions_are_ordered(current, current, current);
}

/// What is not a clean version is refused, whether it was asked for or told.
pub proof fn law_unclean_versions_are_refused(
    current: Seq<char>,
    v: Seq<char>,
    latest: Seq<char>,
    check: bool,
    force: bool,
)
    requires
        !is_clean_version(trimmed(v)),
    ensures
        update_step(current, Some(v), latest, check, force) is None,
        update_step(current, None, v, check, force) is None,
{
}

/// Where releases are published, and where they are looked for: a mirror that is set and
/// not blank comes first.
pub proof fn law_where_releases_are(
    mirror: Seq<char>,
    base: Seq<char>,
    v: Seq<char>,
    a: nat,
    b: nat,
    c: nat,
)
    requires
        a <= u64::MAX,
        b <= u64::MAX,
        c <= u64::MAX,
    ensures
        trimmed(mirror).len() > 0 ==> base_url(Some(mirror)) == mirror,
        trimmed(mirror).len() == 0 ==> base_url(Some(mirror))
            == "https://download.bugsee.com/cli"@,
        base_url(None) == "https://download.bugsee.com/cli"@,
        channel(base, dotted(a, b, c)) == base + "/v"@ + decimal(a) + ".x/version.txt"@,
        archive_url(base, v, "x86_64-pc-windows-msvc"@) == base + "/v"@ + v + "/bugsee-cli-"@
            + "x86_64-pc-windows-msvc"@ + ".zip"@,
        archive_url(base, v, "aarch64-apple-darwin"@) == base + "/v"@ + v + "/bugsee-cli-"@
            + "aarch64-apple-darwin"@ + ".tar.xz"@,
        archive_url(base, v, "x86_64-apple-darwin"@) == base + "/v"@ + v + "/bugsee-cli-"@
            + "x86_64-apple-darwin"@ + ".tar.xz"@,
{
    law_numbers_decide_which_version_is_newer(a, b, c, a, b, c);
    reveal_strlit("windows");
    reveal_strlit("x86_64-pc-windows-msvc");
    reveal_strlit("aarch64-apple-darwin");
    reveal_strlit("x86_64-apple-darwin");
    let w = "x86_64-pc-windows-msvc"@;
    assert(w.subrange(10, 17) =~= "windows"@);
    assert(occurs_at(w, "windows"@, 10));
    lemma_no_room_for_windows("aarch64-apple-darwin"@);
    lemma_no_room_for_windows("x86_64-apple-darwin"@);
}

proof fn lemma_no_room_for_windows(t: Seq<char>)
    requires
        forall|i: int| 0 <= i < t.len() && #[trigger] t[i] == 'w' ==> i + 7 > t.len(),
    ensures
        !occurs(t, "windows"@),
{
    reveal_strlit("windows");
    if occurs(t, "windows"@) {
        let i = choose|i: int| #[trigger] occurs_at(t, "windows"@, i);
        assert(t.subrange(i, i + 7)[0] == t[i]);
    }
}

/// The triple of a host begins with its architecture and names its system; for other hosts
/// nothing is published.
pub proof fn law_triples_of_hosts(os: Seq<char>, arch: Seq<char>)
    ensures
        triple_of(os, arch) is Some ==> {
            let t = triple_of(os, arch)->0;
            &&& has_prefix(t, arch)
            &&& os == "macos"@ ==> has_suffix(t, "-apple-darwin"@)
            &&& os == "linux"@ ==> has_suffix(t, "-unknown-linux-gnu"@)
            &&& os == "windows"@ ==> has_suffix(t, "-pc-windows-msvc"@)
            &&& os == "macos"@ || os == "linux"@ || os == "windows"@
        },
        (os == "macos"@ || os == "linux"@) && (arch == "aarch64"@ || arch == "x86_64"@)
            ==> triple_of(os, arch) is Some,
        os == "windows"@ && arch == "x86_64"@ ==> triple_of(os, arch) is Some,
        os == "windows"@ && arch == "aarch64"@ ==> triple_of(os, arch) is None,
        arch != "aarch64"@ && arch != "x86_64"@ ==> triple_of(os, arch) is None,
{
    reveal_strlit("macos");
    reveal_strlit("linux");
    reveal_strlit("windows");
    reveal_strlit("aarch64");
    reveal_strlit("x86_64");
    reveal_strlit("aarch64-apple-darwin");
    reveal_strlit("x86_64-apple-darwin");
    reveal_strlit("aarch64-unknown-linux-gnu");
    reveal_strlit("x86_64-unknown-linux-gnu");
    reveal_strlit("x86_64-pc-windows-msvc");
    reveal_strlit("-apple-darwin");
    reveal_strlit("-unknown-linux-gnu");
    reveal_strlit("-pc-windows-msvc");
    let a = "aarch64"@;
    let x = "x86_64"@;
    let d = "-apple-darwin"@;
    let l = "-unknown-linux-gnu"@;
    let w = "-pc-windows-msvc"@;
    assert("macos"@[0] == 'm');
    assert("linux"@[0] == 'l');
    assert("windows"@[0] == 'w');
    assert(a[0] == 'a');
    assert(x[0] == 'x');
    assert("aarch64-apple-darwin"@ =~= a + d);
    assert("x86_64-apple-darwin"@ =~= x + d);
    assert("aarch64-unknown-linux-gnu"@ =~= a + l);
    assert("x86_64-unknown-linux-gnu"@ =~= x + l);
    assert("x86_64-pc-windows-msvc"@ =~= x + w);
    law_prefixes_and_suffixes(a, d);
    law_prefixes_and_suffixes(x, d);
    law_prefixes_and_suffixes(a, l);
    law_prefixes_and_suffixes(x, l);
    law_prefixes_and_suffixes(x, w);
}

/// Durations: a number counts seconds, or what the letter behind it says, sixty or three
/// thousand six hundred of them or a day; what does not fit is the longest time.
pub proof fn law_durations(n: nat)
    requires
        n <= u64::MAX,
    ensures
        duration_secs(decimal(n)) == Some(n),
        duration_secs(decimal(n) + seq!['s']) == Some(n),
        n * 60 <= u64::MAX ==> duration_secs(decimal(n) + seq!['m']) == Some(n * 60),
        n * 3600 <= u64::MAX ==> duration_secs(decimal(n) + seq!['h']) == Some(n * 3600),
        n * 86400 <= u64::MAX ==> duration_secs(decimal(n) + seq!['d']) == Some(n * 86400),
        n * 86400 > u64::MAX ==> duration_secs(decimal(n) + seq!['d']) == Some(u64::MAX as nat),
{
    law_numbers_are_read_as_written(n);
    let d = decimal(n);
    assert(n * 1 == n) by (nonlinear_arith);
    assert('0' <= d[0] <= '9');
    assert('0' <= d[d.len() - 1] <= '9');
    assert(d.last() == d[d.len() - 1]);
    let e = Seq::<char>::empty();
    law_trimming_takes_the_ends(e, d, e);
    lemma_duration_with_unit(d, 's');
    lemma_duration_with_unit(d, 'm');
    lemma_duration_with_unit(d, 'h');
    lemma_duration_with_unit(d, 'd');
}

proof fn lemma_duration_with_unit(d: Seq<char>, c: char)
    requires
        d.len() > 0,
        '0' <= d[0] <= '9',
        'a' <= c <= 'z',
    ensures
        trimmed(d + seq![c]) == d + seq![c],
        (d + seq![c]).last() == c,
        (d + seq![c]).drop_last() == d,
{
    let e = Seq::<char>::empty();
    let w = d + seq![c];
    assert(w[0] == d[0]);
    law_trimming_takes_the_ends(e, w, e);
    assert(w.drop_last() =~= d);
}

/// What is no number is no duration.
pub proof fn law_other_words_are_no_durations(s: Seq<char>)
    requires
        s.len() > 0,
        forall|i: int| 0 <= i < s.len() ==> 'a' <= #[trigger] s[i] <= 'z',
    ensures
        duration_secs(s) is None,
{
    let e = Seq::<char>::empty();
    assert(s.last() == s[s.len() - 1]);
    law_trimming_takes_the_ends(e, s, e);
    let d = s.drop_last();
    if d.len() > 0 {
        assert(d[0] == s[0]);
        assert(d.last() == s[d.len() - 1]);
    }
    law_trimming_takes_the_ends(e, d, e);
    law_only_digits_are_numbers(s, 0);
    law_only_digits_are_numbers(d, 0);
}

proof fn lemma_word_leads(w: Seq<char>, rest: Seq<char>)
    requires
        forall|i: int| 0 <= i < w.len() ==> !is_white(#[trigger] w[i]),
        rest.len() > 0 ==> is_white(rest[0]),
    ensures
        leading_word(w + rest) == w,
    decreases w.len(),
{
    let s = w + rest;
    if w.len() == 0 {
        assert(s =~= rest);
        assert(w =~= Seq::empty());
    } else {
        let t = w.skip(1);
        assert forall|i: int| 0 <= i < t.len() implies !is_white(#[trigger] t[i]) by {
            assert(t[i] == w[i + 1]);
        }
        lemma_word_leads(t, rest);
        assert(s.skip(1) =~= t + rest);
        assert(s[0] == w[0]);
        assert(seq![w[0]] + t =~= w);
    }
}

/// The checksum of a checksum file is its first word, whatever stands behind it.
pub proof fn law_checksums_come_first(w: Seq<char>, rest: Seq<char>)
    requires
        w.len() > 0,
        forall|i: int| 0 <= i < w.len() ==> !is_white(#[trigger] w[i]),
        rest.len() > 0 ==> is_white(rest[0]),
    ensures
        sidecar_checksum(w + rest) == w,
{
    lemma_word_leads(w, rest);
    assert((w + rest)[0] == w[0]);
}

/// The names of the outcomes.
pub proof fn law_outcomes_have_names(a: UpdateAction)
    ensures
        a == UpdateAction::Updated ==> a.name() == "updated"@,
        a == UpdateAction::UpToDate ==> a.name() == "up-to-date"@,
        a == UpdateAction::Available ==> a.name() == "available"@,
        a == UpdateAction::Throttled ==> a.name() == "throttled"@,
        a == UpdateAction::Skipped ==> a.name() == "skipped"@,
{
}

/// A label behind a version counts as one more number: zero where it begins with a letter.
pub proof fn law_labels_count_as_zero(a: nat, b: nat, c: nat, label: Seq<char>)
    requires
        a <= u64::MAX,
        b <= u64::MAX,
        c <= u64::MAX,
        label.len() > 0,
        forall|i: int| 0 <= i < label.len() ==> 'a' <= #[trigger] label[i] <= 'z',
    ensures
        version_parts(dotted(a, b, c) + seq!['-'] + label) == seq![a, b, c, 0],
        version_parts(dotted(a, b, c) + seq!['+'] + label) == seq![a, b, c, 0],
        segment_value(label) == 0,
{
    lemma_numbers_of_a_version(a, b, c);
    let seps = version_separators();
    assert(seps[1] == '-' && seps[2] == '+');
    assert(seps.contains('-') && seps.contains('+'));
    assert forall|i: int| 0 <= i < label.len() implies !seps.contains(#[trigger] label[i]) by {
        assert('a' <= label[i] <= 'z');
    }
    let v = dotted(a, b, c);
    lemma_pieces_joined(v, seps, '-', label);
    lemma_pieces_joined(v, seps, '+', label);
    assert(leading_digits(label) == Seq::<char>::empty()) by {
        assert('a' <= label[0] <= 'z');
    }
    assert(segment_value(label) == 0);
    let f = |s: Seq<char>| segment_value(s);
    let p = pieces(v, seps);
    assert(p.push(label).map_values(f) =~= p.map_values(f).push(0));
    assert(seq![a, b, c].push(0) =~= seq![a, b, c, 0]);
}

/// White space in front of a checksum does not count.
pub proof fn law_checksums_may_be_indented(a: Seq<char>, w: Seq<char>)
    requires
        w.len() > 0,
        forall|i: int| 0 <= i < a.len() ==> is_white(#[trigger] a[i]),
        forall|i: int| 0 <= i < w.len() ==> !is_white(#[trigger] w[i]),
    ensures
        sidecar_checksum(a + w) == w,
{
    let e = Seq::<char>::empty();
    assert(w.last() == w[w.len() - 1]);
    law_trimming_takes_the_ends(a, w, e);
    lemma_word_leads(w, e);
    assert(w + e =~= w);
}

/// White space round a duration does not count.
pub proof fn law_durations_are_trimmed(a: Seq<char>, n: nat, b: Seq<char>)
    requires
        n <= u64::MAX,
        forall|i: int| 0 <= i < a.len() ==> is_white(#[trigger] a[i]),
        forall|i: int| 0 <= i < b.len() ==> is_white(#[trigger] b[i]),
    ensures
        duration_secs(a + decimal(n) + b) == Some(n),
        duration_secs(a + (decimal(n) + seq!['h']) + b) == duration_secs(decimal(n) + seq!['h']),
{
    law_durations(n);
    law_numbers_are_read_as_written(n);
    let d = decimal(n);
    assert('0' <= d[0] <= '9');
    assert('0' <= d[d.len() - 1] <= '9');
    assert(d.last() == d[d.len() - 1]);
    law_trimming_takes_the_ends(a, d, b);
    lemma_duration_with_unit(d, 'h');
    let w = d + seq!['h'];
    assert(w[0] == d[0]);
    law_trimming_takes_the_ends(a, w, b);
}

} // verus!

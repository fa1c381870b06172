//! Build timings out of an Xcode build log.
//!
//! A log is read into its sections. Commands tell how long each kind of work
//! went on; the groupings of the targets become the rows of a timeline and the
//! list of the slowest ones. Times are order keys of doubles here; the callers
//! do the arithmetic on them and hand the results back as [`Measures`].
use crate::intervals::{
    apart, covers, interval_union, law_union_counts_once, law_union_stays_within, union_of,
};
use crate::order::{lemma_less_irreflexive, lemma_less_transitive, lex_less, precedes};
use crate::paths::{
    Part, PathPart, copy_path, extension_of, has_extension, has_path, join_path, joined_path,
    law_joining_a_name, parent, parent_path, parse_path, part_views, path_parts, paths_of,
};
use crate::slf::{
    Sec, Section, SectionClass, Tok, class_table, extract_slf_sections, lemma_section_times,
    log_sections, log_tokens, secs, slice_of, tokenize_slf,
};
use crate::sorting::lemma_sorted_pairs;
use crate::text::{has_prefix, law_prefixes_and_suffixes, strip_prefix, to_chars};
use crate::titles::{Category, Classifier, category_of};
use vstd::prelude::*;
use vstd::string::*;

verus! {

/// The most bytes of a log that are read.
pub const MAX_DECOMPRESSED: usize = 20971520;

/// The length of the list of the slowest targets.
pub const TOP_N: usize = 10;

/// The version of the form of a timeline.
pub const TIMELINE_SCHEMA_VERSION: i64 = 1;

/// The most tasks of a timeline.
pub const TIMELINE_MAX_TASKS: usize = 10000;

/// The title of the grouping of a target begins so.
pub const TARGET_PREFIX: &'static str = "Build target ";

/// A command with its category and window.
#[derive(Debug, Clone, Copy, PartialEq, Eq, Structural)]
pub struct Timed {
    pub category: Category,
    pub start: i64,
    pub end: i64,
}

/// The commands of a log that have a category.
pub open spec fn timed_commands(s: Seq<Sec>) -> Seq<Timed>
    decreases s.len(),
{
    if s.len() == 0 {
        Seq::empty()
    } else {
        let r = timed_commands(s.drop_last());
        let sec = s.last();
        let cat = category_of(sec.title);
        if sec.cls == SectionClass::Command && cat is Some {
            r.push(Timed { category: cat->0, start: sec.start as i64, end: sec.end as i64 })
        } else {
            r
        }
    }
}

/// The windows of the commands of one category.
pub open spec fn windows_of(s: Seq<Timed>, c: Category) -> Seq<(i64, i64)>
    decreases s.len(),
{
    if s.len() == 0 {
        Seq::empty()
    } else {
        let r = windows_of(s.drop_last(), c);
        if s.last().category == c {
            r.push((s.last().start, s.last().end))
        } else {
            r
        }
    }
}

/// The commands that lie within a window.
pub open spec fn within(s: Seq<Timed>, lo: i64, hi: i64) -> Seq<Timed>
    decreases s.len(),
{
    if s.len() == 0 {
        Seq::empty()
    } else {
        let r = within(s.drop_last(), lo, hi);
        if s.last().start >= lo && s.last().end <= hi {
            r.push(s.last())
        } else {
            r
        }
    }
}

/// The categories of the commands, each once, in the order in which they come.
pub open spec fn categories_of(s: Seq<Timed>) -> Seq<Category>
    decreases s.len(),
{
    if s.len() == 0 {
        Seq::empty()
    } else {
        let r = categories_of(s.drop_last());
        if r.contains(s.last().category) {
            r
        } else {
            r.push(s.last().category)
        }
    }
}

/// The time that the commands of one category took up.
#[derive(Debug)]
pub struct Group {
    pub category: Category,
    /// Windows in order, apart from one another.
    pub windows: Vec<(i64, i64)>,
}

/// The time that each category took up.
pub open spec fn grouped(s: Seq<Timed>) -> Seq<(Category, Seq<(i64, i64)>)> {
    categories_of(s).map_values(|c: Category| (c, union_of(windows_of(s, c))))
}

pub open spec fn groups(v: Seq<Group>) -> Seq<(Category, Seq<(i64, i64)>)> {
    v.map_values(|g: Group| (g.category, g.windows@))
}

fn classify_commands(sections: &Vec<Section>) -> (r: Vec<Timed>)
    ensures
        r@ == timed_commands(secs(sections@)),
{
    let classifier = Classifier::new();
    let ghost s = secs(sections@);
    let mut out: Vec<Timed> = Vec::new();
    let mut i: usize = 0;
    proof {
        assert(out@ =~= timed_commands(s.take(0)));
    }
    while i < sections.len()
        invariant
            i <= sections@.len(),
            classifier.wf(),
            s == secs(sections@),
            out@ == timed_commands(s.take(i as int)),
        decreases sections@.len() - i,
    {
        let sec = &sections[i];
        proof {
            assert(s.take(i + 1).drop_last() =~= s.take(i as int));
            assert(s.take(i + 1).last() == sec@);
        }
        match sec.cls {
            SectionClass::Command => match classifier.classify(sec.title.as_str()) {
                Some(category) => {
                    out.push(Timed { category, start: sec.start_cf, end: sec.end_cf });
                },
                None => {},
            },
            SectionClass::Section => {},
        }
        i += 1;
    }
    proof {
        assert(s.take(i as int) =~= s);
    }
    out
}

fn select_windows(commands: &Vec<Timed>, c: Category) -> (r: Vec<(i64, i64)>)
    ensures
        r@ == windows_of(commands@, c),
{
    let mut out: Vec<(i64, i64)> = Vec::new();
    let mut i: usize = 0;
    proof {
        assert(out@ =~= windows_of(commands@.take(0), c));
    }
    while i < commands.len()
        invariant
            i <= commands@.len(),
            out@ == windows_of(commands@.take(i as int), c),
        decreases commands@.len() - i,
    {
        proof {
            assert(commands@.take(i + 1).drop_last() =~= commands@.take(i as int));
            assert(commands@.take(i + 1).last() == commands@[i as int]);
        }
        if commands[i].category == c {
            out.push((commands[i].start, commands[i].end));
        }
        i += 1;
    }
    proof {
        assert(commands@.take(i as int) =~= commands@);
    }
    out
}

/// The windows, in order and apart, in which commands of one category ran.
pub fn category_windows(commands: &Vec<Timed>, c: Category) -> (r: Vec<(i64, i64)>)
    ensures
        r@ == union_of(windows_of(commands@, c)),
{
    let w = select_windows(commands, c);
    interval_union(&w)
}

fn select_within(commands: &Vec<Timed>, lo: i64, hi: i64) -> (r: Vec<Timed>)
    ensures
        r@ == within(commands@, lo, hi),
{
    let mut out: Vec<Timed> = Vec::new();
    let mut i: usize = 0;
    proof {
        assert(out@ =~= within(commands@.take(0), lo, hi));
    }
    while i < commands.len()
        invariant
            i <= commands@.len(),
            out@ == within(commands@.take(i as int), lo, hi),
        decreases commands@.len() - i,
    {
        proof {
            assert(commands@.take(i + 1).drop_last() =~= commands@.take(i as int));
            assert(commands@.take(i + 1).last() == commands@[i as int]);
        }
        if commands[i].start >= lo && commands[i].end <= hi {
            out.push(commands[i]);
        }
        i += 1;
    }
    proof {
        assert(commands@.take(i as int) =~= commands@);
    }
    out
}

fn has_category(v: &Vec<Category>, c: Category) -> (r: bool)
    ensures
        r == v@.contains(c),
{
    let mut i: usize = 0;
    while i < v.len()
        invariant
            i <= v@.len(),
            forall|j: int| 0 <= j < i ==> v@[j] != c,
        decreases v@.len() - i,
    {
        if v[i] == c {
            return true;
        }
        i += 1;
    }
    false
}

fn list_categories(commands: &Vec<Timed>) -> (r: Vec<Category>)
    ensures
        r@ == categories_of(commands@),
{
    let mut out: Vec<Category> = Vec::new();
    let mut i: usize = 0;
    proof {
        assert(out@ =~= categories_of(commands@.take(0)));
    }
    while i < commands.len()
        invariant
            i <= commands@.len(),
            out@ == categories_of(commands@.take(i as int)),
        decreases commands@.len() - i,
    {
        proof {
            assert(commands@.take(i + 1).drop_last() =~= commands@.take(i as int));
            assert(commands@.take(i + 1).last() == commands@[i as int]);
        }
        if !has_category(&out, commands[i].category) {
            out.push(commands[i].category);
        }
        i += 1;
    }
    proof {
        assert(commands@.take(i as int) =~= commands@);
    }
    out
}

/// The time that each category took up by commands within a window.
pub fn window_groups(commands: &Vec<Timed>, win_start: i64, win_end: i64) -> (r: Vec<Group>)
    ensures
        groups(r@) == grouped(within(commands@, win_start, win_end)),
{
    let inside = select_within(commands, win_start, win_end);
    let cats = list_categories(&inside);
    let mut out: Vec<Group> = Vec::new();
    let mut i: usize = 0;
    while i < cats.len()
        invariant
            i <= cats@.len(),
            out@.len() == i,
            forall|k: int|
                0 <= k < i ==> (#[trigger] out@[k]).category == cats@[k] && out@[k].windows@
                    == union_of(windows_of(inside@, cats@[k])),
        decreases cats@.len() - i,
    {
        let c = cats[i];
        out.push(Group { category: c, windows: category_windows(&inside, c) });
        i += 1;
    }
    proof {
        assert(groups(out@) =~= grouped(inside@));
    }
    out
}

/// The place of the first of the greatest numbers.
pub open spec fn first_greatest(s: Seq<i64>) -> int
    decreases s.len(),
{
    if s.len() <= 1 {
        0
    } else {
        let r = first_greatest(s.drop_last());
        if s.last() > s[r] {
            s.len() - 1
        } else {
            r
        }
    }
}

/// The category that a target is shown by: the one whose commands took up the
/// most time, the first of them where several did; native work where there is
/// none.
pub open spec fn dominant(cats: Seq<Category>, occupancy: Seq<i64>) -> Category {
    if cats.len() == 0 {
        Category::Native
    } else {
        cats[first_greatest(occupancy)]
    }
}

proof fn lemma_first_greatest(s: Seq<i64>)
    requires
        s.len() > 0,
    ensures
        0 <= first_greatest(s) < s.len(),
    decreases s.len(),
{
    if s.len() > 1 {
        lemma_first_greatest(s.drop_last());
    }
}

/// The category that a target is shown by. `occupancy` holds, for each group, the
/// order key of the time that its windows take up together.
pub fn dominant_category_for_window(window: &Vec<Group>, occupancy: &Vec<i64>) -> (r: Category)
    requires
        window@.len() == occupancy@.len(),
    ensures
        r == dominant(window@.map_values(|g: Group| g.category), occupancy@),
{
    if window.len() == 0 {
        return Category::Native;
    }
    let mut best: usize = 0;
    let mut i: usize = 1;
    while i < occupancy.len()
        invariant
            window@.len() == occupancy@.len(),
            1 <= i <= occupancy@.len(),
            best < i,
            best == first_greatest(occupancy@.take(i as int)),
        decreases occupancy@.len() - i,
    {
        proof {
            assert(occupancy@.take(i + 1).drop_last() =~= occupancy@.take(i as int));
            assert(occupancy@.take(i + 1).last() == occupancy@[i as int]);
            assert(occupancy@.take(i + 1)[best as int] == occupancy@[best as int]);
        }
        if occupancy[i] > occupancy[best] {
            best = i;
        }
        i += 1;
    }
    proof {
        assert(occupancy@.take(i as int) =~= occupancy@);
    }
    window[best].category
}

/// No category took up more time than the dominant one, and none that comes
/// before it as much.
pub proof fn law_dominant_is_greatest(s: Seq<i64>, k: int)
    requires
        0 <= k < s.len(),
    ensures
        0 <= first_greatest(s) < s.len(),
        s[k] <= s[first_greatest(s)],
        k < first_greatest(s) ==> s[k] < s[first_greatest(s)],
    decreases s.len(),
{
    if s.len() > 1 {
        let d = s.drop_last();
        lemma_first_greatest(d);
        let r = first_greatest(d);
        assert(d[r] == s[r]);
        if k < d.len() {
            law_dominant_is_greatest(d, k);
            assert(d[k] == s[k]);
        } else {
            law_dominant_is_greatest(d, 0);
        }
    }
}

/// The grouping of a target.
pub struct TargetWindow {
    pub path: Seq<char>,
    pub start: int,
    pub end: int,
}

/// The groupings of the targets of a log, by the names behind the prefix.
pub open spec fn target_windows(s: Seq<Sec>) -> Seq<TargetWindow>
    decreases s.len(),
{
    if s.len() == 0 {
        Seq::empty()
    } else {
        let r = target_windows(s.drop_last());
        let sec = s.last();
        if sec.cls == SectionClass::Section && has_prefix(sec.title, TARGET_PREFIX@) {
            let name = sec.title.skip(TARGET_PREFIX@.len() as int);
            r.push(
                TargetWindow {
                    path: if name.len() == 0 {
                        sec.title
                    } else {
                        name
                    },
                    start: sec.start,
                    end: sec.end,
                },
            )
        } else {
            r
        }
    }
}

/// A target of a log with the work done within its window.
#[derive(Debug)]
pub struct Target {
    pub path: String,
    pub start_cf: i64,
    pub end_cf: i64,
    pub groups: Vec<Group>,
}

impl View for Target {
    type V = TargetWindow;

    open spec fn view(&self) -> TargetWindow {
        TargetWindow { path: self.path@, start: self.start_cf as int, end: self.end_cf as int }
    }
}

pub open spec fn target_views(v: Seq<Target>) -> Seq<TargetWindow> {
    v.map_values(|t: Target| t@)
}

/// The earliest start of sections, of which there is at least one.
pub open spec fn earliest(s: Seq<Sec>) -> int
    decreases s.len(),
{
    if s.len() <= 1 {
        s[0].start
    } else {
        let r = earliest(s.drop_last());
        if s.last().start < r {
            s.last().start
        } else {
            r
        }
    }
}

/// The latest end of sections, of which there is at least one.
pub open spec fn latest(s: Seq<Sec>) -> int
    decreases s.len(),
{
    if s.len() <= 1 {
        s[0].end
    } else {
        let r = latest(s.drop_last());
        if s.last().end > r {
            s.last().end
        } else {
            r
        }
    }
}

/// The latest end of targets, of which there is at least one.
pub open spec fn latest_target(s: Seq<TargetWindow>) -> int
    decreases s.len(),
{
    if s.len() <= 1 {
        s[0].end
    } else {
        let r = latest_target(s.drop_last());
        if s.last().end > r {
            s.last().end
        } else {
            r
        }
    }
}

/// What a log says, before any arithmetic on its times.
#[derive(Debug)]
pub struct LogFacts {
    /// The earliest start of a section.
    pub build_start: i64,
    /// The latest end of a section.
    pub build_end: i64,
    /// The latest end of a target; the start of the build where there is none.
    pub targets_end: i64,
    /// When native work went on, and so on for the other categories.
    pub native: Vec<(i64, i64)>,
    pub resources: Vec<(i64, i64)>,
    pub packaging: Vec<(i64, i64)>,
    pub other: Vec<(i64, i64)>,
    pub targets: Vec<Target>,
}

/// The facts are those of the sections.
pub open spec fn facts_of(f: LogFacts, s: Seq<Sec>) -> bool {
    let commands = timed_commands(s);
    &&& f.build_start == earliest(s)
    &&& f.build_end == latest(s)
    &&& f.native@ == union_of(windows_of(commands, Category::Native))
    &&& f.resources@ == union_of(windows_of(commands, Category::Resources))
    &&& f.packaging@ == union_of(windows_of(commands, Category::Packaging))
    &&& f.other@ == union_of(windows_of(commands, Category::Other))
    &&& target_views(f.targets@) == target_windows(s)
    &&& f.targets_end == if target_windows(s).len() == 0 {
        earliest(s)
    } else {
        latest_target(target_windows(s))
    }
    &&& forall|i: int|
        0 <= i < f.targets@.len() ==> groups((#[trigger] f.targets@[i]).groups@) == grouped(
            within(commands, f.targets@[i].start_cf, f.targets@[i].end_cf),
        )
}

fn read_targets(sections: &Vec<Section>, commands: &Vec<Timed>) -> (r: Vec<Target>)
    ensures
        target_views(r@) == target_windows(secs(sections@)),
        forall|i: int|
            0 <= i < r@.len() ==> groups((#[trigger] r@[i]).groups@) == grouped(
                within(commands@, r@[i].start_cf, r@[i].end_cf),
            ),
{
    let ghost s = secs(sections@);
    let mut out: Vec<Target> = Vec::new();
    let mut i: usize = 0;
    proof {
        assert(target_views(out@) =~= target_windows(s.take(0)));
    }
    while i < sections.len()
        invariant
            i <= sections@.len(),
            s == secs(sections@),
            target_views(out@) == target_windows(s.take(i as int)),
            forall|k: int|
                0 <= k < out@.len() ==> groups((#[trigger] out@[k]).groups@) == grouped(
                    within(commands@, out@[k].start_cf, out@[k].end_cf),
                ),
        decreases sections@.len() - i,
    {
        let sec = &sections[i];
        proof {
            assert(s.take(i + 1).drop_last() =~= s.take(i as int));
            assert(s.take(i + 1).last() == sec@);
        }
        match sec.cls {
            SectionClass::Section => match strip_prefix(sec.title.as_str(), TARGET_PREFIX) {
                Some(name) => {
                    let path = if name.as_str().is_empty() {
                        sec.title.clone()
                    } else {
                        name
                    };
                    let t = Target {
                        path,
                        start_cf: sec.start_cf,
                        end_cf: sec.end_cf,
                        groups: window_groups(commands, sec.start_cf, sec.end_cf),
                    };
                    proof {
                        assert(target_views(out@.push(t)) =~= target_views(out@).push(t@));
                    }
                    out.push(t);
                },
                None => {},
            },
            SectionClass::Command => {},
        }
        i += 1;
    }
    proof {
        assert(s.take(i as int) =~= s);
    }
    out
}

fn build_span(sections: &Vec<Section>) -> (r: (i64, i64))
    requires
        sections@.len() > 0,
    ensures
        r.0 == earliest(secs(sections@)),
        r.1 == latest(secs(sections@)),
{
    let ghost s = secs(sections@);
    let mut lo: i64 = sections[0].start_cf;
    let mut hi: i64 = sections[0].end_cf;
    let mut i: usize = 1;
    proof {
        assert(s.take(1)[0] == sections@[0]@);
    }
    while i < sections.len()
        invariant
            1 <= i <= sections@.len(),
            s == secs(sections@),
            lo == earliest(s.take(i as int)),
            hi == latest(s.take(i as int)),
        decreases sections@.len() - i,
    {
        proof {
            assert(s.take(i + 1).drop_last() =~= s.take(i as int));
            assert(s.take(i + 1).last() == sections@[i as int]@);
        }
        if sections[i].start_cf < lo {
            lo = sections[i].start_cf;
        }
        if sections[i].end_cf > hi {
            hi = sections[i].end_cf;
        }
        i += 1;
    }
    proof {
        assert(s.take(i as int) =~= s);
    }
    (lo, hi)
}

fn last_end(targets: &Vec<Target>, none: i64) -> (r: i64)
    ensures
        r == if targets@.len() == 0 {
            none as int
        } else {
            latest_target(target_views(targets@))
        },
{
    if targets.len() == 0 {
        return none;
    }
    let ghost s = target_views(targets@);
    let mut hi: i64 = targets[0].end_cf;
    let mut i: usize = 1;
    proof {
        assert(s.take(1)[0] == targets@[0]@);
    }
    while i < targets.len()
        invariant
            1 <= i <= targets@.len(),
            s == target_views(targets@),
            hi == latest_target(s.take(i as int)),
        decreases targets@.len() - i,
    {
        proof {
            assert(s.take(i + 1).drop_last() =~= s.take(i as int));
            assert(s.take(i + 1).last() == targets@[i as int]@);
        }
        if targets[i].end_cf > hi {
            hi = targets[i].end_cf;
        }
        i += 1;
    }
    proof {
        assert(s.take(i as int) =~= s);
    }
    hi
}

/// What a decompressed log says; nothing where it has no section.
pub fn parse_stream(data: &[u8]) -> (r: Option<LogFacts>)
    ensures
        r is None <==> log_sections(log_tokens(data@).0).len() == 0,
        r is Some ==> facts_of(r->0, log_sections(log_tokens(data@).0)),
{
    let tokens = tokenize_slf(data);
    let sections = extract_slf_sections(&tokens.0);
    if sections.len() == 0 {
        return None;
    }
    let (build_start, build_end) = build_span(&sections);
    let commands = classify_commands(&sections);
    let targets = read_targets(&sections, &commands);
    let targets_end = last_end(&targets, build_start);
    Some(
        LogFacts {
            build_start,
            build_end,
            targets_end,
            native: category_windows(&commands, Category::Native),
            resources: category_windows(&commands, Category::Resources),
            packaging: category_windows(&commands, Category::Packaging),
            other: category_windows(&commands, Category::Other),
            targets,
        },
    )
}

/// The first `limit` bytes that a gzip stream decompresses to.
pub uninterp spec fn gunzipped(bytes: Seq<u8>, limit: nat) -> Option<Seq<u8>>;

/// Calls `flate2::read::MultiGzDecoder` and reads at most `limit` bytes from it;
/// `None` where that meets an error. The result is named [`gunzipped`]; of it only
/// the bound is stated.
#[verifier::external_body]
pub(crate) fn gunzip(bytes: &[u8], limit: usize) -> (r: Option<Vec<u8>>)
    ensures
        match r {
            Some(d) => gunzipped(bytes@, limit as nat) == Some(d@) && d@.len() <= limit,
            None => gunzipped(bytes@, limit as nat) is None,
        },
{
    let mut data = Vec::new();
    let mut stream = std::io::Read::take(flate2::read::MultiGzDecoder::new(bytes), limit as u64);
    std::io::Read::read_to_end(&mut stream, &mut data).ok()?;
    Some(data)
}

/// The part of a decompressed log that is read.
pub open spec fn log_prefix(data: Seq<u8>) -> Seq<u8> {
    if data.len() > MAX_DECOMPRESSED {
        data.take(MAX_DECOMPRESSED as int)
    } else {
        data
    }
}

/// What a log file says, given by its bytes; nothing where it is no gzip stream
/// or has no section.
pub fn parse_xcactivitylog(bytes: &[u8]) -> (r: Option<LogFacts>)
    ensures
        match gunzipped(bytes@, (MAX_DECOMPRESSED + 1) as nat) {
            Some(d) => {
                let s = log_sections(log_tokens(log_prefix(d)).0);
                &&& r is None <==> s.len() == 0
                &&& r is Some ==> facts_of(r->0, s)
            },
            None => r is None,
        },
{
    match gunzip(bytes, MAX_DECOMPRESSED + 1) {
        Some(data) => {
            if data.len() > MAX_DECOMPRESSED {
                let cut = slice_of(data.as_slice(), 0, MAX_DECOMPRESSED);
                proof {
                    assert(cut@ =~= data@.take(MAX_DECOMPRESSED as int));
                }
                parse_stream(cut.as_slice())
            } else {
                parse_stream(data.as_slice())
            }
        },
        None => None,
    }
}

proof fn lemma_span_bounds(s: Seq<Sec>, i: int)
    requires
        0 <= i < s.len(),
    ensures
        earliest(s) <= s[i].start,
        s[i].end <= latest(s),
    decreases s.len(),
{
    if s.len() > 1 {
        let d = s.drop_last();
        if i < d.len() {
            lemma_span_bounds(d, i);
            assert(d[i] == s[i]);
        }
    }
}

proof fn lemma_timed_within(s: Seq<Sec>, lo: int, hi: int)
    requires
        forall|i: int|
            0 <= i < s.len() ==> lo <= (#[trigger] s[i]).start <= s[i].end <= hi && i64::MIN
                < s[i].start && s[i].end <= i64::MAX,
    ensures
        forall|i: int|
            0 <= i < timed_commands(s).len() ==> lo <= (#[trigger] timed_commands(s)[i]).start
                <= timed_commands(s)[i].end <= hi,
    decreases s.len(),
{
    if s.len() > 0 {
        let d = s.drop_last();
        assert forall|i: int| 0 <= i < d.len() implies lo <= (#[trigger] d[i]).start <= d[i].end
            <= hi && i64::MIN < d[i].start && d[i].end <= i64::MAX by {
            assert(d[i] == s[i]);
        }
        lemma_timed_within(d, lo, hi);
        let r = timed_commands(d);
        assert(s[s.len() - 1] == s.last());
        assert forall|i: int| 0 <= i < timed_commands(s).len() implies lo <= (
        #[trigger] timed_commands(s)[i]).start <= timed_commands(s)[i].end <= hi by {
            if i < r.len() {
                assert(timed_commands(s)[i] == r[i]);
            }
        }
    }
}

proof fn lemma_windows_within(s: Seq<Timed>, c: Category, lo: int, hi: int)
    requires
        forall|i: int| 0 <= i < s.len() ==> lo <= (#[trigger] s[i]).start <= s[i].end <= hi,
    ensures
        forall|i: int|
            0 <= i < windows_of(s, c).len() ==> lo <= (#[trigger] windows_of(s, c)[i]).0
                <= windows_of(s, c)[i].1 <= hi,
    decreases s.len(),
{
    if s.len() > 0 {
        let d = s.drop_last();
        assert forall|i: int| 0 <= i < d.len() implies lo <= (#[trigger] d[i]).start <= d[i].end
            <= hi by {
            assert(d[i] == s[i]);
        }
        lemma_windows_within(d, c, lo, hi);
        let r = windows_of(d, c);
        assert(s[s.len() - 1] == s.last());
        assert forall|i: int| 0 <= i < windows_of(s, c).len() implies lo <= (#[trigger] windows_of(
            s,
            c,
        )[i]).0 <= windows_of(s, c)[i].1 <= hi by {
            if i < r.len() {
                assert(windows_of(s, c)[i] == r[i]);
            }
        }
    }
}

/// The windows in which a category of work went on are in order, apart from one
/// another, and within the span of the build: no category can be told to take
/// longer than the build.
pub proof fn law_work_stays_within_the_build(t: Seq<Tok>, c: Category, k: int)
    requires
        0 <= k < union_of(windows_of(timed_commands(log_sections(t)), c)).len(),
    ensures
        ({
            let s = log_sections(t);
            let u = union_of(windows_of(timed_commands(s), c));
            &&& apart(u)
            &&& earliest(s) <= u[k].0 <= u[k].1 <= latest(s)
        }),
{
    let s = log_sections(t);
    let w = windows_of(timed_commands(s), c);
    lemma_section_times(t, class_table(t), t.len() - 7);
    if s.len() == 0 {
        assert(w.len() == 0);
        lemma_sorted_pairs(w);
        assert(union_of(w).len() == 0);
    } else {
        let lo = earliest(s);
        let hi = latest(s);
        assert forall|i: int| 0 <= i < s.len() implies lo <= (#[trigger] s[i]).start <= s[i].end
            <= hi && i64::MIN < s[i].start && s[i].end <= i64::MAX by {
            lemma_span_bounds(s, i);
        }
        lemma_timed_within(s, lo, hi);
        lemma_windows_within(timed_commands(s), c, lo, hi);
        assert(i64::MIN <= lo && hi <= i64::MAX) by {
            lemma_span_attained(s);
        }
        law_union_counts_once(w, 0);
        law_union_stays_within(w, lo as i64, hi as i64, k);
    }
}

proof fn lemma_span_attained(s: Seq<Sec>)
    requires
        s.len() > 0,
        forall|i: int|
            0 <= i < s.len() ==> i64::MIN < (#[trigger] s[i]).start && s[i].end <= i64::MAX,
    ensures
        i64::MIN <= earliest(s),
        latest(s) <= i64::MAX,
    decreases s.len(),
{
    assert(s[0].start > i64::MIN);
    if s.len() > 1 {
        let d = s.drop_last();
        assert forall|i: int| 0 <= i < d.len() implies i64::MIN < (#[trigger] d[i]).start
            && d[i].end <= i64::MAX by {
            assert(d[i] == s[i]);
        }
        lemma_span_attained(d);
        assert(s[s.len() - 1] == s.last());
    }
}

/// How many directories, from the start upwards, are searched for the logs.
pub const MAX_LOG_CLIMB: usize = 10;

/// Where the build logs of a derived-data directory are.
pub open spec fn log_dir(root: Seq<PathPart>) -> Seq<PathPart> {
    joined_path(joined_path(root, "Logs"@), "Build"@)
}

/// The nearest directory, from `dir` upwards, with build logs in it.
pub open spec fn nearest_with_logs(
    dir: Seq<PathPart>,
    dirs: Seq<Seq<PathPart>>,
    levels: nat,
) -> Option<Seq<PathPart>>
    decreases levels,
{
    if levels == 0 {
        None
    } else if dirs.contains(log_dir(dir)) {
        Some(dir)
    } else {
        match parent_path(dir) {
            Some(up) => nearest_with_logs(up, dirs, (levels - 1) as nat),
            None => None,
        }
    }
}

fn climb_to_logs(dir: &Vec<Part>, dirs: &Vec<Vec<Part>>, levels: usize) -> (r: Option<Vec<Part>>)
    ensures
        match r {
            Some(p) => nearest_with_logs(part_views(dir@), paths_of(dirs@), levels as nat) == Some(
                part_views(p@),
            ),
            None => nearest_with_logs(part_views(dir@), paths_of(dirs@), levels as nat) is None,
        },
    decreases levels,
{
    if levels == 0 {
        return None;
    }
    let logs = join_path(dir, "Logs");
    let candidate = join_path(&logs, "Build");
    if has_path(dirs, &candidate) {
        return Some(copy_path(dir));
    }
    match parent(dir) {
        Some(up) => climb_to_logs(&up, dirs, levels - 1),
        None => None,
    }
}

/// The derived-data directory of a build: the nearest one, from the directory of
/// its intermediate files upwards, with build logs in it. `dirs` are the
/// directories that exist.
pub fn find_derived_data_root(obj_root: &str, dirs: &Vec<Vec<Part>>) -> (r: Option<Vec<Part>>)
    ensures
        match r {
            Some(p) => obj_root@.len() > 0 && nearest_with_logs(
                path_parts(obj_root@),
                paths_of(dirs@),
                MAX_LOG_CLIMB as nat,
            ) == Some(part_views(p@)),
            None => obj_root@.len() == 0 || nearest_with_logs(
                path_parts(obj_root@),
                paths_of(dirs@),
                MAX_LOG_CLIMB as nat,
            ) is None,
        },
{
    if obj_root.is_empty() {
        return None;
    }
    let dir = parse_path(obj_root);
    climb_to_logs(&dir, dirs, MAX_LOG_CLIMB)
}

/// A file in the directory of the logs.
#[derive(Debug)]
pub struct LogFile {
    pub name: String,
    /// When it was last changed: seconds since the epoch, and nanoseconds.
    pub secs: i64,
    pub nanos: u32,
}

pub open spec fn is_log(f: LogFile) -> bool {
    extension_of(f.name@) == Some("xcactivitylog"@)
}

/// `a` was changed later than `b`, or has the greater name where both were
/// changed at once.
pub open spec fn is_newer(a: LogFile, b: LogFile) -> bool {
    a.secs > b.secs || (a.secs == b.secs && (a.nanos > b.nanos || (a.nanos == b.nanos && lex_less(
        b.name@,
        a.name@,
    ))))
}

/// The place of the newest log among files.
pub open spec fn newest_log(s: Seq<LogFile>) -> Option<int>
    decreases s.len(),
{
    if s.len() == 0 {
        None
    } else {
        let r = newest_log(s.drop_last());
        if is_log(s.last()) && (r is None || is_newer(s.last(), s[r->0])) {
            Some(s.len() - 1)
        } else {
            r
        }
    }
}

/// The place of the newest log among the files of a directory.
pub fn find_latest_xcactivitylog(files: &Vec<LogFile>) -> (r: Option<usize>)
    ensures
        match r {
            Some(i) => newest_log(files@) == Some(i as int) && i < files@.len(),
            None => newest_log(files@) is None,
        },
{
    let mut best: Option<usize> = None;
    let mut i: usize = 0;
    while i < files.len()
        invariant
            i <= files@.len(),
            match best {
                Some(b) => newest_log(files@.take(i as int)) == Some(b as int) && b < i,
                None => newest_log(files@.take(i as int)) is None,
            },
        decreases files@.len() - i,
    {
        let f = &files[i];
        proof {
            assert(files@.take(i + 1).drop_last() =~= files@.take(i as int));
            assert(files@.take(i + 1).last() == *f);
        }
        if has_extension(f.name.as_str(), "xcactivitylog") {
            let newer = match best {
                None => true,
                Some(b) => {
                    let g = &files[b];
                    let x = to_chars(g.name.as_str());
                    let y = to_chars(f.name.as_str());
                    f.secs > g.secs || (f.secs == g.secs && (f.nanos > g.nanos || (f.nanos
                        == g.nanos && precedes(&x, &y))))
                },
            };
            if newer {
                best = Some(i);
            }
        }
        i += 1;
    }
    proof {
        assert(files@.take(i as int) =~= files@);
    }
    best
}

/// Every log is the newest one, or older than it.
pub proof fn law_newest_is_newest(s: Seq<LogFile>, k: int)
    requires
        0 <= k < s.len(),
        is_log(s[k]),
    ensures
        newest_log(s) is Some,
        0 <= newest_log(s)->0 < s.len(),
        is_log(s[newest_log(s)->0]),
        !is_newer(s[k], s[newest_log(s)->0]),
    decreases s.len(),
{
    let d = s.drop_last();
    lemma_newest_is_log(s);
    if k < d.len() {
        assert(d[k] == s[k]);
        law_newest_is_newest(d, k);
        let n = newest_log(d)->0;
        assert(d[n] == s[n]);
        if newest_log(s) != newest_log(d) {
            if is_newer(s[k], s.last()) {
                lemma_newer_transitive(s[k], s.last(), s[n]);
            }
        }
    } else {
        lemma_less_irreflexive(s[k].name@);
    }
}

proof fn lemma_newest_is_log(s: Seq<LogFile>)
    ensures
        newest_log(s) is Some ==> 0 <= newest_log(s)->0 < s.len() && is_log(s[newest_log(s)->0]),
    decreases s.len(),
{
    if s.len() > 0 {
        lemma_newest_is_log(s.drop_last());
    }
}

proof fn lemma_newer_transitive(a: LogFile, b: LogFile, c: LogFile)
    requires
        is_newer(a, b),
        is_newer(b, c),
    ensures
        is_newer(a, c),
{
    if a.secs == b.secs && b.secs == c.secs && a.nanos == b.nanos && b.nanos == c.nanos {
        lemma_less_transitive(c.name@, b.name@, a.name@);
    }
}

proof fn lemma_windows_come_from_commands(s: Seq<Sec>, c: Category, w: (i64, i64))
    ensures
        windows_of(timed_commands(s), c).contains(w) <==> exists|i: int|
            0 <= i < s.len() && (#[trigger] s[i]).cls == SectionClass::Command && category_of(
                s[i].title,
            ) == Some(c) && w == (s[i].start as i64, s[i].end as i64),
    decreases s.len(),
{
    if s.len() > 0 {
        let d = s.drop_last();
        lemma_windows_come_from_commands(d, c, w);
        let sec = s.last();
        let cat = category_of(sec.title);
        let r = windows_of(timed_commands(d), c);
        let out = windows_of(timed_commands(s), c);
        if sec.cls == SectionClass::Command && cat is Some {
            let x = Timed { category: cat->0, start: sec.start as i64, end: sec.end as i64 };
            assert(timed_commands(s).drop_last() =~= timed_commands(d));
            assert(timed_commands(s).last() == x);
        }
        if sec.cls == SectionClass::Command && cat == Some(c) {
            let y = (sec.start as i64, sec.end as i64);
            assert(out =~= r.push(y));
            assert(out[r.len() as int] == y);
            if out.contains(w) && w != y {
                let k = choose|k: int| 0 <= k < out.len() && out[k] == w;
                assert(r[k] == w);
            }
            if r.contains(w) {
                let k = choose|k: int| 0 <= k < r.len() && r[k] == w;
                assert(out[k] == w);
            }
            assert(s[s.len() - 1] == sec);
        } else {
            assert(out == r);
        }
        if exists|i: int|
            0 <= i < d.len() && (#[trigger] d[i]).cls == SectionClass::Command && category_of(
                d[i].title,
            ) == Some(c) && w == (d[i].start as i64, d[i].end as i64) {
            let i = choose|i: int|
                0 <= i < d.len() && (#[trigger] d[i]).cls == SectionClass::Command && category_of(
                    d[i].title,
                ) == Some(c) && w == (d[i].start as i64, d[i].end as i64);
            assert(s[i] == d[i]);
        }
        if exists|i: int|
            0 <= i < s.len() && (#[trigger] s[i]).cls == SectionClass::Command && category_of(
                s[i].title,
            ) == Some(c) && w == (s[i].start as i64, s[i].end as i64) {
            let i = choose|i: int|
                0 <= i < s.len() && (#[trigger] s[i]).cls == SectionClass::Command && category_of(
                    s[i].title,
                ) == Some(c) && w == (s[i].start as i64, s[i].end as i64);
            if i < d.len() {
                assert(d[i] == s[i]);
            }
        }
    }
}

/// At a time a command of this category was running.
pub open spec fn is_at_work(s: Seq<Sec>, c: Category, t: int) -> bool {
    exists|i: int|
        0 <= i < s.len() && (#[trigger] s[i]).cls == SectionClass::Command && category_of(
            s[i].title,
        ) == Some(c) && s[i].start <= t <= s[i].end
}

/// The sections of a log run forward, and their times fit a machine.
pub open spec fn is_timed(s: Seq<Sec>) -> bool {
    forall|i: int|
        0 <= i < s.len() ==> i64::MIN <= (#[trigger] s[i]).start <= s[i].end <= i64::MAX
}

proof fn lemma_covered(s: Seq<Sec>, c: Category, t: int)
    requires
        is_timed(s),
    ensures
        covers(union_of(windows_of(timed_commands(s), c)), t) <==> is_at_work(s, c, t),
        apart(union_of(windows_of(timed_commands(s), c))),
{
    let w = windows_of(timed_commands(s), c);
    assert forall|k: int| 0 <= k < w.len() implies (#[trigger] w[k]).0 <= w[k].1 by {
        assert(w.contains(w[k]));
        lemma_windows_come_from_commands(s, c, w[k]);
    }
    law_union_counts_once(w, t);
    if covers(w, t) {
        let k = choose|k: int| 0 <= k < w.len() && (#[trigger] w[k]).0 <= t <= w[k].1;
        assert(w.contains(w[k]));
        lemma_windows_come_from_commands(s, c, w[k]);
        let i = choose|i: int|
            0 <= i < s.len() && (#[trigger] s[i]).cls == SectionClass::Command && category_of(
                s[i].title,
            ) == Some(c) && w[k] == (s[i].start as i64, s[i].end as i64);
        assert(s[i].start <= t <= s[i].end);
    }
    if is_at_work(s, c, t) {
        let i = choose|i: int|
            0 <= i < s.len() && (#[trigger] s[i]).cls == SectionClass::Command && category_of(
                s[i].title,
            ) == Some(c) && s[i].start <= t <= s[i].end;
        let y = (s[i].start as i64, s[i].end as i64);
        lemma_windows_come_from_commands(s, c, y);
        assert(w.contains(y));
        let k = choose|k: int| 0 <= k < w.len() && w[k] == y;
        assert(w[k].0 <= t <= w[k].1);
    }
}

/// What a log says of each kind of work is when commands of that kind were running: a time
/// lies in the windows of native work exactly where a native command ran at it, and so for
/// resources, packaging and the rest; no time is counted twice.
pub proof fn law_each_kind_of_work_is_told_apart(f: LogFacts, s: Seq<Sec>, t: int)
    requires
        facts_of(f, s),
        is_timed(s),
    ensures
        covers(f.native@, t) <==> is_at_work(s, Category::Native, t),
        covers(f.resources@, t) <==> is_at_work(s, Category::Resources, t),
        covers(f.packaging@, t) <==> is_at_work(s, Category::Packaging, t),
        covers(f.other@, t) <==> is_at_work(s, Category::Other, t),
        apart(f.native@),
        apart(f.resources@),
        apart(f.packaging@),
        apart(f.other@),
{
    lemma_covered(s, Category::Native, t);
    lemma_covered(s, Category::Resources, t);
    lemma_covered(s, Category::Packaging, t);
    lemma_covered(s, Category::Other, t);
}

/// A build starts with its first section and ends with its last: no section starts before
/// it or ends after it, and some section does each.
pub proof fn law_builds_span_their_sections(f: LogFacts, s: Seq<Sec>, i: int)
    requires
        facts_of(f, s),
        0 <= i < s.len(),
    ensures
        f.build_start <= s[i].start,
        s[i].end <= f.build_end,
        exists|j: int| 0 <= j < s.len() && (#[trigger] s[j]).start == f.build_start,
        exists|j: int| 0 <= j < s.len() && (#[trigger] s[j]).end == f.build_end,
{
    lemma_span_bounds(s, i);
    lemma_span_is_there(s);
}

proof fn lemma_span_is_there(s: Seq<Sec>)
    requires
        s.len() > 0,
    ensures
        exists|j: int| 0 <= j < s.len() && (#[trigger] s[j]).start == earliest(s),
        exists|j: int| 0 <= j < s.len() && (#[trigger] s[j]).end == latest(s),
    decreases s.len(),
{
    if s.len() == 1 {
        assert(s[0].start == earliest(s) && s[0].end == latest(s));
    } else {
        let d = s.drop_last();
        lemma_span_is_there(d);
        let a = choose|j: int| 0 <= j < d.len() && (#[trigger] d[j]).start == earliest(d);
        let b = choose|j: int| 0 <= j < d.len() && (#[trigger] d[j]).end == latest(d);
        assert(s[a] == d[a] && s[b] == d[b]);
        assert(s[s.len() - 1] == s.last());
    }
}

proof fn lemma_target_of(s: Seq<Sec>, w: TargetWindow)
    ensures
        target_windows(s).contains(w) <==> exists|i: int|
            0 <= i < s.len() && (#[trigger] s[i]).cls == SectionClass::Section && s[i].start
                == w.start && s[i].end == w.end && ((w.path.len() > 0 && s[i].title
                == TARGET_PREFIX@ + w.path) || (s[i].title == TARGET_PREFIX@ && w.path
                == TARGET_PREFIX@)),
    decreases s.len(),
{
    let p = TARGET_PREFIX@;
    assert(p.len() == 13) by {
        reveal_strlit("Build target ");
    }
    if s.len() > 0 {
        let d = s.drop_last();
        lemma_target_of(d, w);
        let sec = s.last();
        let r = target_windows(d);
        let out = target_windows(s);
        let here = sec.cls == SectionClass::Section && has_prefix(sec.title, p);
        let name = sec.title.skip(p.len() as int);
        let x = TargetWindow {
            path: if name.len() == 0 {
                sec.title
            } else {
                name
            },
            start: sec.start,
            end: sec.end,
        };
        if here {
            assert(sec.title =~= p + name);
            assert(name.len() == 0 ==> sec.title =~= p);
            assert(out =~= r.push(x));
            assert(out[r.len() as int] == x);
            if out.contains(w) && w != x {
                let k = choose|k: int| 0 <= k < out.len() && out[k] == w;
                assert(r[k] == w);
            }
            if r.contains(w) {
                let k = choose|k: int| 0 <= k < r.len() && r[k] == w;
                assert(out[k] == w);
            }
        }
        assert(s[s.len() - 1] == sec);
        law_prefixes_and_suffixes(p, w.path);
        assert((p + w.path).skip(p.len() as int) =~= w.path);
        assert(has_prefix(p, p)) by {
            assert(p.take(p.len() as int) =~= p);
        }
        if r.contains(w) {
            let i = choose|i: int|
                0 <= i < d.len() && (#[trigger] d[i]).cls == SectionClass::Section && d[i].start
                    == w.start && d[i].end == w.end && ((w.path.len() > 0 && d[i].title == p
                    + w.path) || (d[i].title == p && w.path == p));
            assert(s[i] == d[i]);
        }
        if exists|i: int|
            0 <= i < s.len() && (#[trigger] s[i]).cls == SectionClass::Section && s[i].start
                == w.start && s[i].end == w.end && ((w.path.len() > 0 && s[i].title == p + w.path)
                || (s[i].title == p && w.path == p)) {
            let i = choose|i: int|
                0 <= i < s.len() && (#[trigger] s[i]).cls == SectionClass::Section && s[i].start
                    == w.start && s[i].end == w.end && ((w.path.len() > 0 && s[i].title == p
                    + w.path) || (s[i].title == p && w.path == p));
            if i < d.len() {
                assert(d[i] == s[i]);
            } else {
                assert(here);
                assert(x == w);
            }
        }
    }
}

/// The targets of a build are its groupings `Build target <name>`, each with its own name
/// and window.
pub proof fn law_targets_are_the_named_groupings(s: Seq<Sec>, name: Seq<char>, start: int, end: int)
    requires
        name.len() > 0,
        name != "Build target "@,
    ensures
        target_windows(s).contains(TargetWindow { path: name, start, end }) <==> exists|i: int|
            0 <= i < s.len() && (#[trigger] s[i]).cls == SectionClass::Section && s[i].title
                == "Build target "@ + name && s[i].start == start && s[i].end == end,
{
    lemma_target_of(s, TargetWindow { path: name, start, end });
}

/// The work that is counted for a target is that of the commands that lie within its
/// window, all of them.
pub proof fn law_work_of_a_target(s: Seq<Timed>, lo: i64, hi: i64, x: Timed)
    ensures
        within(s, lo, hi).contains(x) <==> s.contains(x) && lo <= x.start && x.end <= hi,
    decreases s.len(),
{
    if s.len() > 0 {
        let d = s.drop_last();
        law_work_of_a_target(d, lo, hi, x);
        let r = within(d, lo, hi);
        let out = within(s, lo, hi);
        assert(s[s.len() - 1] == s.last());
        if d.contains(x) {
            let k = choose|k: int| 0 <= k < d.len() && d[k] == x;
            assert(s[k] == x);
        }
        if s.contains(x) && x != s.last() {
            let k = choose|k: int| 0 <= k < s.len() && s[k] == x;
            assert(d[k] == x);
        }
        if s.last().start >= lo && s.last().end <= hi {
            assert(out =~= r.push(s.last()));
            assert(out[r.len() as int] == s.last());
            if r.contains(x) {
                let k = choose|k: int| 0 <= k < r.len() && r[k] == x;
                assert(out[k] == x);
            }
            if out.contains(x) && x != s.last() {
                let k = choose|k: int| 0 <= k < out.len() && out[k] == x;
                assert(r[k] == x);
            }
        }
    }
}

/// A target without work is shown as native; any other by one of its categories that no
/// other took up more time than.
pub proof fn law_targets_are_shown_by_their_work(cats: Seq<Category>, occupancy: Seq<i64>, k: int)
    requires
        cats.len() == occupancy.len(),
    ensures
        cats.len() == 0 ==> dominant(cats, occupancy) == Category::Native,
        0 <= k < cats.len() && (forall|j: int|
            0 <= j < cats.len() && j != k ==> #[trigger] occupancy[j] < occupancy[k]) ==> dominant(
            cats,
            occupancy,
        ) == cats[k],
{
    if 0 <= k < cats.len() {
        law_dominant_is_greatest(occupancy, k);
    }
}

/// At most twenty megabytes of a log are read, from its front.
pub proof fn law_logs_are_read_from_the_front(data: Seq<u8>)
    ensures
        data.len() <= 20971520 ==> log_prefix(data) == data,
        data.len() > 20971520 ==> log_prefix(data) == data.take(20971520),
{
}

/// Build logs are looked for under `Logs/Build` of the directory itself first.
pub proof fn law_logs_beside_are_found(
    dir: Seq<PathPart>,
    dirs: Seq<Seq<PathPart>>,
    levels: nat,
)
    requires
        levels > 0,
        dir.len() > 0,
    ensures
        dirs.contains(dir + seq![PathPart::Name("Logs"@), PathPart::Name("Build"@)])
            ==> nearest_with_logs(dir, dirs, levels) == Some(dir),
        !dirs.contains(dir + seq![PathPart::Name("Logs"@), PathPart::Name("Build"@)])
            && dir.last() != PathPart::Root ==> nearest_with_logs(dir, dirs, levels)
            == nearest_with_logs(dir.drop_last(), dirs, (levels - 1) as nat),
{
    reveal_strlit("Logs");
    reveal_strlit("Build");
    reveal_strlit(".");
    reveal_strlit("..");
    law_joining_a_name(dir, "Logs"@);
    law_joining_a_name(dir.push(PathPart::Name("Logs"@)), "Build"@);
    assert(dir.push(PathPart::Name("Logs"@)).push(PathPart::Name("Build"@)) =~= dir + seq![
        PathPart::Name("Logs"@),
        PathPart::Name("Build"@),
    ]);
}

/// The newest log is the one that was changed last; a file that is no log never counts.
pub proof fn law_the_last_changed_log_is_taken(s: Seq<LogFile>, k: int)
    requires
        0 <= k < s.len(),
        extension_of(s[k].name@) == Some("xcactivitylog"@),
        forall|j: int|
            0 <= j < s.len() && j != k ==> extension_of((#[trigger] s[j]).name@) != Some(
                "xcactivitylog"@,
            ) || s[j].secs < s[k].secs || (s[j].secs == s[k].secs && s[j].nanos < s[k].nanos),
    ensures
        newest_log(s) == Some(k),
{
    law_newest_is_newest(s, k);
    let n = newest_log(s)->0;
    assert(is_log(s[n]));
}

/// The kinds of work of some commands: each that occurs, and each once.
pub proof fn law_kinds_of_work_are_listed_once(s: Seq<Timed>, c: Category)
    ensures
        categories_of(s).contains(c) <==> exists|i: int|
            0 <= i < s.len() && (#[trigger] s[i]).category == c,
        categories_of(s).no_duplicates(),
    decreases s.len(),
{
    if s.len() > 0 {
        let d = s.drop_last();
        let r = categories_of(d);
        let l = s.last().category;
        law_kinds_of_work_are_listed_once(d, c);
        law_kinds_of_work_are_listed_once(d, l);
        assert(s[s.len() - 1].category == l);
        if r.contains(c) {
            let i = choose|i: int| 0 <= i < d.len() && (#[trigger] d[i]).category == c;
            assert(s[i].category == c);
            let k = choose|k: int| 0 <= k < r.len() && r[k] == c;
            assert(r.push(l)[k] == c);
        }
        assert(r.push(l)[r.len() as int] == l);
        if exists|i: int| 0 <= i < s.len() && (#[trigger] s[i]).category == c {
            let i = choose|i: int| 0 <= i < s.len() && (#[trigger] s[i]).category == c;
            if i < d.len() {
                assert(d[i].category == c);
            }
        }
        if r.push(l).contains(c) {
            let k = choose|k: int| 0 <= k < r.push(l).len() && r.push(l)[k] == c;
            if k < r.len() {
                assert(r[k] == c);
            }
        }
    }
}

/// Targets end where the last of them does.
pub proof fn law_targets_end_with_the_last(s: Seq<TargetWindow>, i: int)
    requires
        0 <= i < s.len(),
    ensures
        s[i].end <= latest_target(s),
        exists|k: int| 0 <= k < s.len() && (#[trigger] s[k]).end == latest_target(s),
    decreases s.len(),
{
    if s.len() == 1 {
        assert(s[0].end == latest_target(s));
    } else {
        let d = s.drop_last();
        assert(s.last() == s[s.len() - 1]);
        if i < d.len() {
            law_targets_end_with_the_last(d, i);
            assert(d[i] == s[i]);
        } else {
            law_targets_end_with_the_last(d, 0);
        }
        let k = choose|k: int| 0 <= k < d.len() && (#[trigger] d[k]).end == latest_target(d);
        assert(s[k] == d[k]);
        if s.last().end > latest_target(d) {
            assert(s[s.len() - 1].end == latest_target(s));
        } else {
            assert(s[k].end == latest_target(s));
        }
    }
}

} // verus!

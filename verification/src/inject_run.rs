//! A stamping run over bundles and their maps.
//!
//! A run takes the texts of the files and the places of the bundles among them. Each
//! bundle is stamped in turn, or gains the registration of the id that it carries, and its
//! map gets the id of the bundle. A second run over what the first one left changes
//! nothing.
use crate::error::{Error, Failure, failure};
use crate::ids::hyphenated_text;
use crate::inject::{
    InjectStats, carried_id, debug_id, is_registered, map_carries, map_failure, map_of,
    map_with_id, named_map, one_if, paired_map, stamp_bundle, stub_text, with_registration,
    write_map_debug_id,
};
use crate::paths::{Part, PathPart, parse_path, part_views, path_parts, paths_of, same_path};
use vstd::prelude::*;
use vstd::string::*;
use vstd::utf8::encode_utf8;

verus! {

/// A file of a run.
#[derive(Debug, PartialEq, Eq)]
pub struct SourceFile {
    pub path: String,
    pub text: String,
}

/// A file of a run, as texts.
pub struct FileView {
    pub path: Seq<char>,
    pub text: Seq<char>,
}

impl View for SourceFile {
    type V = FileView;

    open spec fn view(&self) -> FileView {
        FileView { path: self.path@, text: self.text@ }
    }
}

pub open spec fn file_views(v: Seq<SourceFile>) -> Seq<FileView> {
    v.map_values(|f: SourceFile| f@)
}

/// The paths of the files of a run.
pub open spec fn run_paths(files: Seq<FileView>) -> Seq<Seq<PathPart>> {
    files.map_values(|f: FileView| path_parts(f.path))
}

/// The first place at which a path stands.
pub open spec fn place_of(paths: Seq<Seq<PathPart>>, p: Seq<PathPart>) -> Option<int>
    decreases paths.len(),
{
    if paths.len() == 0 {
        None
    } else {
        match place_of(paths.drop_last(), p) {
            Some(k) => Some(k),
            None => if paths.last() == p {
                Some(paths.len() - 1)
            } else {
                None
            },
        }
    }
}

/// The place of the map of a bundle.
pub open spec fn map_place(files: Seq<FileView>, i: int) -> Option<int> {
    match map_of(files[i].path, files[i].text, run_paths(files)) {
        Some(p) => place_of(run_paths(files), p),
        None => None,
    }
}

/// The bytes of the file at a place, where there is one.
pub open spec fn bytes_at(files: Seq<FileView>, place: Option<int>) -> Option<Seq<u8>> {
    match place {
        Some(k) => Some(encode_utf8(files[k].text)),
        None => None,
    }
}

/// The id of a bundle: the one it carries, or else that of its bytes and those of its map.
pub open spec fn bundle_id(text: Seq<char>, map: Option<Seq<u8>>) -> Seq<char> {
    match carried_id(text) {
        Some(id) => id,
        None => hyphenated_text(debug_id(encode_utf8(text), map)),
    }
}

/// What a bundle with this id becomes, where it changes.
pub open spec fn bundle_change(text: Seq<char>, id: Seq<char>) -> Option<Seq<char>> {
    if carried_id(text) is None {
        Some(text + stub_text(id))
    } else if is_registered(text, id) {
        None
    } else {
        Some(with_registration(text, id))
    }
}

/// The files with another text at one place.
pub open spec fn with_text(files: Seq<FileView>, i: int, text: Seq<char>) -> Seq<FileView> {
    files.update(i, FileView { path: files[i].path, text })
}

/// How far a run is: the files as they are, the counts of the bundles that are done, and
/// the failure that ended it.
pub struct Progress {
    pub files: Seq<FileView>,
    pub injected: nat,
    pub already: nat,
    pub registered: nat,
    pub updated: nat,
    pub failed: Option<Failure>,
}

/// A run that has begun.
pub open spec fn begun(files: Seq<FileView>) -> Progress {
    Progress { files, injected: 0, already: 0, registered: 0, updated: 0, failed: None }
}

/// The run after one more bundle. The bundle is stamped where it carries no id, and
/// registers the id that it carries where it did not; then its map gets the id where it
/// lacks it. A dry run counts and leaves the files as they are. A map that is refused ends
/// the run, and what was stamped before stays.
pub open spec fn after_bundle(s: Progress, i: int, dry_run: bool) -> Progress {
    if s.failed is Some {
        s
    } else {
        let text = s.files[i].text;
        let place = map_place(s.files, i);
        let carried = carried_id(text) is Some;
        let id = bundle_id(text, bytes_at(s.files, place));
        let change = bundle_change(text, id);
        let files = if change is Some && !dry_run {
            with_text(s.files, i, change->0)
        } else {
            s.files
        };
        let refused = match place {
            Some(k) => map_failure(files[k].text, files[k].path),
            None => None,
        };
        if refused is Some {
            Progress {
                files,
                injected: s.injected,
                already: s.already,
                registered: s.registered,
                updated: s.updated,
                failed: refused,
            }
        } else {
            let stale = place is Some && !map_carries(files[place->0].text, id);
            Progress {
                files: if stale && !dry_run {
                    with_text(files, place->0, map_with_id(files[place->0].text, id))
                } else {
                    files
                },
                injected: s.injected + one_if(!carried),
                already: s.already + one_if(carried),
                registered: s.registered + one_if(carried && change is Some),
                updated: s.updated + one_if(stale),
                failed: None,
            }
        }
    }
}

/// A run over the bundles at the given places, in that order.
pub open spec fn run_over(files: Seq<FileView>, bundles: Seq<usize>, dry_run: bool) -> Progress
    decreases bundles.len(),
{
    if bundles.len() == 0 {
        begun(files)
    } else {
        after_bundle(
            run_over(files, bundles.drop_last(), dry_run),
            bundles.last() as int,
            dry_run,
        )
    }
}

/// No map is one of the bundles, and no two bundles share a map.
pub open spec fn apart(files: Seq<FileView>, bundles: Seq<usize>) -> bool {
    forall|a: int, b: int|
        #![trigger bundles[a], bundles[b]]
        0 <= a < bundles.len() && 0 <= b < bundles.len() ==> {
            &&& map_place(files, bundles[a] as int) != Some(bundles[b] as int)
            &&& bundles[a] != bundles[b] && map_place(files, bundles[a] as int) is Some
                ==> map_place(files, bundles[a] as int) != map_place(files, bundles[b] as int)
        }
}

/// A bundle carries an id and registers it, and its map carries the same one.
pub open spec fn is_settled(files: Seq<FileView>, i: int) -> bool {
    &&& carried_id(files[i].text) is Some
    &&& is_registered(files[i].text, carried_id(files[i].text)->0)
    &&& match map_place(files, i) {
        Some(k) => {
            &&& map_failure(files[k].text, files[k].path) is None
            &&& map_carries(files[k].text, carried_id(files[i].text)->0)
        },
        None => true,
    }
}

/// Every bundle of a run is settled.
pub open spec fn all_settled(files: Seq<FileView>, bundles: Seq<usize>) -> bool {
    forall|a: int|
        0 <= a < bundles.len() ==> is_settled(files, #[trigger] bundles[a] as int)
}

/// A run that finds every bundle settled changes no file, and counts each bundle as one
/// that carried an id already.
pub proof fn law_settled_run_changes_nothing(
    files: Seq<FileView>,
    bundles: Seq<usize>,
    dry_run: bool,
)
    requires
        all_settled(files, bundles),
    ensures
        run_over(files, bundles, dry_run) == (Progress {
            files,
            injected: 0,
            already: bundles.len(),
            registered: 0,
            updated: 0,
            failed: None,
        }),
    decreases bundles.len(),
{
    if bundles.len() > 0 {
        let rest = bundles.drop_last();
        assert forall|a: int| 0 <= a < rest.len() implies is_settled(
            files,
            #[trigger] rest[a] as int,
        ) by {
            assert(rest[a] == bundles[a]);
        }
        law_settled_run_changes_nothing(files, rest, dry_run);
        assert(is_settled(files, bundles[bundles.len() - 1] as int));
    }
}

/// A run changes no path, and neither adds a file nor takes one away.
pub proof fn law_run_keeps_paths(files: Seq<FileView>, bundles: Seq<usize>, dry_run: bool)
    requires
        forall|a: int| 0 <= a < bundles.len() ==> #[trigger] bundles[a] < files.len(),
    ensures
        run_over(files, bundles, dry_run).files.len() == files.len(),
        forall|x: int|
            0 <= x < files.len() ==> #[trigger] run_over(files, bundles, dry_run).files[x].path
                == files[x].path,
    decreases bundles.len(),
{
    if bundles.len() > 0 {
        let rest = bundles.drop_last();
        assert forall|a: int| 0 <= a < rest.len() implies #[trigger] rest[a] < files.len() by {
            assert(rest[a] == bundles[a]);
        }
        law_run_keeps_paths(files, rest, dry_run);
        let s = run_over(files, rest, dry_run);
        let i = bundles.last() as int;
        assert(bundles[bundles.len() - 1] < files.len());
        lemma_map_place_inside(s.files, i);
    }
}

/// A dry run changes no file.
pub proof fn law_dry_run_changes_no_file(files: Seq<FileView>, bundles: Seq<usize>)
    ensures
        run_over(files, bundles, true).files == files,
    decreases bundles.len(),
{
    if bundles.len() > 0 {
        law_dry_run_changes_no_file(files, bundles.drop_last());
    }
}

proof fn lemma_place_inside(paths: Seq<Seq<PathPart>>, p: Seq<PathPart>)
    ensures
        place_of(paths, p) is Some ==> 0 <= place_of(paths, p)->0 < paths.len(),
    decreases paths.len(),
{
    if paths.len() > 0 {
        lemma_place_inside(paths.drop_last(), p);
    }
}

proof fn lemma_map_place_inside(files: Seq<FileView>, i: int)
    ensures
        map_place(files, i) is Some ==> 0 <= map_place(files, i)->0 < files.len(),
{
    match map_of(files[i].path, files[i].text, run_paths(files)) {
        Some(p) => {
            lemma_place_inside(run_paths(files), p);
        },
        None => {},
    }
}

/// What keeps the paths, and the map that a bundle names, keeps the place of its map.
proof fn lemma_map_place_stays(a: Seq<FileView>, b: Seq<FileView>, i: int)
    requires
        a.len() == b.len(),
        forall|x: int| 0 <= x < a.len() ==> #[trigger] b[x].path == a[x].path,
        0 <= i < a.len(),
        named_map(b[i].text) == named_map(a[i].text),
    ensures
        map_place(b, i) == map_place(a, i),
{
    assert(run_paths(b) =~= run_paths(a)) by {
        assert forall|x: int| 0 <= x < a.len() implies run_paths(b)[x] == run_paths(a)[x] by {
            assert(b[x].path == a[x].path);
        }
    }
    assert(b[i].path == a[i].path);
}

/// One step of a run that ends well: what it leaves alone, and that its own bundle is
/// settled.
spec fn is_step(a: Seq<FileView>, b: Seq<FileView>, j: int) -> bool {
    &&& a.len() == b.len()
    &&& forall|x: int| 0 <= x < a.len() ==> #[trigger] b[x].path == a[x].path
    &&& forall|x: int|
        0 <= x < a.len() && x != j && map_place(a, j) != Some(x) ==> #[trigger] b[x] == a[x]
    &&& named_map(b[j].text) == named_map(a[j].text)
    &&& is_settled(b, j)
}

/// A step keeps a bundle settled that shares nothing with the bundle of the step.
proof fn lemma_step_keeps(a: Seq<FileView>, b: Seq<FileView>, j: int, i: int)
    requires
        is_step(a, b, j),
        0 <= i < a.len(),
        0 <= j < a.len(),
        i != j,
        map_place(a, j) != Some(i),
        map_place(a, i) != Some(j),
        map_place(a, i) is Some ==> map_place(a, i) != map_place(a, j),
    ensures
        map_place(b, i) == map_place(a, i),
        is_settled(a, i) ==> is_settled(b, i),
{
    assert(b[i] == a[i]);
    lemma_map_place_stays(a, b, i);
    lemma_map_place_inside(a, i);
    match map_place(a, i) {
        Some(k) => {
            assert(b[k] == a[k]);
        },
        None => {},
    }
}

/// What a run has reached, as the files and counts that it holds.
spec fn progress(files: Seq<SourceFile>, stats: InjectStats, failed: Option<Failure>) -> Progress {
    Progress {
        files: file_views(files),
        injected: stats.js_injected as nat,
        already: stats.js_already as nat,
        registered: stats.js_registered as nat,
        updated: stats.maps_updated as nat,
        failed,
    }
}

fn find_place(paths: &Vec<Vec<Part>>, p: &Vec<Part>) -> (r: Option<usize>)
    ensures
        match r {
            Some(k) => place_of(paths_of(paths@), part_views(p@)) == Some(k as int) && k
                < paths@.len(),
            None => place_of(paths_of(paths@), part_views(p@)) is None,
        },
{
    let ghost all = paths_of(paths@);
    let ghost want = part_views(p@);
    let mut found: Option<usize> = None;
    let mut i: usize = 0;
    while i < paths.len()
        invariant
            all == paths_of(paths@),
            want == part_views(p@),
            i <= paths@.len(),
            match found {
                Some(k) => place_of(all.take(i as int), want) == Some(k as int) && k < i,
                None => place_of(all.take(i as int), want) is None,
            },
        decreases paths@.len() - i,
    {
        proof {
            assert(all.take(i + 1).drop_last() =~= all.take(i as int));
            assert(all.take(i + 1).last() == part_views(paths@[i as int]@));
        }
        if found.is_none() && same_path(&paths[i], p) {
            found = Some(i);
        }
        i += 1;
    }
    proof {
        assert(all.take(i as int) =~= all);
    }
    found
}

fn set_text(files: &mut Vec<SourceFile>, i: usize, text: String)
    requires
        i < old(files)@.len(),
    ensures
        file_views(final(files)@) == with_text(file_views(old(files)@), i as int, text@),
        final(files)@.len() == old(files)@.len(),
{
    let path = files[i].path.clone();
    files.set(i, SourceFile { path, text });
    proof {
        assert(file_views(files@) =~= with_text(file_views(old(files)@), i as int, text@));
    }
}

/// Stamps a bundle and its map. `paths` are the paths of the files.
fn inject_one(
    files: &mut Vec<SourceFile>,
    paths: &Vec<Vec<Part>>,
    i: usize,
    dry_run: bool,
    stats: &mut InjectStats,
) -> (r: Result<(), Error>)
    requires
        i < old(files)@.len(),
        paths_of(paths@) == run_paths(file_views(old(files)@)),
        old(stats).js_injected < u32::MAX,
        old(stats).js_already < u32::MAX,
        old(stats).js_registered < u32::MAX,
        old(stats).maps_updated < u32::MAX,
    ensures
        progress(final(files)@, *final(stats), failure(r)) == after_bundle(
            progress(old(files)@, *old(stats), None),
            i as int,
            dry_run,
        ),
        final(files)@.len() == old(files)@.len(),
        r is Ok && !dry_run && map_place(file_views(old(files)@), i as int) != Some(i as int)
            ==> is_step(file_views(old(files)@), file_views(final(files)@), i as int),
{
    let ghost before = file_views(files@);
    proof {
        assert(before[i as int] == files@[i as int]@);
        lemma_map_place_inside(before, i as int);
    }
    let place = match paired_map(files[i].path.as_str(), files[i].text.as_str(), paths) {
        Some(p) => find_place(paths, &p),
        None => None,
    };
    let stamping = match place {
        Some(k) => {
            proof {
                assert(before[k as int] == files@[k as int]@);
            }
            stamp_bundle(files[i].text.as_str(), Some(files[k].text.as_str().as_bytes()))
        },
        None => stamp_bundle(files[i].text.as_str(), None),
    };
    let carried = stamping.carried;
    let changed = stamping.stamped.is_some();
    let id = stamping.debug_id;
    if let Some(text) = stamping.stamped {
        if !dry_run {
            set_text(files, i, text);
        }
    }
    let ghost middle = file_views(files@);
    let mut stale = false;
    if let Some(k) = place {
        proof {
            assert(middle[k as int] == files@[k as int]@);
        }
        match write_map_debug_id(files[k].text.as_str(), files[k].path.as_str(), id.as_str()) {
            Ok(Some(text)) => {
                stale = true;
                if !dry_run {
                    set_text(files, k, text);
                }
            },
            Ok(None) => {},
            Err(e) => {
                return Err(e);
            },
        }
    }
    stats.record(carried, changed, stale);
    proof {
        let after = file_views(files@);
        if !dry_run && map_place(before, i as int) != Some(i as int) {
            assert(named_map(after[i as int].text) == named_map(before[i as int].text));
            lemma_map_place_stays(before, after, i as int);
        }
    }
    Ok(())
}

/// Stamps the bundles at the given places and their maps. Where no two bundles share a
/// map, and no map is itself one of the bundles, every bundle and map is settled after a
/// run that is no dry run, so that a further run changes nothing and counts each bundle as
/// one that carried an id already.
pub fn inject_paths(files: &mut Vec<SourceFile>, bundles: &Vec<usize>, dry_run: bool) -> (r: Result<
    InjectStats,
    Error,
>)
    requires
        forall|a: int| 0 <= a < bundles@.len() ==> #[trigger] bundles@[a] < old(files)@.len(),
        bundles@.len() <= u32::MAX,
    ensures
        final(files)@.len() == old(files)@.len(),
        ({
            let run = run_over(file_views(old(files)@), bundles@, dry_run);
            &&& file_views(final(files)@) == run.files
            &&& failure(r) == run.failed
            &&& r is Ok ==> {
                &&& r->Ok_0.js_injected == run.injected
                &&& r->Ok_0.js_already == run.already
                &&& r->Ok_0.js_registered == run.registered
                &&& r->Ok_0.maps_updated == run.updated
                &&& r->Ok_0.js_injected + r->Ok_0.js_already == bundles@.len()
            }
        }),
        r is Ok && !dry_run && apart(file_views(old(files)@), bundles@) ==> {
            &&& all_settled(file_views(final(files)@), bundles@)
            &&& forall|again: bool|
                #[trigger] run_over(file_views(final(files)@), bundles@, again) == (Progress {
                    files: file_views(final(files)@),
                    injected: 0,
                    already: bundles@.len(),
                    registered: 0,
                    updated: 0,
                    failed: None,
                })
        },
{
    let ghost start = file_views(files@);
    let mut paths: Vec<Vec<Part>> = Vec::new();
    let mut n: usize = 0;
    while n < files.len()
        invariant
            start == file_views(files@),
            n <= files@.len(),
            paths@.len() == n,
            forall|x: int|
                0 <= x < n ==> part_views(#[trigger] paths@[x]@) == path_parts(start[x].path),
        decreases files@.len() - n,
    {
        let p = parse_path(files[n].path.as_str());
        proof {
            assert(start[n as int] == files@[n as int]@);
        }
        paths.push(p);
        n += 1;
    }
    proof {
        assert(paths_of(paths@) =~= run_paths(start));
    }
    let mut stats = InjectStats::default();
    let mut t: usize = 0;
    proof {
        assert(bundles@.take(0) =~= Seq::empty());
    }
    while t < bundles.len()
        invariant
            t <= bundles@.len() <= u32::MAX,
            start == file_views(old(files)@),
            start.len() == files@.len(),
            forall|a: int| 0 <= a < bundles@.len() ==> #[trigger] bundles@[a] < start.len(),
            paths_of(paths@) == run_paths(start),
            progress(files@, stats, None) == run_over(start, bundles@.take(t as int), dry_run),
            stats.js_injected + stats.js_already == t,
            stats.js_registered <= t,
            stats.maps_updated <= t,
            !dry_run && apart(start, bundles@) ==> {
                &&& forall|a: int|
                    0 <= a < bundles@.len() ==> map_place(
                        file_views(files@),
                        #[trigger] bundles@[a] as int,
                    ) == map_place(start, bundles@[a] as int)
                &&& forall|a: int|
                    0 <= a < t ==> is_settled(file_views(files@), #[trigger] bundles@[a] as int)
            },
        decreases bundles@.len() - t,
    {
        let ghost before = file_views(files@);
        let i = bundles[t];
        proof {
            let done = bundles@.take(t as int);
            assert forall|a: int| 0 <= a < done.len() implies #[trigger] done[a] < start.len() by {
                assert(done[a] == bundles@[a]);
            }
            law_run_keeps_paths(start, done, dry_run);
            assert(run_paths(before) =~= run_paths(start)) by {
                assert forall|x: int| 0 <= x < start.len() implies run_paths(before)[x]
                    == run_paths(start)[x] by {
                    assert(before[x].path == start[x].path);
                }
            }
            assert(bundles@.take(t + 1).drop_last() =~= done);
            assert(bundles@.take(t + 1).last() == i);
            assert(bundles@[t as int] == i);
        }
        match inject_one(files, &paths, i, dry_run, &mut stats) {
            Ok(()) => {},
            Err(e) => {
                proof {
                    lemma_failure_stays(start, bundles@, t + 1, dry_run);
                }
                return Err(e);
            },
        }
        proof {
            let after = file_views(files@);
            if !dry_run && apart(start, bundles@) {
                assert(map_place(before, i as int) != Some(i as int));
                assert forall|a: int| 0 <= a < bundles@.len() implies map_place(
                    after,
                    #[trigger] bundles@[a] as int,
                ) == map_place(start, bundles@[a] as int) by {
                    lemma_bundle_after_step(start, before, after, bundles@, t as int, a);
                }
                assert forall|a: int| 0 <= a < t + 1 implies is_settled(
                    after,
                    #[trigger] bundles@[a] as int,
                ) by {
                    lemma_bundle_after_step(start, before, after, bundles@, t as int, a);
                }
            }
        }
        t += 1;
    }
    proof {
        assert(bundles@.take(t as int) =~= bundles@);
        if !dry_run && apart(start, bundles@) {
            let left = file_views(files@);
            assert(all_settled(left, bundles@));
            assert forall|again: bool| #[trigger]
                run_over(left, bundles@, again) == (Progress {
                    files: left,
                    injected: 0,
                    already: bundles@.len(),
                    registered: 0,
                    updated: 0,
                    failed: None,
                }) by {
                law_settled_run_changes_nothing(left, bundles@, again);
            }
        }
    }
    Ok(stats)
}

/// A bundle after the step of another, or of itself.
proof fn lemma_bundle_after_step(
    start: Seq<FileView>,
    before: Seq<FileView>,
    after: Seq<FileView>,
    bundles: Seq<usize>,
    t: int,
    a: int,
)
    requires
        apart(start, bundles),
        0 <= t < bundles.len(),
        0 <= a < bundles.len(),
        bundles[t] < before.len(),
        bundles[a] < before.len(),
        is_step(before, after, bundles[t] as int),
        map_place(before, bundles[t] as int) == map_place(start, bundles[t] as int),
        map_place(before, bundles[a] as int) == map_place(start, bundles[a] as int),
    ensures
        map_place(after, bundles[a] as int) == map_place(start, bundles[a] as int),
        a == t || is_settled(before, bundles[a] as int) ==> is_settled(after, bundles[a] as int),
{
    let j = bundles[t] as int;
    let i = bundles[a] as int;
    if i == j {
        lemma_map_place_stays(before, after, i);
    } else {
        lemma_step_keeps(before, after, j, i);
    }
}

/// A run that has failed stays as it is.
proof fn lemma_failure_stays(files: Seq<FileView>, bundles: Seq<usize>, t: int, dry_run: bool)
    requires
        0 <= t <= bundles.len(),
        run_over(files, bundles.take(t), dry_run).failed is Some,
    ensures
        run_over(files, bundles, dry_run) == run_over(files, bundles.take(t), dry_run),
    decreases bundles.len() - t,
{
    if t == bundles.len() {
        assert(bundles.take(t) =~= bundles);
    } else {
        assert(bundles.take(t + 1).drop_last() =~= bundles.take(t));
        lemma_failure_stays(files, bundles, t + 1, dry_run);
    }
}

/// What a run does with one more bundle that carries no id and has no map: it is stamped
/// with the id of its bytes and counted as stamped, and no other file changes.
pub proof fn law_bundles_without_an_id_are_stamped(s: Progress, i: int)
    requires
        0 <= i < s.files.len(),
        s.failed is None,
        carried_id(s.files[i].text) is None,
        map_place(s.files, i) is None,
    ensures
        ({
            let r = after_bundle(s, i, false);
            let text = s.files[i].text;
            let id = hyphenated_text(debug_id(encode_utf8(text), None));
            &&& r.failed is None
            &&& r.files.len() == s.files.len()
            &&& r.files[i].text == text + stub_text(id)
            &&& r.files[i].path == s.files[i].path
            &&& forall|k: int| 0 <= k < s.files.len() && k != i ==> #[trigger] r.files[k]
                == s.files[k]
            &&& r.injected == s.injected + 1
            &&& r.already == s.already
            &&& r.registered == s.registered
            &&& r.updated == s.updated
        }),
{
}

/// The map of a bundle gets the id of the bundle: the one that the bundle carries, or else
/// the one made of both as they were. Both are counted.
pub proof fn law_maps_get_the_id_of_their_bundle(s: Progress, i: int, k: int)
    requires
        0 <= i < s.files.len(),
        0 <= k < s.files.len(),
        i != k,
        s.failed is None,
        map_place(s.files, i) == Some(k),
        map_failure(s.files[k].text, s.files[k].path) is None,
    ensures
        ({
            let r = after_bundle(s, i, false);
            let text = s.files[i].text;
            let map = s.files[k].text;
            let fresh = hyphenated_text(debug_id(encode_utf8(text), Some(encode_utf8(map))));
            &&& r.failed is None
            &&& carried_id(text) is None ==> {
                &&& r.files[i].text == text + stub_text(fresh)
                &&& r.injected == s.injected + 1 && r.already == s.already
                &&& r.registered == s.registered
                &&& !map_carries(map, fresh) ==> r.files[k].text == map_with_id(map, fresh)
                    && r.updated == s.updated + 1
                &&& map_carries(map, fresh) ==> r.files[k].text == map && r.updated == s.updated
            }
            &&& carried_id(text) is Some ==> {
                let id = carried_id(text)->0;
                &&& r.injected == s.injected && r.already == s.already + 1
                &&& is_registered(text, id) ==> r.files[i].text == text && r.registered
                    == s.registered
                &&& !is_registered(text, id) ==> r.files[i].text == with_registration(text, id)
                    && r.registered == s.registered + 1
                &&& !map_carries(map, id) ==> r.files[k].text == map_with_id(map, id) && r.updated
                    == s.updated + 1
                &&& map_carries(map, id) ==> r.files[k].text == map && r.updated == s.updated
            }
        }),
{
}

/// A dry run counts what a run would do, bundle by bundle, and changes nothing.
pub proof fn law_dry_runs_count_alike(s: Progress, i: int)
    requires
        0 <= i < s.files.len(),
        map_place(s.files, i) != Some(i),
    ensures
        ({
            let dry = after_bundle(s, i, true);
            let wet = after_bundle(s, i, false);
            &&& dry.files == s.files
            &&& dry.injected == wet.injected
            &&& dry.already == wet.already
            &&& dry.registered == wet.registered
            &&& dry.updated == wet.updated
            &&& dry.failed == wet.failed
        }),
{
    lemma_map_place_inside(s.files, i);
}

/// A map that is refused ends the run, and nothing is counted any more.
pub proof fn law_refused_maps_end_the_run(s: Progress, i: int, k: int, dry_run: bool)
    requires
        0 <= i < s.files.len(),
        0 <= k < s.files.len(),
        i != k,
        map_place(s.files, i) == Some(k),
        s.failed is None,
        map_failure(s.files[k].text, s.files[k].path) is Some,
    ensures
        after_bundle(s, i, dry_run).failed == map_failure(s.files[k].text, s.files[k].path),
        after_bundle(s, i, dry_run).injected == s.injected,
        after_bundle(s, i, dry_run).already == s.already,
        after_bundle(after_bundle(s, i, dry_run), k, dry_run) == after_bundle(s, i, dry_run),
{
}

/// A bundle is settled where it carries an id and registers it, and its map carries the
/// same.
pub proof fn law_settled_bundles(files: Seq<FileView>, i: int)
    requires
        is_settled(files, i),
    ensures
        carried_id(files[i].text) is Some,
        is_registered(files[i].text, carried_id(files[i].text)->0),
        map_place(files, i) is Some ==> map_carries(
            files[map_place(files, i)->0].text,
            carried_id(files[i].text)->0,
        ),
{
}

} // verus!

//! The dependency graph of an iOS project: where its manifests are looked for,
//! what a linked binary loads, and what all of them come to together.
use crate::dep_entry::{Dep, DepEntry, dep_id, deps, law_ids_of_libraries, make_dep_id};
use crate::dep_merge::{capped, closed_under_parents, dep_sources, merge_dep_entries, merged};
use crate::manifests::{
    cartfile_entries, package_entries, parse_cartfile_resolved, parse_package_resolved,
};
use crate::order::{lemma_less_irreflexive, lemma_less_transitive, lex_less, precedes};
use crate::paths::{
    Part, PathPart, extension_of, file_name, has_extension, has_path, join_path, joined_path,
    last_name, law_absolute_paths_have_their_names, opt_path, parent, parent_path, parse_path,
    part_views, path_parts, paths_of,
};
use crate::patterns::{
    OTOOL_FRAMEWORK, OTOOL_LINE, capture_framework, capture_otool_line, first_framework,
    framework_in, is_framework_dir, law_load_paths_come_first, otool_load_path,
};
use crate::podfile::{has_string, parse_podfile_lock, podfile_entries};
use crate::text::{
    cat2, has_prefix, has_suffix, joined, law_prefixes_and_suffixes, lemma_pieces_append,
    lemma_pieces_single, line_seq, lines, lossy_text, opt_str, starts_with, strs, to_chars,
    utf8_lossy,
};
use vstd::prelude::*;
use vstd::string::*;

verus! {

/// The most entries that a collection returns.
pub const DEPENDENCIES_MAX_COUNT: usize = 5000;

/// The most bytes of `otool` output that are read.
pub const MAX_OTOOL_STDOUT_BYTES: usize = 16777216;

/// How many directories, from the start upwards, are searched for a manifest.
pub const MAX_CLIMB: usize = 6;

/// The `ios-deps` commands.
#[derive(Debug)]
pub enum IosDepsCommand {
    /// Collect the dependencies of a project.
    Collect(CollectArgs),
}

/// The arguments of a collection.
#[derive(Debug)]
pub struct CollectArgs {
    pub project_root: String,
    pub product_binary: Option<String>,
    pub max_entries: usize,
}

/// What a collection returns.
#[derive(Debug, Clone)]
pub struct CollectResult {
    pub entries: Vec<DepEntry>,
    /// Always `all`.
    pub scope_label: String,
    /// Whether the cap made the list shorter.
    pub truncated: bool,
}

/// The nearest of the files `<dir>/<filename>`, `<parent>/<filename>`, … that
/// exists, over at most `levels` directories.
pub open spec fn nearest_above(
    dir: Seq<PathPart>,
    filename: Seq<char>,
    files: Seq<Seq<PathPart>>,
    levels: nat,
) -> Option<Seq<PathPart>>
    decreases levels,
{
    if levels == 0 {
        None
    } else if files.contains(joined_path(dir, filename)) {
        Some(joined_path(dir, filename))
    } else {
        match parent_path(dir) {
            Some(up) => nearest_above(up, filename, files, (levels - 1) as nat),
            None => None,
        }
    }
}

fn climb(dir: &Vec<Part>, filename: &str, files: &Vec<Vec<Part>>, levels: usize) -> (r: Option<
    Vec<Part>,
>)
    ensures
        match r {
            Some(p) => nearest_above(part_views(dir@), filename@, paths_of(files@), levels as nat)
                == Some(part_views(p@)),
            None => nearest_above(part_views(dir@), filename@, paths_of(files@), levels as nat)
                is None,
        },
    decreases levels,
{
    if levels == 0 {
        return None;
    }
    let candidate = join_path(dir, filename);
    if has_path(files, &candidate) {
        return Some(candidate);
    }
    match parent(dir) {
        Some(up) => climb(&up, filename, files, levels - 1),
        None => None,
    }
}

/// The file `filename` in `start_dir` or the nearest directory above it.
/// `start_dir` is an absolute path, or empty where there is none; `files` are
/// the files that exist.
pub fn find_first_above(start_dir: &str, filename: &str, files: &Vec<Vec<Part>>) -> (r: Option<
    Vec<Part>,
>)
    ensures
        match r {
            Some(p) => start_dir@.len() > 0 && nearest_above(
                path_parts(start_dir@),
                filename@,
                paths_of(files@),
                MAX_CLIMB as nat,
            ) == Some(part_views(p@)),
            None => start_dir@.len() == 0 || nearest_above(
                path_parts(start_dir@),
                filename@,
                paths_of(files@),
                MAX_CLIMB as nat,
            ) is None,
        },
{
    if start_dir.is_empty() {
        return None;
    }
    let dir = parse_path(start_dir);
    climb(&dir, filename, files, MAX_CLIMB)
}

/// `dir` with `n` parts taken off its end.
pub open spec fn up_by(dir: Seq<PathPart>, n: nat) -> Seq<PathPart> {
    dir.take(dir.len() - n)
}

/// A manifest that is found is `filename` in one of the first `levels`
/// directories from `dir` upwards, and none nearer has it.
pub proof fn law_nearest_is_nearest(
    dir: Seq<PathPart>,
    filename: Seq<char>,
    files: Seq<Seq<PathPart>>,
    levels: nat,
)
    requires
        nearest_above(dir, filename, files, levels) is Some,
    ensures
        exists|n: nat|
            n < levels && n <= dir.len() && files.contains(
                joined_path(#[trigger] up_by(dir, n), filename),
            ) && nearest_above(dir, filename, files, levels) == Some(
                joined_path(up_by(dir, n), filename),
            ) && forall|m: nat|
                m < n ==> !files.contains(joined_path(#[trigger] up_by(dir, m), filename)),
    decreases levels,
{
    assert(up_by(dir, 0) =~= dir);
    if !files.contains(joined_path(dir, filename)) {
        let up = parent_path(dir)->0;
        law_nearest_is_nearest(up, filename, files, (levels - 1) as nat);
        let n = choose|n: nat|
            n < levels - 1 && n <= up.len() && files.contains(
                joined_path(#[trigger] up_by(up, n), filename),
            ) && nearest_above(up, filename, files, (levels - 1) as nat) == Some(
                joined_path(up_by(up, n), filename),
            ) && forall|m: nat|
                m < n ==> !files.contains(joined_path(#[trigger] up_by(up, m), filename));
        assert(up_by(dir, n + 1) =~= up_by(up, n));
        assert forall|m: nat| m < n + 1 implies !files.contains(
            joined_path(#[trigger] up_by(dir, m), filename),
        ) by {
            if m > 0 {
                assert(up_by(dir, m) =~= up_by(up, (m - 1) as nat));
            }
        }
    } else {
        assert(files.contains(joined_path(up_by(dir, 0), filename)));
    }
}

/// Where Xcode keeps the resolved packages inside a bundle of the given kind.
pub open spec fn nested_resolved(name: Seq<char>, workspace: bool) -> Seq<char> {
    if workspace {
        name + "/xcshareddata/swiftpm/Package.resolved"@
    } else {
        name + "/project.xcworkspace/xcshareddata/swiftpm/Package.resolved"@
    }
}

pub open spec fn bundle_extension(workspace: bool) -> Seq<char> {
    if workspace {
        "xcworkspace"@
    } else {
        "xcodeproj"@
    }
}

/// A directory that is a bundle of the given kind with resolved packages in it.
pub open spec fn holds_resolved(name: Seq<char>, files: Seq<Seq<char>>, workspace: bool) -> bool {
    extension_of(name) == Some(bundle_extension(workspace)) && files.contains(
        nested_resolved(name, workspace),
    )
}

/// The first bundle, in the order of names, of the given kind that holds
/// resolved packages.
pub open spec fn least_bundle(
    dirs: Seq<Seq<char>>,
    files: Seq<Seq<char>>,
    workspace: bool,
) -> Option<Seq<char>>
    decreases dirs.len(),
{
    if dirs.len() == 0 {
        None
    } else {
        let r = least_bundle(dirs.drop_last(), files, workspace);
        let d = dirs.last();
        if holds_resolved(d, files, workspace) && (r is None || lex_less(d, r->0)) {
            Some(d)
        } else {
            r
        }
    }
}

fn find_least_bundle(dirs: &Vec<String>, files: &Vec<String>, workspace: bool) -> (r: Option<
    String,
>)
    ensures
        opt_str(r) == least_bundle(strs(dirs@), strs(files@), workspace),
{
    let ghost all = strs(dirs@);
    let mut best: Option<String> = None;
    let mut i: usize = 0;
    while i < dirs.len()
        invariant
            i <= dirs@.len(),
            all == strs(dirs@),
            opt_str(best) == least_bundle(all.take(i as int), strs(files@), workspace),
        decreases dirs@.len() - i,
    {
        let d = dirs[i].as_str();
        proof {
            assert(all.take(i + 1).drop_last() =~= all.take(i as int));
            assert(all.take(i + 1).last() == d@);
        }
        let ext = if workspace {
            "xcworkspace"
        } else {
            "xcodeproj"
        };
        let nested = if workspace {
            cat2(d, "/xcshareddata/swiftpm/Package.resolved")
        } else {
            cat2(d, "/project.xcworkspace/xcshareddata/swiftpm/Package.resolved")
        };
        if has_extension(d, ext) && has_string(files, &nested) {
            let better = match &best {
                None => true,
                Some(b) => {
                    let x = to_chars(d);
                    let y = to_chars(b.as_str());
                    precedes(&x, &y)
                },
            };
            if better {
                best = Some(dirs[i].clone());
            }
        }
        i += 1;
    }
    proof {
        assert(all.take(i as int) =~= all);
    }
    best
}

/// The resolved packages that Xcode manages in one of the bundles of a
/// directory; a workspace comes before a project. `dirs` are the names of the
/// directories in it, `files` the paths from it that are files.
pub open spec fn xcode_resolved(dirs: Seq<Seq<char>>, files: Seq<Seq<char>>) -> Option<Seq<char>> {
    match least_bundle(dirs, files, true) {
        Some(w) => Some(nested_resolved(w, true)),
        None => match least_bundle(dirs, files, false) {
            Some(p) => Some(nested_resolved(p, false)),
            None => None,
        },
    }
}

/// The resolved packages that Xcode manages in a bundle of a directory.
pub fn find_xcode_spm_resolved(dirs: &Vec<String>, files: &Vec<String>) -> (r: Option<String>)
    ensures
        opt_str(r) == xcode_resolved(strs(dirs@), strs(files@)),
{
    match find_least_bundle(dirs, files, true) {
        Some(w) => Some(cat2(w.as_str(), "/xcshareddata/swiftpm/Package.resolved")),
        None => match find_least_bundle(dirs, files, false) {
            Some(p) => Some(
                cat2(p.as_str(), "/project.xcworkspace/xcshareddata/swiftpm/Package.resolved"),
            ),
            None => None,
        },
    }
}

/// The files that tell the dependencies of a project.
#[derive(Debug, PartialEq, Eq)]
pub struct Manifests {
    pub podfile: Option<Vec<Part>>,
    pub package_resolved: Option<Vec<Part>>,
    pub cartfile: Option<Vec<Part>>,
}

/// The file `filename` in `root` or the nearest directory above it.
pub open spec fn found_above(
    root: Seq<char>,
    filename: Seq<char>,
    files: Seq<Seq<PathPart>>,
) -> Option<Seq<PathPart>> {
    if root.len() == 0 {
        None
    } else {
        nearest_above(path_parts(root), filename, files, MAX_CLIMB as nat)
    }
}

/// The resolved packages of a project: beside it or above, or else in a bundle of
/// Xcode's in it, or else in the shared data of a workspace.
pub open spec fn resolved_packages(
    root: Seq<char>,
    files: Seq<Seq<PathPart>>,
    dirs: Seq<Seq<char>>,
    inside: Seq<Seq<char>>,
) -> Option<Seq<PathPart>> {
    let above = found_above(root, "Package.resolved"@, files);
    if above is Some {
        above
    } else {
        match xcode_resolved(dirs, inside) {
            Some(rel) => Some(joined_path(path_parts(root), rel)),
            None => found_above(root, "xcshareddata/swiftpm/Package.resolved"@, files),
        }
    }
}

/// The files that tell the dependencies of the project in `root`, an absolute path.
/// `files` are the files that exist, `dirs` the names of the directories in `root`,
/// `inside` the paths from it that are files.
pub fn locate_manifests(
    root: &str,
    files: &Vec<Vec<Part>>,
    dirs: &Vec<String>,
    inside: &Vec<String>,
) -> (r: Manifests)
    ensures
        opt_path(r.podfile) == found_above(root@, "Podfile.lock"@, paths_of(files@)),
        opt_path(r.package_resolved) == resolved_packages(
            root@,
            paths_of(files@),
            strs(dirs@),
            strs(inside@),
        ),
        opt_path(r.cartfile) == found_above(root@, "Cartfile.resolved"@, paths_of(files@)),
{
    let podfile = find_first_above(root, "Podfile.lock", files);
    let cartfile = find_first_above(root, "Cartfile.resolved", files);
    let package_resolved = match find_first_above(root, "Package.resolved", files) {
        Some(p) => Some(p),
        None => match find_xcode_spm_resolved(dirs, inside) {
            Some(rel) => {
                let dir = parse_path(root);
                Some(join_path(&dir, rel.as_str()))
            },
            None => find_first_above(root, "xcshareddata/swiftpm/Package.resolved", files),
        },
    };
    Manifests { podfile, package_resolved, cartfile }
}

/// A library that is loaded from within the app, not from the system.
pub open spec fn is_vendored(load_path: Seq<char>) -> bool {
    has_prefix(load_path, "@rpath/"@) || has_prefix(load_path, "@executable_path/"@) || has_prefix(
        load_path,
        "@loader_path/"@,
    )
}

/// The name of a loaded library: the framework bundle it stands in, or else its
/// file name.
pub open spec fn library_name(load_path: Seq<char>) -> Seq<char> {
    match framework_in(load_path) {
        Some(f) => f,
        None => match last_name(path_parts(load_path)) {
            Some(n) => n,
            None => Seq::empty(),
        },
    }
}

/// The library that a line of `otool -L` output tells of.
pub open spec fn vendored_name(line: Seq<char>) -> Option<Seq<char>> {
    match otool_load_path(line) {
        Some(p) => if is_vendored(p) {
            Some(library_name(p))
        } else {
            None
        },
        None => None,
    }
}

/// The libraries that the lines tell of, each once, in order.
pub open spec fn vendored_names(lines: Seq<Seq<char>>) -> Seq<Seq<char>>
    decreases lines.len(),
{
    if lines.len() == 0 {
        Seq::empty()
    } else {
        let r = vendored_names(lines.drop_last());
        match vendored_name(lines.last()) {
            Some(n) => if r.contains(n) {
                r
            } else {
                r.push(n)
            },
            None => r,
        }
    }
}

/// The entry of a vendored library.
pub open spec fn file_dep(name: Seq<char>) -> Dep {
    Dep {
        id: dep_id("file"@, Seq::empty(), name),
        group: Seq::empty(),
        name,
        version: None,
        direct: true,
        scope: None,
        type_: "file"@,
        parents: Seq::empty(),
        url: None,
    }
}

pub open spec fn file_deps(names: Seq<Seq<char>>) -> Seq<Dep> {
    names.map_values(|n: Seq<char>| file_dep(n))
}

fn name_of_library(load_path: &str) -> (r: String)
    ensures
        r@ == library_name(load_path@),
{
    match capture_framework(OTOOL_FRAMEWORK, load_path) {
        Some(f) => f,
        None => {
            let parts = parse_path(load_path);
            match file_name(&parts) {
                Some(n) => n,
                None => String::new(),
            }
        },
    }
}

fn read_vendored(line: &str) -> (r: Option<String>)
    ensures
        opt_str(r) == vendored_name(line@),
{
    match capture_otool_line(OTOOL_LINE, line) {
        None => None,
        Some(p) => {
            let path = p.as_str();
            if starts_with(path, "@rpath/") || starts_with(path, "@executable_path/")
                || starts_with(path, "@loader_path/") {
                Some(name_of_library(path))
            } else {
                None
            }
        },
    }
}

fn file_entry(name: String) -> (r: DepEntry)
    ensures
        r@ == file_dep(name@),
{
    let parents: Vec<String> = Vec::new();
    let r = DepEntry {
        id: make_dep_id("file", "", name.as_str()),
        group: String::new(),
        name,
        version: None,
        direct: true,
        scope: None,
        type_: "file".to_owned(),
        parents,
        url: None,
    };
    proof {
        reveal_strlit("");
        assert(""@ =~= Seq::<char>::empty());
        assert(strs(r.parents@) =~= Seq::empty());
    }
    r
}

/// The vendored libraries that the output of `otool -L` lists.
pub fn parse_otool_output(stdout: &str) -> (r: Vec<DepEntry>)
    ensures
        deps(r@) == file_deps(vendored_names(line_seq(stdout@))),
{
    let all = lines(stdout);
    let ghost ls = strs(all@);
    let mut seen: Vec<String> = Vec::new();
    let mut out: Vec<DepEntry> = Vec::new();
    let mut i: usize = 0;
    proof {
        assert(strs(seen@) =~= vendored_names(ls.take(0)));
        assert(deps(out@) =~= file_deps(strs(seen@)));
    }
    while i < all.len()
        invariant
            i <= all@.len(),
            ls == strs(all@),
            strs(seen@) == vendored_names(ls.take(i as int)),
            deps(out@) == file_deps(strs(seen@)),
        decreases all@.len() - i,
    {
        proof {
            assert(ls.take(i + 1).drop_last() =~= ls.take(i as int));
            assert(ls.take(i + 1).last() == all@[i as int]@);
        }
        match read_vendored(all[i].as_str()) {
            None => {},
            Some(name) => {
                if !has_string(&seen, &name) {
                    let e = file_entry(name.clone());
                    proof {
                        assert(strs(seen@.push(name)) =~= strs(seen@).push(name@));
                        assert(deps(out@.push(e)) =~= deps(out@).push(e@));
                        assert(file_deps(strs(seen@).push(name@)) =~= file_deps(strs(seen@)).push(
                            file_dep(name@),
                        ));
                    }
                    seen.push(name);
                    out.push(e);
                }
            },
        }
        i += 1;
    }
    proof {
        assert(ls.take(i as int) =~= ls);
    }
    out
}

/// Appends what a stream gave to `out`, at most one byte more than `cap`, so
/// that an output over the cap can be told from one that just fits. `stream` is
/// what could be read, or `None` where reading failed; the result says which.
pub fn bounded_read_to_end(stream: Option<&[u8]>, out: &mut Vec<u8>, cap: usize) -> (r: bool)
    ensures
        r == stream is Some,
        stream is None ==> final(out)@ == old(out)@,
        stream is Some ==> final(out)@ == old(out)@ + (if stream->0@.len() <= cap {
            stream->0@
        } else {
            stream->0@.take(cap + 1)
        }),
{
    match stream {
        None => false,
        Some(data) => {
            let n: usize = if data.len() <= cap {
                data.len()
            } else {
                cap + 1
            };
            let ghost base = out@;
            let mut i: usize = 0;
            while i < n
                invariant
                    i <= n <= data@.len(),
                    out@ == base + data@.take(i as int),
                decreases n - i,
            {
                out.push(data[i]);
                proof {
                    assert(data@.take(i + 1) =~= data@.take(i as int).push(data@[i as int]));
                    assert(out@ =~= base + data@.take(i + 1));
                }
                i += 1;
            }
            proof {
                assert(data@.take(data@.len() as int) =~= data@);
            }
            true
        },
    }
}

/// How a run of `otool -L` went.
#[derive(Debug)]
pub struct OtoolRun {
    /// Whether the binary is a file at all.
    pub is_file: bool,
    /// What was read of the output, one byte over the cap at most; `None` where
    /// the tool could not be started or read.
    pub stdout: Option<Vec<u8>>,
    /// Whether the tool reported success.
    pub success: bool,
}

/// The vendored libraries that a run of `otool -L` lists. A run that failed, or
/// whose output is over the cap, lists none.
pub open spec fn vendored_of(run: OtoolRun) -> Seq<Dep> {
    if run.is_file && run.success && run.stdout is Some && run.stdout->0@.len()
        <= MAX_OTOOL_STDOUT_BYTES {
        file_deps(vendored_names(line_seq(utf8_lossy(run.stdout->0@))))
    } else {
        Seq::empty()
    }
}

/// The vendored libraries that a run of `otool -L` lists.
pub fn parse_vendored_frameworks(run: &OtoolRun) -> (r: Vec<DepEntry>)
    ensures
        deps(r@) == vendored_of(*run),
{
    let none: Vec<DepEntry> = Vec::new();
    proof {
        assert(deps(none@) =~= Seq::empty());
    }
    if !run.is_file || !run.success {
        return none;
    }
    match &run.stdout {
        Some(bytes) => {
            if bytes.len() > MAX_OTOOL_STDOUT_BYTES {
                return none;
            }
            let text = lossy_text(bytes.as_slice());
            parse_otool_output(text.as_str())
        },
        None => none,
    }
}

/// What the manifests of a project come to: pods, then packages, then Carthage,
/// then vendored libraries.
pub open spec fn collected(
    podfile: Option<Seq<char>>,
    package_resolved: Option<Seq<char>>,
    cartfile: Option<Seq<char>>,
    otool: Option<OtoolRun>,
) -> Seq<Seq<Dep>> {
    seq![
        match podfile {
            Some(t) => podfile_entries(t),
            None => Seq::empty(),
        },
        match package_resolved {
            Some(t) => package_entries(t),
            None => Seq::empty(),
        },
        match cartfile {
            Some(t) => cartfile_entries(line_seq(t)),
            None => Seq::empty(),
        },
        match otool {
            Some(run) => vendored_of(run),
            None => Seq::empty(),
        },
    ]
}

/// Merges what the manifests of a project say, each given by its text where it was
/// found, and what `otool` says of the product where there is one.
pub fn collect(
    podfile: Option<String>,
    package_resolved: Option<String>,
    cartfile: Option<String>,
    otool: Option<OtoolRun>,
    max_entries: usize,
) -> (r: CollectResult)
    ensures
        ({
            let all = merged(
                collected(opt_str(podfile), opt_str(package_resolved), opt_str(cartfile), otool),
            );
            &&& deps(r.entries@) == closed_under_parents(capped(all, max_entries as nat))
            &&& r.truncated == (all.len() > max_entries)
        }),
        r.scope_label@ == "all"@,
{
    let pods: Vec<DepEntry> = match &podfile {
        Some(t) => parse_podfile_lock(t.as_str()),
        None => Vec::new(),
    };
    let spm: Vec<DepEntry> = match &package_resolved {
        Some(t) => parse_package_resolved(t.as_str()),
        None => Vec::new(),
    };
    let cart: Vec<DepEntry> = match &cartfile {
        Some(t) => parse_cartfile_resolved(t.as_str()),
        None => Vec::new(),
    };
    let vendored: Vec<DepEntry> = match &otool {
        Some(run) => parse_vendored_frameworks(run),
        None => Vec::new(),
    };
    proof {
        assert(podfile is None ==> deps(pods@) =~= Seq::empty());
        assert(package_resolved is None ==> deps(spm@) =~= Seq::empty());
        assert(cartfile is None ==> deps(cart@) =~= Seq::empty());
        assert(otool is None ==> deps(vendored@) =~= Seq::empty());
    }
    let mut sources: Vec<Vec<DepEntry>> = Vec::new();
    sources.push(pods);
    sources.push(spm);
    sources.push(cart);
    sources.push(vendored);
    proof {
        assert(dep_sources(sources@) =~= collected(
            opt_str(podfile),
            opt_str(package_resolved),
            opt_str(cartfile),
            otool,
        ));
    }
    let m = merge_dep_entries(sources, max_entries);
    CollectResult { entries: m.0, scope_label: "all".to_owned(), truncated: m.1 }
}

/// What stands beside the project comes before what stands above it, and what stands in
/// neither is not found.
pub proof fn law_manifests_beside_come_first(
    dir: Seq<PathPart>,
    filename: Seq<char>,
    files: Seq<Seq<PathPart>>,
    levels: nat,
)
    requires
        levels > 0,
    ensures
        files.contains(joined_path(dir, filename)) ==> nearest_above(dir, filename, files, levels)
            == Some(joined_path(dir, filename)),
        !files.contains(joined_path(dir, filename)) && dir.len() > 0 && dir.last()
            != PathPart::Root ==> nearest_above(dir, filename, files, levels) == nearest_above(
            dir.drop_last(),
            filename,
            files,
            (levels - 1) as nat,
        ),
        files.len() == 0 ==> nearest_above(dir, filename, files, levels) is None,
    decreases levels,
{
    if files.len() == 0 && levels > 1 {
        match parent_path(dir) {
            Some(up) => {
                law_manifests_beside_come_first(up, filename, files, (levels - 1) as nat);
            },
            None => {},
        }
    }
}

/// Manifests are looked for in six directories: the one of the project and the five above.
pub proof fn law_how_far_manifests_are_looked_for(
    root: Seq<char>,
    filename: Seq<char>,
    files: Seq<Seq<PathPart>>,
)
    ensures
        root.len() > 0 ==> found_above(root, filename, files) == nearest_above(
            path_parts(root),
            filename,
            files,
            6,
        ),
        root.len() == 0 ==> found_above(root, filename, files) is None,
{
}

/// Where the resolved packages come from: a `Package.resolved` beside or above the project;
/// or else the one that a workspace in it keeps, or else a project; or else the shared data.
pub proof fn law_resolved_packages_by_preference(
    root: Seq<char>,
    files: Seq<Seq<PathPart>>,
    dirs: Seq<Seq<char>>,
    inside: Seq<Seq<char>>,
)
    ensures
        ({
            let r = resolved_packages(root, files, dirs, inside);
            let above = found_above(root, "Package.resolved"@, files);
            let workspace = least_bundle(dirs, inside, true);
            let project = least_bundle(dirs, inside, false);
            &&& above is Some ==> r == above
            &&& above is None && workspace is Some ==> r == Some(
                joined_path(
                    path_parts(root),
                    workspace->0 + "/xcshareddata/swiftpm/Package.resolved"@,
                ),
            )
            &&& above is None && workspace is None && project is Some ==> r == Some(
                joined_path(
                    path_parts(root),
                    project->0 + "/project.xcworkspace/xcshareddata/swiftpm/Package.resolved"@,
                ),
            )
            &&& above is None && workspace is None && project is None ==> r == found_above(
                root,
                "xcshareddata/swiftpm/Package.resolved"@,
                files,
            )
        }),
{
}

/// Of several bundles the first by name is taken, of those that hold resolved packages.
pub proof fn law_first_bundle_by_name(
    dirs: Seq<Seq<char>>,
    files: Seq<Seq<char>>,
    workspace: bool,
    k: int,
)
    requires
        0 <= k < dirs.len(),
    ensures
        workspace && extension_of(dirs[k]) == Some("xcworkspace"@) && files.contains(
            dirs[k] + "/xcshareddata/swiftpm/Package.resolved"@,
        ) ==> least_bundle(dirs, files, true) is Some && !lex_less(
            dirs[k],
            least_bundle(dirs, files, true)->0,
        ),
        !workspace && extension_of(dirs[k]) == Some("xcodeproj"@) && files.contains(
            dirs[k] + "/project.xcworkspace/xcshareddata/swiftpm/Package.resolved"@,
        ) ==> least_bundle(dirs, files, false) is Some && !lex_less(
            dirs[k],
            least_bundle(dirs, files, false)->0,
        ),
        least_bundle(dirs, files, workspace) is Some ==> {
            let b = least_bundle(dirs, files, workspace)->0;
            &&& dirs.contains(b)
            &&& workspace ==> extension_of(b) == Some("xcworkspace"@) && files.contains(
                b + "/xcshareddata/swiftpm/Package.resolved"@,
            )
            &&& !workspace ==> extension_of(b) == Some("xcodeproj"@) && files.contains(
                b + "/project.xcworkspace/xcshareddata/swiftpm/Package.resolved"@,
            )
        },
    decreases dirs.len(),
{
    lemma_least_bundle(dirs, files, workspace, k);
}

proof fn lemma_least_bundle(
    dirs: Seq<Seq<char>>,
    files: Seq<Seq<char>>,
    workspace: bool,
    k: int,
)
    requires
        0 <= k < dirs.len(),
    ensures
        holds_resolved(dirs[k], files, workspace) ==> least_bundle(dirs, files, workspace) is Some
            && !lex_less(dirs[k], least_bundle(dirs, files, workspace)->0),
        least_bundle(dirs, files, workspace) is Some ==> dirs.contains(
            least_bundle(dirs, files, workspace)->0,
        ) && holds_resolved(least_bundle(dirs, files, workspace)->0, files, workspace),
    decreases dirs.len(),
{
    let d = dirs.drop_last();
    let r = least_bundle(d, files, workspace);
    let out = least_bundle(dirs, files, workspace);
    let last = dirs.last();
    assert(dirs[dirs.len() - 1] == last);
    lemma_less_irreflexive(last);
    if d.len() > 0 {
        lemma_least_bundle(d, files, workspace, 0);
        if k < d.len() {
            lemma_least_bundle(d, files, workspace, k);
            assert(d[k] == dirs[k]);
        }
        if r is Some {
            let j = choose|j: int| 0 <= j < d.len() && d[j] == r->0;
            assert(dirs[j] == r->0);
            if lex_less(last, r->0) && lex_less(dirs[k], last) {
                lemma_less_transitive(dirs[k], last, r->0);
            }
        }
    }
}

/// The libraries that are told are those that the lines load from within the app, each of
/// them once.
pub proof fn law_libraries_are_told_once(lines: Seq<Seq<char>>, name: Seq<char>)
    ensures
        vendored_names(lines).contains(name) <==> exists|k: int|
            0 <= k < lines.len() && vendored_name(#[trigger] lines[k]) == Some(name),
        vendored_names(lines).no_duplicates(),
    decreases lines.len(),
{
    if lines.len() > 0 {
        let d = lines.drop_last();
        law_libraries_are_told_once(d, name);
        let r = vendored_names(d);
        let out = vendored_names(lines);
        assert(lines[lines.len() - 1] == lines.last());
        if exists|k: int| 0 <= k < d.len() && vendored_name(#[trigger] d[k]) == Some(name) {
            let k = choose|k: int| 0 <= k < d.len() && vendored_name(#[trigger] d[k]) == Some(name);
            assert(lines[k] == d[k]);
        }
        if exists|k: int| 0 <= k < lines.len() && vendored_name(#[trigger] lines[k]) == Some(name) {
            let k = choose|k: int|
                0 <= k < lines.len() && vendored_name(#[trigger] lines[k]) == Some(name);
            if k < d.len() {
                assert(d[k] == lines[k]);
            }
        }
        match vendored_name(lines.last()) {
            Some(n) => {
                if !r.contains(n) {
                    assert(out[r.len() as int] == n);
                    if r.contains(name) {
                        let k = choose|k: int| 0 <= k < r.len() && r[k] == name;
                        assert(out[k] == name);
                    }
                    if out.contains(name) && name != n {
                        let k = choose|k: int| 0 <= k < out.len() && out[k] == name;
                        assert(r[k] == name);
                    }
                    assert forall|a: int, b: int|
                        0 <= a < out.len() && 0 <= b < out.len() && a != b implies out[a]
                        != out[b] by {
                        if a < r.len() && b < r.len() {
                            assert(r[a] != r[b]);
                        } else if a < r.len() {
                            assert(r.contains(r[a]));
                        } else {
                            assert(r.contains(r[b]));
                        }
                    }
                }
            },
            None => {},
        }
    }
}

/// A library is loaded from within the app where its path begins with `@rpath/`,
/// `@executable_path/` or `@loader_path/`; a path from the root of the disk is the system's.
pub proof fn law_libraries_from_within(rest: Seq<char>)
    ensures
        is_vendored("@rpath/"@ + rest),
        is_vendored("@executable_path/"@ + rest),
        is_vendored("@loader_path/"@ + rest),
        !is_vendored(seq!['/'] + rest),
{
    law_prefixes_and_suffixes("@rpath/"@, rest);
    law_prefixes_and_suffixes("@executable_path/"@, rest);
    law_prefixes_and_suffixes("@loader_path/"@, rest);
    reveal_strlit("@rpath/");
    reveal_strlit("@executable_path/");
    reveal_strlit("@loader_path/");
    let s = seq!['/'] + rest;
    assert(s[0] == '/');
    assert(has_prefix(s, "@rpath/"@) ==> s.take(7)[0] == '@');
    assert(has_prefix(s, "@executable_path/"@) ==> s.take(17)[0] == '@');
    assert(has_prefix(s, "@loader_path/"@) ==> s.take(13)[0] == '@');
}

/// A library in a framework is told by the framework, any other by its file name.
pub proof fn law_frameworks_are_told(name: Seq<char>)
    requires
        name.len() > 0,
        !name.contains('/'),
        name != "."@,
        name != ".."@,
        !has_suffix(name, ".framework"@),
    ensures
        library_name("@rpath/"@ + name + ".framework/"@ + name) == name + ".framework"@,
        library_name("@rpath/"@ + name) == name,
{
    reveal_strlit("@rpath/");
    reveal_strlit(".framework/");
    reveal_strlit(".framework");
    reveal_strlit("@rpath");
    reveal_strlit(".");
    reveal_strlit("..");
    let a = "@rpath"@;
    let f = name + ".framework"@;
    let dirs = seq![a, f, name];
    assert("@rpath/"@ =~= a + seq!['/']);
    assert(".framework/"@ =~= ".framework"@ + seq!['/']);
    let p = "@rpath/"@ + name + ".framework/"@ + name;
    assert(!a.contains('/'));
    assert(!f.contains('/')) by {
        if f.contains('/') {
            let k = choose|k: int| 0 <= k < f.len() && f[k] == '/';
            if k < name.len() {
                assert(f[k] == name[k]);
                assert(name.contains(name[k]));
            } else {
                assert(f[k] == ".framework"@[k - name.len()]);
            }
        }
    }
    assert(p =~= a + seq!['/'] + f + seq!['/'] + name);
    lemma_pieces_single(a, '/');
    lemma_pieces_append(a, '/', f);
    lemma_pieces_append(a + seq!['/'] + f, '/', name);
    assert(seq![a].push(f).push(name) =~= dirs);
    law_prefixes_and_suffixes(name, ".framework"@);
    assert(is_framework_dir(dirs[1]));
    assert(framework_in(p) == Some(f));
    let q = "@rpath/"@ + name;
    assert(q =~= a + seq!['/'] + name);
    lemma_pieces_append(a, '/', name);
    let two = seq![a].push(name);
    assert(two =~= seq![a, name]);
    assert(first_framework(two) is None);
    assert(joined(two, seq!['/']) =~= q) by {
        assert(two.drop_last() =~= seq![a]);
        assert(joined(seq![a], seq!['/']) == a);
        assert(joined(two, seq!['/']) == joined(two.drop_last(), seq!['/']) + seq!['/']
            + two.last());
    }
    law_absolute_paths_have_their_names(two);
    assert(last_name(path_parts(q)) == Some(name));
}

/// A run of `otool` that failed, or told too much, tells nothing; the entry of a library is
/// a direct file.
pub proof fn law_failed_runs_tell_nothing(run: OtoolRun, name: Seq<char>)
    ensures
        !run.is_file || !run.success || run.stdout is None || run.stdout->0@.len() > 16777216
            ==> vendored_of(run).len() == 0,
        run.is_file && run.success && run.stdout is Some && run.stdout->0@.len() <= 16777216
            ==> vendored_of(run) == file_deps(
            vendored_names(line_seq(utf8_lossy(run.stdout->0@))),
        ),
        file_dep(name).id == "file::"@ + name,
        file_dep(name).name == name,
        file_dep(name).type_ == "file"@,
        file_dep(name).direct,
        file_dep(name).version is None,
        file_dep(name).url is None,
{
    law_ids_of_libraries(name);
}

/// Pods come before packages, packages before Carthage, and all of them before vendored
/// libraries; a manifest that is not there tells nothing.
pub proof fn law_manifests_in_their_order(
    podfile: Option<Seq<char>>,
    package_resolved: Option<Seq<char>>,
    cartfile: Option<Seq<char>>,
    otool: Option<OtoolRun>,
)
    ensures
        ({
            let c = collected(podfile, package_resolved, cartfile, otool);
            &&& c.len() == 4
            &&& podfile is Some ==> c[0] == podfile_entries(podfile->0)
            &&& package_resolved is Some ==> c[1] == package_entries(package_resolved->0)
            &&& cartfile is Some ==> c[2] == cartfile_entries(line_seq(cartfile->0))
            &&& otool is Some ==> c[3] == vendored_of(otool->0)
            &&& podfile is None ==> c[0].len() == 0
            &&& package_resolved is None ==> c[1].len() == 0
            &&& cartfile is None ==> c[2].len() == 0
            &&& otool is None ==> c[3].len() == 0
        }),
{
}

/// A line of `otool -L` tells of a library that comes with the app where its path begins at
/// the run path, the executable or the loader, and of nothing where the system has it.
pub proof fn law_vendored_libraries_are_told(rest: Seq<char>, tail: Seq<char>)
    requires
        rest.len() > 0,
        forall|i: int| 0 <= i < rest.len() ==> '!' <= #[trigger] rest[i] <= '~',
    ensures
        vendored_name(seq!['\t'] + ("@rpath/"@ + rest) + " (compatibility version"@ + tail) == Some(
            library_name("@rpath/"@ + rest),
        ),
        vendored_name(seq!['\t'] + ("/usr/lib/"@ + rest) + " (compatibility version"@ + tail)
            is None,
{
    reveal_strlit("@rpath/");
    reveal_strlit("@executable_path/");
    reveal_strlit("@loader_path/");
    reveal_strlit("/usr/lib/");
    let a = "@rpath/"@ + rest;
    let b = "/usr/lib/"@ + rest;
    assert forall|i: int| 0 <= i < a.len() implies '!' <= #[trigger] a[i] <= '~' by {
        if i >= 7 {
            assert(a[i] == rest[i - 7]);
        }
    }
    assert forall|i: int| 0 <= i < b.len() implies '!' <= #[trigger] b[i] <= '~' by {
        if i >= 9 {
            assert(b[i] == rest[i - 9]);
        }
    }
    law_load_paths_come_first(a, tail);
    law_load_paths_come_first(b, tail);
    law_prefixes_and_suffixes("@rpath/"@, rest);
    assert(b[0] == '/');
    if has_prefix(b, "@rpath/"@) {
        assert(b.take(7)[0] == b[0]);
        assert("@rpath/"@[0] == '@');
    }
    if has_prefix(b, "@executable_path/"@) {
        assert(b.take(17)[0] == b[0]);
        assert("@executable_path/"@[0] == '@');
    }
    if has_prefix(b, "@loader_path/"@) {
        assert(b.take(13)[0] == b[0]);
        assert("@loader_path/"@[0] == '@');
    }
}

} // verus!

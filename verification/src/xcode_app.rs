//! What a build has left on disk: the app, its executable and its debug symbols.
use crate::env::{Env, lookup, trimmed_var};
use crate::path_order::{
    lemma_path_irreflexive, lemma_path_total, lemma_path_transitive, path_less, path_precedes,
};
use crate::paths::{
    Part, PathPart, body_parts, copy_path, extension_of, file_name, file_stem, has_extension,
    has_path, join_path, joined_path, last_name, law_joining_a_name, opt_path, parent,
    parent_path, parse_path, part_views, path_parts, paths_of, same_path, stem_of,
};
use crate::text::{ends_with, has_suffix, opt_ref, opt_str, pieces, to_chars, trim, trimmed};
use vstd::prelude::*;
use vstd::string::*;

verus! {

/// A directory `<base>/<name>.app` among the directories that exist.
pub open spec fn is_app_in(
    base: Seq<PathPart>,
    dirs: Seq<Seq<PathPart>>,
    p: Seq<PathPart>,
) -> bool {
    dirs.contains(p) && is_app_below(base, p)
}

/// A path `<base>/<name>.app`.
pub open spec fn is_app_below(base: Seq<PathPart>, p: Seq<PathPart>) -> bool {
    parent_path(p) == Some(base) && last_name(p) is Some && extension_of(last_name(p)->0) == Some(
        "app"@,
    )
}

/// The app that stands before all others.
pub open spec fn is_first_app(
    base: Seq<PathPart>,
    dirs: Seq<Seq<PathPart>>,
    p: Seq<PathPart>,
) -> bool {
    is_app_in(base, dirs, p) && forall|q: Seq<PathPart>| #[trigger]
        is_app_in(base, dirs, q) ==> q == p || path_less(p, q)
}

/// The app that stands before all others, if there is any.
pub open spec fn first_app(base: Seq<PathPart>, dirs: Seq<Seq<PathPart>>) -> Option<
    Seq<PathPart>,
> {
    if exists|p: Seq<PathPart>| is_first_app(base, dirs, p) {
        Some(choose|p: Seq<PathPart>| is_first_app(base, dirs, p))
    } else {
        None
    }
}

/// The app beside which there is no other.
pub open spec fn is_only_app(
    base: Seq<PathPart>,
    dirs: Seq<Seq<PathPart>>,
    p: Seq<PathPart>,
) -> bool {
    is_app_in(base, dirs, p) && forall|q: Seq<PathPart>| #[trigger]
        is_app_in(base, dirs, q) ==> q == p
}

/// The only app, if there is exactly one.
pub open spec fn only_app(base: Seq<PathPart>, dirs: Seq<Seq<PathPart>>) -> Option<
    Seq<PathPart>,
> {
    if exists|p: Seq<PathPart>| is_only_app(base, dirs, p) {
        Some(choose|p: Seq<PathPart>| is_only_app(base, dirs, p))
    } else {
        None
    }
}

/// Where the apps of an archive are.
pub open spec fn apps_dir(archive: Seq<char>) -> Seq<PathPart> {
    joined_path(joined_path(path_parts(archive), "Products"@), "Applications"@)
}

/// The app that a variable names below the build directory.
pub open spec fn named_app(
    m: Map<Seq<char>, Seq<char>>,
    dirs: Seq<Seq<PathPart>>,
    key: Seq<char>,
) -> Option<Seq<PathPart>> {
    let name = trimmed_var(m, key);
    let p = joined_path(path_parts(trimmed_var(m, "TARGET_BUILD_DIR"@)), name);
    if has_suffix(name, ".app"@) && dirs.contains(p) {
        Some(p)
    } else {
        None
    }
}

/// The app of a plain build: the one that the build settings name, or else the only
/// one in the build directory.
pub open spec fn built_app(
    m: Map<Seq<char>, Seq<char>>,
    dirs: Seq<Seq<PathPart>>,
) -> Option<Seq<PathPart>> {
    let base = trimmed_var(m, "TARGET_BUILD_DIR"@);
    if base.len() == 0 || !dirs.contains(path_parts(base)) {
        None
    } else if named_app(m, dirs, "WRAPPER_NAME"@) is Some {
        named_app(m, dirs, "WRAPPER_NAME"@)
    } else if named_app(m, dirs, "EXECUTABLE_FOLDER_PATH"@) is Some {
        named_app(m, dirs, "EXECUTABLE_FOLDER_PATH"@)
    } else {
        only_app(path_parts(base), dirs)
    }
}

/// The app of a build: the first one of the archive where there is an archive, or else
/// that of a plain build.
pub open spec fn app_of(
    m: Map<Seq<char>, Seq<char>>,
    dirs: Seq<Seq<PathPart>>,
) -> Option<Seq<PathPart>> {
    let archive = trimmed_var(m, "ARCHIVE_PATH"@);
    if archive.len() > 0 && dirs.contains(path_parts(archive)) {
        if dirs.contains(apps_dir(archive)) {
            first_app(apps_dir(archive), dirs)
        } else {
            None
        }
    } else {
        built_app(m, dirs)
    }
}

fn app_below(base: &Vec<Part>, p: &Vec<Part>) -> (r: bool)
    ensures
        r == is_app_below(part_views(base@), part_views(p@)),
{
    match parent(p) {
        Some(up) => {
            if !same_path(&up, base) {
                return false;
            }
        },
        None => {
            return false;
        },
    }
    match file_name(p) {
        Some(n) => has_extension(n.as_str(), "app"),
        None => false,
    }
}

/// Where the first app of a directory is in the list, and whether it is the only one.
fn scan_apps(base: &Vec<Part>, dirs: &Vec<Vec<Part>>) -> (r: Option<(usize, bool)>)
    ensures
        match r {
            Some((k, only)) => {
                &&& k < dirs@.len()
                &&& first_app(part_views(base@), paths_of(dirs@)) == Some(part_views(dirs@[k as int]@))
                &&& only_app(part_views(base@), paths_of(dirs@)) == if only {
                    Some(part_views(dirs@[k as int]@))
                } else {
                    None
                }
            },
            None => {
                &&& first_app(part_views(base@), paths_of(dirs@)) is None
                &&& only_app(part_views(base@), paths_of(dirs@)) is None
            },
        },
{
    let ghost b = part_views(base@);
    let ghost all = paths_of(dirs@);
    let mut best: Option<usize> = None;
    let mut only = true;
    let mut i: usize = 0;
    while i < dirs.len()
        invariant
            i <= dirs@.len(),
            all == paths_of(dirs@),
            b == part_views(base@),
            match best {
                Some(k) => {
                    &&& k < i
                    &&& is_app_below(b, all[k as int])
                    &&& forall|j: int|
                        0 <= j < i && is_app_below(b, #[trigger] all[j]) ==> all[j] == all[k as int]
                            || path_less(all[k as int], all[j])
                    &&& only ==> forall|j: int|
                        0 <= j < i && is_app_below(b, #[trigger] all[j]) ==> all[j] == all[k as int]
                    &&& !only ==> exists|j: int|
                        0 <= j < i && is_app_below(b, #[trigger] all[j]) && all[j] != all[k as int]
                },
                None => {
                    &&& only
                    &&& forall|j: int| 0 <= j < i ==> !is_app_below(b, #[trigger] all[j])
                },
            },
        decreases dirs@.len() - i,
    {
        proof {
            assert(all[i as int] == part_views(dirs@[i as int]@));
        }
        if app_below(base, &dirs[i]) {
            best = match best {
                Some(k) => {
                    let ghost x = all[k as int];
                    let ghost y = all[i as int];
                    if !same_path(&dirs[k], &dirs[i]) {
                        only = false;
                        if path_precedes(&dirs[i], &dirs[k]) {
                            proof {
                                assert forall|j: int|
                                    0 <= j < i && is_app_below(b, #[trigger] all[j]) implies all[j]
                                    == y || path_less(y, all[j]) by {
                                    if all[j] != x {
                                        lemma_path_transitive(y, x, all[j]);
                                    }
                                }
                            }
                            Some(i)
                        } else {
                            proof {
                                lemma_path_total(x, y);
                            }
                            Some(k)
                        }
                    } else {
                        Some(k)
                    }
                },
                None => Some(i),
            };
        }
        i += 1;
    }
    proof {
        lemma_scanned(b, all, best, only);
    }
    match best {
        Some(k) => Some((k, only)),
        None => None,
    }
}

proof fn lemma_scanned(
    b: Seq<PathPart>,
    all: Seq<Seq<PathPart>>,
    best: Option<usize>,
    only: bool,
)
    requires
        match best {
            Some(k) => {
                &&& k < all.len()
                &&& is_app_below(b, all[k as int])
                &&& forall|j: int|
                    0 <= j < all.len() && is_app_below(b, #[trigger] all[j]) ==> all[j] == all[k as int]
                        || path_less(all[k as int], all[j])
                &&& only ==> forall|j: int|
                    0 <= j < all.len() && is_app_below(b, #[trigger] all[j]) ==> all[j] == all[k as int]
                &&& !only ==> exists|j: int|
                    0 <= j < all.len() && is_app_below(b, #[trigger] all[j]) && all[j] != all[k as int]
            },
            None => forall|j: int| 0 <= j < all.len() ==> !is_app_below(b, #[trigger] all[j]),
        },
    ensures
        match best {
            Some(k) => {
                &&& first_app(b, all) == Some(all[k as int])
                &&& only_app(b, all) == if only {
                    Some(all[k as int])
                } else {
                    None
                }
            },
            None => first_app(b, all) is None && only_app(b, all) is None,
        },
{
    match best {
        Some(k) => {
            let p = all[k as int];
            assert(all.contains(p));
            assert(is_app_in(b, all, p));
            assert(is_first_app(b, all, p));
            let q = choose|q: Seq<PathPart>| is_first_app(b, all, q);
            assert(is_app_in(b, all, q));
            if p != q {
                assert(path_less(p, q) && path_less(q, p));
                lemma_path_transitive(p, q, p);
                lemma_path_irreflexive(p);
            }
            if only {
                assert(is_only_app(b, all, p));
            } else {
                let j = choose|j: int|
                    0 <= j < all.len() && is_app_below(b, #[trigger] all[j]) && all[j] != p;
                assert(all.contains(all[j]));
                assert(is_app_in(b, all, all[j]));
                if exists|q: Seq<PathPart>| is_only_app(b, all, q) {
                    let q = choose|q: Seq<PathPart>| is_only_app(b, all, q);
                    assert(p == q && all[j] == q);
                }
            }
        },
        None => {
            assert forall|q: Seq<PathPart>| !is_app_in(b, all, q) by {
                if all.contains(q) {
                    let j = choose|j: int| 0 <= j < all.len() && all[j] == q;
                    assert(!is_app_below(b, all[j]));
                }
            }
        },
    }
}

/// The app that a variable names below the build directory.
fn find_named_app(env: &Env, dirs: &Vec<Vec<Part>>, key: &str) -> (r: Option<Vec<Part>>)
    ensures
        opt_path(r) == named_app(env@, paths_of(dirs@), key@),
{
    let name = env.trimmed(key);
    if !ends_with(name.as_str(), ".app") {
        return None;
    }
    let base_text = env.trimmed("TARGET_BUILD_DIR");
    let base = parse_path(base_text.as_str());
    let p = join_path(&base, name.as_str());
    if has_path(dirs, &p) {
        Some(p)
    } else {
        None
    }
}

/// The app of an archive: the first one. `dirs` are the directories that exist.
pub fn find_app_in_archive(archive: &str, dirs: &Vec<Vec<Part>>) -> (r: Option<Vec<Part>>)
    ensures
        opt_path(r) == if paths_of(dirs@).contains(apps_dir(archive@)) {
            first_app(apps_dir(archive@), paths_of(dirs@))
        } else {
            None
        },
{
    let root = parse_path(archive);
    let products = join_path(&root, "Products");
    let apps = join_path(&products, "Applications");
    if !has_path(dirs, &apps) {
        return None;
    }
    match scan_apps(&apps, dirs) {
        Some((k, _)) => Some(copy_path(&dirs[k])),
        None => None,
    }
}

/// The app of a plain build: the one that the build settings name, or else the only
/// one in the build directory. `dirs` are the directories that exist.
pub fn find_app_in_build_dir(env: &Env, dirs: &Vec<Vec<Part>>) -> (r: Option<Vec<Part>>)
    ensures
        opt_path(r) == built_app(env@, paths_of(dirs@)),
{
    let base_text = env.trimmed("TARGET_BUILD_DIR");
    let base = parse_path(base_text.as_str());
    if base_text.as_str().is_empty() || !has_path(dirs, &base) {
        return None;
    }
    match find_named_app(env, dirs, "WRAPPER_NAME") {
        Some(p) => {
            return Some(p);
        },
        None => {},
    }
    match find_named_app(env, dirs, "EXECUTABLE_FOLDER_PATH") {
        Some(p) => {
            return Some(p);
        },
        None => {},
    }
    match scan_apps(&base, dirs) {
        Some((k, only)) => {
            if only {
                Some(copy_path(&dirs[k]))
            } else {
                None
            }
        },
        None => None,
    }
}

/// The app of a build: the first one of the archive where there is an archive, or else
/// that of a plain build. `dirs` are the directories that exist.
pub fn find_app(env: &Env, dirs: &Vec<Vec<Part>>) -> (r: Option<Vec<Part>>)
    ensures
        opt_path(r) == app_of(env@, paths_of(dirs@)),
{
    let archive = env.trimmed("ARCHIVE_PATH");
    let root = parse_path(archive.as_str());
    if !archive.as_str().is_empty() && has_path(dirs, &root) {
        return find_app_in_archive(archive.as_str(), dirs);
    }
    find_app_in_build_dir(env, dirs)
}

/// The executable of a plain build.
pub open spec fn built_binary(
    m: Map<Seq<char>, Seq<char>>,
    dirs: Seq<Seq<PathPart>>,
    files: Seq<Seq<PathPart>>,
) -> Option<Seq<PathPart>> {
    let name = trimmed_var(m, "EXECUTABLE_NAME"@);
    match built_app(m, dirs) {
        Some(app) => if name.len() > 0 && files.contains(joined_path(app, name)) {
            Some(joined_path(app, name))
        } else {
            None
        },
        None => None,
    }
}

/// The executable of a plain build. `dirs` and `files` are the directories and the
/// files that exist.
pub fn resolve_product_binary(env: &Env, dirs: &Vec<Vec<Part>>, files: &Vec<Vec<Part>>) -> (r:
    Option<Vec<Part>>)
    ensures
        opt_path(r) == built_binary(env@, paths_of(dirs@), paths_of(files@)),
{
    match find_app_in_build_dir(env, dirs) {
        Some(app) => {
            let name = env.trimmed("EXECUTABLE_NAME");
            if name.as_str().is_empty() {
                return None;
            }
            let p = join_path(&app, name.as_str());
            if has_path(files, &p) {
                Some(p)
            } else {
                None
            }
        },
        None => None,
    }
}

/// Where the debug symbols of a build are: the folder that the build settings name, or
/// else that of the archive.
pub open spec fn symbols_dir(
    m: Map<Seq<char>, Seq<char>>,
    dirs: Seq<Seq<PathPart>>,
) -> Option<Seq<PathPart>> {
    let named = trimmed_var(m, "DWARF_DSYM_FOLDER_PATH"@);
    let archive = trimmed_var(m, "ARCHIVE_PATH"@);
    let beside = joined_path(path_parts(archive), "dSYMs"@);
    if named.len() > 0 && dirs.contains(path_parts(named)) {
        Some(path_parts(named))
    } else if archive.len() > 0 && dirs.contains(beside) {
        Some(beside)
    } else {
        None
    }
}

/// Where the debug symbols of a build are. `dirs` are the directories that exist.
pub fn resolve_dsym_folder(env: &Env, dirs: &Vec<Vec<Part>>) -> (r: Option<Vec<Part>>)
    ensures
        opt_path(r) == symbols_dir(env@, paths_of(dirs@)),
{
    let named = env.trimmed("DWARF_DSYM_FOLDER_PATH");
    if !named.as_str().is_empty() {
        let p = parse_path(named.as_str());
        if has_path(dirs, &p) {
            return Some(p);
        }
    }
    let archive = env.trimmed("ARCHIVE_PATH");
    if !archive.as_str().is_empty() {
        let root = parse_path(archive.as_str());
        let p = join_path(&root, "dSYMs");
        if has_path(dirs, &p) {
            return Some(p);
        }
    }
    None
}

/// A value that is not blank, as it stands.
pub open spec fn unless_blank(v: Option<Seq<char>>) -> Option<Seq<char>> {
    match v {
        Some(t) => if trimmed(t).len() > 0 {
            v
        } else {
            None
        },
        None => None,
    }
}

/// The directory that the sources are in: `SRCROOT`, or else the current one.
pub fn working_dir(env: &Env, current: &str) -> (r: String)
    ensures
        r@ == match unless_blank(lookup(env@, "SRCROOT"@)) {
            Some(t) => t,
            None => current@,
        },
{
    dir_or_current(env.get("SRCROOT"), current)
}

fn dir_or_current(v: Option<&String>, current: &str) -> (r: String)
    ensures
        r@ == match unless_blank(opt_ref(v)) {
            Some(t) => t,
            None => current@,
        },
{
    match v {
        Some(t) => {
            let s = trim(t.as_str());
            if !s.as_str().is_empty() {
                t.clone()
            } else {
                current.to_owned()
            }
        },
        None => current.to_owned(),
    }
}

/// The first of three variables that is set.
pub open spec fn first_set(
    m: Map<Seq<char>, Seq<char>>,
    a: Seq<char>,
    b: Seq<char>,
    c: Seq<char>,
) -> Option<Seq<char>> {
    if m.dom().contains(a) {
        lookup(m, a)
    } else if m.dom().contains(b) {
        lookup(m, b)
    } else {
        lookup(m, c)
    }
}

/// The directory that dependencies are looked up from: the first variable of the
/// project's that is set, unless it is blank, or else the current one.
pub fn deps_root(env: &Env, current: &str) -> (r: String)
    ensures
        r@ == match unless_blank(
            first_set(env@, "PROJECT_DIR"@, "SRCROOT"@, "SOURCE_ROOT"@),
        ) {
            Some(t) => t,
            None => current@,
        },
{
    match env.get("PROJECT_DIR") {
        Some(v) => {
            return dir_or_current(Some(v), current);
        },
        None => {},
    }
    match env.get("SRCROOT") {
        Some(v) => {
            return dir_or_current(Some(v), current);
        },
        None => {},
    }
    dir_or_current(env.get("SOURCE_ROOT"), current)
}

/// A character that is kept in the name of a file.
pub open spec fn is_safe(c: char) -> bool {
    ('a' <= c && c <= 'z') || ('A' <= c && c <= 'Z') || ('0' <= c && c <= '9') || c == '.' || c
        == '_' || c == '-'
}

/// The text with `_` for every character that is not kept.
pub open spec fn made_safe(s: Seq<char>) -> Seq<char> {
    s.map_values(
        |c: char|
            if is_safe(c) {
                c
            } else {
                '_'
            },
    )
}

/// What the archive of an app is called after: its package id, or else the app.
pub open spec fn archive_basis(app: Seq<PathPart>, package_id: Option<Seq<char>>) -> Seq<char> {
    match package_id {
        Some(id) => if id.len() > 0 {
            id
        } else {
            app_stem(app)
        },
        None => app_stem(app),
    }
}

pub open spec fn app_stem(app: Seq<PathPart>) -> Seq<char> {
    match last_name(app) {
        Some(n) => stem_of(n),
        None => Seq::empty(),
    }
}

/// The name of the archive of an app, without extension.
pub open spec fn archive_stem(app: Seq<PathPart>, package_id: Option<Seq<char>>) -> Seq<char> {
    let raw = archive_basis(app, package_id);
    let base = match last_name(path_parts(raw)) {
        Some(n) => n,
        None => raw,
    };
    if base.len() == 0 {
        "build"@
    } else {
        made_safe(base)
    }
}

fn safe_text(s: &str) -> (r: String)
    ensures
        r@ == made_safe(s@),
{
    let v = to_chars(s);
    let n: usize = v.len();
    let mut out = String::new();
    let mut i: usize = 0;
    while i < n
        invariant
            v@ == s@,
            n == v@.len(),
            i <= n,
            out@ == made_safe(s@.take(i as int)),
        decreases n - i,
    {
        let c = v[i];
        let keep = (c >= 'a' && c <= 'z') || (c >= 'A' && c <= 'Z') || (c >= '0' && c <= '9') || c
            == '.' || c == '_' || c == '-';
        proof {
            assert(s@.take(i + 1) =~= s@.take(i as int).push(c));
            assert(made_safe(s@.take(i + 1)) =~= made_safe(s@.take(i as int)).push(
                if is_safe(c) {
                    c
                } else {
                    '_'
                },
            ));
        }
        if keep {
            out.push(c);
        } else {
            out.push('_');
        }
        i += 1;
    }
    proof {
        assert(s@.take(n as int) =~= s@);
    }
    out
}

/// The name of the archive of an app, without extension.
pub fn ipa_stem(app_path: &Vec<Part>, package_id: &Option<String>) -> (r: String)
    ensures
        r@ == archive_stem(part_views(app_path@), opt_str(*package_id)),
{
    let from_id = match package_id {
        Some(id) => !id.as_str().is_empty(),
        None => false,
    };
    let raw = match package_id {
        Some(id) if from_id => id.clone(),
        _ => match file_name(app_path) {
            Some(n) => file_stem(n.as_str()),
            None => String::new(),
        },
    };
    let parts = parse_path(raw.as_str());
    let base = match file_name(&parts) {
        Some(n) => n,
        None => raw,
    };
    if base.as_str().is_empty() {
        "build".to_owned()
    } else {
        safe_text(base.as_str())
    }
}

/// The name of an app's archive is not empty and holds only letters, digits, dots,
/// underscores and hyphens, so that it names a file and no path, whatever the property
/// list says.
pub proof fn law_archive_stem_is_plain(app: Seq<PathPart>, package_id: Option<Seq<char>>)
    ensures
        archive_stem(app, package_id).len() > 0,
        forall|i: int|
            0 <= i < archive_stem(app, package_id).len() ==> is_safe(
                #[trigger] archive_stem(app, package_id)[i],
            ),
{
    reveal_strlit("build");
}

/// The app that is found is a directory that exists.
pub proof fn law_found_app_exists(m: Map<Seq<char>, Seq<char>>, dirs: Seq<Seq<PathPart>>)
    ensures
        app_of(m, dirs) is Some ==> dirs.contains(app_of(m, dirs)->0),
{
}

/// Where an archive keeps its apps: under `Products/Applications`.
pub proof fn law_apps_of_an_archive(archive: Seq<char>)
    requires
        path_parts(archive).len() > 0,
    ensures
        apps_dir(archive) == path_parts(archive) + seq![
            PathPart::Name("Products"@),
            PathPart::Name("Applications"@),
        ],
{
    reveal_strlit("Products");
    reveal_strlit("Applications");
    reveal_strlit(".");
    reveal_strlit("..");
    let a = path_parts(archive);
    law_joining_a_name(a, "Products"@);
    law_joining_a_name(a.push(PathPart::Name("Products"@)), "Applications"@);
    assert(a.push(PathPart::Name("Products"@)).push(PathPart::Name("Applications"@)) =~= a + seq![
        PathPart::Name("Products"@),
        PathPart::Name("Applications"@),
    ]);
}

/// The app of an archive is one of the directories `<name>.app` in it, and none of them
/// stands before it.
pub proof fn law_the_first_app_is_taken(
    base: Seq<PathPart>,
    dirs: Seq<Seq<PathPart>>,
    q: Seq<PathPart>,
)
    ensures
        first_app(base, dirs) is Some ==> {
            let p = first_app(base, dirs)->0;
            &&& dirs.contains(p)
            &&& p.len() > 0 && p.drop_last() == base
            &&& p.last() is Name && extension_of(p.last()->Name_0) == Some("app"@)
            &&& is_app_in(base, dirs, q) ==> q == p || path_less(p, q)
        },
        only_app(base, dirs) is Some ==> {
            let p = only_app(base, dirs)->0;
            &&& is_app_in(base, dirs, p)
            &&& is_app_in(base, dirs, q) ==> q == p
            &&& first_app(base, dirs) == Some(p)
        },
        is_app_in(base, dirs, q) <==> dirs.contains(q) && q.len() > 0 && q.last() is Name
            && q.drop_last() == base && extension_of(q.last()->Name_0) == Some("app"@),
{
    if exists|p: Seq<PathPart>| is_first_app(base, dirs, p) {
        let p = choose|p: Seq<PathPart>| is_first_app(base, dirs, p);
        assert(is_first_app(base, dirs, p));
    }
    if exists|p: Seq<PathPart>| is_only_app(base, dirs, p) {
        let p = choose|p: Seq<PathPart>| is_only_app(base, dirs, p);
        assert(is_only_app(base, dirs, p));
        assert(is_first_app(base, dirs, p));
        let r = choose|r: Seq<PathPart>| is_first_app(base, dirs, r);
        assert(is_first_app(base, dirs, r));
        assert(r == p);
    }
}

/// Which app a build is about: that of its archive where there is one, whatever the build
/// directory holds; or else the one that `WRAPPER_NAME` names, or else the one that
/// `EXECUTABLE_FOLDER_PATH` names, or else the only one in the build directory.
pub proof fn law_apps_by_preference(m: Map<Seq<char>, Seq<char>>, dirs: Seq<Seq<PathPart>>)
    ensures
        ({
            let archive = trimmed_var(m, "ARCHIVE_PATH"@);
            let base = trimmed_var(m, "TARGET_BUILD_DIR"@);
            let wrapper = trimmed_var(m, "WRAPPER_NAME"@);
            let folder = trimmed_var(m, "EXECUTABLE_FOLDER_PATH"@);
            let archived = archive.len() > 0 && dirs.contains(path_parts(archive));
            let built = base.len() > 0 && dirs.contains(path_parts(base));
            let by_wrapper = has_suffix(wrapper, ".app"@) && dirs.contains(
                joined_path(path_parts(base), wrapper),
            );
            let by_folder = has_suffix(folder, ".app"@) && dirs.contains(
                joined_path(path_parts(base), folder),
            );
            &&& archived && dirs.contains(apps_dir(archive)) ==> app_of(m, dirs) == first_app(
                apps_dir(archive),
                dirs,
            )
            &&& archived && !dirs.contains(apps_dir(archive)) ==> app_of(m, dirs) is None
            &&& !archived && !built ==> app_of(m, dirs) is None
            &&& !archived && built && by_wrapper ==> app_of(m, dirs) == Some(
                joined_path(path_parts(base), wrapper),
            )
            &&& !archived && built && !by_wrapper && by_folder ==> app_of(m, dirs) == Some(
                joined_path(path_parts(base), folder),
            )
            &&& !archived && built && !by_wrapper && !by_folder ==> app_of(m, dirs) == only_app(
                path_parts(base),
                dirs,
            )
        }),
{
}

/// The executable of a build is the file in its app that `EXECUTABLE_NAME` names.
pub proof fn law_the_executable_of_an_app(
    m: Map<Seq<char>, Seq<char>>,
    dirs: Seq<Seq<PathPart>>,
    files: Seq<Seq<PathPart>>,
)
    ensures
        ({
            let name = trimmed_var(m, "EXECUTABLE_NAME"@);
            let app = built_app(m, dirs);
            &&& app is Some && name.len() > 0 && files.contains(joined_path(app->0, name))
                ==> built_binary(m, dirs, files) == Some(joined_path(app->0, name))
            &&& app is None || name.len() == 0 || !files.contains(joined_path(app->0, name))
                ==> built_binary(m, dirs, files) is None
        }),
{
}

/// Where debug symbols are looked for: in the folder that the build settings name, or else
/// in the folder `dSYMs` of the archive.
pub proof fn law_symbols_by_preference(m: Map<Seq<char>, Seq<char>>, dirs: Seq<Seq<PathPart>>)
    ensures
        ({
            let named = trimmed_var(m, "DWARF_DSYM_FOLDER_PATH"@);
            let archive = trimmed_var(m, "ARCHIVE_PATH"@);
            let by_name = named.len() > 0 && dirs.contains(path_parts(named));
            let beside = joined_path(path_parts(archive), "dSYMs"@);
            &&& by_name ==> symbols_dir(m, dirs) == Some(path_parts(named))
            &&& !by_name && archive.len() > 0 && dirs.contains(beside) ==> symbols_dir(m, dirs)
                == Some(beside)
            &&& !by_name && (archive.len() == 0 || !dirs.contains(beside)) ==> symbols_dir(m, dirs)
                is None
        }),
{
}

/// The archive of an app is called after its package id, or else after the app; every
/// character that is no letter, digit, dot, underscore or hyphen becomes an underscore.
pub proof fn law_what_an_archive_is_called(app: Seq<PathPart>, name: Seq<char>, id: Seq<char>)
    requires
        id.len() > 0,
        !id.contains('/'),
        id != "."@,
        id != ".."@,
    ensures
        archive_basis(app, Some(id)) == id,
        archive_basis(app.push(PathPart::Name(name)), None) == stem_of(name),
        archive_basis(app.push(PathPart::Name(name)), Some(Seq::empty())) == stem_of(name),
        archive_stem(app, Some(id)).len() == id.len(),
        forall|i: int|
            0 <= i < id.len() ==> #[trigger] archive_stem(app, Some(id))[i] == (if ('a' <= id[i]
                && id[i] <= 'z') || ('A' <= id[i] && id[i] <= 'Z') || ('0' <= id[i] && id[i] <= '9')
                || id[i] == '.' || id[i] == '_' || id[i] == '-' {
                id[i]
            } else {
                '_'
            }),
{
    law_joining_a_name(seq![PathPart::Root], id);
}

/// A directory from the environment counts as it is written, unless it is blank; for
/// dependencies the first variable that is set decides.
pub proof fn law_directories_from_the_environment(m: Map<Seq<char>, Seq<char>>, v: Seq<char>)
    ensures
        trimmed(v).len() > 0 ==> unless_blank(Some(v)) == Some(v),
        trimmed(v).len() == 0 ==> unless_blank(Some(v)) is None,
        unless_blank(None) is None,
        m.dom().contains("PROJECT_DIR"@) ==> first_set(
            m,
            "PROJECT_DIR"@,
            "SRCROOT"@,
            "SOURCE_ROOT"@,
        ) == Some(m["PROJECT_DIR"@]),
        !m.dom().contains("PROJECT_DIR"@) && m.dom().contains("SRCROOT"@) ==> first_set(
            m,
            "PROJECT_DIR"@,
            "SRCROOT"@,
            "SOURCE_ROOT"@,
        ) == Some(m["SRCROOT"@]),
{
}

/// An archive is never without a name: one that would be empty is `build`.
pub proof fn law_archives_have_a_name(app: Seq<PathPart>, package_id: Option<Seq<char>>)
    ensures
        archive_stem(app, package_id).len() > 0,
        archive_basis(app, package_id).len() == 0 ==> archive_stem(app, package_id) == "build"@,
{
    reveal_strlit("build");
    let raw = archive_basis(app, package_id);
    if raw.len() == 0 {
        assert(raw =~= Seq::empty());
        lemma_no_name_in_nothing();
    }
}

proof fn lemma_no_name_in_nothing()
    ensures
        last_name(path_parts(Seq::empty())) is None,
{
    reveal_with_fuel(body_parts, 2);
    let ps = pieces(Seq::<char>::empty(), seq!['/']);
    assert(ps =~= seq![Seq::<char>::empty()]);
    assert(ps.drop_last() =~= Seq::empty());
    assert(body_parts(ps, false).len() == 0);
}

} // verus!

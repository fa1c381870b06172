//! What the `upload` commands are to send, checked before anything is sent.
use crate::compress::{Strategy, resolve_strategy, strategy_of};
use crate::error::{Error, Failure, config_invalid, failure, input_not_found};
use crate::podfile::has_string;
use crate::text::{
    before, cat2, cat3, cat5, contains_str, find_char, from_range, index_before, is_white,
    law_before_the_first, law_trimming_takes_the_ends, occurs, opt_str, strs, to_chars, trim,
    trimmed,
};
use vstd::prelude::*;
use vstd::string::*;

verus! {

/// The server that is used where none is given.
pub const DEFAULT_ENDPOINT: &'static str = "https://api.bugsee.com";

/// The `upload` commands.
#[allow(inconsistent_fields)]
#[derive(Debug)]
pub enum UploadCommand {
    /// Bundle the metadata of a build and upload it.
    BuildInfo {
        payload_json: Option<String>,
        deps: Option<String>,
        timings: Option<String>,
        /// Further entries as `NAME=PATH`.
        sidecar: Vec<String>,
        upload_url: Option<String>,
        no_zstd: bool,
        zstd_level: Option<i64>,
        out: Option<String>,
        dry_run: bool,
    },
    /// Register a build and upload its artefact.
    Build {
        payload_json: String,
        artifact: String,
        mapping: Option<String>,
        deps: Option<String>,
        timings: Option<String>,
        no_zstd: bool,
        zstd_level: Option<i64>,
        chunked: bool,
        out: Option<String>,
        dry_run: bool,
    },
}

/// The server that is used.
pub open spec fn endpoint_or_default(endpoint: Option<Seq<char>>) -> Seq<char> {
    match endpoint {
        Some(e) => e,
        None => DEFAULT_ENDPOINT@,
    }
}

/// The server that is used.
pub fn resolve_endpoint(endpoint: &Option<String>) -> (r: String)
    ensures
        r@ == endpoint_or_default(opt_str(*endpoint)),
{
    match endpoint {
        Some(e) => e.clone(),
        None => DEFAULT_ENDPOINT.to_owned(),
    }
}

/// Name and path of a `NAME=PATH` argument. The name is a plain file name.
pub open spec fn sidecar_of(spec_text: Seq<char>) -> Result<(Seq<char>, Seq<char>), Failure> {
    let head = before(spec_text, '=');
    let name = trimmed(head);
    let path = spec_text.skip(head.len() as int + 1);
    if head.len() == spec_text.len() {
        Err(Failure::ConfigInvalid("--sidecar must be NAME=PATH, got: "@ + spec_text))
    } else if name.len() == 0 {
        Err(Failure::ConfigInvalid("--sidecar name is empty in: "@ + spec_text))
    } else if name.contains('/') || name.contains('\\') || occurs(name, ".."@) {
        Err(
            Failure::ConfigInvalid(
                "--sidecar name must be a plain filename (no path separators): "@ + name,
            ),
        )
    } else if path.len() == 0 {
        Err(Failure::ConfigInvalid("--sidecar path is empty in: "@ + spec_text))
    } else {
        Ok((name, path))
    }
}

/// Name and path of a `NAME=PATH` argument.
pub fn parse_sidecar(spec_text: &str) -> (r: Result<(String, String), Error>)
    ensures
        match sidecar_of(spec_text@) {
            Ok(p) => r is Ok && r->Ok_0.0@ == p.0 && r->Ok_0.1@ == p.1,
            Err(f) => failure(r) == Some(f),
        },
{
    let v = to_chars(spec_text);
    let i = index_before(spec_text, '=');
    if i == v.len() {
        let m = cat2("--sidecar must be NAME=PATH, got: ", spec_text);
        return Err(config_invalid(m.as_str()));
    }
    let head = from_range(&v, 0, i);
    let name = trim(head.as_str());
    let path = from_range(&v, i + 1, v.len());
    proof {
        assert(path@ =~= spec_text@.skip(i + 1));
    }
    if name.as_str().is_empty() {
        let m = cat2("--sidecar name is empty in: ", spec_text);
        return Err(config_invalid(m.as_str()));
    }
    if find_char(name.as_str(), '/').is_some() || find_char(name.as_str(), '\\').is_some()
        || contains_str(name.as_str(), "..") {
        let m = cat2(
            "--sidecar name must be a plain filename (no path separators): ",
            name.as_str(),
        );
        return Err(config_invalid(m.as_str()));
    }
    if path.as_str().is_empty() {
        let m = cat2("--sidecar path is empty in: ", spec_text);
        return Err(config_invalid(m.as_str()));
    }
    Ok((name, path))
}

/// A sidecar name that is accepted holds no separator and no `..`.
pub proof fn law_sidecar_names_are_plain(spec_text: Seq<char>)
    requires
        sidecar_of(spec_text) is Ok,
    ensures
        ({
            let name = sidecar_of(spec_text)->Ok_0.0;
            name.len() > 0 && !name.contains('/') && !name.contains('\\') && !occurs(name, ".."@)
        }),
{
}

/// An entry of a bundle: a name and the path of its file.
#[derive(Debug, PartialEq, Eq)]
pub struct Entry {
    pub name: String,
    pub source: String,
}

pub open spec fn entry_views(v: Seq<Entry>) -> Seq<(Seq<char>, Seq<char>)> {
    v.map_values(|e: Entry| (e.name@, e.source@))
}

/// The entries that the `NAME=PATH` arguments stand for, or the first that is
/// refused.
pub open spec fn sidecars_of(specs: Seq<Seq<char>>) -> Result<Seq<(Seq<char>, Seq<char>)>, Failure>
    decreases specs.len(),
{
    if specs.len() == 0 {
        Ok(Seq::empty())
    } else {
        match sidecars_of(specs.drop_last()) {
            Err(f) => Err(f),
            Ok(r) => match sidecar_of(specs.last()) {
                Err(f) => Err(f),
                Ok(e) => Ok(r.push(e)),
            },
        }
    }
}

/// The first place, from `i` on, whose name comes again behind it.
pub open spec fn first_repeat(e: Seq<(Seq<char>, Seq<char>)>, i: int) -> Option<int>
    decreases e.len() - i,
{
    if i < 0 || i >= e.len() {
        None
    } else if exists|j: int| i < j < e.len() && (#[trigger] e[j]).0 == e[i].0 {
        Some(i)
    } else {
        first_repeat(e, i + 1)
    }
}

/// The first place, from `i` on, whose file is not there.
pub open spec fn first_missing(
    e: Seq<(Seq<char>, Seq<char>)>,
    files: Seq<Seq<char>>,
    i: int,
) -> Option<int>
    decreases e.len() - i,
{
    if i < 0 || i >= e.len() {
        None
    } else if !files.contains(e[i].1) {
        Some(i)
    } else {
        first_missing(e, files, i + 1)
    }
}

pub open spec fn named_entry(
    name: Seq<char>,
    path: Option<Seq<char>>,
) -> Seq<(Seq<char>, Seq<char>)> {
    match path {
        Some(p) => seq![(name, p)],
        None => Seq::empty(),
    }
}

/// The bundle that the arguments ask for: dependencies, timings, then sidecars.
/// The compression is settled first; then every sidecar must be well formed, the
/// bundle not empty, its names different, and its files there; an output path
/// goes with a dry run only.
pub open spec fn build_info_plan(
    deps: Option<Seq<char>>,
    timings: Option<Seq<char>>,
    sidecar: Seq<Seq<char>>,
    no_zstd: bool,
    zstd_level: Option<i64>,
    out: Option<Seq<char>>,
    dry_run: bool,
    files: Seq<Seq<char>>,
) -> Result<(Strategy, Seq<(Seq<char>, Seq<char>)>), Failure> {
    match strategy_of(no_zstd, zstd_level) {
        Err(f) => Err(f),
        Ok(s) => match sidecars_of(sidecar) {
            Err(f) => Err(f),
            Ok(more) => {
                let e = named_entry("dependencies.json"@, deps) + named_entry(
                    "timings.json"@,
                    timings,
                ) + more;
                if e.len() == 0 {
                    Err(
                        Failure::ConfigInvalid(
                            "nothing to upload: pass at least one of --deps / --timings / --sidecar"@,
                        ),
                    )
                } else if first_repeat(e, 0) is Some {
                    Err(
                        Failure::ConfigInvalid(
                            "duplicate bundle entry name: "@ + e[first_repeat(e, 0)->0].0,
                        ),
                    )
                } else if first_missing(e, files, 0) is Some {
                    let m = e[first_missing(e, files, 0)->0];
                    Err(
                        Failure::InputNotFound(
                            "bundle entry source does not exist or is not a file: "@ + m.1
                                + " (entry: "@ + m.0 + ")"@,
                        ),
                    )
                } else if out is Some && !dry_run {
                    Err(Failure::ConfigInvalid("--out is only valid with --dry-run"@))
                } else {
                    Ok((s, e))
                }
            },
        },
    }
}

fn read_sidecars(specs: &Vec<String>) -> (r: Result<Vec<Entry>, Error>)
    ensures
        match sidecars_of(strs(specs@)) {
            Ok(e) => r is Ok && entry_views(r->Ok_0@) == e,
            Err(f) => failure(r) == Some(f),
        },
{
    let ghost all = strs(specs@);
    let mut out: Vec<Entry> = Vec::new();
    let mut i: usize = 0;
    proof {
        assert(entry_views(out@) =~= Seq::empty());
        assert(all.take(0) =~= Seq::empty());
    }
    while i < specs.len()
        invariant
            i <= specs@.len(),
            all == strs(specs@),
            sidecars_of(all.take(i as int)) == Ok::<Seq<(Seq<char>, Seq<char>)>, Failure>(
                entry_views(out@),
            ),
        decreases specs@.len() - i,
    {
        proof {
            assert(all.take(i + 1).drop_last() =~= all.take(i as int));
            assert(all.take(i + 1).last() == specs@[i as int]@);
        }
        match parse_sidecar(specs[i].as_str()) {
            Ok(p) => {
                let e = Entry { name: p.0, source: p.1 };
                proof {
                    assert(entry_views(out@.push(e)) =~= entry_views(out@).push(
                        (e.name@, e.source@),
                    ));
                }
                out.push(e);
            },
            Err(err) => {
                proof {
                    lemma_sidecars_stop(all, i + 1);
                }
                return Err(err);
            },
        }
        i += 1;
    }
    proof {
        assert(all.take(i as int) =~= all);
    }
    Ok(out)
}

/// Once a sidecar is refused, the rest does not matter.
proof fn lemma_sidecars_stop(all: Seq<Seq<char>>, n: int)
    requires
        0 <= n <= all.len(),
        sidecars_of(all.take(n)) is Err,
    ensures
        sidecars_of(all) == sidecars_of(all.take(n)),
    decreases all.len() - n,
{
    if n < all.len() {
        assert(all.take(n + 1).drop_last() =~= all.take(n));
        lemma_sidecars_stop(all, n + 1);
    } else {
        assert(all.take(n) =~= all);
    }
}

fn find_repeat(e: &Vec<Entry>) -> (r: Option<usize>)
    ensures
        match r {
            Some(i) => first_repeat(entry_views(e@), 0) == Some(i as int) && i < e@.len(),
            None => first_repeat(entry_views(e@), 0) is None,
        },
{
    let ghost v = entry_views(e@);
    let mut i: usize = 0;
    while i < e.len()
        invariant
            i <= e@.len(),
            v == entry_views(e@),
            first_repeat(v, 0) == first_repeat(v, i as int),
        decreases e@.len() - i,
    {
        let mut j: usize = i + 1;
        while j < e.len()
            invariant
                i < j <= e@.len(),
                v == entry_views(e@),
                first_repeat(v, 0) == first_repeat(v, i as int),
                forall|k: int| i < k < j ==> (#[trigger] v[k]).0 != v[i as int].0,
            decreases e@.len() - j,
        {
            proof {
                assert(v[j as int].0 == e@[j as int].name@);
            }
            if e[i].name == e[j].name {
                return Some(i);
            }
            j += 1;
        }
        i += 1;
    }
    None
}

fn find_missing(e: &Vec<Entry>, files: &Vec<String>) -> (r: Option<usize>)
    ensures
        match r {
            Some(i) => first_missing(entry_views(e@), strs(files@), 0) == Some(i as int) && i
                < e@.len(),
            None => first_missing(entry_views(e@), strs(files@), 0) is None,
        },
{
    let ghost v = entry_views(e@);
    let mut i: usize = 0;
    while i < e.len()
        invariant
            i <= e@.len(),
            v == entry_views(e@),
            first_missing(v, strs(files@), 0) == first_missing(v, strs(files@), i as int),
        decreases e@.len() - i,
    {
        if !has_string(files, &e[i].source) {
            return Some(i);
        }
        i += 1;
    }
    None
}

/// A bundle that is ready to be packed.
#[derive(Debug)]
pub struct BuildInfoPlan {
    pub strategy: Strategy,
    pub entries: Vec<Entry>,
}

fn push_named(entries: &mut Vec<Entry>, name: &str, path: &Option<String>)
    ensures
        entry_views(final(entries)@) == entry_views(old(entries)@) + named_entry(
            name@,
            opt_str(*path),
        ),
{
    match path {
        Some(p) => {
            let e = Entry { name: name.to_owned(), source: p.clone() };
            proof {
                assert(entry_views(entries@.push(e)) =~= entry_views(entries@) + seq![
                    (name@, p@),
                ]);
            }
            entries.push(e);
        },
        None => {
            proof {
                assert(entry_views(entries@) =~= entry_views(entries@) + Seq::empty());
            }
        },
    }
}

/// The bundle of an `upload build-info`. `files` are the paths that are files.
pub fn plan_build_info(
    deps: &Option<String>,
    timings: &Option<String>,
    sidecar: &Vec<String>,
    no_zstd: bool,
    zstd_level: Option<i64>,
    out: &Option<String>,
    dry_run: bool,
    files: &Vec<String>,
) -> (r: Result<BuildInfoPlan, Error>)
    ensures
        match build_info_plan(
            opt_str(*deps),
            opt_str(*timings),
            strs(sidecar@),
            no_zstd,
            zstd_level,
            opt_str(*out),
            dry_run,
            strs(files@),
        ) {
            Ok(p) => r is Ok && r->Ok_0.strategy == p.0 && entry_views(r->Ok_0.entries@) == p.1,
            Err(f) => failure(r) == Some(f),
        },
{
    let strategy = match resolve_strategy(no_zstd, zstd_level) {
        Ok(s) => s,
        Err(e) => {
            return Err(e);
        },
    };
    let more = match read_sidecars(sidecar) {
        Ok(m) => m,
        Err(e) => {
            return Err(e);
        },
    };
    let mut entries: Vec<Entry> = Vec::new();
    proof {
        assert(entry_views(entries@) =~= Seq::empty());
    }
    push_named(&mut entries, "dependencies.json", deps);
    push_named(&mut entries, "timings.json", timings);
    let ghost base = entry_views(entries@);
    let ghost extra = entry_views(more@);
    let mut i: usize = 0;
    proof {
        assert(base + extra.take(0) =~= base);
    }
    while i < more.len()
        invariant
            i <= more@.len(),
            extra == entry_views(more@),
            entry_views(entries@) == base + extra.take(i as int),
        decreases more@.len() - i,
    {
        let e = Entry { name: more[i].name.clone(), source: more[i].source.clone() };
        proof {
            assert(extra[i as int] == (e.name@, e.source@));
            assert(extra.take(i + 1) =~= extra.take(i as int).push((e.name@, e.source@)));
            assert(entry_views(entries@.push(e)) =~= entry_views(entries@).push(
                (e.name@, e.source@),
            ));
            assert(base + extra.take(i + 1) =~= (base + extra.take(i as int)).push(
                (e.name@, e.source@),
            ));
        }
        entries.push(e);
        i += 1;
    }
    let ghost all = named_entry("dependencies.json"@, opt_str(*deps)) + named_entry(
        "timings.json"@,
        opt_str(*timings),
    ) + extra;
    proof {
        assert(extra.take(i as int) =~= extra);
        assert(entry_views(entries@) =~= all);
        assert(entries@.len() == all.len());
    }
    if entries.len() == 0 {
        return Err(
            config_invalid(
                "nothing to upload: pass at least one of --deps / --timings / --sidecar",
            ),
        );
    }
    match find_repeat(&entries) {
        Some(k) => {
            let m = cat2("duplicate bundle entry name: ", entries[k].name.as_str());
            return Err(config_invalid(m.as_str()));
        },
        None => {},
    }
    match find_missing(&entries, files) {
        Some(k) => {
            let m = cat5(
                "bundle entry source does not exist or is not a file: ",
                entries[k].source.as_str(),
                " (entry: ",
                entries[k].name.as_str(),
                ")",
            );
            return Err(input_not_found(m.as_str()));
        },
        None => {},
    }
    if out.is_some() && !dry_run {
        return Err(config_invalid("--out is only valid with --dry-run"));
    }
    Ok(BuildInfoPlan { strategy, entries })
}

proof fn lemma_no_repeat(e: Seq<(Seq<char>, Seq<char>)>, from: int, i: int, j: int)
    requires
        first_repeat(e, from) is None,
        0 <= from <= i < j < e.len(),
    ensures
        e[i].0 != e[j].0,
    decreases i - from,
{
    if from < i {
        lemma_no_repeat(e, from + 1, i, j);
    }
}

/// The entries of a bundle that is accepted have different names.
pub proof fn law_bundle_names_differ(
    deps: Option<Seq<char>>,
    timings: Option<Seq<char>>,
    sidecar: Seq<Seq<char>>,
    no_zstd: bool,
    zstd_level: Option<i64>,
    out: Option<Seq<char>>,
    dry_run: bool,
    files: Seq<Seq<char>>,
    i: int,
    j: int,
)
    requires
        ({
            let p = build_info_plan(
                deps,
                timings,
                sidecar,
                no_zstd,
                zstd_level,
                out,
                dry_run,
                files,
            );
            p is Ok && 0 <= i < j < p->Ok_0.1.len()
        }),
    ensures
        ({
            let e = build_info_plan(
                deps,
                timings,
                sidecar,
                no_zstd,
                zstd_level,
                out,
                dry_run,
                files,
            )->Ok_0.1;
            e[i].0 != e[j].0
        }),
{
    let e = build_info_plan(deps, timings, sidecar, no_zstd, zstd_level, out, dry_run, files)->Ok_0.1;
    lemma_no_repeat(e, 0, i, j);
}

pub open spec fn missing_file(
    label: Seq<char>,
    path: Option<Seq<char>>,
    files: Seq<Seq<char>>,
) -> Option<Failure> {
    if path is Some && !files.contains(path->0) {
        Some(
            Failure::InputNotFound(label + " does not exist or is not a file: "@ + path->0),
        )
    } else {
        None
    }
}

/// What an `upload build` is to do: the compression, and why it is refused. The
/// compression is settled first; an output path goes with a dry run only; an app
/// token is needed; the files that are named must be there.
pub open spec fn build_plan(
    mapping: Option<Seq<char>>,
    deps: Option<Seq<char>>,
    timings: Option<Seq<char>>,
    no_zstd: bool,
    zstd_level: Option<i64>,
    out: Option<Seq<char>>,
    dry_run: bool,
    app_token: Option<Seq<char>>,
    files: Seq<Seq<char>>,
) -> Result<Strategy, Failure> {
    match strategy_of(no_zstd, zstd_level) {
        Err(f) => Err(f),
        Ok(s) => if out is Some && !dry_run {
            Err(Failure::ConfigInvalid("--out is only valid with --dry-run"@))
        } else if app_token is None {
            Err(
                Failure::ConfigInvalid(
                    "--app-token (or BUGSEE_APP_TOKEN) is required for `upload build`"@,
                ),
            )
        } else if missing_file("--mapping"@, mapping, files) is Some {
            Err(missing_file("--mapping"@, mapping, files)->0)
        } else if missing_file("--deps"@, deps, files) is Some {
            Err(missing_file("--deps"@, deps, files)->0)
        } else if missing_file("--timings"@, timings, files) is Some {
            Err(missing_file("--timings"@, timings, files)->0)
        } else {
            Ok(s)
        },
    }
}

fn check_file(label: &str, path: &Option<String>, files: &Vec<String>) -> (r: Option<Error>)
    ensures
        match missing_file(label@, opt_str(*path), strs(files@)) {
            Some(f) => r is Some && r->0@ == f,
            None => r is None,
        },
{
    match path {
        Some(p) => if has_string(files, p) {
            None
        } else {
            let m = cat3(label, " does not exist or is not a file: ", p.as_str());
            Some(input_not_found(m.as_str()))
        },
        None => None,
    }
}

/// What an `upload build` is to do. `files` are the paths that are files.
pub fn plan_build(
    mapping: &Option<String>,
    deps: &Option<String>,
    timings: &Option<String>,
    no_zstd: bool,
    zstd_level: Option<i64>,
    out: &Option<String>,
    dry_run: bool,
    app_token: &Option<String>,
    files: &Vec<String>,
) -> (r: Result<Strategy, Error>)
    ensures
        match build_plan(
            opt_str(*mapping),
            opt_str(*deps),
            opt_str(*timings),
            no_zstd,
            zstd_level,
            opt_str(*out),
            dry_run,
            opt_str(*app_token),
            strs(files@),
        ) {
            Ok(s) => r == Ok::<Strategy, Error>(s),
            Err(f) => failure(r) == Some(f),
        },
{
    let strategy = match resolve_strategy(no_zstd, zstd_level) {
        Ok(s) => s,
        Err(e) => {
            return Err(e);
        },
    };
    if out.is_some() && !dry_run {
        return Err(config_invalid("--out is only valid with --dry-run"));
    }
    if app_token.is_none() {
        return Err(
            config_invalid("--app-token (or BUGSEE_APP_TOKEN) is required for `upload build`"),
        );
    }
    match check_file("--mapping", mapping, files) {
        Some(e) => {
            return Err(e);
        },
        None => {},
    }
    match check_file("--deps", deps, files) {
        Some(e) => {
            return Err(e);
        },
        None => {},
    }
    match check_file("--timings", timings, files) {
        Some(e) => {
            return Err(e);
        },
        None => {},
    }
    Ok(strategy)
}

/// A sidecar is given as `NAME=PATH`; the path may hold further equals signs.
pub proof fn law_sidecars_are_name_and_path(name: Seq<char>, path: Seq<char>)
    requires
        name.len() > 0,
        path.len() > 0,
        !is_white(name[0]),
        !is_white(name.last()),
        !name.contains('='),
        !name.contains('/'),
        !name.contains('\\'),
        !occurs(name, ".."@),
    ensures
        sidecar_of(name + seq!['='] + path) == Ok::<(Seq<char>, Seq<char>), Failure>((name, path)),
        sidecar_of(name) is Err,
        sidecar_of(name + seq!['=']) is Err,
{
    let e = Seq::<char>::empty();
    law_before_the_first(name, '=', path);
    law_before_the_first(name, '=', e);
    law_trimming_takes_the_ends(e, name, e);
    let s = name + seq!['='] + path;
    assert(s.skip(name.len() as int + 1) =~= path);
    assert(name + seq!['='] + e =~= name + seq!['=']);
    assert((name + seq!['=']).skip(name.len() as int + 1) =~= e);
}

/// The server that is used is the one that was given, or else `https://api.bugsee.com`.
pub proof fn law_which_server(endpoint: Seq<char>)
    ensures
        endpoint_or_default(Some(endpoint)) == endpoint,
        endpoint_or_default(None) == "https://api.bugsee.com"@,
{
}

proof fn lemma_sidecars_all(specs: Seq<Seq<char>>)
    ensures
        sidecars_of(specs) is Ok <==> forall|k: int|
            0 <= k < specs.len() ==> sidecar_of(#[trigger] specs[k]) is Ok,
        sidecars_of(specs) is Ok ==> sidecars_of(specs)->Ok_0.len() == specs.len() && forall|k: int|
            0 <= k < specs.len() ==> sidecars_of(specs)->Ok_0[k] == sidecar_of(
                #[trigger] specs[k],
            )->Ok_0,
    decreases specs.len(),
{
    if specs.len() > 0 {
        let d = specs.drop_last();
        lemma_sidecars_all(d);
        assert(specs[specs.len() - 1] == specs.last());
        if sidecars_of(d) is Err {
            let k = choose|k: int| 0 <= k < d.len() && !(sidecar_of(#[trigger] d[k]) is Ok);
            assert(specs[k] == d[k]);
        } else {
            assert forall|k: int| 0 <= k < d.len() implies sidecar_of(#[trigger] specs[k]) is Ok by {
                assert(specs[k] == d[k]);
                assert(sidecar_of(d[k]) is Ok);
            }
            if sidecar_of(specs.last()) is Ok {
                assert forall|k: int| 0 <= k < specs.len() implies sidecars_of(specs)->Ok_0[k]
                    == sidecar_of(#[trigger] specs[k])->Ok_0 by {
                    if k < d.len() {
                        assert(specs[k] == d[k]);
                    }
                }
            }
        }
    }
}

proof fn lemma_no_missing(e: Seq<(Seq<char>, Seq<char>)>, files: Seq<Seq<char>>, i: int)
    requires
        0 <= i <= e.len(),
    ensures
        first_missing(e, files, i) is None <==> forall|k: int|
            i <= k < e.len() ==> files.contains((#[trigger] e[k]).1),
    decreases e.len() - i,
{
    if i < e.len() {
        lemma_no_missing(e, files, i + 1);
    }
}

/// A bundle holds the dependencies as `dependencies.json`, the timings as `timings.json` and
/// then the sidecars, in that order; it is made only where it is not empty, every file of it
/// is there, and an output path goes with a dry run.
pub proof fn law_what_a_bundle_holds(
    deps: Option<Seq<char>>,
    timings: Option<Seq<char>>,
    sidecar: Seq<Seq<char>>,
    no_zstd: bool,
    zstd_level: Option<i64>,
    out: Option<Seq<char>>,
    dry_run: bool,
    files: Seq<Seq<char>>,
    k: int,
)
    ensures
        ({
            let p = build_info_plan(
                deps,
                timings,
                sidecar,
                no_zstd,
                zstd_level,
                out,
                dry_run,
                files,
            );
            let a: int = if deps is Some {
                1
            } else {
                0
            };
            let b: int = if timings is Some {
                1
            } else {
                0
            };
            &&& p is Ok ==> {
                let e = p->Ok_0.1;
                &&& Ok::<Strategy, Failure>(p->Ok_0.0) == strategy_of(no_zstd, zstd_level)
                &&& e.len() == a + b + sidecar.len()
                &&& e.len() > 0
                &&& deps is Some ==> e[0] == ("dependencies.json"@, deps->0)
                &&& timings is Some ==> e[a] == ("timings.json"@, timings->0)
                &&& 0 <= k < sidecar.len() ==> sidecar_of(sidecar[k]) is Ok && e[a + b + k]
                    == sidecar_of(sidecar[k])->Ok_0
                &&& 0 <= k < e.len() ==> files.contains(e[k].1)
                &&& out is Some ==> dry_run
            }
            &&& deps is None && timings is None && sidecar.len() == 0 ==> p is Err
        }),
{
    let more = sidecars_of(sidecar);
    lemma_sidecars_all(sidecar);
    if more is Ok {
        let e = named_entry("dependencies.json"@, deps) + named_entry("timings.json"@, timings)
            + more->Ok_0;
        lemma_no_missing(e, files, 0);
        if 0 <= k < sidecar.len() {
            assert(sidecar_of(sidecar[k]) is Ok);
        }
    }
}

/// When a build is uploaded: with a token, with all the files that are named, with a
/// compression that is accepted, and with an output path only for a dry run.
pub proof fn law_when_a_build_is_uploaded(
    mapping: Option<Seq<char>>,
    deps: Option<Seq<char>>,
    timings: Option<Seq<char>>,
    no_zstd: bool,
    zstd_level: Option<i64>,
    out: Option<Seq<char>>,
    dry_run: bool,
    app_token: Option<Seq<char>>,
    files: Seq<Seq<char>>,
)
    ensures
        ({
            let r = build_plan(
                mapping,
                deps,
                timings,
                no_zstd,
                zstd_level,
                out,
                dry_run,
                app_token,
                files,
            );
            &&& r is Ok <==> strategy_of(no_zstd, zstd_level) is Ok && (out is Some ==> dry_run)
                && app_token is Some && (mapping is Some ==> files.contains(mapping->0)) && (deps
                is Some ==> files.contains(deps->0)) && (timings is Some ==> files.contains(
                timings->0,
            ))
            &&& r is Ok ==> r == strategy_of(no_zstd, zstd_level)
        }),
{
}

proof fn lemma_names_differ(e: Seq<(Seq<char>, Seq<char>)>, i: int)
    requires
        0 <= i <= e.len(),
    ensures
        first_repeat(e, i) is None <==> forall|a: int, b: int|
            i <= a < b < e.len() ==> (#[trigger] e[a]).0 != (#[trigger] e[b]).0,
        first_repeat(e, i) is Some ==> i <= first_repeat(e, i)->0 < e.len(),
    decreases e.len() - i,
{
    if i < e.len() {
        lemma_names_differ(e, i + 1);
        if exists|j: int| i < j < e.len() && (#[trigger] e[j]).0 == e[i].0 {
            let j = choose|j: int| i < j < e.len() && (#[trigger] e[j]).0 == e[i].0;
            assert(e[i].0 == e[j].0);
        } else {
            assert forall|b: int| i < b < e.len() implies (#[trigger] e[b]).0 != e[i].0 by {}
        }
    }
}

/// When a bundle is uploaded, in full: where the level is fine, every sidecar can be taken
/// apart, there is something to upload, no two entries have one name, every source is a
/// file, and an output is only named for a dry run.
pub proof fn law_when_a_bundle_is_uploaded(
    deps: Option<Seq<char>>,
    timings: Option<Seq<char>>,
    sidecar: Seq<Seq<char>>,
    no_zstd: bool,
    zstd_level: Option<i64>,
    out: Option<Seq<char>>,
    dry_run: bool,
    files: Seq<Seq<char>>,
)
    requires
        sidecars_of(sidecar) is Ok,
        strategy_of(no_zstd, zstd_level) is Ok,
    ensures
        ({
            let p = build_info_plan(
                deps,
                timings,
                sidecar,
                no_zstd,
                zstd_level,
                out,
                dry_run,
                files,
            );
            let e = named_entry("dependencies.json"@, deps) + named_entry("timings.json"@, timings)
                + sidecars_of(sidecar)->Ok_0;
            let distinct = forall|a: int, b: int|
                0 <= a < b < e.len() ==> (#[trigger] e[a]).0 != (#[trigger] e[b]).0;
            let there = forall|k: int| 0 <= k < e.len() ==> files.contains((#[trigger] e[k]).1);
            &&& p is Ok <==> e.len() > 0 && distinct && there && (out is Some ==> dry_run)
            &&& e.len() == 0 ==> p == Err::<(Strategy, Seq<(Seq<char>, Seq<char>)>), Failure>(
                Failure::ConfigInvalid(
                    "nothing to upload: pass at least one of --deps / --timings / --sidecar"@,
                ),
            )
            &&& e.len() > 0 && distinct && there && out is Some && !dry_run ==> p == Err::<
                (Strategy, Seq<(Seq<char>, Seq<char>)>),
                Failure,
            >(Failure::ConfigInvalid("--out is only valid with --dry-run"@))
            &&& e.len() > 0 && distinct && !there ==> p is Err && p->Err_0 is InputNotFound
            &&& e.len() > 0 && !distinct ==> p is Err && p->Err_0 is ConfigInvalid
        }),
{
    let e = named_entry("dependencies.json"@, deps) + named_entry("timings.json"@, timings)
        + sidecars_of(sidecar)->Ok_0;
    lemma_names_differ(e, 0);
    lemma_no_missing(e, files, 0);
}

/// How an upload of a build is refused: a file that is missing is named with its flag, the
/// mapping before the dependencies and those before the timings.
pub proof fn law_how_a_build_is_refused(
    mapping: Option<Seq<char>>,
    deps: Option<Seq<char>>,
    timings: Option<Seq<char>>,
    no_zstd: bool,
    zstd_level: Option<i64>,
    out: Option<Seq<char>>,
    dry_run: bool,
    app_token: Option<Seq<char>>,
    files: Seq<Seq<char>>,
)
    requires
        strategy_of(no_zstd, zstd_level) is Ok,
    ensures
        ({
            let r = build_plan(
                mapping,
                deps,
                timings,
                no_zstd,
                zstd_level,
                out,
                dry_run,
                app_token,
                files,
            );
            let early = (out is Some && !dry_run) || app_token is None;
            let m = mapping is Some && !files.contains(mapping->0);
            let d = deps is Some && !files.contains(deps->0);
            let t = timings is Some && !files.contains(timings->0);
            &&& out is Some && !dry_run ==> r == Err::<Strategy, Failure>(
                Failure::ConfigInvalid("--out is only valid with --dry-run"@),
            )
            &&& (out is None || dry_run) && app_token is None ==> r == Err::<Strategy, Failure>(
                Failure::ConfigInvalid(
                    "--app-token (or BUGSEE_APP_TOKEN) is required for `upload build`"@,
                ),
            )
            &&& !early && m ==> r == Err::<Strategy, Failure>(
                Failure::InputNotFound(
                    "--mapping"@ + " does not exist or is not a file: "@ + mapping->0,
                ),
            )
            &&& !early && !m && d ==> r == Err::<Strategy, Failure>(
                Failure::InputNotFound("--deps"@ + " does not exist or is not a file: "@ + deps->0),
            )
            &&& !early && !m && !d && t ==> r == Err::<Strategy, Failure>(
                Failure::InputNotFound(
                    "--timings"@ + " does not exist or is not a file: "@ + timings->0,
                ),
            )
        }),
{
}

proof fn lemma_first_missing_at(
    e: Seq<(Seq<char>, Seq<char>)>,
    files: Seq<Seq<char>>,
    i: int,
    k: int,
)
    requires
        0 <= i <= k < e.len(),
        !files.contains(e[k].1),
        forall|j: int| i <= j < k ==> files.contains((#[trigger] e[j]).1),
    ensures
        first_missing(e, files, i) == Some(k),
    decreases k - i,
{
    if i < k {
        assert(files.contains(e[i].1));
        lemma_first_missing_at(e, files, i + 1, k);
    }
}

/// Where a source is missing, the first entry without one is named with its source.
pub proof fn law_missing_sources_are_named(
    deps: Option<Seq<char>>,
    timings: Option<Seq<char>>,
    sidecar: Seq<Seq<char>>,
    no_zstd: bool,
    zstd_level: Option<i64>,
    out: Option<Seq<char>>,
    dry_run: bool,
    files: Seq<Seq<char>>,
    e: Seq<(Seq<char>, Seq<char>)>,
    k: int,
)
    requires
        sidecars_of(sidecar) is Ok,
        strategy_of(no_zstd, zstd_level) is Ok,
        e == named_entry("dependencies.json"@, deps) + named_entry("timings.json"@, timings)
            + sidecars_of(sidecar)->Ok_0,
        forall|a: int, b: int|
            0 <= a < b < e.len() ==> (#[trigger] e[a]).0 != (#[trigger] e[b]).0,
        0 <= k < e.len(),
        !files.contains(e[k].1),
        forall|j: int| 0 <= j < k ==> files.contains((#[trigger] e[j]).1),
    ensures
        build_info_plan(deps, timings, sidecar, no_zstd, zstd_level, out, dry_run, files) == Err::<
            (Strategy, Seq<(Seq<char>, Seq<char>)>),
            Failure,
        >(
            Failure::InputNotFound(
                "bundle entry source does not exist or is not a file: "@ + e[k].1 + " (entry: "@
                    + e[k].0 + ")"@,
            ),
        ),
{
    lemma_names_differ(e, 0);
    lemma_first_missing_at(e, files, 0, k);
}

} // verus!

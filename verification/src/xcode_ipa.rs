//! Packaging an `.app` as an `.ipa`, and the id of its main executable.
use crate::compress::{Method, Planned, PlannedEntry, planned};
use crate::digest::hex_text;
use crate::dsym::{object_slices, read_slices, slice_views};
use crate::error::{Error, Failure, failure, input_invalid};
use crate::ids::{Uuid, is_nil};
use crate::order::{
    char_seqs, lemma_less_irreflexive, lemma_less_total, lemma_less_transitive, lex_less,
    precedes,
};
use crate::paths::{Part, PathPart, parse_path, part_views, path_parts};
use crate::plist::{pair_views, plist_text, text_under};
use crate::text::{cat2, ends_with, has_suffix, lowered, opt_str, str_eq, to_chars, to_lower};
use crate::titles::str_views;
use vstd::prelude::*;
use vstd::string::*;

verus! {

/// The extensions of files that are compressed already.
pub open spec fn store_extensions() -> Seq<Seq<char>> {
    seq![
        ".png"@,
        ".jpg"@,
        ".jpeg"@,
        ".heic"@,
        ".heif"@,
        ".webp"@,
        ".pdf"@,
        ".mp3"@,
        ".mp4"@,
        ".mov"@,
        ".aac"@,
        ".m4a"@,
        ".m4v"@,
        ".zip"@,
        ".gz"@,
        ".woff"@,
        ".woff2"@,
    ]
}

fn list_store_extensions() -> (r: Vec<&'static str>)
    ensures
        str_views(r@) == store_extensions(),
{
    let r = vec![
        ".png", ".jpg", ".jpeg", ".heic", ".heif", ".webp", ".pdf", ".mp3", ".mp4", ".mov", ".aac",
        ".m4a", ".m4v", ".zip", ".gz", ".woff", ".woff2",
    ];
    proof {
        assert(str_views(r@) =~= store_extensions());
    }
    r
}

/// A file whose name says that it is compressed already.
pub open spec fn is_compressed_name(name: Seq<char>) -> bool {
    exists|i: int|
        0 <= i < store_extensions().len() && has_suffix(
            lowered(name),
            #[trigger] store_extensions()[i],
        )
}

/// Whether a file is stored as it is, by its name.
pub fn is_store_extension(name: &str) -> (r: bool)
    ensures
        r == is_compressed_name(name@),
{
    let lower = to_lower(name);
    let exts = list_store_extensions();
    let ghost all = store_extensions();
    let mut i: usize = 0;
    while i < exts.len()
        invariant
            i <= exts@.len(),
            all == str_views(exts@),
            all == store_extensions(),
            lower@ == lowered(name@),
            forall|k: int| 0 <= k < i ==> !has_suffix(lower@, #[trigger] all[k]),
        decreases exts@.len() - i,
    {
        proof {
            assert(all[i as int] == exts@[i as int]@);
        }
        if ends_with(lower.as_str(), exts[i]) {
            proof {
                assert(has_suffix(lowered(name@), store_extensions()[i as int]));
            }
            return true;
        }
        i += 1;
    }
    false
}

/// The name of a file in the archive: `Payload` and the names of its path.
pub open spec fn payload_name(parts: Seq<PathPart>) -> Seq<char>
    decreases parts.len(),
{
    if parts.len() == 0 {
        "Payload"@
    } else {
        let r = payload_name(parts.drop_last());
        match parts.last() {
            PathPart::Name(n) => r + "/"@ + n,
            _ => r,
        }
    }
}

/// The name in the archive of a file whose path from the directory of the app is
/// `rel`.
pub fn archive_name(rel: &str) -> (r: String)
    ensures
        r@ == payload_name(path_parts(rel@)),
{
    let parts = parse_path(rel);
    let ghost all = part_views(parts@);
    let mut out = "Payload".to_owned();
    let mut i: usize = 0;
    proof {
        assert(all.take(0) =~= Seq::empty());
    }
    while i < parts.len()
        invariant
            i <= parts@.len(),
            all == part_views(parts@),
            out@ == payload_name(all.take(i as int)),
        decreases parts@.len() - i,
    {
        proof {
            assert(all.take(i + 1).drop_last() =~= all.take(i as int));
            assert(all.take(i + 1).last() == parts@[i as int]@);
        }
        match &parts[i] {
            Part::Name(n) => {
                out.append("/");
                out.append(n.as_str());
            },
            _ => {},
        }
        i += 1;
    }
    proof {
        assert(all.take(i as int) =~= all);
    }
    out
}

/// A file that was found in an app.
#[derive(Debug)]
pub struct AppFile {
    /// Its path.
    pub source: String,
    /// Its path from the directory that the app is in.
    pub rel: String,
    /// Whether it is a regular file, and no link to one.
    pub is_regular: bool,
}

/// An entry of the archive.
pub open spec fn ipa_entry(f: AppFile) -> Planned {
    let name = payload_name(path_parts(f.rel@));
    Planned {
        name,
        source: f.source@,
        method: if is_compressed_name(name) {
            Method::Stored
        } else {
            Method::Deflated
        },
    }
}

pub open spec fn names_of(s: Seq<Planned>) -> Seq<Seq<char>> {
    s.map_values(|e: Planned| e.name)
}

/// How many of the names do not come behind `x`.
pub open spec fn not_behind(s: Seq<Seq<char>>, x: Seq<char>) -> nat
    decreases s.len(),
{
    if s.len() == 0 {
        0
    } else {
        not_behind(s.drop_last(), x) + if lex_less(x, s.last()) {
            0nat
        } else {
            1nat
        }
    }
}

/// The regular files of an app as entries in the order of their names, entries of
/// one name in the order in which they were found.
pub open spec fn ipa_entries(files: Seq<AppFile>) -> Seq<Planned>
    decreases files.len(),
{
    if files.len() == 0 {
        Seq::empty()
    } else {
        let r = ipa_entries(files.drop_last());
        if files.last().is_regular {
            let e = ipa_entry(files.last());
            r.insert(not_behind(names_of(r), e.name) as int, e)
        } else {
            r
        }
    }
}

/// Names in ascending order, equal ones allowed.
pub open spec fn in_order(s: Seq<Seq<char>>) -> bool {
    forall|i: int, j: int| 0 <= i < j < s.len() ==> !lex_less(#[trigger] s[j], #[trigger] s[i])
}

pub proof fn lemma_not_behind_is(s: Seq<Seq<char>>, x: Seq<char>, p: int)
    requires
        0 <= p <= s.len(),
        forall|i: int| 0 <= i < p ==> !lex_less(x, #[trigger] s[i]),
        forall|i: int| p <= i < s.len() ==> lex_less(x, #[trigger] s[i]),
    ensures
        not_behind(s, x) == p,
    decreases s.len(),
{
    if s.len() > 0 {
        let d = s.drop_last();
        if p == s.len() {
            lemma_not_behind_is(d, x, p - 1);
        } else {
            lemma_not_behind_is(d, x, p);
        }
    }
}

fn find_place(keys: &Vec<Vec<char>>, x: &Vec<char>) -> (p: usize)
    requires
        in_order(char_seqs(keys@)),
    ensures
        p == not_behind(char_seqs(keys@), x@),
        p <= keys@.len(),
        forall|i: int| 0 <= i < p ==> !lex_less(x@, #[trigger] char_seqs(keys@)[i]),
        forall|i: int| p <= i < keys@.len() ==> lex_less(x@, #[trigger] char_seqs(keys@)[i]),
{
    let ghost s = char_seqs(keys@);
    let mut lo: usize = 0;
    let mut hi: usize = keys.len();
    while lo < hi
        invariant
            lo <= hi <= keys@.len(),
            s == char_seqs(keys@),
            in_order(s),
            forall|i: int| 0 <= i < lo ==> !lex_less(x@, #[trigger] s[i]),
            forall|i: int| hi <= i < s.len() ==> lex_less(x@, #[trigger] s[i]),
        decreases hi - lo,
    {
        let mid: usize = lo + (hi - lo) / 2;
        proof {
            assert(s[mid as int] == keys@[mid as int]@);
        }
        if precedes(x, &keys[mid]) {
            proof {
                assert forall|i: int| mid <= i < s.len() implies lex_less(x@, #[trigger] s[i]) by {
                    if i > mid {
                        assert(!lex_less(s[i], s[mid as int]));
                        lemma_less_total(s[i], s[mid as int]);
                        if s[i] != s[mid as int] {
                            lemma_less_transitive(x@, s[mid as int], s[i]);
                        }
                    }
                }
            }
            hi = mid;
        } else {
            proof {
                assert forall|i: int| 0 <= i < mid + 1 implies !lex_less(x@, #[trigger] s[i]) by {
                    if i < mid && lex_less(x@, s[i]) {
                        assert(!lex_less(s[mid as int], s[i]));
                        lemma_less_total(s[i], s[mid as int]);
                        if s[i] != s[mid as int] {
                            lemma_less_transitive(x@, s[i], s[mid as int]);
                        }
                    }
                }
            }
            lo = mid + 1;
        }
    }
    proof {
        lemma_not_behind_is(s, x@, lo as int);
    }
    lo
}

proof fn lemma_insert_in_order(s: Seq<Seq<char>>, x: Seq<char>, p: int)
    requires
        in_order(s),
        0 <= p <= s.len(),
        forall|i: int| 0 <= i < p ==> !lex_less(x, #[trigger] s[i]),
        forall|i: int| p <= i < s.len() ==> lex_less(x, #[trigger] s[i]),
    ensures
        in_order(s.insert(p, x)),
{
    let out = s.insert(p, x);
    assert forall|i: int, j: int| 0 <= i < j < out.len() implies !lex_less(
        #[trigger] out[j],
        #[trigger] out[i],
    ) by {
        if j < p {
            assert(out[i] == s[i] && out[j] == s[j]);
        } else if j == p {
            assert(out[i] == s[i]);
        } else if i < p {
            assert(out[i] == s[i] && out[j] == s[j - 1]);
        } else if i == p {
            assert(lex_less(x, s[j - 1]));
            if lex_less(s[j - 1], x) {
                lemma_less_transitive(x, s[j - 1], x);
                lemma_less_irreflexive(x);
            }
        } else {
            assert(out[i] == s[i - 1] && out[j] == s[j - 1]);
        }
    }
}

/// The regular files of an app as entries in the order of their names.
pub fn collect_entries(files: &Vec<AppFile>) -> (r: Vec<PlannedEntry>)
    ensures
        planned(r@) == ipa_entries(files@),
        in_order(names_of(planned(r@))),
{
    let mut out: Vec<PlannedEntry> = Vec::new();
    let mut keys: Vec<Vec<char>> = Vec::new();
    let mut i: usize = 0;
    proof {
        assert(planned(out@) =~= ipa_entries(files@.take(0)));
        assert(char_seqs(keys@) =~= names_of(planned(out@)));
    }
    while i < files.len()
        invariant
            i <= files@.len(),
            planned(out@) == ipa_entries(files@.take(i as int)),
            char_seqs(keys@) == names_of(planned(out@)),
            in_order(char_seqs(keys@)),
        decreases files@.len() - i,
    {
        let f = &files[i];
        proof {
            assert(files@.take(i + 1).drop_last() =~= files@.take(i as int));
            assert(files@.take(i + 1).last() == *f);
        }
        if f.is_regular {
            let name = archive_name(f.rel.as_str());
            let method = if is_store_extension(name.as_str()) {
                Method::Stored
            } else {
                Method::Deflated
            };
            let key = to_chars(name.as_str());
            let p = find_place(&keys, &key);
            let ghost before_out = planned(out@);
            let ghost before_keys = char_seqs(keys@);
            let e = PlannedEntry { name, source: f.source.clone(), method };
            proof {
                assert(before_keys.len() == keys@.len());
                assert(before_out.len() == out@.len());
                assert(names_of(before_out).len() == before_out.len());
                lemma_insert_in_order(before_keys, key@, p as int);
                assert(planned(out@.insert(p as int, e)) =~= before_out.insert(p as int, e@));
                assert(char_seqs(keys@.insert(p as int, key)) =~= before_keys.insert(
                    p as int,
                    key@,
                ));
                assert(names_of(before_out.insert(p as int, e@)) =~= names_of(before_out).insert(
                    p as int,
                    e@.name,
                ));
            }
            out.insert(p, e);
            keys.insert(p, key);
        }
        i += 1;
    }
    proof {
        assert(files@.take(i as int) =~= files@);
    }
    out
}

/// The entries of the `.ipa` of an app: every regular file of it under `Payload`, in
/// the order of the names, stored where it is compressed already.
pub fn package_app_as_ipa(app_path: &str, app_is_dir: bool, files: &Vec<AppFile>) -> (r: Result<
    Vec<PlannedEntry>,
    Error,
>)
    ensures
        !app_is_dir ==> failure(r) == Some(
            Failure::InputInvalid("expected a .app bundle directory, got "@ + app_path@),
        ),
        app_is_dir ==> r is Ok && planned(r->Ok_0@) == ipa_entries(files@),
        r is Ok ==> in_order(names_of(planned(r->Ok_0@))),
{
    if !app_is_dir {
        let m = cat2("expected a .app bundle directory, got ", app_path);
        return Err(input_invalid(m.as_str()));
    }
    Ok(collect_entries(files))
}

/// The architectures in the order in which their ids are preferred.
pub open spec fn preferred_archs() -> Seq<Seq<char>> {
    seq!["arm64"@, "arm64e"@, "x86_64"@, "arm64-simulator"@, "x86_64-simulator"@]
}

fn list_preferred_archs() -> (r: Vec<&'static str>)
    ensures
        str_views(r@) == preferred_archs(),
{
    let r = vec!["arm64", "arm64e", "x86_64", "arm64-simulator", "x86_64-simulator"];
    proof {
        assert(str_views(r@) =~= preferred_archs());
    }
    r
}

pub open spec fn arch_slices(v: Seq<(String, Uuid)>) -> Seq<(Seq<char>, Seq<u8>)> {
    v.map_values(|s: (String, Uuid)| (s.0@, s.1.bytes@))
}

/// The first slice of an architecture, from place `i` on.
pub open spec fn first_of_arch(s: Seq<(Seq<char>, Seq<u8>)>, arch: Seq<char>, i: int) -> Option<int>
    decreases s.len() - i,
{
    if i < 0 || i >= s.len() {
        None
    } else if s[i].0 == arch {
        Some(i)
    } else {
        first_of_arch(s, arch, i + 1)
    }
}

/// The slice that is preferred, from the `k`th architecture on; the first slice
/// where none of them is there.
pub open spec fn preferred_slice(s: Seq<(Seq<char>, Seq<u8>)>, k: int) -> int
    decreases preferred_archs().len() - k,
{
    if k < 0 || k >= preferred_archs().len() {
        0
    } else {
        match first_of_arch(s, preferred_archs()[k], 0) {
            Some(i) => i,
            None => preferred_slice(s, k + 1),
        }
    }
}

/// The id of a build out of the slices of its executable: that of the preferred
/// one, without hyphens. An id of zeros is none.
pub open spec fn build_id_of(s: Seq<(Seq<char>, Seq<u8>)>) -> Option<Seq<char>> {
    if s.len() == 0 || is_nil(s[preferred_slice(s, 0)].1) {
        None
    } else {
        Some(hex_text(s[preferred_slice(s, 0)].1))
    }
}

fn find_arch(slices: &Vec<(String, Uuid)>, arch: &str) -> (r: Option<usize>)
    ensures
        match r {
            Some(i) => first_of_arch(arch_slices(slices@), arch@, 0) == Some(i as int) && i
                < slices@.len(),
            None => first_of_arch(arch_slices(slices@), arch@, 0) is None,
        },
{
    let ghost s = arch_slices(slices@);
    let mut i: usize = 0;
    while i < slices.len()
        invariant
            i <= slices@.len(),
            s == arch_slices(slices@),
            first_of_arch(s, arch@, 0) == first_of_arch(s, arch@, i as int),
        decreases slices@.len() - i,
    {
        proof {
            assert(s[i as int].0 == slices@[i as int].0@);
        }
        if str_eq(slices[i].0.as_str(), arch) {
            return Some(i);
        }
        i += 1;
    }
    None
}

/// The id of a build out of the slices of its executable.
pub fn select_preferred_uuid(slices: &Vec<(String, Uuid)>) -> (r: Option<String>)
    ensures
        opt_str(r) == build_id_of(arch_slices(slices@)),
{
    if slices.len() == 0 {
        return None;
    }
    let ghost s = arch_slices(slices@);
    let archs = list_preferred_archs();
    let ghost all = preferred_archs();
    let mut chosen: usize = 0;
    let mut found = false;
    let mut k: usize = 0;
    while k < archs.len() && !found
        invariant
            k <= archs@.len(),
            s == arch_slices(slices@),
            s.len() == slices@.len(),
            slices@.len() > 0,
            all == preferred_archs(),
            all == str_views(archs@),
            chosen < slices@.len(),
            found ==> preferred_slice(s, 0) == chosen,
            !found ==> chosen == 0 && preferred_slice(s, 0) == preferred_slice(s, k as int),
        decreases archs@.len() - k + (if found {
            0int
        } else {
            1int
        }),
    {
        proof {
            assert(all[k as int] == archs@[k as int]@);
        }
        match find_arch(slices, archs[k]) {
            Some(i) => {
                chosen = i;
                found = true;
            },
            None => {},
        }
        k += 1;
    }
    let u = slices[chosen].1;
    proof {
        assert(s[chosen as int].1 == u.bytes@);
    }
    if u.is_nil() {
        return None;
    }
    Some(u.simple())
}

/// The executable of an app, as its property list names it.
pub fn executable_name(pairs: &Vec<(String, String)>) -> (r: Option<String>)
    ensures
        opt_str(r) == text_under(pair_views(pairs@), "CFBundleExecutable"@),
{
    plist_text(pairs, "CFBundleExecutable")
}

/// Architecture and id of each slice.
pub open spec fn arch_ids(s: Seq<(Seq<char>, Seq<u8>, Seq<char>)>) -> Seq<(Seq<char>, Seq<u8>)> {
    s.map_values(|x: (Seq<char>, Seq<u8>, Seq<char>)| (x.0, x.1))
}

/// The id of the main executable of an app, given its bytes.
pub fn main_executable_uuid(binary: &[u8]) -> (r: Option<String>)
    ensures
        opt_str(r) == build_id_of(arch_ids(object_slices(binary@))),
{
    let raw = read_slices(binary);
    let ghost want = arch_ids(slice_views(raw@));
    let mut slices: Vec<(String, Uuid)> = Vec::new();
    let mut i: usize = 0;
    while i < raw.len()
        invariant
            i <= raw@.len(),
            want == arch_ids(slice_views(raw@)),
            slices@.len() == i,
            forall|k: int| 0 <= k < i ==> #[trigger] arch_slices(slices@)[k] == want[k],
        decreases raw@.len() - i,
    {
        let s = (raw[i].0.clone(), Uuid { bytes: raw[i].1 });
        proof {
            assert(want[i as int] == (s.0@, s.1.bytes@));
            assert forall|k: int| 0 <= k < i + 1 implies #[trigger] arch_slices(slices@.push(s))[k]
                == want[k] by {
                if k < i {
                    assert(arch_slices(slices@.push(s))[k] == arch_slices(slices@)[k]);
                }
            }
        }
        slices.push(s);
        i += 1;
    }
    proof {
        assert(arch_slices(slices@) =~= want);
    }
    select_preferred_uuid(&slices)
}

/// Where an executable has an `arm64` slice, the id of the build is that of the
/// first one, whatever slices stand before it.
pub proof fn law_arm64_is_preferred(s: Seq<(Seq<char>, Seq<u8>)>, i: int)
    requires
        0 <= i < s.len(),
        s[i].0 == "arm64"@,
        forall|j: int| 0 <= j < i ==> (#[trigger] s[j]).0 != "arm64"@,
        !is_nil(s[i].1),
    ensures
        build_id_of(s) == Some(hex_text(s[i].1)),
{
    lemma_first_of_arch(s, "arm64"@, 0, i);
    assert(preferred_archs()[0] == "arm64"@);
}

proof fn lemma_first_of_arch(s: Seq<(Seq<char>, Seq<u8>)>, arch: Seq<char>, from: int, i: int)
    requires
        0 <= from <= i < s.len(),
        s[i].0 == arch,
        forall|j: int| from <= j < i ==> (#[trigger] s[j]).0 != arch,
    ensures
        first_of_arch(s, arch, from) == Some(i),
    decreases i - from,
{
    if from < i {
        assert(s[from].0 != arch);
        lemma_first_of_arch(s, arch, from + 1, i);
    }
}

/// An entry of the archive is one of the regular files.
pub open spec fn gives_entry(files: Seq<AppFile>, e: Planned) -> bool {
    exists|i: int|
        0 <= i < files.len() && (#[trigger] files[i]).is_regular && ipa_entry(files[i]) == e
}

/// No two regular files have one name in the archive.
pub open spec fn names_differ(files: Seq<AppFile>) -> bool {
    forall|i: int, j: int|
        0 <= i < j < files.len() && (#[trigger] files[i]).is_regular && (
        #[trigger] files[j]).is_regular ==> ipa_entry(files[i]).name != ipa_entry(files[j]).name
}

/// Names in strictly ascending order.
spec fn strictly_in_order(s: Seq<Planned>) -> bool {
    forall|i: int, j: int|
        0 <= i < j < s.len() ==> lex_less((#[trigger] s[i]).name, (#[trigger] s[j]).name)
}

proof fn lemma_place(s: Seq<Seq<char>>, x: Seq<char>) -> (p: int)
    requires
        in_order(s),
    ensures
        0 <= p <= s.len(),
        not_behind(s, x) == p,
        forall|i: int| 0 <= i < p ==> !lex_less(x, #[trigger] s[i]),
        forall|i: int| p <= i < s.len() ==> lex_less(x, #[trigger] s[i]),
    decreases s.len(),
{
    if s.len() == 0 {
        0
    } else {
        let d = s.drop_last();
        assert(in_order(d)) by {
            assert forall|i: int, j: int| 0 <= i < j < d.len() implies !lex_less(
                #[trigger] d[j],
                #[trigger] d[i],
            ) by {
                assert(d[j] == s[j] && d[i] == s[i]);
            }
        }
        let q = lemma_place(d, x);
        if lex_less(x, s.last()) {
            assert forall|i: int| q <= i < s.len() implies lex_less(x, #[trigger] s[i]) by {
                if i < d.len() {
                    assert(d[i] == s[i]);
                }
            }
            assert forall|i: int| 0 <= i < q implies !lex_less(x, #[trigger] s[i]) by {
                assert(d[i] == s[i]);
            }
            q
        } else {
            if q < d.len() {
                assert(lex_less(x, d[q]));
                assert(d[q] == s[q]);
                assert(!lex_less(s[s.len() - 1], s[q]));
                lemma_less_total(s[q], s.last());
                if s[q] != s.last() {
                    lemma_less_transitive(x, s[q], s.last());
                }
            }
            assert forall|i: int| 0 <= i < s.len() implies !lex_less(x, #[trigger] s[i]) by {
                if i < d.len() {
                    assert(d[i] == s[i]);
                }
            }
            s.len() as int
        }
    }
}

proof fn lemma_entries_in_order(files: Seq<AppFile>)
    ensures
        in_order(names_of(ipa_entries(files))),
        forall|e: Planned| #[trigger] ipa_entries(files).contains(e) <==> gives_entry(files, e),
    decreases files.len(),
{
    let out = ipa_entries(files);
    if files.len() > 0 {
        let d = files.drop_last();
        let last = files.last();
        lemma_entries_in_order(d);
        let r = ipa_entries(d);
        assert(files[files.len() - 1] == last);
        assert forall|i: int| 0 <= i < d.len() implies #[trigger] d[i] == files[i] by {}
        if last.is_regular {
            let e = ipa_entry(last);
            let p = lemma_place(names_of(r), e.name);
            lemma_insert_in_order(names_of(r), e.name, p);
            assert(names_of(out) =~= names_of(r).insert(p, e.name));
            assert(out == r.insert(p, e));
            assert forall|x: Planned| #[trigger] out.contains(x) <==> gives_entry(files, x) by {
                if out.contains(x) {
                    let k = choose|k: int| 0 <= k < out.len() && out[k] == x;
                    if k == p {
                        assert(gives_entry(files, x));
                    } else {
                        let m = if k < p {
                            k
                        } else {
                            k - 1
                        };
                        assert(r[m] == x);
                        assert(r.contains(x));
                        assert(gives_entry(d, x));
                        let i = choose|i: int|
                            0 <= i < d.len() && (#[trigger] d[i]).is_regular && ipa_entry(d[i]) == x;
                        assert(files[i] == d[i]);
                    }
                }
                if gives_entry(files, x) {
                    let i = choose|i: int|
                        0 <= i < files.len() && (#[trigger] files[i]).is_regular && ipa_entry(
                            files[i],
                        ) == x;
                    if i < d.len() {
                        assert(d[i] == files[i]);
                        assert(gives_entry(d, x));
                        assert(r.contains(x));
                        let k = choose|k: int| 0 <= k < r.len() && r[k] == x;
                        let m = if k < p {
                            k
                        } else {
                            k + 1
                        };
                        assert(out[m] == x);
                        assert(out.contains(x));
                    } else {
                        assert(out[p] == x);
                        assert(out.contains(x));
                    }
                }
            }
        } else {
            assert forall|x: Planned| #[trigger] out.contains(x) <==> gives_entry(files, x) by {
                if gives_entry(d, x) {
                    let i = choose|i: int|
                        0 <= i < d.len() && (#[trigger] d[i]).is_regular && ipa_entry(d[i]) == x;
                    assert(files[i] == d[i]);
                }
                if gives_entry(files, x) {
                    let i = choose|i: int|
                        0 <= i < files.len() && (#[trigger] files[i]).is_regular && ipa_entry(
                            files[i],
                        ) == x;
                    assert(d[i] == files[i]);
                }
            }
        }
    }
}

proof fn lemma_entries_strictly(files: Seq<AppFile>)
    requires
        names_differ(files),
    ensures
        strictly_in_order(ipa_entries(files)),
    decreases files.len(),
{
    if files.len() > 0 {
        let d = files.drop_last();
        let last = files.last();
        assert(files[files.len() - 1] == last);
        assert forall|i: int| 0 <= i < d.len() implies #[trigger] d[i] == files[i] by {}
        lemma_entries_strictly(d);
        lemma_entries_in_order(d);
        let r = ipa_entries(d);
        let out = ipa_entries(files);
        if last.is_regular {
            let e = ipa_entry(last);
            let names = names_of(r);
            let p = lemma_place(names, e.name);
            assert(out == r.insert(p, e));
            assert forall|i: int, j: int| 0 <= i < j < out.len() implies lex_less(
                (#[trigger] out[i]).name,
                (#[trigger] out[j]).name,
            ) by {
                let a = if i < p {
                    i
                } else {
                    i - 1
                };
                let b = if j < p {
                    j
                } else {
                    j - 1
                };
                if i != p && j != p {
                    assert(out[i] == r[a] && out[j] == r[b]);
                } else if j == p {
                    assert(out[i] == r[i]);
                    assert(names[i] == r[i].name);
                    assert(r.contains(r[i]));
                    assert(gives_entry(d, r[i]));
                    let k = choose|k: int|
                        0 <= k < d.len() && (#[trigger] d[k]).is_regular && ipa_entry(d[k]) == r[i];
                    assert(files[k] == d[k]);
                    lemma_less_total(r[i].name, e.name);
                } else {
                    assert(out[j] == r[j - 1]);
                    assert(names[j - 1] == r[j - 1].name);
                }
            }
        }
    }
}

proof fn lemma_same_when_strict(a: Seq<Planned>, b: Seq<Planned>)
    requires
        strictly_in_order(a),
        strictly_in_order(b),
        forall|e: Planned| a.contains(e) <==> b.contains(e),
    ensures
        a == b,
    decreases a.len(),
{
    if a.len() == 0 {
        if b.len() > 0 {
            assert(b.contains(b[0]));
            assert(a.contains(b[0]));
        }
        assert(a =~= b);
    } else {
        assert(a.contains(a.last())) by {
            assert(a[a.len() - 1] == a.last());
        }
        assert(b.contains(a.last()));
        let j = choose|j: int| 0 <= j < b.len() && b[j] == a.last();
        assert(b.contains(b.last())) by {
            assert(b[b.len() - 1] == b.last());
        }
        assert(a.contains(b.last()));
        let i = choose|i: int| 0 <= i < a.len() && a[i] == b.last();
        if i < a.len() - 1 && j < b.len() - 1 {
            assert(lex_less(a[i].name, a[a.len() - 1].name));
            assert(lex_less(b[j].name, b[b.len() - 1].name));
            lemma_less_transitive(a.last().name, b.last().name, a.last().name);
            lemma_less_irreflexive(a.last().name);
        }
        assert(a.last() == b.last());
        let x = a.drop_last();
        let y = b.drop_last();
        assert(strictly_in_order(x)) by {
            assert forall|i: int, j: int| 0 <= i < j < x.len() implies lex_less(
                (#[trigger] x[i]).name,
                (#[trigger] x[j]).name,
            ) by {
                assert(x[i] == a[i] && x[j] == a[j]);
            }
        }
        assert(strictly_in_order(y)) by {
            assert forall|i: int, j: int| 0 <= i < j < y.len() implies lex_less(
                (#[trigger] y[i]).name,
                (#[trigger] y[j]).name,
            ) by {
                assert(y[i] == b[i] && y[j] == b[j]);
            }
        }
        assert forall|e: Planned| x.contains(e) <==> y.contains(e) by {
            if x.contains(e) {
                let k = choose|k: int| 0 <= k < x.len() && x[k] == e;
                assert(a[k] == e);
                assert(a.contains(e));
                let m = choose|m: int| 0 <= m < b.len() && b[m] == e;
                if m == b.len() - 1 {
                    assert(lex_less(a[k].name, a[a.len() - 1].name));
                    lemma_less_irreflexive(e.name);
                }
                assert(y[m] == e);
            }
            if y.contains(e) {
                let k = choose|k: int| 0 <= k < y.len() && y[k] == e;
                assert(b[k] == e);
                assert(b.contains(e));
                let m = choose|m: int| 0 <= m < a.len() && a[m] == e;
                if m == a.len() - 1 {
                    assert(lex_less(b[k].name, b[b.len() - 1].name));
                    lemma_less_irreflexive(e.name);
                }
                assert(x[m] == e);
            }
        }
        lemma_same_when_strict(x, y);
        assert(a =~= x.push(a.last()));
        assert(b =~= y.push(b.last()));
    }
}

/// Packing the same files gives the same archive, in whatever order they were found.
pub proof fn law_packing_does_not_depend_on_the_listing(a: Seq<AppFile>, b: Seq<AppFile>)
    requires
        names_differ(a),
        names_differ(b),
        forall|e: Planned| gives_entry(a, e) <==> gives_entry(b, e),
    ensures
        ipa_entries(a) == ipa_entries(b),
{
    lemma_entries_in_order(a);
    lemma_entries_in_order(b);
    lemma_entries_strictly(a);
    lemma_entries_strictly(b);
    assert forall|e: Planned| ipa_entries(a).contains(e) <==> ipa_entries(b).contains(e) by {
        assert(ipa_entries(a).contains(e) <==> gives_entry(a, e));
        assert(ipa_entries(b).contains(e) <==> gives_entry(b, e));
    }
    lemma_same_when_strict(ipa_entries(a), ipa_entries(b));
}

/// The names in an archive: `Payload` in front, then the names of the path with slashes
/// between them.
pub proof fn law_names_in_the_archive(parts: Seq<PathPart>, n: Seq<char>)
    ensures
        payload_name(Seq::empty()) == "Payload"@,
        payload_name(parts.push(PathPart::Name(n))) == payload_name(parts) + "/"@ + n,
        payload_name(parts.push(PathPart::Current)) == payload_name(parts),
{
    assert(parts.push(PathPart::Name(n)).drop_last() =~= parts);
    assert(parts.push(PathPart::Current).drop_last() =~= parts);
}

/// Which files are stored as they are: those with one of these extensions, in whatever
/// case; all others are deflated.
pub proof fn law_compressed_files_are_stored(f: AppFile)
    ensures
        ({
            let n = lowered(payload_name(path_parts(f.rel@)));
            let stored = has_suffix(n, ".png"@) || has_suffix(n, ".jpg"@) || has_suffix(n, ".jpeg"@)
                || has_suffix(n, ".heic"@) || has_suffix(n, ".heif"@) || has_suffix(n, ".webp"@)
                || has_suffix(n, ".pdf"@) || has_suffix(n, ".mp3"@) || has_suffix(n, ".mp4"@)
                || has_suffix(n, ".mov"@) || has_suffix(n, ".aac"@) || has_suffix(n, ".m4a"@)
                || has_suffix(n, ".m4v"@) || has_suffix(n, ".zip"@) || has_suffix(n, ".gz"@)
                || has_suffix(n, ".woff"@) || has_suffix(n, ".woff2"@);
            &&& stored ==> ipa_entry(f).method == Method::Stored
            &&& !stored ==> ipa_entry(f).method == Method::Deflated
            &&& ipa_entry(f).source == f.source@
            &&& ipa_entry(f).name == payload_name(path_parts(f.rel@))
        }),
{
    let name = payload_name(path_parts(f.rel@));
    let n = lowered(name);
    let e = store_extensions();
    assert(e[0] == ".png"@ && e[1] == ".jpg"@ && e[2] == ".jpeg"@ && e[3] == ".heic"@);
    assert(e[4] == ".heif"@ && e[5] == ".webp"@ && e[6] == ".pdf"@ && e[7] == ".mp3"@);
    assert(e[8] == ".mp4"@ && e[9] == ".mov"@ && e[10] == ".aac"@ && e[11] == ".m4a"@);
    assert(e[12] == ".m4v"@ && e[13] == ".zip"@ && e[14] == ".gz"@ && e[15] == ".woff"@);
    assert(e[16] == ".woff2"@);
    assert(e.len() == 17);
    if is_compressed_name(name) {
        let i = choose|i: int|
            0 <= i < store_extensions().len() && has_suffix(n, #[trigger] store_extensions()[i]);
        assert(has_suffix(n, e[i]));
    }
}

proof fn lemma_not_behind_bound(s: Seq<Seq<char>>, x: Seq<char>)
    ensures
        not_behind(s, x) <= s.len(),
    decreases s.len(),
{
    if s.len() > 0 {
        lemma_not_behind_bound(s.drop_last(), x);
    }
}

/// An archive holds the regular files of the app and nothing else.
pub proof fn law_regular_files_are_packed(files: Seq<AppFile>, e: Planned)
    ensures
        ipa_entries(files).contains(e) <==> gives_entry(files, e),
    decreases files.len(),
{
    if files.len() == 0 {
        assert(!gives_entry(files, e));
    } else {
        let d = files.drop_last();
        let f = files.last();
        let r = ipa_entries(d);
        law_regular_files_are_packed(d, e);
        assert(gives_entry(files, e) <==> gives_entry(d, e) || (f.is_regular && ipa_entry(f) == e))
            by {
            if gives_entry(files, e) {
                let i = choose|i: int|
                    0 <= i < files.len() && (#[trigger] files[i]).is_regular && ipa_entry(files[i])
                        == e;
                if i < d.len() {
                    assert(d[i] == files[i]);
                }
            }
            if gives_entry(d, e) {
                let i = choose|i: int|
                    0 <= i < d.len() && (#[trigger] d[i]).is_regular && ipa_entry(d[i]) == e;
                assert(files[i] == d[i]);
            }
            if f.is_regular && ipa_entry(f) == e {
                assert(files[files.len() - 1] == f);
            }
        }
        if f.is_regular {
            let x = ipa_entry(f);
            lemma_not_behind_bound(names_of(r), x.name);
            let p = not_behind(names_of(r), x.name) as int;
            let t = r.insert(p, x);
            assert(ipa_entries(files) == t);
            assert(t[p] == x);
            if t.contains(e) {
                let k = choose|k: int| 0 <= k < t.len() && t[k] == e;
                if k < p {
                    assert(r[k] == e);
                } else if k > p {
                    assert(r[k - 1] == e);
                }
            }
            if r.contains(e) {
                let k = choose|k: int| 0 <= k < r.len() && r[k] == e;
                if k < p {
                    assert(t[k] == e);
                } else {
                    assert(t[k + 1] == e);
                }
            }
        }
    }
}

/// A slice of an architecture is there.
pub open spec fn has_arch(s: Seq<(Seq<char>, Seq<u8>)>, arch: Seq<char>) -> bool {
    exists|i: int| 0 <= i < s.len() && (#[trigger] s[i]).0 == arch
}

proof fn lemma_no_arch(s: Seq<(Seq<char>, Seq<u8>)>, arch: Seq<char>, from: int)
    requires
        0 <= from <= s.len(),
        !has_arch(s, arch),
    ensures
        first_of_arch(s, arch, from) is None,
    decreases s.len() - from,
{
    if from < s.len() {
        assert(s[from].0 != arch);
        lemma_no_arch(s, arch, from + 1);
    }
}

/// Which slice tells the id of a build: the first `arm64` one, or else the first `arm64e`
/// one, or else `x86_64`, or else those of simulators, or else the first there is.
pub proof fn law_slices_by_preference(s: Seq<(Seq<char>, Seq<u8>)>, i: int)
    requires
        0 <= i < s.len(),
        forall|j: int| 0 <= j < i ==> (#[trigger] s[j]).0 != s[i].0,
        !is_nil(s[i].1),
    ensures
        ({
            let told = build_id_of(s) == Some(hex_text(s[i].1));
            let a = has_arch(s, "arm64"@);
            let b = has_arch(s, "arm64e"@);
            let c = has_arch(s, "x86_64"@);
            let d = has_arch(s, "arm64-simulator"@);
            let e = has_arch(s, "x86_64-simulator"@);
            &&& s[i].0 == "arm64"@ ==> told
            &&& s[i].0 == "arm64e"@ && !a ==> told
            &&& s[i].0 == "x86_64"@ && !a && !b ==> told
            &&& s[i].0 == "arm64-simulator"@ && !a && !b && !c ==> told
            &&& s[i].0 == "x86_64-simulator"@ && !a && !b && !c && !d ==> told
            &&& i == 0 && !a && !b && !c && !d && !e ==> told
        }),
{
    let p = preferred_archs();
    assert(p.len() == 5);
    assert(p[0] == "arm64"@ && p[1] == "arm64e"@ && p[2] == "x86_64"@);
    assert(p[3] == "arm64-simulator"@ && p[4] == "x86_64-simulator"@);
    lemma_first_of_arch(s, s[i].0, 0, i);
    if !has_arch(s, "arm64"@) {
        lemma_no_arch(s, "arm64"@, 0);
    }
    if !has_arch(s, "arm64e"@) {
        lemma_no_arch(s, "arm64e"@, 0);
    }
    if !has_arch(s, "x86_64"@) {
        lemma_no_arch(s, "x86_64"@, 0);
    }
    if !has_arch(s, "arm64-simulator"@) {
        lemma_no_arch(s, "arm64-simulator"@, 0);
    }
    if !has_arch(s, "x86_64-simulator"@) {
        lemma_no_arch(s, "x86_64-simulator"@, 0);
    }
    reveal_with_fuel(preferred_slice, 7);
}

/// An id of zeros is none, and neither is there one without slices.
pub proof fn law_no_id_out_of_zeros(s: Seq<(Seq<char>, Seq<u8>)>)
    requires
        forall|i: int| 0 <= i < s.len() ==> is_nil((#[trigger] s[i]).1),
    ensures
        build_id_of(s) is None,
{
    if s.len() > 0 {
        lemma_preferred_inside(s, 0);
        assert(is_nil(s[preferred_slice(s, 0)].1));
    }
}

proof fn lemma_preferred_inside(s: Seq<(Seq<char>, Seq<u8>)>, k: int)
    requires
        s.len() > 0,
    ensures
        0 <= preferred_slice(s, k) < s.len(),
    decreases preferred_archs().len() - k,
{
    if 0 <= k < preferred_archs().len() {
        lemma_first_inside(s, preferred_archs()[k], 0);
        lemma_preferred_inside(s, k + 1);
    }
}

proof fn lemma_first_inside(s: Seq<(Seq<char>, Seq<u8>)>, arch: Seq<char>, from: int)
    ensures
        first_of_arch(s, arch, from) is Some ==> 0 <= first_of_arch(s, arch, from)->0 < s.len(),
    decreases s.len() - from,
{
    if 0 <= from < s.len() {
        lemma_first_inside(s, arch, from + 1);
    }
}

} // verus!

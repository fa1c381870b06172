//! The ids of Mach-O binaries, read by the `symbolic-debuginfo` crate.
use crate::text::{strs, to_chars};
use vstd::prelude::*;
use vstd::string::*;

verus! {

/// The largest binary that is read.
pub const MAX_MACHO_FILE_BYTES: u64 = 1073741824;

/// The `dsym` commands.
#[derive(Debug)]
pub enum DsymCommand {
    /// The ids of a bundle or binary.
    Uuid(UuidArgs),
    /// The ids with their architectures.
    Slices(SlicesArgs),
}

#[derive(Debug)]
pub struct UuidArgs {
    pub path: String,
}

#[derive(Debug)]
pub struct SlicesArgs {
    pub path: String,
}

/// One slice of a binary.
#[derive(Debug, Clone, PartialEq, Eq)]
pub struct DsymSliceView {
    pub uuid: String,
    pub arch: String,
}

/// The slices of a binary: the architecture, the id, and the debug id as text.
pub uninterp spec fn object_slices(bytes: Seq<u8>) -> Seq<(Seq<char>, Seq<u8>, Seq<char>)>;

pub open spec fn slice_views(v: Seq<(String, [u8; 16], String)>) -> Seq<
    (Seq<char>, Seq<u8>, Seq<char>),
> {
    v.map_values(|s: (String, [u8; 16], String)| (s.0@, s.1@, s.2@))
}

/// Calls `symbolic_debuginfo::Archive::parse` and lists the objects that can be
/// read; none where the bytes are no archive. The result is named
/// [`object_slices`]; nothing more is said of it.
#[verifier::external_body]
pub(crate) fn read_slices(bytes: &[u8]) -> (r: Vec<(String, [u8; 16], String)>)
    ensures
        slice_views(r@) == object_slices(bytes@),
{
    let mut out = Vec::new();
    if let Ok(archive) = symbolic_debuginfo::Archive::parse(bytes) {
        for object in archive.objects().flatten() {
            let id = object.debug_id();
            let arch = object.arch().name().to_string();
            out.push((arch, id.uuid().into_bytes(), id.to_string()));
        }
    }
    out
}

pub open spec fn raised_char(c: char) -> char {
    if 'a' <= c <= 'z' {
        (c as u8 - 32) as u8 as char
    } else {
        c
    }
}

/// `s` with the small ASCII letters made capitals.
pub open spec fn raised(s: Seq<char>) -> Seq<char> {
    s.map_values(|c: char| raised_char(c))
}

/// The text of a debug id in capitals.
pub fn format_uuid(debug_id: &str) -> (r: String)
    ensures
        r@ == raised(debug_id@),
{
    let v = to_chars(debug_id);
    let mut r = String::new();
    let mut i: usize = 0;
    while i < v.len()
        invariant
            i <= v@.len(),
            r@ == raised(v@.take(i as int)),
        decreases v@.len() - i,
    {
        let c = v[i];
        let u = if 'a' <= c && c <= 'z' {
            (c as u8 - 32) as char
        } else {
            c
        };
        r.push(u);
        proof {
            assert(raised(v@.take(i + 1)) =~= raised(v@.take(i as int)).push(raised_char(c)));
        }
        i += 1;
    }
    proof {
        assert(v@.take(i as int) =~= v@);
    }
    r
}

/// A binary that may be read.
#[derive(Debug)]
pub struct MachoFile {
    /// Its size, where that is known.
    pub size: Option<u64>,
    /// Its bytes, where they could be read.
    pub bytes: Option<Vec<u8>>,
}

pub open spec fn is_readable(f: MachoFile) -> bool {
    f.bytes is Some && (f.size is Some ==> f.size->0 <= MAX_MACHO_FILE_BYTES)
}

pub open spec fn view_of(v: Seq<DsymSliceView>) -> Seq<(Seq<char>, Seq<char>)> {
    v.map_values(|s: DsymSliceView| (s.uuid@, s.arch@))
}

/// The ids and architectures of the slices.
pub open spec fn shown_slices(s: Seq<(Seq<char>, Seq<u8>, Seq<char>)>) -> Seq<
    (Seq<char>, Seq<char>),
> {
    s.map_values(|x: (Seq<char>, Seq<u8>, Seq<char>)| (raised(x.2), x.0))
}

/// The ids and architectures of the slices of all binaries that can be read and
/// are not too large.
pub open spec fn slices_of(files: Seq<MachoFile>) -> Seq<(Seq<char>, Seq<char>)>
    decreases files.len(),
{
    if files.len() == 0 {
        Seq::empty()
    } else {
        let r = slices_of(files.drop_last());
        if is_readable(files.last()) {
            r + shown_slices(object_slices(files.last().bytes->0@))
        } else {
            r
        }
    }
}

/// The ids and architectures of slices.
pub fn show_slices(slices: &Vec<(String, [u8; 16], String)>) -> (r: Vec<DsymSliceView>)
    ensures
        view_of(r@) == shown_slices(slice_views(slices@)),
{
    let mut out: Vec<DsymSliceView> = Vec::new();
    let ghost want = shown_slices(slice_views(slices@));
    let mut i: usize = 0;
    while i < slices.len()
        invariant
            i <= slices@.len(),
            want == shown_slices(slice_views(slices@)),
            out@.len() == i,
            forall|k: int| 0 <= k < i ==> #[trigger] view_of(out@)[k] == want[k],
        decreases slices@.len() - i,
    {
        let s = DsymSliceView {
            uuid: format_uuid(slices[i].2.as_str()),
            arch: slices[i].0.clone(),
        };
        proof {
            assert(want[i as int] == (s.uuid@, s.arch@));
            assert forall|k: int| 0 <= k < i + 1 implies #[trigger] view_of(out@.push(s))[k]
                == want[k] by {
                if k < i {
                    assert(view_of(out@.push(s))[k] == view_of(out@)[k]);
                }
            }
        }
        out.push(s);
        i += 1;
    }
    proof {
        assert(view_of(out@) =~= want);
    }
    out
}

/// The ids and architectures of the slices of the binaries of a bundle, or of one
/// binary.
pub fn extract_slices(files: &Vec<MachoFile>) -> (r: Vec<DsymSliceView>)
    ensures
        view_of(r@) == slices_of(files@),
{
    let mut out: Vec<DsymSliceView> = Vec::new();
    let mut i: usize = 0;
    proof {
        assert(view_of(out@) =~= slices_of(files@.take(0)));
    }
    while i < files.len()
        invariant
            i <= files@.len(),
            view_of(out@) == slices_of(files@.take(i as int)),
        decreases files@.len() - i,
    {
        let f = &files[i];
        proof {
            assert(files@.take(i + 1).drop_last() =~= files@.take(i as int));
            assert(files@.take(i + 1).last() == *f);
        }
        let too_large = match f.size {
            Some(n) => n > MAX_MACHO_FILE_BYTES,
            None => false,
        };
        if !too_large {
            match &f.bytes {
                Some(b) => {
                    let slices = read_slices(b.as_slice());
                    let shown = show_slices(&slices);
                    let ghost base = view_of(out@);
                    let ghost more = view_of(shown@);
                    let mut k: usize = 0;
                    proof {
                        assert(base + more.take(0) =~= base);
                    }
                    while k < shown.len()
                        invariant
                            k <= shown@.len(),
                            more == view_of(shown@),
                            view_of(out@) == base + more.take(k as int),
                        decreases shown@.len() - k,
                    {
                        let s = DsymSliceView {
                            uuid: shown[k].uuid.clone(),
                            arch: shown[k].arch.clone(),
                        };
                        proof {
                            assert(more[k as int] == (s.uuid@, s.arch@));
                            assert(more.take(k + 1) =~= more.take(k as int).push(
                                (s.uuid@, s.arch@),
                            ));
                            assert(view_of(out@.push(s)) =~= view_of(out@).push(
                                (s.uuid@, s.arch@),
                            ));
                            assert(base + more.take(k + 1) =~= (base + more.take(k as int)).push(
                                (s.uuid@, s.arch@),
                            ));
                        }
                        out.push(s);
                        k += 1;
                    }
                    proof {
                        assert(more.take(k as int) =~= more);
                    }
                },
                None => {},
            }
        }
        i += 1;
    }
    proof {
        assert(files@.take(i as int) =~= files@);
    }
    out
}

/// The ids of the slices of the binaries of a bundle, or of one binary.
pub fn extract_uuids(files: &Vec<MachoFile>) -> (r: Vec<String>)
    ensures
        strs(r@) == slices_of(files@).map_values(|s: (Seq<char>, Seq<char>)| s.0),
{
    let slices = extract_slices(files);
    let ghost all = view_of(slices@);
    let mut out: Vec<String> = Vec::new();
    let mut i: usize = 0;
    while i < slices.len()
        invariant
            i <= slices@.len(),
            all == view_of(slices@),
            out@.len() == i,
            forall|k: int| 0 <= k < i ==> (#[trigger] out@[k])@ == all[k].0,
        decreases slices@.len() - i,
    {
        let u = slices[i].uuid.clone();
        proof {
            assert(all[i as int].0 == u@);
        }
        out.push(u);
        i += 1;
    }
    proof {
        assert(strs(out@) =~= all.map_values(|s: (Seq<char>, Seq<char>)| s.0));
    }
    out
}

/// The two ways to ask for ids give the same ones in the same order.
pub proof fn law_uuids_are_those_of_the_slices(files: Seq<MachoFile>, i: int)
    requires
        0 <= i < slices_of(files).len(),
    ensures
        slices_of(files).map_values(|s: (Seq<char>, Seq<char>)| s.0).len() == slices_of(files).len(),
        slices_of(files).map_values(|s: (Seq<char>, Seq<char>)| s.0)[i] == slices_of(files)[i].0,
{
}

/// Capitals are made of small letters, and every other character stays.
pub proof fn law_raising_makes_letters_great(s: Seq<char>, i: int)
    requires
        0 <= i < s.len(),
    ensures
        raised(s).len() == s.len(),
        'a' <= s[i] <= 'z' ==> raised(s)[i] as int == s[i] as int - 32,
        !('a' <= s[i] <= 'z') ==> raised(s)[i] == s[i],
{
}

/// A binary adds its slices in their order, the id in capitals and the architecture, where
/// it could be read and has at most one gibibyte, as far as its size is known.
pub proof fn law_binaries_add_their_slices(files: Seq<MachoFile>, f: MachoFile)
    ensures
        f.bytes is None ==> slices_of(files.push(f)) == slices_of(files),
        f.size is Some && f.size->0 > 1073741824 ==> slices_of(files.push(f)) == slices_of(files),
        f.bytes is Some && (f.size is None || f.size->0 <= 1073741824) ==> slices_of(files.push(f))
            == slices_of(files) + object_slices(f.bytes->0@).map_values(
            |x: (Seq<char>, Seq<u8>, Seq<char>)| (raised(x.2), x.0),
        ),
        slices_of(Seq::empty()) == Seq::<(Seq<char>, Seq<char>)>::empty(),
{
    assert(files.push(f).drop_last() =~= files);
}

} // verus!

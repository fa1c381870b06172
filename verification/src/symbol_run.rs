//! The upload of debug files, file by file: what is done next, what is sent, and
//! what is counted.
use crate::compress::{Planned, PlannedEntry, Strategy, ZipEntry, method_of, pack_entries, planned};
use crate::debug_files::{DebugFileType, path_extension};
use crate::dep_entry::copy_strings;
use crate::error::{Error, Failure, failure, input_invalid};
use crate::ids::{Uuid, hyphenated_text};
use crate::paths::{extension, file_name, last_name, parse_path, path_parts};
use crate::text::{cat2, cat3, has_prefix, law_prefixes_and_suffixes, opt_str, strs};
use vstd::prelude::*;
use vstd::string::*;

verus! {

/// What is being done with a file.
#[derive(Debug, Clone, Copy, PartialEq, Eq, Structural)]
pub enum Phase {
    /// It is being identified; an archive of native libraries is being unpacked.
    Identify,
    /// The server is being asked whether it wants it.
    Register,
    /// It is being packed.
    Pack,
    /// It is being sent.
    Send,
}

/// How that went.
#[derive(Debug, Clone, Copy, PartialEq, Eq, Structural)]
pub enum StepEvent {
    Done,
    /// The server has it already.
    AlreadyThere,
    Failed,
}

/// How a file is counted.
#[derive(Debug, Clone, Copy, PartialEq, Eq, Structural)]
pub enum Count {
    Uploaded,
    AlreadyThere,
    Skipped,
    Nothing,
}

/// What comes next.
#[derive(Debug, Clone, Copy, PartialEq, Eq, Structural)]
pub enum Next {
    Continue(Phase),
    /// The file is finished.
    Finished(Count),
    /// The whole upload ends with the failure of this step.
    Abort,
}

/// What comes next for a file of a kind. A PDB or dSYM that cannot be read is
/// skipped; any other failure ends the upload. A dSYM is registered before it is
/// packed. A dry run packs, native libraries excepted, and sends nothing.
pub open spec fn next_of(kind: DebugFileType, dry_run: bool, phase: Phase, event: StepEvent) -> Next {
    match (phase, event) {
        (Phase::Identify, StepEvent::Done) => if kind == DebugFileType::Elf && dry_run {
            Next::Finished(Count::Nothing)
        } else if kind == DebugFileType::Dsym && !dry_run {
            Next::Continue(Phase::Register)
        } else {
            Next::Continue(Phase::Pack)
        },
        (Phase::Identify, StepEvent::Failed) => if kind == DebugFileType::Pdb || kind
            == DebugFileType::Dsym {
            Next::Finished(Count::Skipped)
        } else {
            Next::Abort
        },
        (Phase::Register, StepEvent::Done) => Next::Continue(Phase::Pack),
        (Phase::Register, StepEvent::AlreadyThere) => Next::Finished(Count::AlreadyThere),
        (Phase::Pack, StepEvent::Done) => if dry_run {
            if kind == DebugFileType::Pdb {
                Next::Finished(Count::Uploaded)
            } else {
                Next::Finished(Count::Nothing)
            }
        } else {
            Next::Continue(Phase::Send)
        },
        (Phase::Send, StepEvent::Done) => Next::Finished(Count::Uploaded),
        (Phase::Send, StepEvent::AlreadyThere) => Next::Finished(Count::AlreadyThere),
        _ => Next::Abort,
    }
}

/// What comes next for a file of a kind.
pub fn next_step(kind: DebugFileType, dry_run: bool, phase: Phase, event: StepEvent) -> (r: Next)
    ensures
        r == next_of(kind, dry_run, phase, event),
{
    match (phase, event) {
        (Phase::Identify, StepEvent::Done) => if kind == DebugFileType::Elf && dry_run {
            Next::Finished(Count::Nothing)
        } else if kind == DebugFileType::Dsym && !dry_run {
            Next::Continue(Phase::Register)
        } else {
            Next::Continue(Phase::Pack)
        },
        (Phase::Identify, StepEvent::Failed) => if kind == DebugFileType::Pdb || kind
            == DebugFileType::Dsym {
            Next::Finished(Count::Skipped)
        } else {
            Next::Abort
        },
        (Phase::Register, StepEvent::Done) => Next::Continue(Phase::Pack),
        (Phase::Register, StepEvent::AlreadyThere) => Next::Finished(Count::AlreadyThere),
        (Phase::Pack, StepEvent::Done) => if dry_run {
            if kind == DebugFileType::Pdb {
                Next::Finished(Count::Uploaded)
            } else {
                Next::Finished(Count::Nothing)
            }
        } else {
            Next::Continue(Phase::Send)
        },
        (Phase::Send, StepEvent::Done) => Next::Finished(Count::Uploaded),
        (Phase::Send, StepEvent::AlreadyThere) => Next::Finished(Count::AlreadyThere),
        _ => Next::Abort,
    }
}

/// The phase that a file is in after these events, unless it is finished.
pub open spec fn phase_after(kind: DebugFileType, dry_run: bool, events: Seq<StepEvent>) -> Option<
    Phase,
>
    decreases events.len(),
{
    if events.len() == 0 {
        Some(Phase::Identify)
    } else {
        match phase_after(kind, dry_run, events.drop_last()) {
            Some(p) => match next_of(kind, dry_run, p, events.last()) {
                Next::Continue(q) => Some(q),
                _ => None,
            },
            None => None,
        }
    }
}

/// A dry run never asks or sends anything, whatever happens.
pub proof fn law_dry_run_sends_nothing(kind: DebugFileType, events: Seq<StepEvent>)
    ensures
        phase_after(kind, true, events) != Some(Phase::Register),
        phase_after(kind, true, events) != Some(Phase::Send),
    decreases events.len(),
{
    if events.len() > 0 {
        law_dry_run_sends_nothing(kind, events.drop_last());
    }
}

/// A dSYM is packed only once the server has said that it wants it.
pub proof fn law_dsym_is_packed_on_demand(events: Seq<StepEvent>)
    requires
        phase_after(DebugFileType::Dsym, false, events) == Some(Phase::Pack),
    ensures
        events.len() >= 2,
        phase_after(DebugFileType::Dsym, false, events.drop_last()) == Some(Phase::Register),
        events.last() == StepEvent::Done,
{
    assert(events.len() > 0);
    assert(events.drop_last().len() > 0);
}

/// How many files of an upload came to what.
#[derive(Debug, Clone, Copy, PartialEq, Eq, Structural)]
pub struct Tally {
    pub uploaded: u32,
    pub already_existed: u32,
    pub skipped: u32,
}

impl Default for Tally {
    fn default() -> (r: Tally)
        ensures
            r == (Tally { uploaded: 0, already_existed: 0, skipped: 0 }),
    {
        Tally { uploaded: 0, already_existed: 0, skipped: 0 }
    }
}

impl Tally {
    /// Counts a file.
    pub fn count(&mut self, c: Count)
        requires
            c == Count::Uploaded ==> old(self).uploaded < u32::MAX,
            c == Count::AlreadyThere ==> old(self).already_existed < u32::MAX,
            c == Count::Skipped ==> old(self).skipped < u32::MAX,
        ensures
            final(self).uploaded == old(self).uploaded + (if c == Count::Uploaded {
                1int
            } else {
                0int
            }),
            final(self).already_existed == old(self).already_existed + (if c
                == Count::AlreadyThere {
                1int
            } else {
                0int
            }),
            final(self).skipped == old(self).skipped + (if c == Count::Skipped {
                1int
            } else {
                0int
            }),
    {
        match c {
            Count::Uploaded => {
                self.uploaded = self.uploaded + 1;
            },
            Count::AlreadyThere => {
                self.already_existed = self.already_existed + 1;
            },
            Count::Skipped => {
                self.skipped = self.skipped + 1;
            },
            Count::Nothing => {},
        }
    }
}

/// How an upload ends: one of PDBs of which none could be identified fails.
pub fn finish_run(kind: DebugFileType, tally: &Tally) -> (r: Result<(), Error>)
    ensures
        if kind == DebugFileType::Pdb && tally.uploaded == 0 && tally.already_existed == 0 {
            failure(r) == Some(Failure::InputInvalid("no PDB files could be identified"@))
        } else {
            r is Ok
        },
{
    if kind == DebugFileType::Pdb && tally.uploaded == 0 && tally.already_existed == 0 {
        return Err(input_invalid("no PDB files could be identified"));
    }
    Ok(())
}

/// What is told the server of a file.
#[derive(Debug, PartialEq, Eq)]
pub struct Metadata {
    pub uuid: Option<String>,
    pub version: String,
    pub build: String,
    pub hash: Option<String>,
    pub transform: Option<String>,
    pub uuids: Option<Vec<String>>,
    pub overwrite: Option<bool>,
}

/// What is told the server of a file, as text.
pub struct Meta {
    pub uuid: Option<Seq<char>>,
    pub version: Seq<char>,
    pub build: Seq<char>,
    pub hash: Option<Seq<char>>,
    pub transform: Option<Seq<char>>,
    pub uuids: Option<Seq<Seq<char>>>,
    pub overwrite: Option<bool>,
}

impl View for Metadata {
    type V = Meta;

    open spec fn view(&self) -> Meta {
        Meta {
            uuid: opt_str(self.uuid),
            version: self.version@,
            build: self.build@,
            hash: opt_str(self.hash),
            transform: opt_str(self.transform),
            uuids: match self.uuids {
                Some(v) => Some(strs(v@)),
                None => None,
            },
            overwrite: self.overwrite,
        }
    }
}

/// What is told of a file that goes by one id.
pub open spec fn keyed_meta(
    id: Seq<char>,
    version: Seq<char>,
    build: Seq<char>,
    hash: Seq<char>,
    transform: Option<Seq<char>>,
) -> Meta {
    Meta { uuid: Some(id), version, build, hash: Some(hash), transform, uuids: None, overwrite: None }
}

fn keyed_metadata(id: String, version: &str, build: &str, hash: &str, transform: Option<String>) -> (r:
    Metadata)
    ensures
        r@ == keyed_meta(id@, version@, build@, hash@, opt_str(transform)),
{
    Metadata {
        uuid: Some(id),
        version: version.to_owned(),
        build: build.to_owned(),
        hash: Some(hash.to_owned()),
        transform,
        uuids: None,
        overwrite: None,
    }
}

/// The id of a mapping file: the one that was given, or else the computed one.
pub fn mapping_uuid(given: Option<Uuid>, computed: Uuid) -> (r: Uuid)
    ensures
        r.bytes@ == match given {
            Some(g) => g.bytes@,
            None => computed.bytes@,
        },
{
    match given {
        Some(g) => g,
        None => computed,
    }
}

/// What is told of a mapping file.
pub fn mapping_metadata(id: &Uuid, hash: &str, version: &str, build: &str) -> (r: Metadata)
    ensures
        r@ == keyed_meta(hyphenated_text(id.bytes@), version@, build@, hash@, None),
        r.uuid is Some && r.uuid->0@ == hyphenated_text(id.bytes@),
        r.version@ == version@,
        r.build@ == build@,
        r.hash is Some && r.hash->0@ == hash@,
        r.transform is None,
        r.uuids is None,
        r.overwrite is None,
{
    keyed_metadata(id.hyphenated(), version, build, hash, None)
}

/// The name of the launcher icon in the archive of a mapping file.
pub open spec fn icon_name(icon: Seq<char>) -> Seq<char> {
    "icon."@ + match path_extension(icon) {
        Some(e) => e,
        None => "bin"@,
    }
}

/// The archive of a mapping file: the mapping first, then the icon where there is one.
pub fn mapping_archive(mapping: &str, icon: &Option<String>, strategy: Strategy) -> (r: Vec<
    PlannedEntry,
>)
    ensures
        planned(r@) == (match icon {
            Some(i) => seq![
                Planned {
                    name: "mapping.txt"@,
                    source: mapping@,
                    method: method_of(false, strategy),
                },
                Planned { name: icon_name(i@), source: i@, method: method_of(false, strategy) },
            ],
            None => seq![
                Planned {
                    name: "mapping.txt"@,
                    source: mapping@,
                    method: method_of(false, strategy),
                },
            ],
        }),
{
    let mut entries: Vec<ZipEntry> = Vec::new();
    entries.push(ZipEntry::compressed("mapping.txt", mapping));
    match icon {
        Some(i) => {
            let parts = parse_path(i.as_str());
            let ext = match file_name(&parts) {
                Some(n) => extension(n.as_str()),
                None => None,
            };
            let e = match ext {
                Some(e) => e,
                None => "bin".to_owned(),
            };
            let name = cat2("icon.", e.as_str());
            entries.push(ZipEntry::compressed(name.as_str(), i.as_str()));
            let r = pack_entries(&entries, strategy);
            proof {
                assert(planned(r@) =~= seq![
                    Planned {
                        name: "mapping.txt"@,
                        source: mapping@,
                        method: method_of(false, strategy),
                    },
                    Planned { name: icon_name(i@), source: i@, method: method_of(false, strategy) },
                ]);
            }
            r
        },
        None => {
            let r = pack_entries(&entries, strategy);
            proof {
                assert(planned(r@) =~= seq![
                    Planned {
                        name: "mapping.txt"@,
                        source: mapping@,
                        method: method_of(false, strategy),
                    },
                ]);
            }
            r
        },
    }
}

/// The id of a source map: the one that was given, or else the one it carries; a map
/// without any is refused.
pub open spec fn map_id_of(given: Option<Seq<u8>>, embedded: Option<Seq<char>>, path: Seq<char>) -> Result<
    Seq<char>,
    Failure,
> {
    match given {
        Some(b) => Ok(hyphenated_text(b)),
        None => match embedded {
            Some(e) => Ok(e),
            None => Err(
                Failure::InputInvalid(
                    "source map has no debug_id/debugId/uuid: "@ + path
                        + " — run `bugsee-cli sourcemaps inject <bundle-dir>` first to embed one, or pass --uuid to key by a caller-owned id"@,
                ),
            ),
        },
    }
}

/// The id of a source map.
pub fn sourcemap_id(given: Option<Uuid>, embedded: &Option<String>, path: &str) -> (r: Result<
    String,
    Error,
>)
    ensures
        match map_id_of(
            match given {
                Some(g) => Some(g.bytes@),
                None => None,
            },
            opt_str(*embedded),
            path@,
        ) {
            Ok(id) => r is Ok && r->Ok_0@ == id,
            Err(f) => failure(r) == Some(f),
        },
{
    match given {
        Some(g) => Ok(g.hyphenated()),
        None => match embedded {
            Some(e) => Ok(e.clone()),
            None => {
                let m = cat3(
                    "source map has no debug_id/debugId/uuid: ",
                    path,
                    " — run `bugsee-cli sourcemaps inject <bundle-dir>` first to embed one, or pass --uuid to key by a caller-owned id",
                );
                Err(input_invalid(m.as_str()))
            },
        },
    }
}

/// What is told of a source map or a PDB that goes by an id.
pub fn file_metadata(id: &str, hash: &str, version: &str, build: &str) -> (r: Metadata)
    ensures
        r@ == keyed_meta(id@, version@, build@, hash@, None),
        r.uuid is Some && r.uuid->0@ == id@,
        r.version@ == version@,
        r.build@ == build@,
        r.hash is Some && r.hash->0@ == hash@,
        r.transform is None,
        r.uuids is None,
        r.overwrite is None,
{
    keyed_metadata(id.to_owned(), version, build, hash, None)
}

/// What is told of a native library: its build id, and that it is to be transformed.
pub fn library_metadata(build_id: &str, hash: &str, version: &str, build: &str) -> (r: Metadata)
    ensures
        r@ == keyed_meta(build_id@, version@, build@, hash@, Some("breakpad"@)),
        r.uuid is Some && r.uuid->0@ == build_id@,
        r.version@ == version@,
        r.build@ == build@,
        r.hash is Some && r.hash->0@ == hash@,
        r.transform is Some && r.transform->0@ == "breakpad"@,
        r.uuids is None,
        r.overwrite is None,
{
    keyed_metadata(build_id.to_owned(), version, build, hash, Some("breakpad".to_owned()))
}

/// What is told of a dSYM: the ids of its slices, and whether one that is there is to
/// be replaced.
pub fn dsym_metadata(slice_uuids: &Vec<String>, version: &str, build: &str, force: bool) -> (r:
    Metadata)
    ensures
        r@ == (Meta {
            uuid: None,
            version: version@,
            build: build@,
            hash: None,
            transform: None,
            uuids: Some(strs(slice_uuids@)),
            overwrite: if force {
                Some(true)
            } else {
                None
            },
        }),
        r.uuid is None,
        r.version@ == version@,
        r.build@ == build@,
        r.hash is None,
        r.uuids is Some && strs(r.uuids->0@) == strs(slice_uuids@),
        r.overwrite == Some(true) <==> force,
        r.overwrite is None <==> !force,
{
    Metadata {
        uuid: None,
        version: version.to_owned(),
        build: build.to_owned(),
        hash: None,
        transform: None,
        uuids: Some(copy_strings(slice_uuids)),
        overwrite: if force {
            Some(true)
        } else {
            None
        },
    }
}

/// The file name of a path, or another one where it has none.
pub open spec fn name_or(path: Seq<char>, other: Seq<char>) -> Seq<char> {
    match last_name(path_parts(path)) {
        Some(n) => n,
        None => other,
    }
}

/// The name of a file in its archive: its own, or a common one of its kind.
pub fn entry_name(kind: DebugFileType, path: &str) -> (r: String)
    ensures
        r@ == name_or(
            path@,
            match kind {
                DebugFileType::Pdb => "app.pdb"@,
                DebugFileType::Elf => "lib.so"@,
                DebugFileType::Dsym => "bundle.dSYM"@,
                _ => "bundle.js.map"@,
            },
        ),
{
    let parts = parse_path(path);
    match file_name(&parts) {
        Some(n) => n,
        None => match kind {
            DebugFileType::Pdb => "app.pdb".to_owned(),
            DebugFileType::Elf => "lib.so".to_owned(),
            DebugFileType::Dsym => "bundle.dSYM".to_owned(),
            _ => "bundle.js.map".to_owned(),
        },
    }
}

/// A native library of an archive.
#[derive(Debug)]
pub struct NativeLib {
    pub name: String,
    pub path: String,
    pub arch: String,
    /// Its GNU build id, where it has one.
    pub build_id: Option<String>,
}

/// The places of the libraries that have a build id.
pub open spec fn with_build_id(libs: Seq<NativeLib>) -> Seq<int>
    decreases libs.len(),
{
    if libs.len() == 0 {
        Seq::empty()
    } else {
        let r = with_build_id(libs.drop_last());
        if libs.last().build_id is Some {
            r.push(libs.len() - 1)
        } else {
            r
        }
    }
}

/// The places of the libraries that can be uploaded: those with a build id. Another
/// could never be found again.
pub fn uploadable(libs: &Vec<NativeLib>) -> (r: Vec<usize>)
    ensures
        r@.map_values(|i: usize| i as int) == with_build_id(libs@),
        forall|k: int|
            0 <= k < r@.len() ==> (#[trigger] r@[k]) < libs@.len() && libs@[r@[k] as int].build_id
                is Some,
{
    let mut out: Vec<usize> = Vec::new();
    let mut i: usize = 0;
    proof {
        assert(out@.map_values(|i: usize| i as int) =~= with_build_id(libs@.take(0)));
    }
    while i < libs.len()
        invariant
            i <= libs@.len(),
            out@.map_values(|i: usize| i as int) == with_build_id(libs@.take(i as int)),
            forall|k: int|
                0 <= k < out@.len() ==> (#[trigger] out@[k]) < libs@.len()
                    && libs@[out@[k] as int].build_id is Some,
        decreases libs@.len() - i,
    {
        proof {
            assert(libs@.take(i + 1).drop_last() =~= libs@.take(i as int));
            assert(libs@.take(i + 1).last() == libs@[i as int]);
        }
        if libs[i].build_id.is_some() {
            proof {
                assert(out@.push(i).map_values(|i: usize| i as int) =~= out@.map_values(
                    |i: usize| i as int,
                ).push(i as int));
            }
            out.push(i);
        }
        i += 1;
    }
    proof {
        assert(libs@.take(i as int) =~= libs@);
    }
    out
}

/// A file counts as uploaded only where it was sent: in a run that is no dry run the step
/// that finishes such a file is the sending of it, and it went well. One that counts as
/// there already was said to be there by the server.
pub proof fn law_uploaded_files_were_sent(
    kind: DebugFileType,
    events: Seq<StepEvent>,
    event: StepEvent,
)
    requires
        phase_after(kind, false, events) is Some,
    ensures
        next_of(kind, false, phase_after(kind, false, events)->0, event) == Next::Finished(
            Count::Uploaded,
        ) <==> phase_after(kind, false, events) == Some(Phase::Send) && event == StepEvent::Done,
        next_of(kind, false, phase_after(kind, false, events)->0, event) == Next::Finished(
            Count::AlreadyThere,
        ) ==> event == StepEvent::AlreadyThere,
        next_of(kind, false, phase_after(kind, false, events)->0, event) != Next::Finished(
            Count::Nothing,
        ),
{
}

/// In a run that is no dry run a file that is identified is packed and one that is packed is
/// sent, whatever its kind; what is sent was packed before.
pub proof fn law_packed_files_are_sent(kind: DebugFileType, events: Seq<StepEvent>)
    ensures
        phase_after(kind, false, events) == Some(Phase::Pack) ==> phase_after(
            kind,
            false,
            events.push(StepEvent::Done),
        ) == Some(Phase::Send),
        phase_after(kind, false, events) == Some(Phase::Send) ==> events.len() > 0 && events.last()
            == StepEvent::Done && phase_after(kind, false, events.drop_last()) == Some(Phase::Pack),
        phase_after(kind, false, events) == Some(Phase::Identify) <==> events.len() == 0,
        kind != DebugFileType::Dsym ==> phase_after(kind, false, seq![StepEvent::Done]) == Some(
            Phase::Pack,
        ),
        kind == DebugFileType::Dsym ==> phase_after(kind, false, seq![StepEvent::Done]) == Some(
            Phase::Register,
        ),
        kind != DebugFileType::Dsym ==> phase_after(kind, false, events) != Some(Phase::Register),
    decreases events.len(),
{
    assert(events.push(StepEvent::Done).drop_last() =~= events);
    let one = seq![StepEvent::Done];
    assert(one.drop_last() =~= Seq::empty());
    assert(phase_after(kind, false, one.drop_last()) == Some(Phase::Identify));
    if events.len() > 0 {
        law_packed_files_are_sent(kind, events.drop_last());
    }
}

/// What ends an upload and what only skips a file: a PDB or a dSYM that cannot be read is
/// skipped; every other failure ends the upload.
pub proof fn law_failures_end_the_upload(kind: DebugFileType, dry_run: bool, phase: Phase)
    ensures
        (kind == DebugFileType::Pdb || kind == DebugFileType::Dsym) && phase == Phase::Identify
            ==> next_of(kind, dry_run, phase, StepEvent::Failed) == Next::Finished(Count::Skipped),
        !((kind == DebugFileType::Pdb || kind == DebugFileType::Dsym) && phase == Phase::Identify)
            ==> next_of(kind, dry_run, phase, StepEvent::Failed) == Next::Abort,
        phase == Phase::Register || phase == Phase::Send ==> next_of(
            kind,
            dry_run,
            phase,
            StepEvent::AlreadyThere,
        ) == Next::Finished(Count::AlreadyThere),
{
}

/// A dry run packs a file, but for native libraries, and then is done with it; only a PDB is
/// counted.
pub proof fn law_dry_runs_stop_after_packing(kind: DebugFileType)
    ensures
        kind != DebugFileType::Elf ==> phase_after(kind, true, seq![StepEvent::Done]) == Some(
            Phase::Pack,
        ),
        kind == DebugFileType::Elf ==> next_of(kind, true, Phase::Identify, StepEvent::Done)
            == Next::Finished(Count::Nothing),
        next_of(kind, true, Phase::Pack, StepEvent::Done) == Next::Finished(
            if kind == DebugFileType::Pdb {
                Count::Uploaded
            } else {
                Count::Nothing
            },
        ),
{
    let one = seq![StepEvent::Done];
    assert(one.drop_last() =~= Seq::empty());
    assert(phase_after(kind, true, one.drop_last()) == Some(Phase::Identify));
}

/// The id of a source map is the one that was given, or else the one that it carries; one
/// without any is refused, and the message names it.
pub proof fn law_source_maps_have_an_id(given: Seq<u8>, embedded: Seq<char>, path: Seq<char>)
    ensures
        map_id_of(Some(given), Some(embedded), path) == Ok::<Seq<char>, Failure>(
            hyphenated_text(given),
        ),
        map_id_of(Some(given), None, path) == Ok::<Seq<char>, Failure>(hyphenated_text(given)),
        map_id_of(None, Some(embedded), path) == Ok::<Seq<char>, Failure>(embedded),
        map_id_of(None, None, path) is Err,
        map_id_of(None, None, path)->Err_0 is InputInvalid,
        has_prefix(
            map_id_of(None, None, path)->Err_0->InputInvalid_0,
            "source map has no debug_id/debugId/uuid: "@ + path,
        ),
{
    let a = "source map has no debug_id/debugId/uuid: "@ + path;
    law_prefixes_and_suffixes(
        a,
        " — run `bugsee-cli sourcemaps inject <bundle-dir>` first to embed one, or pass --uuid to key by a caller-owned id"@,
    );
}

/// A library can be uploaded exactly where it has a build id, and the libraries keep their
/// order.
pub proof fn law_libraries_with_an_id_are_taken(libs: Seq<NativeLib>, i: int)
    ensures
        with_build_id(libs).contains(i) <==> 0 <= i < libs.len() && libs[i].build_id is Some,
        forall|a: int, b: int|
            0 <= a < b < with_build_id(libs).len() ==> 0 <= #[trigger] with_build_id(libs)[a]
                < #[trigger] with_build_id(libs)[b] < libs.len(),
        forall|a: int| 0 <= a < with_build_id(libs).len() ==> 0 <= #[trigger] with_build_id(libs)[a]
            < libs.len(),
    decreases libs.len(),
{
    if libs.len() > 0 {
        let d = libs.drop_last();
        law_libraries_with_an_id_are_taken(d, i);
        let r = with_build_id(d);
        let out = with_build_id(libs);
        if libs.last().build_id is Some {
            assert(out =~= r.push(libs.len() - 1));
            if r.contains(i) {
                let k = choose|k: int| 0 <= k < r.len() && r[k] == i;
                assert(out[k] == i);
            }
            if i == libs.len() - 1 {
                assert(out[r.len() as int] == i);
            }
            if out.contains(i) && i != libs.len() - 1 {
                let k = choose|k: int| 0 <= k < out.len() && out[k] == i;
                assert(r[k] == i);
            }
        }
        if 0 <= i < d.len() {
            assert(d[i] == libs[i]);
        }
    }
}

/// The icon of an app keeps the extension of its file.
pub proof fn law_icons_keep_their_extension(icon: Seq<char>)
    ensures
        path_extension(icon) is Some ==> icon_name(icon) == "icon."@ + path_extension(icon)->0,
        path_extension(icon) is None ==> icon_name(icon) == "icon.bin"@,
{
    reveal_strlit("icon.");
    reveal_strlit("bin");
    reveal_strlit("icon.bin");
    assert("icon."@ + "bin"@ =~= "icon.bin"@);
}

} // verus!

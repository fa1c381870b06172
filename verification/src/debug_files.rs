//! Uploading debug files: which files are taken, under which id each goes, and how
//! the upload of one goes on from step to step.
use crate::compress::{Strategy, resolve_strategy, strategy_of};
use crate::error::{Error, Failure, config_invalid, failure, input_invalid, input_not_found};
use crate::ids::{Uuid, parse_uuid, uuid_parsed};
use crate::paths::{
    PathPart, extension_of, file_name, has_extension, last_name, law_joining_a_name,
    law_names_come_apart, parse_path, part_views, path_parts, same_path,
};
use crate::text::{cat2, cat3, join, joined, opt_str, strs};
use crate::upload::{endpoint_or_default, resolve_endpoint};
use vstd::prelude::*;
use vstd::string::*;

verus! {

/// The kinds of debug file.
#[derive(Debug, Clone, Copy, PartialEq, Eq, Structural)]
pub enum DebugFileType {
    Dsym,
    Elf,
    Pe,
    Pdb,
    PortablePdb,
    Breakpad,
    Proguard,
    Jvm,
    Sourcebundle,
    Wasm,
    Sourcemaps,
}

/// The forms of an older kind that a debug file can be converted to.
#[derive(Debug, Clone, Copy, PartialEq, Eq, Structural)]
pub enum LegacyFormat {
    Bmf,
    Bsf,
}

/// The `debug-files` commands.
#[derive(Debug)]
pub enum DebugFilesCommand {
    /// Find, pack and upload debug files.
    Upload {
        paths: Vec<String>,
        kind: Option<DebugFileType>,
        version: String,
        build: String,
        uuid: Option<String>,
        icon: Option<String>,
        no_zstd: bool,
        zstd_level: Option<i64>,
        force: bool,
        dry_run: bool,
    },
    /// Convert a debug file to an older form.
    Convert { input: String, to: LegacyFormat, output: String },
}

impl DebugFileType {
    /// The name of a kind.
    pub open spec fn name(self) -> Seq<char> {
        match self {
            DebugFileType::Dsym => "Dsym"@,
            DebugFileType::Elf => "Elf"@,
            DebugFileType::Pe => "Pe"@,
            DebugFileType::Pdb => "Pdb"@,
            DebugFileType::PortablePdb => "PortablePdb"@,
            DebugFileType::Breakpad => "Breakpad"@,
            DebugFileType::Proguard => "Proguard"@,
            DebugFileType::Jvm => "Jvm"@,
            DebugFileType::Sourcebundle => "Sourcebundle"@,
            DebugFileType::Wasm => "Wasm"@,
            DebugFileType::Sourcemaps => "Sourcemaps"@,
        }
    }

    /// The name of a kind.
    pub fn as_str(self) -> (r: &'static str)
        ensures
            r@ == self.name(),
    {
        match self {
            DebugFileType::Dsym => "Dsym",
            DebugFileType::Elf => "Elf",
            DebugFileType::Pe => "Pe",
            DebugFileType::Pdb => "Pdb",
            DebugFileType::PortablePdb => "PortablePdb",
            DebugFileType::Breakpad => "Breakpad",
            DebugFileType::Proguard => "Proguard",
            DebugFileType::Jvm => "Jvm",
            DebugFileType::Sourcebundle => "Sourcebundle",
            DebugFileType::Wasm => "Wasm",
            DebugFileType::Sourcemaps => "Sourcemaps",
        }
    }

    /// A kind that can be uploaded.
    pub open spec fn supported(self) -> bool {
        self == DebugFileType::Proguard || self == DebugFileType::Elf || self
            == DebugFileType::Dsym || self == DebugFileType::Pdb || self
            == DebugFileType::Sourcemaps
    }

    /// Whether a kind can be uploaded.
    pub fn is_supported(self) -> (r: bool)
        ensures
            r == self.supported(),
    {
        match self {
            DebugFileType::Proguard => true,
            DebugFileType::Elf => true,
            DebugFileType::Dsym => true,
            DebugFileType::Pdb => true,
            DebugFileType::Sourcemaps => true,
            _ => false,
        }
    }
}

/// What an upload is to do.
#[derive(Debug)]
pub struct UploadPlan {
    pub kind: DebugFileType,
    pub strategy: Strategy,
    pub uuid: Option<Uuid>,
    pub endpoint: String,
    pub app_token: String,
}

/// What an upload is to do, as text and numbers.
pub struct Plan {
    pub kind: DebugFileType,
    pub strategy: Strategy,
    pub uuid: Option<Seq<u8>>,
    pub endpoint: Seq<char>,
    pub app_token: Seq<char>,
}

impl View for UploadPlan {
    type V = Plan;

    open spec fn view(&self) -> Plan {
        Plan {
            kind: self.kind,
            strategy: self.strategy,
            uuid: match self.uuid {
                Some(u) => Some(u.bytes@),
                None => None,
            },
            endpoint: self.endpoint@,
            app_token: self.app_token@,
        }
    }
}

/// What the id that was given reads as.
pub enum GivenId {
    Absent,
    Id(Seq<u8>),
    /// It is none, for this reason.
    Malformed(Seq<char>),
}

/// The id that was given, as the `uuid` crate reads it.
pub open spec fn given_id(text: Option<Seq<char>>) -> GivenId {
    match text {
        None => GivenId::Absent,
        Some(t) => match uuid_parsed(t) {
            Ok(b) => GivenId::Id(b),
            Err(e) => GivenId::Malformed(e),
        },
    }
}

/// What an upload is to do, or why it is refused. The kind is settled first, then
/// the compression, the id, the icon, the token, and last that native libraries need
/// an id.
pub open spec fn upload_plan(
    kind: Option<DebugFileType>,
    id: GivenId,
    icon: Option<Seq<char>>,
    icon_is_file: bool,
    no_zstd: bool,
    zstd_level: Option<i64>,
    dry_run: bool,
    endpoint: Option<Seq<char>>,
    app_token: Option<Seq<char>>,
) -> Result<Plan, Failure> {
    let k = match kind {
        Some(k) => k,
        None => DebugFileType::Proguard,
    };
    if !k.supported() {
        Err(
            Failure::ConfigInvalid(
                "supported types are --type proguard, elf, dsym, pdb, and sourcemaps; got "@
                    + k.name() + " (other formats are scaffold-only)"@,
            ),
        )
    } else {
        match strategy_of(no_zstd, zstd_level) {
            Err(f) => Err(f),
            Ok(s) => if id is Malformed {
                Err(Failure::InputInvalid("--uuid is not a valid UUID: "@ + id->Malformed_0))
            } else if k != DebugFileType::Proguard && icon is Some {
                Err(
                    Failure::ConfigInvalid(
                        "--icon is only valid for --type proguard (mapping files attach the launcher icon)"@,
                    ),
                )
            } else if k == DebugFileType::Dsym && id is Id {
                Err(
                    Failure::ConfigInvalid(
                        "--uuid does not apply to --type dsym — the server extracts Mach-O UUIDs from the dSYM bundle itself, one per architecture slice"@,
                    ),
                )
            } else if icon is Some && !icon_is_file {
                Err(
                    Failure::InputNotFound(
                        "--icon path does not exist or is not a file: "@ + icon->0,
                    ),
                )
            } else if !dry_run && app_token is None {
                Err(
                    Failure::ConfigInvalid(
                        "--app-token (or BUGSEE_APP_TOKEN) is required when not in --dry-run mode"@,
                    ),
                )
            } else if k == DebugFileType::Elf && id is Absent {
                Err(
                    Failure::ConfigInvalid(
                        "--uuid is required when --type elf (the resolved BUILD_UUID from the SDK's asset channel)"@,
                    ),
                )
            } else {
                Ok(
                    Plan {
                        kind: k,
                        strategy: s,
                        uuid: match id {
                            GivenId::Id(b) => Some(b),
                            _ => None,
                        },
                        endpoint: endpoint_or_default(endpoint),
                        app_token: match app_token {
                            Some(t) => t,
                            None => Seq::empty(),
                        },
                    },
                )
            },
        }
    }
}

pub open spec fn read_id(parsed: Option<Result<Uuid, String>>) -> GivenId {
    match parsed {
        None => GivenId::Absent,
        Some(Ok(u)) => GivenId::Id(u.bytes@),
        Some(Err(e)) => GivenId::Malformed(e@),
    }
}

/// What an upload is to do, given what the id reads as.
pub fn plan_with_id(
    kind: Option<DebugFileType>,
    parsed: Option<Result<Uuid, String>>,
    icon: &Option<String>,
    icon_is_file: bool,
    no_zstd: bool,
    zstd_level: Option<i64>,
    dry_run: bool,
    endpoint: &Option<String>,
    app_token: &Option<String>,
) -> (r: Result<UploadPlan, Error>)
    ensures
        match upload_plan(
            kind,
            read_id(parsed),
            opt_str(*icon),
            icon_is_file,
            no_zstd,
            zstd_level,
            dry_run,
            opt_str(*endpoint),
            opt_str(*app_token),
        ) {
            Ok(p) => r is Ok && r->Ok_0@ == p,
            Err(f) => failure(r) == Some(f),
        },
{
    let k = match kind {
        Some(k) => k,
        None => DebugFileType::Proguard,
    };
    if !k.is_supported() {
        let m = cat3(
            "supported types are --type proguard, elf, dsym, pdb, and sourcemaps; got ",
            k.as_str(),
            " (other formats are scaffold-only)",
        );
        return Err(config_invalid(m.as_str()));
    }
    let strategy = match resolve_strategy(no_zstd, zstd_level) {
        Ok(s) => s,
        Err(e) => {
            return Err(e);
        },
    };
    let uuid: Option<Uuid> = match parsed {
        None => None,
        Some(Ok(u)) => Some(u),
        Some(Err(e)) => {
            let m = cat2("--uuid is not a valid UUID: ", e.as_str());
            return Err(input_invalid(m.as_str()));
        },
    };
    if k != DebugFileType::Proguard && icon.is_some() {
        return Err(
            config_invalid(
                "--icon is only valid for --type proguard (mapping files attach the launcher icon)",
            ),
        );
    }
    if k == DebugFileType::Dsym && uuid.is_some() {
        return Err(
            config_invalid(
                "--uuid does not apply to --type dsym — the server extracts Mach-O UUIDs from the dSYM bundle itself, one per architecture slice",
            ),
        );
    }
    match icon {
        Some(p) => {
            if !icon_is_file {
                let m = cat2("--icon path does not exist or is not a file: ", p.as_str());
                return Err(input_not_found(m.as_str()));
            }
        },
        None => {},
    }
    let token = match app_token {
        Some(t) => t.clone(),
        None => {
            if !dry_run {
                return Err(
                    config_invalid(
                        "--app-token (or BUGSEE_APP_TOKEN) is required when not in --dry-run mode",
                    ),
                );
            }
            String::new()
        },
    };
    if k == DebugFileType::Elf && uuid.is_none() {
        return Err(
            config_invalid(
                "--uuid is required when --type elf (the resolved BUILD_UUID from the SDK's asset channel)",
            ),
        );
    }
    Ok(
        UploadPlan {
            kind: k,
            strategy,
            uuid,
            endpoint: resolve_endpoint(endpoint),
            app_token: token,
        },
    )
}

/// What an upload is to do.
pub fn plan_upload(
    kind: Option<DebugFileType>,
    uuid: &Option<String>,
    icon: &Option<String>,
    icon_is_file: bool,
    no_zstd: bool,
    zstd_level: Option<i64>,
    dry_run: bool,
    endpoint: &Option<String>,
    app_token: &Option<String>,
) -> (r: Result<UploadPlan, Error>)
    ensures
        match upload_plan(
            kind,
            given_id(opt_str(*uuid)),
            opt_str(*icon),
            icon_is_file,
            no_zstd,
            zstd_level,
            dry_run,
            opt_str(*endpoint),
            opt_str(*app_token),
        ) {
            Ok(p) => r is Ok && r->Ok_0@ == p,
            Err(f) => failure(r) == Some(f),
        },
{
    let parsed = match uuid {
        Some(t) => Some(parse_uuid(t.as_str())),
        None => None,
    };
    plan_with_id(
        kind,
        parsed,
        icon,
        icon_is_file,
        no_zstd,
        zstd_level,
        dry_run,
        endpoint,
        app_token,
    )
}

/// A path that was found by walking a directory.
#[derive(Debug)]
pub struct Walked {
    pub path: String,
    pub is_file: bool,
    pub is_dir: bool,
    /// Whether what is inside says that it is of the kind: the name of a mapping file,
    /// the magic of a PDB, the `DWARF` directory of a dSYM.
    pub confirmed: bool,
}

/// A path that was given, with what walking it finds where it is a directory.
#[derive(Debug)]
pub struct InputPath {
    pub path: String,
    pub is_file: bool,
    pub is_dir: bool,
    pub walked: Vec<Walked>,
}

/// The kinds of file that are looked for.
#[derive(Debug, Clone, Copy, PartialEq, Eq, Structural)]
pub enum Wanted {
    Mappings,
    Sourcemaps,
    Pdbs,
    Dsyms,
}

/// The extension of a path.
pub open spec fn path_extension(path: Seq<char>) -> Option<Seq<char>> {
    match last_name(path_parts(path)) {
        Some(n) => extension_of(n),
        None => None,
    }
}

/// A path that is taken as it was given.
pub open spec fn is_explicit(w: Wanted, p: InputPath) -> bool {
    match w {
        Wanted::Dsyms => p.is_dir && path_extension(p.path@) == Some("dSYM"@),
        _ => p.is_file,
    }
}

/// A path that is taken where a walk finds it.
pub open spec fn qualifies(w: Wanted, e: Walked) -> bool {
    match w {
        Wanted::Mappings => e.is_file && e.confirmed,
        Wanted::Sourcemaps => e.is_file && path_extension(e.path@) == Some("map"@),
        Wanted::Pdbs => e.is_file && path_extension(e.path@) == Some("pdb"@) && e.confirmed,
        Wanted::Dsyms => e.is_dir && path_extension(e.path@) == Some("dSYM"@) && e.confirmed,
    }
}

/// The path is among the given ones.
pub open spec fn holds_path(s: Seq<Seq<char>>, p: Seq<char>) -> bool {
    exists|i: int| 0 <= i < s.len() && path_parts(#[trigger] s[i]) == path_parts(p)
}

/// The list with one more path. PDBs and dSYMs are taken once.
pub open spec fn with_path(w: Wanted, s: Seq<Seq<char>>, p: Seq<char>) -> Seq<Seq<char>> {
    if (w == Wanted::Pdbs || w == Wanted::Dsyms) && holds_path(s, p) {
        s
    } else {
        s.push(p)
    }
}

/// The list with what a walk finds.
pub open spec fn with_walked(w: Wanted, s: Seq<Seq<char>>, walked: Seq<Walked>) -> Seq<Seq<char>>
    decreases walked.len(),
{
    if walked.len() == 0 {
        s
    } else {
        let r = with_walked(w, s, walked.drop_last());
        if qualifies(w, walked.last()) {
            with_path(w, r, walked.last().path@)
        } else {
            r
        }
    }
}

/// The files that the given paths lead to: a path of the kind is taken as it is, a
/// directory is walked, and anything else is passed over.
pub open spec fn discovered(w: Wanted, inputs: Seq<InputPath>) -> Seq<Seq<char>>
    decreases inputs.len(),
{
    if inputs.len() == 0 {
        Seq::empty()
    } else {
        let r = discovered(w, inputs.drop_last());
        let p = inputs.last();
        if is_explicit(w, p) {
            with_path(w, r, p.path@)
        } else if p.is_dir {
            with_walked(w, r, p.walked@)
        } else {
            r
        }
    }
}

fn path_has_extension(path: &str, ext: &str) -> (r: bool)
    ensures
        r == (path_extension(path@) == Some(ext@)),
{
    let parts = parse_path(path);
    match file_name(&parts) {
        Some(n) => has_extension(n.as_str(), ext),
        None => false,
    }
}

fn holds(found: &Vec<String>, p: &str) -> (r: bool)
    ensures
        r == holds_path(strs(found@), p@),
{
    let ghost s = strs(found@);
    let target = parse_path(p);
    let mut i: usize = 0;
    while i < found.len()
        invariant
            i <= found@.len(),
            s == strs(found@),
            part_views(target@) == path_parts(p@),
            forall|k: int| 0 <= k < i ==> path_parts(#[trigger] s[k]) != path_parts(p@),
        decreases found@.len() - i,
    {
        proof {
            assert(s[i as int] == found@[i as int]@);
        }
        let other = parse_path(found[i].as_str());
        if same_path(&other, &target) {
            return true;
        }
        i += 1;
    }
    false
}

fn add_path(w: Wanted, found: &mut Vec<String>, p: &String)
    ensures
        strs(final(found)@) == with_path(w, strs(old(found)@), p@),
{
    let once = w == Wanted::Pdbs || w == Wanted::Dsyms;
    if once && holds(found, p.as_str()) {
        return;
    }
    let c = p.clone();
    proof {
        assert(strs(found@.push(c)) =~= strs(found@).push(c@));
    }
    found.push(c);
}

fn walked_qualifies(w: Wanted, e: &Walked) -> (r: bool)
    ensures
        r == qualifies(w, *e),
{
    match w {
        Wanted::Mappings => e.is_file && e.confirmed,
        Wanted::Sourcemaps => e.is_file && path_has_extension(e.path.as_str(), "map"),
        Wanted::Pdbs => e.is_file && path_has_extension(e.path.as_str(), "pdb") && e.confirmed,
        Wanted::Dsyms => e.is_dir && path_has_extension(e.path.as_str(), "dSYM") && e.confirmed,
    }
}

/// The files that the given paths lead to.
pub fn discover(w: Wanted, inputs: &Vec<InputPath>) -> (r: Vec<String>)
    ensures
        strs(r@) == discovered(w, inputs@),
{
    let mut found: Vec<String> = Vec::new();
    let mut i: usize = 0;
    proof {
        assert(strs(found@) =~= discovered(w, inputs@.take(0)));
    }
    while i < inputs.len()
        invariant
            i <= inputs@.len(),
            strs(found@) == discovered(w, inputs@.take(i as int)),
        decreases inputs@.len() - i,
    {
        let p = &inputs[i];
        proof {
            assert(inputs@.take(i + 1).drop_last() =~= inputs@.take(i as int));
            assert(inputs@.take(i + 1).last() == *p);
        }
        let explicit = match w {
            Wanted::Dsyms => p.is_dir && path_has_extension(p.path.as_str(), "dSYM"),
            _ => p.is_file,
        };
        if explicit {
            add_path(w, &mut found, &p.path);
        } else if p.is_dir {
            let ghost base = strs(found@);
            let mut j: usize = 0;
            proof {
                assert(p.walked@.take(0) =~= Seq::empty());
            }
            while j < p.walked.len()
                invariant
                    j <= p.walked@.len(),
                    strs(found@) == with_walked(w, base, p.walked@.take(j as int)),
                decreases p.walked@.len() - j,
            {
                let e = &p.walked[j];
                proof {
                    assert(p.walked@.take(j + 1).drop_last() =~= p.walked@.take(j as int));
                    assert(p.walked@.take(j + 1).last() == *e);
                }
                if walked_qualifies(w, e) {
                    add_path(w, &mut found, &e.path);
                }
                j += 1;
            }
            proof {
                assert(p.walked@.take(j as int) =~= p.walked@);
            }
        }
        i += 1;
    }
    proof {
        assert(inputs@.take(i as int) =~= inputs@);
    }
    found
}

/// The mapping files that the given paths lead to.
pub fn discover_mappings(inputs: &Vec<InputPath>) -> (r: Vec<String>)
    ensures
        strs(r@) == discovered(Wanted::Mappings, inputs@),
{
    discover(Wanted::Mappings, inputs)
}

/// The source maps that the given paths lead to.
pub fn discover_sourcemaps(inputs: &Vec<InputPath>) -> (r: Vec<String>)
    ensures
        strs(r@) == discovered(Wanted::Sourcemaps, inputs@),
{
    discover(Wanted::Sourcemaps, inputs)
}

/// The PDBs that the given paths lead to, each once.
pub fn discover_pdbs(inputs: &Vec<InputPath>) -> (r: Vec<String>)
    ensures
        strs(r@) == discovered(Wanted::Pdbs, inputs@),
{
    discover(Wanted::Pdbs, inputs)
}

/// The dSYM bundles that the given paths lead to, each once.
pub fn discover_dsyms(inputs: &Vec<InputPath>) -> (r: Vec<String>)
    ensures
        strs(r@) == discovered(Wanted::Dsyms, inputs@),
{
    discover(Wanted::Dsyms, inputs)
}

/// No two of the paths are the same.
pub open spec fn all_different(s: Seq<Seq<char>>) -> bool {
    forall|i: int, j: int|
        0 <= i < j < s.len() ==> path_parts(#[trigger] s[i]) != path_parts(#[trigger] s[j])
}

proof fn lemma_with_path_different(w: Wanted, s: Seq<Seq<char>>, p: Seq<char>)
    requires
        w == Wanted::Pdbs || w == Wanted::Dsyms,
        all_different(s),
    ensures
        all_different(with_path(w, s, p)),
{
    if !holds_path(s, p) {
        let r = s.push(p);
        assert forall|i: int, j: int| 0 <= i < j < r.len() implies path_parts(#[trigger] r[i])
            != path_parts(#[trigger] r[j]) by {
            assert(r[i] == s[i]);
            if j < s.len() {
                assert(r[j] == s[j]);
            }
        }
    }
}

proof fn lemma_with_walked_different(w: Wanted, s: Seq<Seq<char>>, walked: Seq<Walked>)
    requires
        w == Wanted::Pdbs || w == Wanted::Dsyms,
        all_different(s),
    ensures
        all_different(with_walked(w, s, walked)),
    decreases walked.len(),
{
    if walked.len() > 0 {
        lemma_with_walked_different(w, s, walked.drop_last());
        lemma_with_path_different(
            w,
            with_walked(w, s, walked.drop_last()),
            walked.last().path@,
        );
    }
}

/// A bundle or PDB that can be reached in several ways is taken once.
pub proof fn law_each_bundle_is_taken_once(w: Wanted, inputs: Seq<InputPath>)
    requires
        w == Wanted::Pdbs || w == Wanted::Dsyms,
    ensures
        all_different(discovered(w, inputs)),
    decreases inputs.len(),
{
    if inputs.len() > 0 {
        let r = discovered(w, inputs.drop_last());
        law_each_bundle_is_taken_once(w, inputs.drop_last());
        lemma_with_path_different(w, r, inputs.last().path@);
        lemma_with_walked_different(w, r, inputs.last().walked@);
    }
}

/// What is said where nothing was found.
pub open spec fn nothing_found(w: Wanted, paths: Seq<Seq<char>>) -> Seq<char> {
    match w {
        Wanted::Mappings => "no mapping files found under: "@ + joined(paths, ", "@),
        Wanted::Sourcemaps => "no .map source-map files found under: "@ + joined(paths, ", "@),
        Wanted::Pdbs => "no .pdb files found in the given paths"@,
        Wanted::Dsyms => "no .dSYM bundles found under: "@ + joined(paths, ", "@),
    }
}

/// Refuses an upload for which nothing was found.
pub fn require_found(w: Wanted, found: &Vec<String>, paths: &Vec<String>) -> (r: Result<(), Error>)
    ensures
        found@.len() > 0 ==> r is Ok,
        found@.len() == 0 ==> failure(r) == Some(
            Failure::InputNotFound(nothing_found(w, strs(paths@))),
        ),
{
    if found.len() > 0 {
        return Ok(());
    }
    let under = join(paths, ", ");
    let m = match w {
        Wanted::Mappings => cat2("no mapping files found under: ", under.as_str()),
        Wanted::Sourcemaps => cat2("no .map source-map files found under: ", under.as_str()),
        Wanted::Pdbs => "no .pdb files found in the given paths".to_owned(),
        Wanted::Dsyms => cat2("no .dSYM bundles found under: ", under.as_str()),
    };
    Err(input_not_found(m.as_str()))
}

/// The first path that is no file.
pub open spec fn first_non_file(inputs: Seq<InputPath>, i: int) -> Option<int>
    decreases inputs.len() - i,
{
    if i < 0 || i >= inputs.len() {
        None
    } else if !inputs[i].is_file {
        Some(i)
    } else {
        first_non_file(inputs, i + 1)
    }
}

/// Refuses paths for native libraries that are not all files.
pub fn check_elf_paths(inputs: &Vec<InputPath>) -> (r: Result<(), Error>)
    ensures
        inputs@.len() == 0 ==> failure(r) == Some(
            Failure::InputNotFound("no input paths supplied"@),
        ),
        inputs@.len() > 0 ==> match first_non_file(inputs@, 0) {
            Some(i) => failure(r) == Some(
                Failure::InputInvalid(
                    "--type elf expects a pre-built zip file (typically AGP's native-debug-symbols.zip); got "@
                        + inputs@[i].path@,
                ),
            ),
            None => r is Ok,
        },
{
    if inputs.len() == 0 {
        return Err(input_not_found("no input paths supplied"));
    }
    let mut i: usize = 0;
    while i < inputs.len()
        invariant
            i <= inputs@.len(),
            inputs@.len() > 0,
            first_non_file(inputs@, 0) == first_non_file(inputs@, i as int),
        decreases inputs@.len() - i,
    {
        if !inputs[i].is_file {
            let m = cat2(
                "--type elf expects a pre-built zip file (typically AGP's native-debug-symbols.zip); got ",
                inputs[i].path.as_str(),
            );
            return Err(input_invalid(m.as_str()));
        }
        i += 1;
    }
    Ok(())
}

/// When an upload is planned and when it is refused: it goes ahead exactly where the kind is
/// a mapping, a native library, a dSYM, a PDB or a source map; the compression is accepted;
/// what was given as an id is one; an icon goes with a mapping and is a file; no id is given
/// for a dSYM and one is given for native libraries; and there is a token, but for a dry
/// run. Without a kind it is a mapping.
pub proof fn law_when_an_upload_is_planned(
    kind: Option<DebugFileType>,
    id: GivenId,
    icon: Option<Seq<char>>,
    icon_is_file: bool,
    no_zstd: bool,
    zstd_level: Option<i64>,
    dry_run: bool,
    endpoint: Option<Seq<char>>,
    app_token: Option<Seq<char>>,
)
    ensures
        ({
            let r = upload_plan(
                kind,
                id,
                icon,
                icon_is_file,
                no_zstd,
                zstd_level,
                dry_run,
                endpoint,
                app_token,
            );
            let k = if kind is Some {
                kind->0
            } else {
                DebugFileType::Proguard
            };
            &&& r is Ok <==> {
                &&& k == DebugFileType::Proguard || k == DebugFileType::Elf || k
                    == DebugFileType::Dsym || k == DebugFileType::Pdb || k
                    == DebugFileType::Sourcemaps
                &&& strategy_of(no_zstd, zstd_level) is Ok
                &&& !(id is Malformed)
                &&& icon is Some ==> k == DebugFileType::Proguard && icon_is_file
                &&& k == DebugFileType::Dsym ==> id is Absent
                &&& k == DebugFileType::Elf ==> id is Id
                &&& dry_run || app_token is Some
            }
            &&& r is Ok ==> {
                &&& r->Ok_0.kind == k
                &&& Ok::<Strategy, Failure>(r->Ok_0.strategy) == strategy_of(no_zstd, zstd_level)
                &&& id is Id ==> r->Ok_0.uuid == Some(id->Id_0)
                &&& id is Absent ==> r->Ok_0.uuid is None
                &&& endpoint is Some ==> r->Ok_0.endpoint == endpoint->0
                &&& endpoint is None ==> r->Ok_0.endpoint == "https://api.bugsee.com"@
                &&& app_token is Some ==> r->Ok_0.app_token == app_token->0
            }
        }),
{
}

/// How a refused upload exits: an id that is none and an icon that is not there are faults
/// of the input, everything else is one of the configuration.
pub proof fn law_how_uploads_are_refused(
    kind: DebugFileType,
    id: GivenId,
    icon: Option<Seq<char>>,
    icon_is_file: bool,
    dry_run: bool,
    endpoint: Option<Seq<char>>,
    app_token: Option<Seq<char>>,
)
    requires
        kind.supported(),
    ensures
        ({
            let r = upload_plan(
                Some(kind),
                id,
                icon,
                icon_is_file,
                false,
                None,
                dry_run,
                endpoint,
                app_token,
            );
            &&& id is Malformed ==> r == Err::<Plan, Failure>(
                Failure::InputInvalid("--uuid is not a valid UUID: "@ + id->Malformed_0),
            )
            &&& !(id is Malformed) && icon is Some && kind == DebugFileType::Proguard
                && !icon_is_file ==> r is Err && r->Err_0 is InputNotFound
            &&& !(id is Malformed) && icon is None && !dry_run && app_token is None ==> r is Err
                && r->Err_0 is ConfigInvalid
            &&& !(id is Malformed) && icon is Some && kind != DebugFileType::Proguard ==> r is Err
                && r->Err_0 is ConfigInvalid
        }),
{
}

/// What was given for an id is one, or none was given, or it is malformed.
pub proof fn law_ids_are_read(text: Option<Seq<char>>)
    ensures
        text is None ==> given_id(text) is Absent,
        text is Some && uuid_parsed(text->0) is Ok ==> given_id(text) == GivenId::Id(
            uuid_parsed(text->0)->Ok_0,
        ),
        text is Some && uuid_parsed(text->0) is Err ==> given_id(text) is Malformed,
{
}

proof fn lemma_with_path_holds(w: Wanted, s: Seq<Seq<char>>, p: Seq<char>, x: Seq<char>)
    ensures
        holds_path(with_path(w, s, p), x) <==> holds_path(s, x) || path_parts(p) == path_parts(x),
{
    let out = with_path(w, s, p);
    if (w == Wanted::Pdbs || w == Wanted::Dsyms) && holds_path(s, p) {
    } else {
        assert(out[s.len() as int] == p);
        if holds_path(s, x) {
            let i = choose|i: int| 0 <= i < s.len() && path_parts(#[trigger] s[i]) == path_parts(x);
            assert(out[i] == s[i]);
        }
        if holds_path(out, x) && path_parts(p) != path_parts(x) {
            let i = choose|i: int|
                0 <= i < out.len() && path_parts(#[trigger] out[i]) == path_parts(x);
            assert(s[i] == out[i]);
        }
    }
}

proof fn lemma_walked_holds(w: Wanted, s: Seq<Seq<char>>, walked: Seq<Walked>, x: Seq<char>)
    ensures
        holds_path(with_walked(w, s, walked), x) <==> holds_path(s, x) || exists|k: int|
            0 <= k < walked.len() && qualifies(w, #[trigger] walked[k]) && path_parts(
                walked[k].path@,
            ) == path_parts(x),
    decreases walked.len(),
{
    if walked.len() > 0 {
        let d = walked.drop_last();
        lemma_walked_holds(w, s, d, x);
        let last = walked.last();
        assert(walked[walked.len() - 1] == last);
        lemma_with_path_holds(w, with_walked(w, s, d), last.path@, x);
        if exists|k: int|
            0 <= k < d.len() && qualifies(w, #[trigger] d[k]) && path_parts(d[k].path@)
                == path_parts(x) {
            let k = choose|k: int|
                0 <= k < d.len() && qualifies(w, #[trigger] d[k]) && path_parts(d[k].path@)
                    == path_parts(x);
            assert(walked[k] == d[k]);
        }
        if exists|k: int|
            0 <= k < walked.len() && qualifies(w, #[trigger] walked[k]) && path_parts(
                walked[k].path@,
            ) == path_parts(x) {
            let k = choose|k: int|
                0 <= k < walked.len() && qualifies(w, #[trigger] walked[k]) && path_parts(
                    walked[k].path@,
                ) == path_parts(x);
            if k < d.len() {
                assert(d[k] == walked[k]);
            }
        }
    }
}

/// A path leads to a file: it is taken as it was given, or a walk from it finds the file.
pub open spec fn leads_to(w: Wanted, p: InputPath, x: Seq<char>) -> bool {
    ||| is_explicit(w, p) && path_parts(p.path@) == path_parts(x)
    ||| !is_explicit(w, p) && p.is_dir && exists|k: int|
        0 <= k < p.walked@.len() && qualifies(w, #[trigger] p.walked@[k]) && path_parts(
            p.walked@[k].path@,
        ) == path_parts(x)
}

/// A file is found exactly where one of the given paths leads to it.
pub proof fn law_found_files_are_led_to(w: Wanted, inputs: Seq<InputPath>, x: Seq<char>)
    ensures
        holds_path(discovered(w, inputs), x) <==> exists|i: int|
            0 <= i < inputs.len() && leads_to(w, #[trigger] inputs[i], x),
    decreases inputs.len(),
{
    if inputs.len() > 0 {
        let d = inputs.drop_last();
        law_found_files_are_led_to(w, d, x);
        let p = inputs.last();
        assert(inputs[inputs.len() - 1] == p);
        let r = discovered(w, d);
        lemma_with_path_holds(w, r, p.path@, x);
        lemma_walked_holds(w, r, p.walked@, x);
        if exists|i: int| 0 <= i < d.len() && leads_to(w, #[trigger] d[i], x) {
            let i = choose|i: int| 0 <= i < d.len() && leads_to(w, #[trigger] d[i], x);
            assert(inputs[i] == d[i]);
        }
        if exists|i: int| 0 <= i < inputs.len() && leads_to(w, #[trigger] inputs[i], x) {
            let i = choose|i: int| 0 <= i < inputs.len() && leads_to(w, #[trigger] inputs[i], x);
            if i < d.len() {
                assert(d[i] == inputs[i]);
            }
        }
    }
}

/// What a walk takes: mapping files by what they hold, source maps by the extension `map`,
/// PDBs by the extension `pdb` and their content, and dSYMs by the extension `dSYM` and
/// their content; a dSYM is a directory and everything else a file. A file that was named is
/// taken whatever it is called; a dSYM that was named must be called so.
pub proof fn law_what_is_taken(e: Walked, p: InputPath)
    ensures
        qualifies(Wanted::Mappings, e) <==> e.is_file && e.confirmed,
        qualifies(Wanted::Sourcemaps, e) <==> e.is_file && path_extension(e.path@) == Some("map"@),
        qualifies(Wanted::Pdbs, e) <==> e.is_file && e.confirmed && path_extension(e.path@)
            == Some("pdb"@),
        qualifies(Wanted::Dsyms, e) <==> e.is_dir && e.confirmed && path_extension(e.path@)
            == Some("dSYM"@),
        is_explicit(Wanted::Mappings, p) <==> p.is_file,
        is_explicit(Wanted::Sourcemaps, p) <==> p.is_file,
        is_explicit(Wanted::Pdbs, p) <==> p.is_file,
        is_explicit(Wanted::Dsyms, p) <==> p.is_dir && path_extension(p.path@) == Some("dSYM"@),
{
}

/// The extension of a path is that of the name at its end.
pub proof fn law_extension_of_a_path(dir: Seq<char>, stem: Seq<char>, ext: Seq<char>)
    requires
        stem.len() > 0,
        !stem.contains('/'),
        !ext.contains('.'),
        !ext.contains('/'),
        ext.len() > 0,
    ensures
        path_extension(stem + seq!['.'] + ext) == Some(ext),
{
    let n = stem + seq!['.'] + ext;
    law_names_come_apart(stem, ext);
    assert(!n.contains('/')) by {
        if n.contains('/') {
            let k = choose|k: int| 0 <= k < n.len() && n[k] == '/';
            if k < stem.len() {
                assert(n[k] == stem[k]);
                assert(stem.contains(stem[k]));
            } else if k > stem.len() {
                assert(n[k] == ext[k - stem.len() - 1]);
                assert(ext.contains(ext[k - stem.len() - 1]));
            }
        }
    }
    reveal_strlit(".");
    reveal_strlit("..");
    assert(n.len() >= 3);
    law_joining_a_name(seq![PathPart::Root], n);
}

/// The path that is named where one is no file is the first of them.
pub proof fn law_first_path_that_is_no_file(inputs: Seq<InputPath>, i: int)
    requires
        0 <= i <= inputs.len(),
    ensures
        first_non_file(inputs, i) is None <==> forall|k: int|
            i <= k < inputs.len() ==> (#[trigger] inputs[k]).is_file,
        first_non_file(inputs, i) is Some ==> {
            let f = first_non_file(inputs, i)->0;
            &&& i <= f < inputs.len()
            &&& !inputs[f].is_file
            &&& forall|k: int| i <= k < f ==> (#[trigger] inputs[k]).is_file
        },
    decreases inputs.len() - i,
{
    if i < inputs.len() {
        law_first_path_that_is_no_file(inputs, i + 1);
    }
}

/// What is said where nothing was found tells what was looked for, and where.
pub proof fn law_what_is_said_where_nothing_was_found(paths: Seq<Seq<char>>)
    ensures
        nothing_found(Wanted::Mappings, paths) == "no mapping files found under: "@ + joined(
            paths,
            ", "@,
        ),
        nothing_found(Wanted::Sourcemaps, paths) == "no .map source-map files found under: "@
            + joined(paths, ", "@),
        nothing_found(Wanted::Pdbs, paths) == "no .pdb files found in the given paths"@,
        nothing_found(Wanted::Dsyms, paths) == "no .dSYM bundles found under: "@ + joined(
            paths,
            ", "@,
        ),
{
}

/// The names of the kinds of debug files.
pub proof fn law_kinds_have_names(k: DebugFileType)
    ensures
        k == DebugFileType::Dsym ==> k.name() == "Dsym"@,
        k == DebugFileType::Elf ==> k.name() == "Elf"@,
        k == DebugFileType::Pe ==> k.name() == "Pe"@,
        k == DebugFileType::Pdb ==> k.name() == "Pdb"@,
        k == DebugFileType::PortablePdb ==> k.name() == "PortablePdb"@,
        k == DebugFileType::Breakpad ==> k.name() == "Breakpad"@,
        k == DebugFileType::Proguard ==> k.name() == "Proguard"@,
        k == DebugFileType::Jvm ==> k.name() == "Jvm"@,
        k == DebugFileType::Sourcebundle ==> k.name() == "Sourcebundle"@,
        k == DebugFileType::Wasm ==> k.name() == "Wasm"@,
        k == DebugFileType::Sourcemaps ==> k.name() == "Sourcemaps"@,
{
}

} // verus!

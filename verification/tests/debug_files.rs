use bugsee_cli::compress::{Method, Strategy};
use bugsee_cli::debug_files::{
    check_elf_paths, discover, discover_dsyms, discover_mappings, discover_pdbs,
    discover_sourcemaps, plan_upload, require_found, DebugFileType, InputPath, Walked, Wanted,
};
use bugsee_cli::exit_code::ExitCode;
use bugsee_cli::ids::{parse_uuid, Uuid};
use bugsee_cli::inject::read_debug_id;
use bugsee_cli::symbol_run::{
    dsym_metadata, entry_name, file_metadata, finish_run, library_metadata, mapping_archive,
    mapping_metadata, mapping_uuid, next_step, sourcemap_id, uploadable, Count, NativeLib, Next,
    Phase, StepEvent, Tally,
};

fn file(path: &str) -> Walked {
    Walked { path: path.to_string(), is_file: true, is_dir: false, confirmed: false }
}

fn dsym(path: &str, confirmed: bool) -> Walked {
    Walked { path: path.to_string(), is_file: false, is_dir: true, confirmed }
}

fn dir(path: &str, walked: Vec<Walked>) -> InputPath {
    InputPath { path: path.to_string(), is_file: false, is_dir: true, walked }
}

fn given_file(path: &str) -> InputPath {
    InputPath { path: path.to_string(), is_file: true, is_dir: false, walked: vec![] }
}

#[test]
fn discover_sourcemaps_walks_dirs_and_trusts_explicit_files() {
    let input = dir("/t", vec![file("/t/a.js.map"), file("/t/bundle.js"), file("/t/sub/c.map")]);
    let found = discover_sourcemaps(&vec![input]);
    assert_eq!(
        found,
        vec!["/t/a.js.map", "/t/sub/c.map"],
        "only .map files discovered"
    );
    let found2 = discover_sourcemaps(&vec![given_file("/t/weird-name")]);
    assert_eq!(found2, vec!["/t/weird-name"]);
}

fn keyed(doc: &str, path: &str, given: Option<Uuid>) -> Result<String, String> {
    let embedded = read_debug_id(doc, path).map_err(|e| e.message())?;
    sourcemap_id(given, &embedded, path).map_err(|e| e.message())
}

#[test]
fn keys_by_embedded_debug_id_and_puts_the_map() {
    let doc = r#"{"version":3,"debug_id":"did-embedded","mappings":"AAAA"}"#;
    let id = keyed(doc, "app.js.map", None).unwrap();
    let body = file_metadata(&id, "0123456789012345678901234567890123456789", "1.2.3", "42");
    assert_eq!(body.uuid.as_deref(), Some("did-embedded"));
    assert_eq!(body.version, "1.2.3");
    assert_eq!(body.build, "42");
    assert!(body.hash.is_some_and(|h| h.len() == 40));
    assert_eq!(body.overwrite, None);
    assert_eq!(entry_name(DebugFileType::Sourcemaps, "/t/app.js.map"), "app.js.map");
}

#[test]
fn uuid_override_wins_over_embedded() {
    let doc = r#"{"version":3,"debug_id":"did-embedded","mappings":""}"#;
    let override_id = parse_uuid("11111111-1111-1111-1111-111111111111").unwrap();
    let id = keyed(doc, "app.js.map", Some(override_id)).unwrap();
    assert_eq!(id, "11111111-1111-1111-1111-111111111111");
}

#[test]
fn reads_legacy_top_level_uuid_when_no_debug_id() {
    let doc = r#"{"version":3,"uuid":"legacy-sha1-key","mappings":""}"#;
    assert_eq!(keyed(doc, "legacy.map", None).unwrap(), "legacy-sha1-key");
}

#[test]
fn errors_when_map_has_no_id_and_no_override() {
    let msg = keyed(r#"{"version":3,"mappings":""}"#, "nokey.map", None).unwrap_err();
    assert!(
        msg.contains("no debug_id") && msg.contains("sourcemaps inject"),
        "error should guide the user to inject first: {msg}"
    );
}

#[test]
fn dry_run_packs_without_network() {
    let kind = DebugFileType::Sourcemaps;
    assert_eq!(
        next_step(kind, true, Phase::Identify, StepEvent::Done),
        Next::Continue(Phase::Pack)
    );
    assert_eq!(
        next_step(kind, true, Phase::Pack, StepEvent::Done),
        Next::Finished(Count::Nothing)
    );
}

#[test]
fn errors_when_no_maps_found() {
    let found = discover_sourcemaps(&vec![dir("/t", vec![])]);
    let e = require_found(Wanted::Sourcemaps, &found, &vec!["/t".to_string()]).unwrap_err();
    assert!(e.message().contains("no .map source-map files found"));
    assert_eq!(e.exit_code(), ExitCode::InputNotFound);
}

#[test]
fn discovers_bundles_recursively_in_a_folder() {
    let input = dir(
        "/t",
        vec![
            dsym("/t/App.dSYM", true),
            dsym("/t/sub/Framework.dSYM", true),
            dsym("/t/NotADsym", false),
            file("/t/readme.txt"),
        ],
    );
    assert_eq!(discover_dsyms(&vec![input]), vec!["/t/App.dSYM", "/t/sub/Framework.dSYM"]);
}

#[test]
fn explicit_dsym_path_is_taken_as_is() {
    assert_eq!(discover_dsyms(&vec![dir("/t/Direct.dSYM", vec![])]), vec!["/t/Direct.dSYM"]);
}

#[test]
fn explicit_dsym_without_dwarf_subdir_is_still_trusted() {
    assert_eq!(discover_dsyms(&vec![dir("/t/Empty.dSYM", vec![])]), vec!["/t/Empty.dSYM"]);
}

#[test]
fn dir_named_dsym_without_dwarf_is_not_discovered_by_walk() {
    let input = dir("/t", vec![dsym("/t/Bogus.dSYM", false), dsym("/t/Real.dSYM", true)]);
    assert_eq!(discover_dsyms(&vec![input]), vec!["/t/Real.dSYM"]);
}

#[test]
fn deduplicates_when_a_bundle_is_reachable_twice() {
    let folder = dir("/t", vec![dsym("/t/Once.dSYM", true)]);
    let bundle = dir("/t/Once.dSYM", vec![]);
    let found = discover_dsyms(&vec![folder, bundle]);
    assert_eq!(found.iter().filter(|p| *p == "/t/Once.dSYM").count(), 1);
}

#[test]
fn nonexistent_or_file_path_yields_nothing() {
    let nope = InputPath {
        path: "/t/nope".to_string(),
        is_file: false,
        is_dir: false,
        walked: vec![],
    };
    assert!(discover_dsyms(&vec![given_file("/t/a.txt"), nope]).is_empty());
}

#[test]
fn mappings_and_pdbs_are_found_by_what_is_inside() {
    let mut mapping = file("/t/mapping.txt");
    mapping.confirmed = true;
    let input = dir("/t", vec![mapping, file("/t/other.txt")]);
    assert_eq!(discover_mappings(&vec![input]), vec!["/t/mapping.txt"]);
    let mut pdb = file("/t/app.pdb");
    pdb.confirmed = true;
    let input = dir("/t", vec![pdb, file("/t/fake.pdb")]);
    assert_eq!(discover_pdbs(&vec![input]), vec!["/t/app.pdb"]);
    assert_eq!(discover(Wanted::Pdbs, &vec![given_file("/t/x")]), vec!["/t/x"]);
}

#[test]
fn native_libraries_come_in_archives_that_exist() {
    assert!(check_elf_paths(&vec![given_file("/t/symbols.zip")]).is_ok());
    let gone = InputPath {
        path: "/t/gone".to_string(),
        is_file: false,
        is_dir: false,
        walked: vec![],
    };
    assert!(check_elf_paths(&vec![gone]).is_err());
}

fn plan(kind: Option<DebugFileType>, uuid: Option<&str>, icon: Option<&str>, token: Option<&str>)
    -> Result<bugsee_cli::debug_files::UploadPlan, bugsee_cli::error::Error> {
    plan_upload(
        kind,
        &uuid.map(|s| s.to_string()),
        &icon.map(|s| s.to_string()),
        false,
        false,
        None,
        false,
        &None,
        &token.map(|s| s.to_string()),
    )
}

#[test]
fn an_upload_is_planned_or_refused() {
    let p = plan(None, None, None, Some("TKN")).unwrap();
    assert_eq!(p.kind, DebugFileType::Proguard);
    assert_eq!(p.strategy, Strategy::Zstd(11));
    assert_eq!(p.endpoint, "https://api.bugsee.com");
    assert_eq!(p.app_token, "TKN");
    assert_eq!(p.uuid, None);
    let e = plan(Some(DebugFileType::Wasm), None, None, Some("TKN")).unwrap_err();
    assert_eq!(e.exit_code(), ExitCode::ConfigInvalid);
    assert!(e.message().contains("got Wasm"));
    let e = plan(None, Some("no-uuid"), None, Some("TKN")).unwrap_err();
    assert_eq!(e.exit_code(), ExitCode::InputInvalid);
    assert!(e.message().contains("--uuid is not a valid UUID"));
    let e = plan(Some(DebugFileType::Dsym), None, Some("i.png"), Some("TKN")).unwrap_err();
    assert!(e.message().contains("--icon is only valid"));
    let id = "11111111-1111-1111-1111-111111111111";
    let e = plan(Some(DebugFileType::Dsym), Some(id), None, Some("TKN")).unwrap_err();
    assert!(e.message().contains("--uuid does not apply"));
    let e = plan(None, None, Some("i.png"), Some("TKN")).unwrap_err();
    assert_eq!(e.exit_code(), ExitCode::InputNotFound);
    let e = plan(None, None, None, None).unwrap_err();
    assert_eq!(e.exit_code(), ExitCode::ConfigInvalid);
    let p = plan(Some(DebugFileType::Sourcemaps), Some(id), None, Some("TKN")).unwrap();
    assert_eq!(p.uuid.unwrap().hyphenated(), id);
}

#[test]
fn a_dsym_is_registered_before_it_is_packed() {
    let kind = DebugFileType::Dsym;
    let step = |phase, event| next_step(kind, false, phase, event);
    assert_eq!(step(Phase::Identify, StepEvent::Done), Next::Continue(Phase::Register));
    assert_eq!(step(Phase::Register, StepEvent::Done), Next::Continue(Phase::Pack));
    assert_eq!(
        step(Phase::Register, StepEvent::AlreadyThere),
        Next::Finished(Count::AlreadyThere)
    );
    assert_eq!(step(Phase::Pack, StepEvent::Done), Next::Continue(Phase::Send));
    assert_eq!(step(Phase::Send, StepEvent::Done), Next::Finished(Count::Uploaded));
    assert_eq!(step(Phase::Send, StepEvent::Failed), Next::Abort);
    assert_eq!(step(Phase::Identify, StepEvent::Failed), Next::Finished(Count::Skipped));
}

#[test]
fn pdbs_that_cannot_be_read_are_counted_and_told() {
    let mut t = Tally::default();
    t.count(Count::Skipped);
    assert_eq!(t, Tally { uploaded: 0, already_existed: 0, skipped: 1 });
    let e = finish_run(DebugFileType::Pdb, &t).unwrap_err();
    assert_eq!(e.message(), "input invalid: no PDB files could be identified");
    assert!(finish_run(DebugFileType::Dsym, &t).is_ok());
    t.count(Count::AlreadyThere);
    assert!(finish_run(DebugFileType::Pdb, &t).is_ok());
}

#[test]
fn a_mapping_is_keyed_by_the_id_that_was_given() {
    let given = Uuid { bytes: [0x11; 16] };
    let computed = Uuid { bytes: [0x22; 16] };
    assert_eq!(mapping_uuid(Some(given), computed), given);
    assert_eq!(mapping_uuid(None, computed), computed);
    let m = mapping_metadata(&given, "h", "1.0", "7");
    assert_eq!(m.uuid.as_deref(), Some("11111111-1111-1111-1111-111111111111"));
    let entries = mapping_archive("/t/m.txt", &Some("/t/launcher.webp".to_string()), Strategy::Zstd(9));
    assert_eq!(entries[0].name, "mapping.txt");
    assert_eq!(entries[1].name, "icon.webp");
    assert_eq!(entries[1].method, Method::Zstd(9));
    assert_eq!(mapping_archive("/t/m.txt", &None, Strategy::Deflate).len(), 1);
}

#[test]
fn a_dsym_is_told_by_its_slices() {
    let m = dsym_metadata(&vec!["A".to_string(), "B".to_string()], "1.0", "7", true);
    assert_eq!(m.uuids, Some(vec!["A".to_string(), "B".to_string()]));
    assert_eq!(m.overwrite, Some(true));
    assert_eq!(m.uuid, None);
    assert_eq!(entry_name(DebugFileType::Dsym, "/"), "bundle.dSYM");
}

#[test]
fn a_library_without_build_id_is_left_out() {
    let lib = |id: Option<&str>| NativeLib {
        name: "libx.so".to_string(),
        path: "/t/libx.so".to_string(),
        arch: "arm64".to_string(),
        build_id: id.map(|s| s.to_string()),
    };
    assert_eq!(uploadable(&vec![lib(None), lib(Some("ab")), lib(Some("cd"))]), vec![1, 2]);
    let m = library_metadata("ab", "h", "1.0", "7");
    assert_eq!(m.transform.as_deref(), Some("breakpad"));
}

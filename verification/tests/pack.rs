use bugsee_cli::compress::{
    pack_entries, pack_single_entry, resolve_strategy, Method, Strategy, ZipEntry,
    DEFAULT_ZSTD_LEVEL, MIN_PRODUCTION_ZSTD_LEVEL,
};
use bugsee_cli::error::{
    classify, config_invalid, input_invalid, input_not_found, server_error, Error,
};
use bugsee_cli::exit_code::ExitCode;
use bugsee_cli::pack::{dispatch, PackArgs};

fn args(artifact: &str, mapping: Option<&str>, out: &str) -> PackArgs {
    PackArgs {
        artifact: artifact.to_string(),
        mapping: mapping.map(|m| m.to_string()),
        out: out.to_string(),
        no_zstd: false,
        zstd_level: None,
    }
}

#[test]
fn the_artifact_is_planned_stored_and_the_mapping_compressed() {
    let entries = dispatch(&args("/b/app.apk", Some("/b/mapping.txt"), "upload.zip"), true, true)
        .unwrap();
    assert_eq!(entries.len(), 2);
    assert_eq!(entries[0].name, "app.apk");
    assert_eq!(entries[0].source, "/b/app.apk");
    assert_eq!(entries[0].method, Method::Stored);
    assert_eq!(entries[1].name, "mapping.txt");
    assert_eq!(entries[1].method, Method::Zstd(DEFAULT_ZSTD_LEVEL));
}

#[test]
fn mapping_is_optional() {
    let entries = dispatch(&args("app.aab", None, "upload.zip"), true, false).unwrap();
    assert_eq!(entries.len(), 1);
}

#[test]
fn rejects_artifact_without_known_extension() {
    let err = dispatch(&args("artifact.bin", None, "upload.zip"), true, false).unwrap_err();
    assert!(err.message().contains(".aab/.apk/.ipa"), "got: {err:?}");
}

#[test]
fn rejects_missing_artifact() {
    let err = dispatch(&args("missing.apk", None, "upload.zip"), false, false).unwrap_err();
    assert!(err.message().contains("does not exist"), "got: {err:?}");
}

#[test]
fn rejects_missing_mapping() {
    let err = dispatch(&args("app.apk", Some("absent.txt"), "upload.zip"), true, false)
        .unwrap_err();
    assert!(
        err.message().contains("mapping does not exist"),
        "got: {err:?}"
    );
}

#[test]
fn a_single_entry_is_planned_with_its_level() {
    let entries = pack_single_entry("/in/mapping.txt", "mapping.txt", Strategy::Zstd(11));
    assert_eq!(entries.len(), 1);
    assert_eq!(entries[0].name, "mapping.txt");
    assert_eq!(entries[0].source, "/in/mapping.txt");
    assert_eq!(entries[0].method, Method::Zstd(11));
}

#[test]
fn several_entries_are_planned_in_their_order() {
    let entries = pack_entries(
        &vec![
            ZipEntry::compressed("mapping.txt", "/in/m"),
            ZipEntry::compressed("icon.png", "/in/i"),
        ],
        Strategy::Zstd(11),
    );
    let names: Vec<&str> = entries.iter().map(|e| e.name.as_str()).collect();
    assert_eq!(names, vec!["mapping.txt", "icon.png"]);
    assert_eq!(entries[1].source, "/in/i");
}

#[test]
fn a_stored_entry_is_planned_beside_compressed_ones() {
    let entries = pack_entries(
        &vec![
            ZipEntry::compressed("dependencies.json", "/in/d"),
            ZipEntry::stored("already.zip", "/in/z"),
        ],
        Strategy::Zstd(11),
    );
    assert_eq!(entries[0].method, Method::Zstd(11));
    assert_eq!(entries[1].method, Method::Stored);
    let deflated = pack_single_entry("/in/d", "d", Strategy::Deflate);
    assert_eq!(deflated[0].method, Method::Deflated);
}

#[test]
fn resolve_strategy_applies_production_floor_and_flag_rules() {
    assert!(matches!(
        resolve_strategy(false, None).unwrap(),
        Strategy::Zstd(level) if level == DEFAULT_ZSTD_LEVEL
    ));
    assert!(matches!(
        resolve_strategy(false, Some(15)).unwrap(),
        Strategy::Zstd(15)
    ));
    assert!(matches!(
        resolve_strategy(true, None).unwrap(),
        Strategy::Deflate
    ));
    assert!(resolve_strategy(false, Some(MIN_PRODUCTION_ZSTD_LEVEL - 1)).is_err());
    assert!(resolve_strategy(false, Some(MIN_PRODUCTION_ZSTD_LEVEL)).is_ok());
    assert!(resolve_strategy(false, Some(0)).is_err());
    assert!(resolve_strategy(false, Some(23)).is_err());
    assert!(resolve_strategy(true, Some(11)).is_err());
}

#[test]
fn fallback_only_on_structural_failures() {
    assert!(ExitCode::Unexpected.should_fallback());
    assert!(ExitCode::Usage.should_fallback());

    assert!(!ExitCode::Success.should_fallback());
    assert!(!ExitCode::InputNotFound.should_fallback());
    assert!(!ExitCode::InputInvalid.should_fallback());
    assert!(!ExitCode::ConfigInvalid.should_fallback());
    assert!(!ExitCode::AppTokenRejected.should_fallback());
    assert!(!ExitCode::UploadServer.should_fallback());
    assert!(!ExitCode::UploadTransport.should_fallback());
    assert!(!ExitCode::SizeCheckFailed.should_fallback());
}

#[test]
fn numeric_values_match_documented_contract() {
    assert_eq!(ExitCode::Success.as_i32(), 0);
    assert_eq!(ExitCode::Unexpected.as_i32(), 1);
    assert_eq!(ExitCode::Usage.as_i32(), 2);
    assert_eq!(ExitCode::InputNotFound.as_i32(), 10);
    assert_eq!(ExitCode::InputInvalid.as_i32(), 11);
    assert_eq!(ExitCode::ConfigInvalid.as_i32(), 20);
    assert_eq!(ExitCode::AppTokenRejected.as_i32(), 21);
    assert_eq!(ExitCode::UploadServer.as_i32(), 30);
    assert_eq!(ExitCode::UploadTransport.as_i32(), 31);
    assert_eq!(ExitCode::SizeCheckFailed.as_i32(), 40);
}

#[test]
fn each_variant_maps_to_documented_code() {
    assert_eq!(
        Error::InputNotFound("x".into()).exit_code(),
        ExitCode::InputNotFound
    );
    assert_eq!(
        Error::InputInvalid("x".into()).exit_code(),
        ExitCode::InputInvalid
    );
    assert_eq!(
        Error::ConfigInvalid("x".into()).exit_code(),
        ExitCode::ConfigInvalid
    );
    assert_eq!(
        Error::AppTokenRejected.exit_code(),
        ExitCode::AppTokenRejected
    );
    assert_eq!(
        Error::UploadServer {
            status: 500,
            message: "x".into()
        }
        .exit_code(),
        ExitCode::UploadServer,
    );
    assert_eq!(
        Error::UploadTransport("x".into()).exit_code(),
        ExitCode::UploadTransport
    );
    assert_eq!(
        Error::SizeCheckFailed("grew too much".into()).exit_code(),
        ExitCode::SizeCheckFailed
    );
}

#[test]
fn size_check_failed_displays_message_verbatim() {
    let e = Error::SizeCheckFailed("Bugsee size check: grew".into());
    assert_eq!(e.message(), "Bugsee size check: grew");
}

#[test]
fn classify_anyhow_downcasts_our_errors() {
    let e = config_invalid("missing --version");
    assert_eq!(classify(Some(&e)), ExitCode::ConfigInvalid);
    assert_eq!(classify(None), ExitCode::Unexpected);
}

#[test]
fn reading_and_transport_have_codes_too() {
    assert_eq!(Error::Io("x".into()).exit_code(), ExitCode::InputNotFound);
    assert_eq!(Error::Http("x".into()).exit_code(), ExitCode::UploadTransport);
}

#[test]
fn messages_say_what_failed() {
    assert_eq!(input_not_found("a").message(), "input not found: a");
    assert_eq!(input_invalid("b").message(), "input invalid: b");
    assert_eq!(config_invalid("c").message(), "configuration error: c");
    let e = Error::UploadServer { status: 503, message: "busy".into() };
    assert!(e.message().contains("503") && e.message().contains("busy"));
}

#[test]
fn a_level_out_of_bounds_is_told() {
    let e = resolve_strategy(false, Some(23)).unwrap_err();
    assert_eq!(e.exit_code(), ExitCode::ConfigInvalid);
    assert_eq!(Strategy::default(), Strategy::Zstd(DEFAULT_ZSTD_LEVEL));
}

#[test]
fn a_refusal_is_told_by_the_type_of_error_in_the_reply() {
    let unknown = Some("ApplicationNotFoundError".to_string());
    assert_eq!(server_error(404, &unknown, "no app"), Error::AppTokenRejected);
    assert_eq!(server_error(200, &unknown, ""), Error::AppTokenRejected);
    for kind in [None, Some("OtherError".to_string())] {
        assert_eq!(
            server_error(401, &kind, "no"),
            Error::UploadServer { status: 401, message: "no".to_string() }
        );
    }
}

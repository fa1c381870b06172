use bugsee_cli::compress::Strategy;
use bugsee_cli::exit_code::ExitCode;
use bugsee_cli::upload::{parse_sidecar, plan_build, plan_build_info, resolve_endpoint};

#[test]
fn parse_sidecar_accepts_clean_name() {
    let (name, path) = parse_sidecar("vcs.json=/tmp/vcs.json").unwrap();
    assert_eq!(name, "vcs.json");
    assert_eq!(path, "/tmp/vcs.json");
}

#[test]
fn parse_sidecar_allows_equals_in_path() {
    let (name, path) = parse_sidecar("a.json=/tmp/x=y.json").unwrap();
    assert_eq!(name, "a.json");
    assert_eq!(path, "/tmp/x=y.json");
}

#[test]
fn parse_sidecar_rejects_missing_separator() {
    assert!(parse_sidecar("vcs.json").is_err());
}

#[test]
fn parse_sidecar_rejects_path_traversal_and_separators() {
    assert!(parse_sidecar("../evil=/tmp/x").is_err());
    assert!(parse_sidecar("a/b.json=/tmp/x").is_err());
    assert!(parse_sidecar("a\\b.json=/tmp/x").is_err());
}

#[test]
fn parse_sidecar_rejects_empty_sides() {
    assert!(parse_sidecar("=/tmp/x").is_err());
    assert!(parse_sidecar("a.json=").is_err());
}

fn text(s: &str) -> Option<String> {
    Some(s.to_string())
}

#[test]
fn a_sidecar_is_refused_with_its_text() {
    let e = parse_sidecar("vcs.json").unwrap_err();
    assert_eq!(e.exit_code(), ExitCode::ConfigInvalid);
    assert!(e.message().contains("vcs.json"));
}

#[test]
fn the_server_is_the_common_one_unless_given() {
    assert_eq!(resolve_endpoint(&None), "https://api.bugsee.com");
    assert_eq!(resolve_endpoint(&text("http://x")), "http://x");
}

#[test]
fn a_bundle_lists_its_entries_in_order() {
    let files = vec!["d".to_string(), "t".to_string(), "v".to_string()];
    let sidecar = vec!["vcs.json=v".to_string()];
    let plan =
        plan_build_info(&text("d"), &text("t"), &sidecar, false, None, &None, false, &files)
            .unwrap();
    assert_eq!(plan.strategy, Strategy::Zstd(11));
    let names: Vec<&str> = plan.entries.iter().map(|e| e.name.as_str()).collect();
    assert_eq!(names, vec!["dependencies.json", "timings.json", "vcs.json"]);
    assert_eq!(plan.entries[2].source, "v");
}

#[test]
fn a_bundle_is_refused_where_it_cannot_be_made() {
    let files = vec!["d".to_string()];
    let none: Vec<String> = vec![];
    let e = plan_build_info(&None, &None, &none, false, None, &None, false, &files).unwrap_err();
    assert_eq!(e.exit_code(), ExitCode::ConfigInvalid);
    let e = plan_build_info(&text("gone"), &None, &none, false, None, &None, false, &files)
        .unwrap_err();
    assert_eq!(e.exit_code(), ExitCode::InputNotFound);
    let twice = vec!["dependencies.json=d".to_string()];
    let e = plan_build_info(&text("d"), &None, &twice, false, None, &None, false, &files)
        .unwrap_err();
    assert_eq!(e.exit_code(), ExitCode::ConfigInvalid);
    let e = plan_build_info(&text("d"), &None, &none, false, None, &text("o.zip"), false, &files)
        .unwrap_err();
    assert_eq!(e.exit_code(), ExitCode::ConfigInvalid);
}

#[test]
fn a_build_needs_a_token_and_its_files() {
    let files = vec!["m".to_string()];
    let token = text("TKN");
    let plan = |mapping: &Option<String>, token: &Option<String>, out: &Option<String>| {
        plan_build(mapping, &None, &None, true, None, out, false, token, &files)
    };
    assert_eq!(plan(&text("m"), &token, &None).unwrap(), Strategy::Deflate);
    assert_eq!(plan(&None, &None, &None).unwrap_err().exit_code(), ExitCode::ConfigInvalid);
    assert_eq!(
        plan(&text("gone"), &token, &None).unwrap_err().exit_code(),
        ExitCode::InputNotFound
    );
    let e = plan(&None, &token, &text("o.zip")).unwrap_err();
    assert!(e.message().contains("--out is only valid with --dry-run"));
}

use bugsee_cli::calendar::{civil_date, format_iso8601_utc};
use bugsee_cli::dep_entry::DepEntry;
use bugsee_cli::env::{env_truthy, env_truthy_default_true, Env};
use bugsee_cli::ios_deps::CollectResult;
use bugsee_cli::paths::{parse_path, Part};
use bugsee_cli::plist::BundleInfo;
use bugsee_cli::registration::{
    build_registration_payload, deps_blob, deps_summary, plugin_version, stage_deps,
};
use bugsee_cli::size_check::{resolve_thresholds, Thresholds};
use bugsee_cli::timeline::{TimingsSummary, TopTask};
use bugsee_cli::vcs_metadata::VcsMetadata;
use bugsee_cli::xcode::{
    apply_overrides, resolve_toggle, should_run, Gate, PostActionOverrides,
};
use bugsee_cli::xcode_app::{
    deps_root, find_app, find_app_in_archive, ipa_stem, resolve_dsym_folder,
    resolve_product_binary, working_dir,
};

fn env_of(pairs: &[(&str, &str)]) -> Env {
    Env::from_pairs(
        pairs
            .iter()
            .map(|(k, v)| (k.to_string(), v.to_string()))
            .collect(),
    )
}

fn paths(texts: &[&str]) -> Vec<Vec<Part>> {
    texts.iter().map(|t| parse_path(t)).collect()
}

/// The flags of a command line, taken apart by hand: of a pair the last one counts.
fn parse_overrides(extra: &[&str]) -> PostActionOverrides {
    let mut o = PostActionOverrides::default();
    let mut i = 0;
    while i < extra.len() {
        let value = || extra[i + 1];
        let mut step = 1;
        match extra[i] {
            "--enable-build-info" => (o.enable_build_info, o.disable_build_info) = (true, false),
            "--disable-build-info" => (o.enable_build_info, o.disable_build_info) = (false, true),
            "--enable-all-actions" => (o.enable_all_actions, o.disable_all_actions) = (true, false),
            "--disable-all-actions" => (o.enable_all_actions, o.disable_all_actions) = (false, true),
            "--enable-all-configurations" => {
                (o.enable_all_configurations, o.disable_all_configurations) = (true, false)
            }
            "--disable-all-configurations" => {
                (o.enable_all_configurations, o.disable_all_configurations) = (false, true)
            }
            "--enable-dependencies" => {
                (o.enable_dependencies, o.disable_dependencies) = (true, false)
            }
            "--disable-dependencies" => {
                (o.enable_dependencies, o.disable_dependencies) = (false, true)
            }
            "--enable-timings" => (o.enable_timings, o.disable_timings) = (true, false),
            "--disable-timings" => (o.enable_timings, o.disable_timings) = (false, true),
            "--enable-size-analysis" => {
                (o.enable_size_analysis, o.disable_size_analysis) = (true, false)
            }
            "--disable-size-analysis" => {
                (o.enable_size_analysis, o.disable_size_analysis) = (false, true)
            }
            "--enable-chunked-upload" => {
                (o.enable_chunked_upload, o.disable_chunked_upload) = (true, false)
            }
            "--disable-chunked-upload" => {
                (o.enable_chunked_upload, o.disable_chunked_upload) = (false, true)
            }
            "--enable-size-check" => (o.enable_size_check, o.disable_size_check) = (true, false),
            "--disable-size-check" => (o.enable_size_check, o.disable_size_check) = (false, true),
            "--size-check-warning-pct" => {
                o.size_check_warning_pct = Some(value().parse::<f64>().unwrap().to_string());
                step = 2;
            }
            "--size-check-fail-pct" => {
                o.size_check_fail_pct = Some(value().parse::<f64>().unwrap().to_string());
                step = 2;
            }
            "--size-check-warning-bytes" => {
                o.size_check_warning_bytes = Some(value().parse().unwrap());
                step = 2;
            }
            "--size-check-fail-bytes" => {
                o.size_check_fail_bytes = Some(value().parse().unwrap());
                step = 2;
            }
            other => panic!("unknown flag {other}"),
        }
        i += step;
    }
    o
}

fn thresholds_in(env: &Env) -> Thresholds {
    let read = |key: &str| {
        env.get(key).and_then(|t| t.trim().parse::<f64>().ok()).map(|x| x.to_bits())
    };
    let warning = read("BUGSEE_SIZE_CHECK_WARNING_PCT");
    let fail = read("BUGSEE_SIZE_CHECK_FAIL_PCT");
    resolve_thresholds(env, warning, fail)
}

const ARCHIVE: &str = "/tmp/t/App.xcarchive";

#[test]
fn resolve_toggle_is_tristate() {
    assert_eq!(resolve_toggle(true, false), Some(true));
    assert_eq!(resolve_toggle(false, true), Some(false));
    assert_eq!(resolve_toggle(false, false), None);
    assert_eq!(resolve_toggle(true, true), Some(true));
}

#[test]
fn enable_disable_pair_resolves() {
    let only_enable = PostActionOverrides {
        enable_size_check: true,
        ..PostActionOverrides::default()
    };
    assert_eq!(
        resolve_toggle(only_enable.enable_size_check, only_enable.disable_size_check),
        Some(true),
    );
    let only_disable = PostActionOverrides {
        disable_size_check: true,
        ..PostActionOverrides::default()
    };
    assert_eq!(
        resolve_toggle(only_disable.enable_size_check, only_disable.disable_size_check),
        Some(false),
    );
}

#[test]
fn apply_overrides_writes_canonical_bool_tokens() {
    let o = parse_overrides(&["--enable-size-check", "--disable-build-info"]);
    let mut env = env_of(&[]);
    apply_overrides(&mut env, &o);
    assert_eq!(
        env.get("BUGSEE_SIZE_CHECK_ENABLED").map(String::as_str),
        Some("1"),
    );
    assert_eq!(
        env.get("BUGSEE_BUILD_INFO_ENABLED").map(String::as_str),
        Some("0"),
    );
    assert!(!env.get("BUGSEE_DEPENDENCIES_ENABLED").is_some());
    assert!(!env_truthy_default_true(
        env.get("BUGSEE_BUILD_INFO_ENABLED")
    ));
    assert!(env_truthy(env.get("BUGSEE_SIZE_CHECK_ENABLED")));
}

#[test]
fn every_toggle_flag_writes_its_exact_canonical_key_and_token() {
    let cases: &[(&str, &str, &str)] = &[
        (
            "--enable-build-info",
            "--disable-build-info",
            "BUGSEE_BUILD_INFO_ENABLED",
        ),
        (
            "--enable-all-actions",
            "--disable-all-actions",
            "BUGSEE_BUILD_INFO_ALL_ACTIONS",
        ),
        (
            "--enable-all-configurations",
            "--disable-all-configurations",
            "BUGSEE_BUILD_INFO_ALL_CONFIGURATIONS",
        ),
        (
            "--enable-dependencies",
            "--disable-dependencies",
            "BUGSEE_DEPENDENCIES_ENABLED",
        ),
        (
            "--enable-timings",
            "--disable-timings",
            "BUGSEE_BUILD_INFO_TIMINGS_ENABLED",
        ),
        (
            "--enable-size-analysis",
            "--disable-size-analysis",
            "BUGSEE_SIZE_ANALYSIS_ENABLED",
        ),
        (
            "--enable-chunked-upload",
            "--disable-chunked-upload",
            "BUGSEE_CHUNKED_UPLOAD",
        ),
        (
            "--enable-size-check",
            "--disable-size-check",
            "BUGSEE_SIZE_CHECK_ENABLED",
        ),
    ];
    for (enable, disable, key) in cases {
        let mut env = env_of(&[]);
        apply_overrides(&mut env, &parse_overrides(&[enable]));
        assert_eq!(
            env.get(*key).map(String::as_str),
            Some("1"),
            "{enable} must write {key}=1",
        );

        let mut env = env_of(&[]);
        apply_overrides(&mut env, &parse_overrides(&[disable]));
        assert_eq!(
            env.get(*key).map(String::as_str),
            Some("0"),
            "{disable} must write {key}=0",
        );
    }
}

#[test]
fn cli_flag_overrides_pre_existing_env_var() {
    let o = parse_overrides(&["--disable-size-check"]);
    let mut env = env_of(&[("BUGSEE_SIZE_CHECK_ENABLED", "1")]);
    apply_overrides(&mut env, &o);
    assert_eq!(
        env.get("BUGSEE_SIZE_CHECK_ENABLED").map(String::as_str),
        Some("0"),
    );
    assert!(!env_truthy(env.get("BUGSEE_SIZE_CHECK_ENABLED")));
}

#[test]
fn all_configurations_flag_writes_both_canonical_and_legacy_keys() {
    let o = parse_overrides(&["--disable-all-configurations"]);
    let mut env = env_of(&[("BUGSEE_SIZE_ANALYSIS_ALL_CONFIGURATIONS", "1")]);
    apply_overrides(&mut env, &o);
    assert_eq!(
        env.get("BUGSEE_BUILD_INFO_ALL_CONFIGURATIONS")
            .map(String::as_str),
        Some("0"),
    );
    assert_eq!(
        env.get("BUGSEE_SIZE_ANALYSIS_ALL_CONFIGURATIONS")
            .map(String::as_str),
        Some("0"),
    );
    assert!(
        !(env_truthy(env.get("BUGSEE_BUILD_INFO_ALL_CONFIGURATIONS"))
            || env_truthy(env.get("BUGSEE_SIZE_ANALYSIS_ALL_CONFIGURATIONS"))),
    );

    let o = parse_overrides(&["--enable-all-configurations"]);
    let mut env = env_of(&[]);
    apply_overrides(&mut env, &o);
    assert_eq!(
        env.get("BUGSEE_BUILD_INFO_ALL_CONFIGURATIONS")
            .map(String::as_str),
        Some("1"),
    );
    assert_eq!(
        env.get("BUGSEE_SIZE_ANALYSIS_ALL_CONFIGURATIONS")
            .map(String::as_str),
        Some("1"),
    );
}

#[test]
fn numeric_thresholds_stringify_and_reparse_through_size_check() {
    let o = parse_overrides(&[
        "--size-check-warning-pct",
        "5",
        "--size-check-fail-pct",
        "12.5",
        "--size-check-warning-bytes",
        "1000",
        "--size-check-fail-bytes",
        "1048576",
    ]);
    let mut env = env_of(&[]);
    apply_overrides(&mut env, &o);
    assert_eq!(
        env.get("BUGSEE_SIZE_CHECK_WARNING_PCT").map(String::as_str),
        Some("5"),
    );
    assert_eq!(
        env.get("BUGSEE_SIZE_CHECK_FAIL_PCT").map(String::as_str),
        Some("12.5"),
    );
    assert_eq!(
        env.get("BUGSEE_SIZE_CHECK_WARNING_BYTES")
            .map(String::as_str),
        Some("1000"),
    );
    assert_eq!(
        env.get("BUGSEE_SIZE_CHECK_FAIL_BYTES").map(String::as_str),
        Some("1048576"),
    );
    let t = thresholds_in(&env);
    assert_eq!(t.warning_pct, Some(5.0f64.to_bits()));
    assert_eq!(t.fail_pct, Some(12.5f64.to_bits()));
    assert_eq!(t.warning_bytes, Some(1_000));
    assert_eq!(t.fail_bytes, Some(1_048_576));
}

#[test]
fn zero_numeric_flag_disables_its_gate_like_env() {
    let o = parse_overrides(&["--size-check-fail-pct", "0", "--size-check-fail-bytes", "0"]);
    let mut env = env_of(&[]);
    apply_overrides(&mut env, &o);
    let t = thresholds_in(&env);
    assert_eq!(t.fail_pct, None);
    assert_eq!(t.fail_bytes, None);
}

#[test]
fn no_flags_is_a_pure_noop_on_the_env_map() {
    let o = parse_overrides(&[]);
    let mut env = env_of(&[
        ("BUGSEE_BUILD_INFO_ENABLED", "weird-value"),
        ("ACTION", "install"),
    ]);
    let before = env.clone();
    apply_overrides(&mut env, &o);
    assert_eq!(env, before, "no flag passed → env map untouched");
}

#[test]
fn disable_build_info_flag_gates_out_should_run() {
    let base = env_of(&[
        ("ACTION", "install"),
        ("ARCHIVE_PATH", ARCHIVE),
        ("CONFIGURATION", "Release"),
    ]);
    assert_eq!(should_run(&base, true, false), Gate::Run);
    let mut env = env_of(&[
        ("ACTION", "install"),
        ("ARCHIVE_PATH", ARCHIVE),
        ("CONFIGURATION", "Release"),
    ]);
    apply_overrides(&mut env, &parse_overrides(&["--disable-build-info"]));
    assert!(matches!(should_run(&env, true, false), Gate::Skip(_)));
}

#[test]
fn enable_all_configurations_flag_admits_a_debug_build() {
    let base = env_of(&[
        ("ACTION", "install"),
        ("ARCHIVE_PATH", ARCHIVE),
        ("CONFIGURATION", "Debug"),
    ]);
    assert!(matches!(should_run(&base, true, false), Gate::Skip(_)));
    let mut env = env_of(&[
        ("ACTION", "install"),
        ("ARCHIVE_PATH", ARCHIVE),
        ("CONFIGURATION", "Debug"),
    ]);
    apply_overrides(&mut env, &parse_overrides(&["--enable-all-configurations"]));
    assert_eq!(should_run(&env, true, false), Gate::Run);
}

#[test]
fn gate_release_archive_runs() {
    let env = env_of(&[
        ("ACTION", "install"),
        ("ARCHIVE_PATH", ARCHIVE),
        ("CONFIGURATION", "Release"),
    ]);
    assert_eq!(should_run(&env, true, false), Gate::Run);
}

#[test]
fn gate_release_prefixed_configs_run() {
    for cfg in ["Release-AppStore", "ReleaseProduction", "release"] {
        let env = env_of(&[
            ("ACTION", "install"),
            ("ARCHIVE_PATH", ARCHIVE),
            ("CONFIGURATION", cfg),
        ]);
        assert_eq!(should_run(&env, true, false), Gate::Run, "config {cfg} should run");
    }
}

#[test]
fn gate_debug_skipped_without_all_configs() {
    let env = env_of(&[
        ("ACTION", "install"),
        ("ARCHIVE_PATH", ARCHIVE),
        ("CONFIGURATION", "Debug"),
    ]);
    match should_run(&env, true, false) {
        Gate::Skip(r) => assert!(r.contains("Debug"), "reason should name the config: {r}"),
        Gate::Run => panic!("Debug must be skipped without all-configs opt-in"),
    }
}

#[test]
fn gate_debug_runs_with_all_configs() {
    let env = env_of(&[
        ("ACTION", "install"),
        ("ARCHIVE_PATH", ARCHIVE),
        ("CONFIGURATION", "Debug"),
        ("BUGSEE_BUILD_INFO_ALL_CONFIGURATIONS", "1"),
    ]);
    assert_eq!(should_run(&env, true, false), Gate::Run);
}

#[test]
fn gate_debug_runs_with_legacy_all_configs_alias() {
    let env = env_of(&[
        ("ACTION", "install"),
        ("ARCHIVE_PATH", ARCHIVE),
        ("CONFIGURATION", "Debug"),
        ("BUGSEE_SIZE_ANALYSIS_ALL_CONFIGURATIONS", "yes"),
    ]);
    assert_eq!(should_run(&env, true, false), Gate::Run);
}

#[test]
fn gate_build_info_disabled_skips() {
    for disable in ["0", "false", "no", "off"] {
        let env = env_of(&[
            ("ACTION", "install"),
            ("ARCHIVE_PATH", ARCHIVE),
            ("CONFIGURATION", "Release"),
            ("BUGSEE_BUILD_INFO_ENABLED", disable),
        ]);
        match should_run(&env, true, false) {
            Gate::Skip(r) => assert!(r.contains("BUGSEE_BUILD_INFO_ENABLED")),
            Gate::Run => panic!("{disable:?} should disable build-info"),
        }
    }
}

#[test]
fn gate_empty_build_info_enabled_is_default_on() {
    let env = env_of(&[
        ("ACTION", "install"),
        ("ARCHIVE_PATH", ARCHIVE),
        ("CONFIGURATION", "Release"),
        ("BUGSEE_BUILD_INFO_ENABLED", ""),
    ]);
    assert_eq!(should_run(&env, true, false), Gate::Run);
}

#[test]
fn gate_no_archive_no_optin_skips() {
    let env = env_of(&[("ACTION", "build"), ("CONFIGURATION", "Release")]);
    match should_run(&env, false, false) {
        Gate::Skip(r) => assert!(r.contains("Archive"), "reason: {r}"),
        Gate::Run => panic!("plain build without opt-in must skip"),
    }
}

#[test]
fn gate_install_with_missing_archive_skips() {
    let env = env_of(&[
        ("ACTION", "install"),
        ("ARCHIVE_PATH", "/no/such/archive.xcarchive"),
        ("CONFIGURATION", "Release"),
    ]);
    match should_run(&env, false, false) {
        Gate::Skip(r) => assert!(r.contains("xcarchive"), "reason: {r}"),
        Gate::Run => panic!("missing archive must skip"),
    }
}

#[test]
fn gate_all_actions_missing_build_dir_skips() {
    let env = env_of(&[
        ("ACTION", "build"),
        ("CONFIGURATION", "Release"),
        ("BUGSEE_BUILD_INFO_ALL_ACTIONS", "1"),
    ]);
    match should_run(&env, false, false) {
        Gate::Skip(r) => assert!(r.contains("TARGET_BUILD_DIR"), "reason: {r}"),
        Gate::Run => panic!("opt-in without build dir must skip"),
    }
}

#[test]
fn gate_all_actions_with_build_dir_runs() {
    let env = env_of(&[
        ("ACTION", "build"),
        ("TARGET_BUILD_DIR", "/tmp/t"),
        ("CONFIGURATION", "Release"),
        ("BUGSEE_BUILD_INFO_ALL_ACTIONS", "1"),
    ]);
    assert_eq!(should_run(&env, false, true), Gate::Run);
}

#[test]
fn a_reason_quotes_what_was_found() {
    let env = env_of(&[("ACTION", "build"), ("CONFIGURATION", "Release")]);
    assert_eq!(
        should_run(&env, false, false),
        Gate::Skip(
            "build-info upload requires an Archive action (got ACTION=\"build\"); set \
             BUGSEE_BUILD_INFO_ALL_ACTIONS=1 to also register on plain Build actions"
                .to_string()
        )
    );
}

#[test]
fn find_app_in_archive_layout() {
    let app = "/tmp/t/App.xcarchive/Products/Applications/MyApp.app";
    let dirs = paths(&[ARCHIVE, "/tmp/t/App.xcarchive/Products/Applications", app]);
    let env = env_of(&[("ARCHIVE_PATH", ARCHIVE)]);
    assert_eq!(find_app(&env, &dirs), Some(parse_path(app)));
}

#[test]
fn find_app_takes_the_first_of_an_archive() {
    let base = "/tmp/t/App.xcarchive/Products/Applications";
    let dirs = paths(&[ARCHIVE, base, &format!("{base}/B.app"), &format!("{base}/A.app")]);
    assert_eq!(
        find_app_in_archive(ARCHIVE, &dirs),
        Some(parse_path(&format!("{base}/A.app")))
    );
}

#[test]
fn find_app_in_build_dir_layout() {
    let env = env_of(&[("TARGET_BUILD_DIR", "/tmp/t"), ("WRAPPER_NAME", "MyApp.app")]);
    let dirs = paths(&["/tmp/t", "/tmp/t/MyApp.app", "/tmp/t/Other.app"]);
    assert_eq!(find_app(&env, &dirs), Some(parse_path("/tmp/t/MyApp.app")));
}

#[test]
fn find_app_single_app_scan() {
    let env = env_of(&[("TARGET_BUILD_DIR", "/tmp/t")]);
    let dirs = paths(&["/tmp/t", "/tmp/t/Only.app"]);
    assert_eq!(find_app(&env, &dirs), Some(parse_path("/tmp/t/Only.app")));
}

#[test]
fn find_app_none_when_absent() {
    let env = env_of(&[("TARGET_BUILD_DIR", "/tmp/t")]);
    assert_eq!(find_app(&env, &paths(&["/tmp/t"])), None);
}

#[test]
fn find_app_ambiguous_multiple_apps_is_none() {
    let env = env_of(&[("TARGET_BUILD_DIR", "/tmp/t")]);
    let dirs = paths(&["/tmp/t", "/tmp/t/First.app", "/tmp/t/Second.app"]);
    assert_eq!(find_app(&env, &dirs), None);
}

#[test]
fn find_app_ignores_non_app_wrapper() {
    let env = env_of(&[("TARGET_BUILD_DIR", "/tmp/t"), ("WRAPPER_NAME", "NotAnApp")]);
    let dirs = paths(&["/tmp/t", "/tmp/t/NotAnApp", "/tmp/t/Real.app"]);
    assert_eq!(find_app(&env, &dirs), Some(parse_path("/tmp/t/Real.app")));
}

#[test]
fn the_executable_of_a_build_is_in_its_app() {
    let env = env_of(&[
        ("TARGET_BUILD_DIR", "/tmp/t"),
        ("WRAPPER_NAME", "MyApp.app"),
        ("EXECUTABLE_NAME", "MyApp"),
    ]);
    let dirs = paths(&["/tmp/t", "/tmp/t/MyApp.app"]);
    let files = paths(&["/tmp/t/MyApp.app/MyApp"]);
    assert_eq!(
        resolve_product_binary(&env, &dirs, &files),
        Some(parse_path("/tmp/t/MyApp.app/MyApp"))
    );
    assert_eq!(resolve_product_binary(&env, &dirs, &vec![]), None);
}

#[test]
fn env_truthy_token_set() {
    for t in ["1", "true", "TRUE", "yes", "Yes", "on", "ON", " on "] {
        assert!(env_truthy(Some(&t.to_string())), "{t:?} should be truthy");
    }
    for f in ["0", "false", "no", "off", "", "  ", "enabled", "2"] {
        assert!(!env_truthy(Some(&f.to_string())), "{f:?} should be falsy");
    }
    assert!(!env_truthy(None));
}

#[test]
fn resolve_dsym_folder_prefers_explicit() {
    let env = env_of(&[
        ("DWARF_DSYM_FOLDER_PATH", "/tmp/t/explicit-dsyms"),
        ("ARCHIVE_PATH", ARCHIVE),
    ]);
    let dirs = paths(&["/tmp/t/explicit-dsyms", "/tmp/t/App.xcarchive/dSYMs"]);
    assert_eq!(resolve_dsym_folder(&env, &dirs), Some(parse_path("/tmp/t/explicit-dsyms")));
}

#[test]
fn resolve_dsym_folder_archive_fallback() {
    let env = env_of(&[("ARCHIVE_PATH", ARCHIVE)]);
    let dirs = paths(&[ARCHIVE, "/tmp/t/App.xcarchive/dSYMs"]);
    assert_eq!(
        resolve_dsym_folder(&env, &dirs),
        Some(parse_path("/tmp/t/App.xcarchive/dSYMs"))
    );
}

#[test]
fn resolve_dsym_folder_none() {
    let env = env_of(&[("ARCHIVE_PATH", ARCHIVE)]);
    assert_eq!(resolve_dsym_folder(&env, &paths(&[ARCHIVE])), None);
}

#[test]
fn directories_come_from_the_build_settings() {
    let env = env_of(&[("SRCROOT", "/src"), ("PROJECT_DIR", " ")]);
    assert_eq!(working_dir(&env, "/now"), "/src");
    assert_eq!(deps_root(&env, "/now"), "/now");
    let env = env_of(&[("SOURCE_ROOT", "/root")]);
    assert_eq!(working_dir(&env, "/now"), "/now");
    assert_eq!(deps_root(&env, "/now"), "/root");
}

#[test]
fn an_archive_is_named_after_its_app() {
    let app = parse_path("/tmp/t/My App.app");
    let id = |s: &str| Some(s.to_string());
    assert_eq!(ipa_stem(&app, &id("com.example.app")), "com.example.app");
    assert_eq!(ipa_stem(&app, &None), "My_App");
    assert_eq!(ipa_stem(&app, &id("../../etc/pa\u{e4}s")), "pa_s");
    assert_eq!(ipa_stem(&parse_path("/"), &None), "build");
}

fn dep(id: &str, direct: bool) -> DepEntry {
    DepEntry {
        id: id.to_string(),
        group: String::new(),
        name: id.to_string(),
        version: Some("1.0".into()),
        direct,
        scope: None,
        type_: "library".into(),
        parents: Vec::new(),
        url: None,
    }
}

#[test]
fn payload_builder_shape_matches_agent() {
    let env = env_of(&[("CONFIGURATION", "Release"), ("SDK_NAME", "iphoneos18.5")]);
    let bundle = BundleInfo {
        package_id: Some("com.example.app".into()),
        version: Some("1.2.3".into()),
        build: Some("42".into()),
    };
    let vcs = VcsMetadata {
        provider: Some("github"),
        commit_sha: Some("deadbeef".into()),
        branch: Some("main".into()),
        ..Default::default()
    };
    let entries = vec![
        dep("library::Alamofire", true),
        dep("library::SnapKit", true),
        dep("library::Kingfisher", true),
        dep("library::SwiftyJSON", false),
    ];
    let summary = deps_summary(&entries, false, "all", "2026-06-16T00:00:00Z");
    let timings = TimingsSummary {
        total_ms: Some(12345),
        top_tasks: vec![TopTask { name: "Alpha".to_string(), duration_ms: 4000 }],
        buckets: vec![("native_ms".to_string(), 9000)],
    };
    let obj = build_registration_payload(
        &env,
        &bundle,
        vcs,
        Some("github-actions:runner-1".to_string()),
        Some("16.2".to_string()),
        Some(summary),
        Some(timings),
        "0123456789abcdef0123456789abcdef",
        4096,
        true,
        "0.5.0",
    );
    assert_eq!(obj.format, "ipa");
    assert_eq!(obj.uuid, "0123456789abcdef0123456789abcdef");
    assert_eq!(obj.artifact_size, Some(4096));
    assert_eq!(obj.package_id.as_deref(), Some("com.example.app"));
    assert_eq!(obj.version.as_deref(), Some("1.2.3"));
    assert_eq!(obj.build.as_deref(), Some("42"));
    assert_eq!(obj.build_configuration.as_deref(), Some("Release"));
    assert_eq!(obj.request_artifact_upload, true);
    assert_eq!(obj.request_dependencies_upload, Some(true));
    let vcs_obj = obj.vcs.unwrap();
    assert_eq!(vcs_obj.provider, Some("github"));
    assert_eq!(vcs_obj.commit_sha.as_deref(), Some("deadbeef"));
    assert_eq!(vcs_obj.branch.as_deref(), Some("main"));
    let meta = obj.build_metadata;
    assert_eq!(meta.machine.as_deref(), Some("github-actions:runner-1"));
    assert_eq!(meta.build_system_version.as_deref(), Some("16.2"));
    assert_eq!(meta.build_sdk_version.as_deref(), Some("iphoneos18.5"));
    assert!(meta.plugin_version.starts_with("bugsee-cli/"));
    assert_eq!(meta.plugin_version, plugin_version("0.5.0"));
    let timings = meta.timings.unwrap();
    assert_eq!(timings.total_ms, Some(12345));
    assert_eq!(timings.buckets[0], ("native_ms".to_string(), 9000));
    assert_eq!(timings.top_tasks.len(), 1);
    let dsum = obj.dependencies_summary.unwrap();
    assert_eq!(dsum.total, 4);
    assert_eq!(dsum.direct, 3);
    assert_eq!(dsum.transitive, 1);
    assert_eq!(dsum.truncated, false);
    assert_eq!(dsum.collected_at, "2026-06-16T00:00:00Z");
    assert_eq!(dsum.library, 4);
    assert_eq!(dsum.project, 0);
    assert_eq!(dsum.file, 0);
    let cc = dsum.collection_config;
    assert_eq!(cc.scope, "all");
    assert_eq!(cc.max_count, 5000);
    assert_eq!(cc.include_selected_reason, false);
}

#[test]
fn payload_omits_empty_vcs() {
    let env = env_of(&[("CONFIGURATION", "Release")]);
    let bundle = BundleInfo {
        package_id: Some("com.example.app".into()),
        version: None,
        build: None,
    };
    let vcs = VcsMetadata::default();
    let obj = build_registration_payload(
        &env, &bundle, vcs, None, None, None, None, "ff", 0, false, "0.5.0",
    );
    assert!(obj.vcs.is_none(), "empty vcs must be omitted");
    assert!(obj.dependencies_summary.is_none());
    assert!(obj.request_dependencies_upload.is_none());
    assert!(obj.artifact_size.is_none());
}

#[test]
fn dependencies_are_sent_where_there_are_any() {
    let mut collected = CollectResult {
        entries: vec![],
        scope_label: "".to_string(),
        truncated: true,
    };
    assert!(stage_deps(&collected, "now").is_none());
    collected.entries.push(dep("library::A", true));
    let (summary, blob) = stage_deps(&collected, "now").unwrap();
    assert_eq!(summary.total, 1);
    assert_eq!(summary.collection_config.scope, "all");
    assert_eq!(blob, deps_blob(&collected.entries, true, "all"));
    assert_eq!(blob.schema_version, 1);
    assert_eq!(blob.dependencies, collected.entries);
}

#[test]
fn iso8601_known_timestamps() {
    assert_eq!(format_iso8601_utc(1_609_459_200), "2021-01-01T00:00:00Z");
    assert_eq!(format_iso8601_utc(0), "1970-01-01T00:00:00Z");
    assert_eq!(format_iso8601_utc(1_709_213_862), "2024-02-29T13:37:42Z");
}

#[test]
fn dates_go_by_the_calendar() {
    assert_eq!(civil_date(0), (1970, 1, 1));
    assert_eq!(civil_date(59), (1970, 3, 1));
    assert_eq!(civil_date(11_016), (2000, 2, 29));
    assert_eq!(format_iso8601_utc(4_107_542_399), "2100-02-28T23:59:59Z");
    assert_eq!(format_iso8601_utc(4_107_542_400), "2100-03-01T00:00:00Z");
}

#[test]
fn later_seconds_print_as_greater_texts() {
    let seconds = [
        0u64, 1, 59, 60, 86_399, 86_400, 951_782_400, 951_868_799, 1_709_213_862, 4_107_542_399,
        4_107_542_400, 253_402_300_799,
    ];
    let texts: Vec<String> = seconds.iter().map(|s| format_iso8601_utc(*s)).collect();
    assert_eq!(texts[11], "9999-12-31T23:59:59Z");
    for i in 1..texts.len() {
        assert_eq!(texts[i].len(), 20);
        assert!(texts[i - 1] < texts[i]);
    }
}

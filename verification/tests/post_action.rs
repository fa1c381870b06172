use bugsee_cli::env::Env;
use bugsee_cli::error::Error;
use bugsee_cli::exit_code::ExitCode;
use bugsee_cli::paths::{parse_path, Part};
use bugsee_cli::post_action::{admission, Admission, Outcome, PostActionReport, PostActionRun, Step};
use bugsee_cli::size_check::Verdict;

fn env_of(pairs: &[(&str, &str)]) -> Env {
    Env::from_pairs(
        pairs
            .iter()
            .map(|(k, v)| (k.to_string(), v.to_string()))
            .collect(),
    )
}

fn paths(texts: &[&str]) -> Vec<Vec<Part>> {
    texts.iter().map(|t| parse_path(t)).collect()
}

const APP: &str = "/a.xcarchive/Products/Applications/My.app";

fn archive_env() -> Env {
    env_of(&[
        ("ACTION", "install"),
        ("ARCHIVE_PATH", "/a.xcarchive"),
        ("CONFIGURATION", "Release"),
    ])
}

fn archive_dirs() -> Vec<Vec<Part>> {
    paths(&["/a.xcarchive", "/a.xcarchive/Products/Applications", APP])
}

/// Runs to the end; everything goes well, and the steps are listed.
fn run(env: &Env, size: Option<u64>, baseline: bool, verdict: Verdict)
    -> (Vec<Step>, PostActionReport) {
    let mut r = PostActionRun::begin(env);
    let mut steps = Vec::new();
    loop {
        steps.push(r.step);
        let outcome = match r.step {
            Step::CollectDependencies => Outcome::Dependencies(true),
            Step::DecodeTimings => Outcome::Timings(true),
            Step::Package => Outcome::Packaged(size),
            Step::FetchBaseline => Outcome::Baseline(baseline),
            Step::Register { .. } => Outcome::Registered(true),
            Step::UploadSymbols => Outcome::Symbols(true),
            Step::CheckSize => Outcome::Checked(verdict, "the line".to_string()),
            Step::Report => break,
        };
        assert!(r.report().is_none());
        r.advance(outcome);
    }
    let report = r.report().unwrap();
    (steps, report)
}

#[test]
fn post_action_missing_token_is_config_error() {
    let e = admission(&archive_env(), &archive_dirs(), &None).unwrap_err();
    assert_eq!(e.exit_code(), ExitCode::ConfigInvalid);
    assert!(e.message().contains("--app-token"));
}

fn debug_env() -> Env {
    env_of(&[
        ("ACTION", "install"),
        ("ARCHIVE_PATH", "/t/App.xcarchive"),
        ("CONFIGURATION", "Debug"),
    ])
}

#[test]
fn post_action_gated_out_is_noop_ok() {
    let dirs = paths(&["/t/App.xcarchive"]);
    let a = admission(&debug_env(), &dirs, &None)
        .expect("gated-out post-action must be a no-op Ok");
    assert!(matches!(a, Admission::Skipped(_)));
}

#[test]
fn post_action_inner_gated_out_is_none() {
    let dirs = paths(&["/t/App.xcarchive"]);
    assert!(matches!(admission(&debug_env(), &dirs, &None).unwrap(), Admission::Skipped(_)));
    let token = Some("TKN".to_string());
    assert!(matches!(admission(&debug_env(), &dirs, &token).unwrap(), Admission::Skipped(_)));
}

#[test]
fn an_action_that_is_no_archive_is_skipped() {
    let env = env_of(&[("ACTION", "build"), ("CONFIGURATION", "Release")]);
    assert!(matches!(admission(&env, &vec![], &None).unwrap(), Admission::Skipped(_)));
}

#[test]
fn a_missing_token_is_told_before_a_missing_app() {
    let dirs = paths(&["/a.xcarchive"]);
    let e = admission(&archive_env(), &dirs, &None).unwrap_err();
    assert_eq!(e.exit_code(), ExitCode::ConfigInvalid);
    assert!(e.message().contains("--app-token"));
}

#[test]
fn an_archive_is_admitted_with_its_app() {
    let dirs = paths(&["/a.xcarchive"]);
    let token = Some("TKN".to_string());
    assert_eq!(admission(&archive_env(), &dirs, &token).unwrap(), Admission::NoApp);
    assert_eq!(
        admission(&archive_env(), &archive_dirs(), &token).unwrap(),
        Admission::Admitted(parse_path(APP))
    );
}

#[test]
fn post_action_inner_reports_outcomes() {
    let env = env_of(&[("BUGSEE_SIZE_ANALYSIS_ENABLED", "1")]);
    let (steps, report) = run(&env, Some(10), false, Verdict::Pass);
    assert_eq!(
        steps,
        vec![
            Step::CollectDependencies,
            Step::DecodeTimings,
            Step::Package,
            Step::FetchBaseline,
            Step::Register { with_artifact: true, chunked: false },
            Step::UploadSymbols,
            Step::Report,
        ]
    );
    assert!(report.build_registered);
    assert!(report.artifact_uploaded);
    assert!(report.dsym_uploaded);
    assert!(report.deps_collected);
    assert!(report.timings);
    assert!(report.size_analysis);
    assert_eq!(report.size_check, "skip");
    assert!(report.size_check_fail_line.is_none());
    assert!(report.conclude().is_ok());
}

#[test]
fn a_run_with_a_baseline_checks_the_size() {
    let env = env_of(&[("BUGSEE_SIZE_ANALYSIS_ENABLED", "1")]);
    let (steps, report) = run(&env, Some(10), true, Verdict::Pass);
    assert_eq!(
        steps,
        vec![
            Step::CollectDependencies,
            Step::DecodeTimings,
            Step::Package,
            Step::FetchBaseline,
            Step::Register { with_artifact: true, chunked: false },
            Step::UploadSymbols,
            Step::CheckSize,
            Step::Report,
        ]
    );
    assert!(report.build_registered);
    assert!(report.artifact_uploaded);
    assert!(report.dsym_uploaded);
    assert!(report.deps_collected);
    assert!(report.timings);
    assert!(report.size_analysis);
    assert_eq!(report.size_check, "pass");
    assert!(report.conclude().is_ok());
}

#[test]
fn post_action_inner_report_register_only() {
    let (steps, report) = run(&Env::new(), Some(10), false, Verdict::Fail);
    assert!(steps.contains(&Step::Register { with_artifact: false, chunked: false }));
    assert!(!steps.contains(&Step::CheckSize));
    assert!(report.build_registered);
    assert!(!report.artifact_uploaded);
    assert!(!report.size_analysis);
    assert_eq!(report.size_check, "skip");
}

#[test]
fn post_action_inner_respects_deps_optout() {
    let env = env_of(&[("BUGSEE_DEPENDENCIES_ENABLED", "0")]);
    let (steps, report) = run(&env, Some(10), false, Verdict::Pass);
    assert_eq!(steps[0], Step::DecodeTimings);
    assert!(!report.deps_collected);
}

#[test]
fn post_action_inner_respects_timings_optout() {
    let env = env_of(&[("BUGSEE_BUILD_INFO_TIMINGS_ENABLED", "off")]);
    let (steps, report) = run(&env, Some(10), false, Verdict::Pass);
    assert_eq!(steps[1], Step::Package);
    assert!(!report.timings);
}

#[test]
fn post_action_size_check_fail_returns_terminal_error() {
    let (_, report) = run(&Env::new(), Some(10), true, Verdict::Fail);
    assert_eq!(report.size_check, "fail");
    let e = report.conclude().unwrap_err();
    assert_eq!(e, Error::SizeCheckFailed("the line".to_string()));
    assert_eq!(e.exit_code(), ExitCode::SizeCheckFailed);
    assert_eq!(e.message(), "the line");
}

#[test]
fn post_action_size_check_pass_is_ok() {
    let (_, report) = run(&Env::new(), Some(10), true, Verdict::Warn);
    assert_eq!(report.size_check, "warn");
    assert!(report.conclude().is_ok());
}

#[test]
fn flag_enable_chunked_upload_uses_chunked_transport_through_the_flow() {
    let env = env_of(&[
        ("BUGSEE_SIZE_ANALYSIS_ENABLED", "1"),
        ("BUGSEE_CHUNKED_UPLOAD", "1"),
    ]);
    let (steps, _) = run(&env, Some(10), false, Verdict::Pass);
    assert!(steps.contains(&Step::Register { with_artifact: true, chunked: true }));
    let (steps, report) = run(&env, None, true, Verdict::Fail);
    assert!(steps.contains(&Step::Register { with_artifact: false, chunked: false }));
    assert!(!steps.contains(&Step::CheckSize));
    assert!(!report.artifact_uploaded);
}

#[test]
fn an_outcome_of_another_step_changes_nothing() {
    let mut r = PostActionRun::begin(&Env::new());
    r.advance(Outcome::Registered(true));
    assert_eq!(r.step, Step::CollectDependencies);
    assert!(!r.registered);
}

#[test]
fn a_failed_upload_is_reported_and_does_not_fail() {
    let mut r = PostActionRun::begin(&Env::new());
    r.advance(Outcome::Dependencies(false));
    r.advance(Outcome::Timings(false));
    r.advance(Outcome::Packaged(Some(10)));
    r.advance(Outcome::Baseline(false));
    r.advance(Outcome::Registered(false));
    r.advance(Outcome::Symbols(false));
    let report = r.report().unwrap();
    assert!(!report.build_registered && !report.dsym_uploaded);
    assert!(report.conclude().is_ok());
}

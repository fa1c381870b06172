use bugsee_cli::env::Env;
use bugsee_cli::size_check::{
    baseline_query, evaluate, format_bytes, format_pct, is_due, parse_baseline, parse_pos_float,
    parse_pos_int, prepare, resolve_thresholds, Baseline, Prepared, Thresholds, Verdict,
};

fn env_of(pairs: &[(&str, &str)]) -> Env {
    Env::from_pairs(
        pairs
            .iter()
            .map(|(k, v)| (k.to_string(), v.to_string()))
            .collect(),
    )
}

fn bits(x: f64) -> u64 {
    x.to_bits()
}

/// The growth in percent.
fn growth(local: u64, baseline: u64) -> u64 {
    if baseline == 0 {
        return bits(0.0);
    }
    let delta = local as i64 - baseline as i64;
    bits((delta as f64 / baseline as f64) * 100.0)
}

/// What the variable reads as.
fn read(env: &Env, key: &str) -> Option<u64> {
    env.get(key).and_then(|t| t.trim().parse::<f64>().ok()).map(bits)
}

fn thresholds_in(env: &Env) -> Thresholds {
    let warning = read(env, "BUGSEE_SIZE_CHECK_WARNING_PCT");
    let fail = read(env, "BUGSEE_SIZE_CHECK_FAIL_PCT");
    resolve_thresholds(env, warning, fail)
}

fn prepared_with(env: &Env, package_id: Option<&str>, reply: Option<&str>) -> Option<Prepared> {
    let warning = read(env, "BUGSEE_SIZE_CHECK_WARNING_PCT");
    let fail = read(env, "BUGSEE_SIZE_CHECK_FAIL_PCT");
    let id = package_id.map(|p| p.to_string());
    prepare(env, warning, fail, &id, reply.and_then(parse_baseline))
}

fn thresholds(fail_pct: Option<f64>, fail_bytes: Option<u64>) -> Thresholds {
    Thresholds {
        warning_pct: None,
        fail_pct: fail_pct.map(bits),
        warning_bytes: None,
        fail_bytes,
    }
}

fn prepared(t: Thresholds, baseline_size: u64) -> Prepared {
    Prepared {
        thresholds: t,
        baseline: Baseline {
            artifact_size: baseline_size,
            version: Some("1.0".into()),
            build: Some("42".into()),
        },
    }
}

#[test]
fn thresholds_reject_zero_negative_nonfinite_malformed() {
    let env = env_of(&[
        ("BUGSEE_SIZE_CHECK_WARNING_PCT", "0"),
        ("BUGSEE_SIZE_CHECK_FAIL_PCT", "inf"),
        ("BUGSEE_SIZE_CHECK_WARNING_BYTES", "-5"),
        ("BUGSEE_SIZE_CHECK_FAIL_BYTES", "abc"),
    ]);
    let t = thresholds_in(&env);
    assert_eq!(t, Thresholds::default());
    assert!(t.is_empty());
}

#[test]
fn thresholds_parse_valid_values() {
    let env = env_of(&[
        ("BUGSEE_SIZE_CHECK_WARNING_PCT", "5.5"),
        ("BUGSEE_SIZE_CHECK_FAIL_PCT", "10"),
        ("BUGSEE_SIZE_CHECK_WARNING_BYTES", "1048576"),
        ("BUGSEE_SIZE_CHECK_FAIL_BYTES", "5242880"),
    ]);
    let t = thresholds_in(&env);
    assert_eq!(t.warning_pct, Some(bits(5.5)));
    assert_eq!(t.fail_pct, Some(bits(10.0)));
    assert_eq!(t.warning_bytes, Some(1_048_576));
    assert_eq!(t.fail_bytes, Some(5_242_880));
    assert!(!t.is_empty());
}

#[test]
fn format_bytes_units_and_sign() {
    assert_eq!(format_bytes(512), "512 B");
    assert_eq!(format_bytes(1536), "1.5 KB");
    assert_eq!(format_bytes(1024 * 1024 + 1024 * 512), "1.5 MB");
    assert_eq!(format_bytes(3 * 1024 * 1024 * 1024 / 2), "1.50 GB");
    assert_eq!(format_bytes(-2048), "-2.0 KB");
}

#[test]
fn format_pct_whole_vs_fractional() {
    assert_eq!(format_pct(bits(20.0)), "20%");
    assert_eq!(format_pct(bits(20.5)), "20.5%");
    assert_eq!(format_pct(bits(-5.0)), "-5%");
}

#[test]
fn shrunk_or_flat_always_passes() {
    let t = thresholds(Some(1.0), Some(1));
    assert_eq!(evaluate(900, 1000, &t, growth(900, 1000)).verdict, Verdict::Pass);
    assert_eq!(evaluate(1000, 1000, &t, growth(1000, 1000)).verdict, Verdict::Pass);
}

#[test]
fn zero_baseline_passes() {
    let t = thresholds(Some(1.0), Some(1));
    assert_eq!(evaluate(1_000_000, 0, &t, growth(1_000_000, 0)).verdict, Verdict::Pass);
}

#[test]
fn fail_pct_triggers_fail() {
    let t = thresholds(Some(10.0), None);
    let e = evaluate(1200, 1000, &t, growth(1200, 1000));
    let (v, label, db, dp) = (e.verdict, e.triggered_by, e.delta_bytes, f64::from_bits(e.delta_pct));
    assert_eq!(v, Verdict::Fail);
    assert_eq!(label.as_deref(), Some("fail threshold 10%"));
    assert_eq!(db, 200);
    assert!((dp - 20.0).abs() < 1e-9);
}

#[test]
fn fail_wins_over_warning() {
    let t = Thresholds {
        warning_pct: Some(bits(5.0)),
        fail_pct: Some(bits(10.0)),
        warning_bytes: None,
        fail_bytes: None,
    };
    assert_eq!(evaluate(1200, 1000, &t, growth(1200, 1000)).verdict, Verdict::Fail);
}

#[test]
fn warning_when_below_fail() {
    let t = Thresholds {
        warning_pct: Some(bits(5.0)),
        fail_pct: Some(bits(10.0)),
        warning_bytes: None,
        fail_bytes: None,
    };
    let e = evaluate(1070, 1000, &t, growth(1070, 1000));
    let (v, label) = (e.verdict, e.triggered_by);
    assert_eq!(v, Verdict::Warn);
    assert_eq!(label.as_deref(), Some("warning threshold 5%"));
}

#[test]
fn bytes_gate_triggers_when_no_pct() {
    let t = thresholds(None, Some(100));
    let e = evaluate(1150, 1000, &t, growth(1150, 1000));
    let (v, label) = (e.verdict, e.triggered_by);
    assert_eq!(v, Verdict::Fail);
    assert_eq!(label.as_deref(), Some("fail threshold 100 B"));
}

#[test]
fn growth_below_all_thresholds_passes() {
    let t = thresholds(Some(50.0), Some(1_000_000));
    assert_eq!(evaluate(1010, 1000, &t, growth(1010, 1000)).verdict, Verdict::Pass);
}

#[test]
fn fail_bytes_precedes_warning_pct_when_both_fire() {
    let t = Thresholds {
        warning_pct: Some(bits(5.0)),
        fail_pct: None,
        warning_bytes: None,
        fail_bytes: Some(100),
    };
    let e = evaluate(600, 400, &t, growth(600, 400));
    let (v, label) = (e.verdict, e.triggered_by);
    assert_eq!(v, Verdict::Fail);
    assert_eq!(label.as_deref(), Some("fail threshold 100 B"));
}

#[test]
fn warning_pct_label_precedes_warning_bytes_when_both_fire() {
    let t = Thresholds {
        warning_pct: Some(bits(5.0)),
        fail_pct: None,
        warning_bytes: Some(100),
        fail_bytes: None,
    };
    let e = evaluate(600, 400, &t, growth(600, 400));
    let (v, label) = (e.verdict, e.triggered_by);
    assert_eq!(v, Verdict::Warn);
    assert_eq!(label.as_deref(), Some("warning threshold 5%"));
}

#[test]
fn decide_fail_line_has_no_error_prefix_but_names_gate() {
    let p = prepared(thresholds(Some(10.0), None), 1_000_000);
    let (v, line) = p.decide(1_300_000, growth(1_300_000, 1_000_000));
    assert_eq!(v, Verdict::Fail);
    assert!(!line.starts_with("error:"), "line: {line}");
    assert!(line.contains("Bugsee size check:"));
    assert!(line.contains("(+30%, +"));
    assert!(line.contains("exceeds fail threshold 10%"));
    assert!(line.contains("vs version 1.0 (42)"));
}

#[test]
fn decide_warn_line_has_warning_prefix() {
    let p = prepared(
        Thresholds {
            warning_pct: Some(bits(5.0)),
            fail_pct: Some(bits(50.0)),
            warning_bytes: None,
            fail_bytes: None,
        },
        1_000_000,
    );
    let (v, line) = p.decide(1_100_000, growth(1_100_000, 1_000_000));
    assert_eq!(v, Verdict::Warn);
    assert!(
        line.starts_with("warning: Bugsee size check:"),
        "line: {line}"
    );
    assert!(line.contains("exceeds warning threshold 5%"));
}

#[test]
fn decide_pass_line_is_bare_summary() {
    let p = prepared(thresholds(Some(50.0), None), 1_000_000);
    let (v, line) = p.decide(900_000, growth(900_000, 1_000_000));
    assert_eq!(v, Verdict::Pass);
    assert!(!line.starts_with("warning:") && !line.starts_with("error:"));
    assert!(line.contains("(-10%, -"), "line: {line}");
}

#[test]
fn prepare_skips_when_master_switch_off() {
    let env = env_of(&[("BUGSEE_SIZE_CHECK_FAIL_PCT", "10")]);
    assert!(prepared_with(&env, Some("com.x"), Some(REPLY)).is_none());
}

#[test]
fn prepare_skips_when_no_thresholds() {
    let env = env_of(&[("BUGSEE_SIZE_CHECK_ENABLED", "1")]);
    assert!(prepared_with(&env, Some("com.x"), Some(REPLY)).is_none());
}

#[test]
fn prepare_skips_when_no_package_id() {
    let env = env_of(&[
        ("BUGSEE_SIZE_CHECK_ENABLED", "1"),
        ("BUGSEE_SIZE_CHECK_FAIL_PCT", "10"),
    ]);
    assert!(prepared_with(&env, None, Some(REPLY)).is_none());
    assert!(prepared_with(&env, Some(""), Some(REPLY)).is_none());
}

const REPLY: &str = "{\"ok\": true, \"result\": {\"build\": \
    {\"artifact_size\": 1000000, \"version\": \"1.0\", \"build\": \"42\"}}}";

#[test]
fn prepare_fetches_baseline_with_query_and_returns_prepared() {
    assert_eq!(
        baseline_query("com.example.app", "Release"),
        vec![
            ("package_id".to_string(), "com.example.app".to_string()),
            ("format".to_string(), "ipa".to_string()),
            ("build_configuration".to_string(), "Release".to_string()),
        ]
    );
    let env = env_of(&[
        ("BUGSEE_SIZE_CHECK_ENABLED", "1"),
        ("BUGSEE_SIZE_CHECK_FAIL_PCT", "10"),
    ]);
    let p = prepared_with(&env, Some("com.example.app"), Some(REPLY)).expect("prepared");
    assert_eq!(p.baseline.artifact_size, 1_000_000);
    assert_eq!(p.baseline.version.as_deref(), Some("1.0"));
    assert_eq!(p.baseline.build.as_deref(), Some("42"));
    let (v, _line) = p.decide(1_300_000, growth(1_300_000, 1_000_000));
    assert_eq!(v, Verdict::Fail);
}

#[test]
fn prepare_skips_on_null_build_first_build() {
    let env = env_of(&[
        ("BUGSEE_SIZE_CHECK_ENABLED", "1"),
        ("BUGSEE_SIZE_CHECK_FAIL_PCT", "10"),
    ]);
    let reply = "{\"ok\": true, \"result\": {\"build\": null}}";
    let p = prepared_with(&env, Some("com.example.app"), Some(reply));
    assert!(p.is_none(), "a null baseline build must skip the check");
}

#[test]
fn prepare_skips_on_http_error() {
    let env = env_of(&[
        ("BUGSEE_SIZE_CHECK_ENABLED", "1"),
        ("BUGSEE_SIZE_CHECK_FAIL_PCT", "10"),
    ]);
    assert!(prepared_with(&env, Some("com.example.app"), None).is_none());
}

#[test]
fn prepare_skips_when_baseline_has_no_artifact_size() {
    let env = env_of(&[
        ("BUGSEE_SIZE_CHECK_ENABLED", "1"),
        ("BUGSEE_SIZE_CHECK_FAIL_PCT", "10"),
    ]);
    let reply = "{\"ok\": true, \"result\": {\"build\": {\"version\": \"1.0\"}}}";
    let p = prepared_with(&env, Some("com.example.app"), Some(reply));
    assert!(
        p.is_none(),
        "a legacy build with no artifact_size must skip"
    );
}

#[test]
fn a_query_without_configuration_leaves_it_out() {
    let q = baseline_query("com.x", "");
    assert_eq!(q.len(), 2);
    assert_eq!(q[0].0, "package_id");
    assert_eq!(q[1].1, "ipa");
}

#[test]
fn a_reply_that_is_no_json_is_no_baseline() {
    assert!(parse_baseline("<html>").is_none());
    assert!(parse_baseline("[]").is_none());
}

#[test]
fn a_threshold_is_positive_or_absent() {
    let env = env_of(&[("P", "2.5"), ("N", "7"), ("Z", "0"), ("E", "")]);
    assert_eq!(parse_pos_float(&env, "P", read(&env, "P")), Some(bits(2.5)));
    assert_eq!(parse_pos_float(&env, "Z", read(&env, "Z")), None);
    assert_eq!(parse_pos_float(&env, "E", read(&env, "E")), None);
    assert_eq!(parse_pos_int(&env, "N"), Some(7));
    assert_eq!(parse_pos_int(&env, "Z"), None);
    assert_eq!(parse_pos_int(&env, "P"), None);
}

#[test]
fn a_check_is_due_where_it_is_on_and_has_a_threshold_and_an_app() {
    let on = env_of(&[("BUGSEE_SIZE_CHECK_ENABLED", "1")]);
    let id = Some("com.x".to_string());
    assert!(is_due(&on, &thresholds(Some(1.0), None), &id));
    assert!(!is_due(&on, &thresholds(None, None), &id));
    assert!(!is_due(&on, &thresholds(Some(1.0), None), &None));
    assert!(!is_due(&Env::new(), &thresholds(Some(1.0), None), &id));
}

#[test]
fn a_percentage_beyond_all_bounds_is_still_shown() {
    assert_eq!(format_pct(bits(f64::INFINITY)), format!("{}%", i64::MAX));
    assert_eq!(format_pct(bits(f64::NEG_INFINITY)), format!("{}%", i64::MIN));
    assert_eq!(format_pct(bits(f64::NAN)), "NaN%");
    assert_eq!(format_pct(bits(1e300)), format!("{}%", i64::MAX));
    assert_eq!(format_pct(bits(-0.25)), "-0.2%");
    assert_eq!(format_pct(bits(0.35)), format!("{:.1}%", 0.35));
}

#[test]
fn sizes_are_shown_as_their_doubles_are() {
    for n in [1_023i64, 1_024, 1_075, 1_126, 5_767_168, 3_221_225_472, i64::MAX, i64::MIN] {
        let shown = format_bytes(n);
        let f = n as f64;
        let want = match n.unsigned_abs() {
            a if a < 1 << 10 => format!("{n} B"),
            a if a < 1 << 20 => format!("{:.1} KB", f / 1024.0),
            a if a < 1 << 30 => format!("{:.1} MB", f / 1048576.0),
            _ => format!("{:.2} GB", f / 1073741824.0),
        };
        assert_eq!(shown, want);
    }
}

#[test]
fn a_whole_line_is_as_expected() {
    let p = prepared(thresholds(Some(10.0), None), 1_048_576);
    let (v, line) = p.decide(1_310_720, growth(1_310_720, 1_048_576));
    assert_eq!(v, Verdict::Fail);
    assert!(line.contains("(+25%, +256.0 KB)"), "line: {line}");
}

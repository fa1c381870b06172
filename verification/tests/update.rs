use bugsee_cli::digest::{sha256_hex, to_hex};
use bugsee_cli::exit_code::ExitCode;
use bugsee_cli::update::{
    artifact_urls, attempt_action, binary_name, channel_url, checksum_matches, cmp_versions,
    components, decide_target, download_base, host_triple, is_fresh, is_throttled, major_of,
    parse_duration, parse_last_check, parse_sha256_sidecar, plan_update, published_triple,
    validate_version, UpdateAction, UpdateStep,
};
use std::cmp::Ordering;

#[test]
fn major_and_components_parse_leading_digits() {
    assert_eq!(major_of("0.5.0"), 0);
    assert_eq!(major_of("1.2.3"), 1);
    assert_eq!(major_of("10.0.0"), 10);
    assert_eq!(components("0.5.0-rc1"), vec![0, 5, 0, 0]);
    assert_eq!(components("1.2.3-4"), vec![1, 2, 3, 4]);
}

#[test]
fn cmp_versions_is_componentwise() {
    assert_eq!(cmp_versions("0.5.1", "0.5.0"), Ordering::Greater);
    assert_eq!(cmp_versions("0.6.0", "0.5.9"), Ordering::Greater);
    assert_eq!(cmp_versions("0.5.0", "0.5.0"), Ordering::Equal);
    assert_eq!(cmp_versions("0.5.0", "0.10.0"), Ordering::Less);
    assert_eq!(cmp_versions("0.5", "0.5.0"), Ordering::Equal);
}

#[test]
fn decide_target_only_advances_within_same_major() {
    assert_eq!(decide_target("0.5.0", "0.5.1").as_deref(), Some("0.5.1"));
    assert_eq!(decide_target("0.5.0", "0.6.0").as_deref(), Some("0.6.0"));
    assert_eq!(decide_target("0.5.0", "1.0.0"), None);
    assert_eq!(decide_target("1.2.0", "2.0.0"), None);
    assert_eq!(decide_target("0.5.0", "0.5.0"), None);
    assert_eq!(decide_target("0.5.1", "0.5.0"), None);
    assert_eq!(decide_target("1.0.0", "0.9.0"), None);
}

#[test]
fn channel_url_is_per_major() {
    assert_eq!(
        channel_url("https://d/cli", "0.5.0"),
        "https://d/cli/v0.x/version.txt"
    );
    assert_eq!(
        channel_url("https://d/cli", "3.7.2"),
        "https://d/cli/v3.x/version.txt"
    );
}

#[test]
fn artifact_urls_pick_ext_by_triple() {
    let (a, s) = artifact_urls("https://d/cli", "0.5.0", "aarch64-apple-darwin");
    assert_eq!(
        a,
        "https://d/cli/v0.5.0/bugsee-cli-aarch64-apple-darwin.tar.xz"
    );
    assert_eq!(s, format!("{a}.sha256"));
    let (w, _) = artifact_urls("https://d/cli", "0.5.0", "x86_64-pc-windows-msvc");
    assert!(w.ends_with(".zip"));
}

#[test]
fn validate_version_accepts_clean_and_rejects_dirty() {
    assert!(validate_version("0.5.0").is_ok());
    assert!(validate_version("10.20.30").is_ok());
    assert!(validate_version(" 0.5.0 ").is_ok());
    assert!(validate_version("0.5.0-rc1").is_ok());
    for bad in [
        "0.5",
        "latest",
        "../0.5.0",
        "0.5.0/../../etc",
        "0.5.x",
        "",
        "v0.5.0",
    ] {
        assert!(validate_version(bad).is_err(), "should reject {bad:?}");
    }
}

#[test]
fn host_triple_is_known_on_this_host() {
    assert!(host_triple("linux", "x86_64").is_some());
    assert_eq!(host_triple("macos", "aarch64"), Some("aarch64-apple-darwin"));
    assert_eq!(host_triple("windows", "x86_64"), Some("x86_64-pc-windows-msvc"));
    assert_eq!(host_triple("windows", "aarch64"), None);
}

#[test]
fn parse_sha256_sidecar_takes_first_token() {
    assert_eq!(
        parse_sha256_sidecar("abc123  bugsee-cli.tar.xz\n"),
        "abc123"
    );
    assert_eq!(parse_sha256_sidecar("deadBEEF *file"), "deadBEEF");
}

#[test]
fn parse_duration_understands_suffixes_and_bare_seconds() {
    assert_eq!(parse_duration("90").unwrap(), 90);
    assert_eq!(parse_duration("45s").unwrap(), 45);
    assert_eq!(parse_duration("30m").unwrap(), 1_800);
    assert_eq!(parse_duration("12h").unwrap(), 43_200);
    assert_eq!(parse_duration("2d").unwrap(), 172_800);
    assert!(parse_duration("12x").is_err());
    assert!(parse_duration("").is_err());
}

#[test]
fn is_fresh_only_for_a_recent_past_timestamp() {
    let now = 1_000_000;
    let ttl = 100;
    assert!(is_fresh(now - 50, now, ttl), "50s ago, ttl 100 → fresh");
    assert!(!is_fresh(now - 150, now, ttl), "150s ago, ttl 100 → stale");
    assert!(
        !is_fresh(now - ttl, now, ttl),
        "exactly ttl ago → stale (strict <)"
    );
    assert!(!is_fresh(0, now, ttl), "zero/never → stale");
    assert!(
        !is_fresh(now + 10, now, ttl),
        "future timestamp → distrusted/stale"
    );
}

#[test]
fn a_host_without_builds_is_refused() {
    let e = published_triple("plan9", "mips").unwrap_err();
    assert_eq!(e.exit_code(), ExitCode::ConfigInvalid);
    assert!(e.message().contains("(plan9/mips)"));
    assert_eq!(published_triple("linux", "x86_64").unwrap(), "x86_64-unknown-linux-gnu");
}

#[test]
fn a_mirror_is_taken_as_it_is() {
    let base = download_base(&Some("https://mirror.example/cli".to_string()));
    assert_eq!(base, "https://mirror.example/cli");
    assert_eq!(download_base(&None), download_base(&Some("".to_string())));
}

#[test]
fn binaries_are_named_by_host() {
    assert_eq!(binary_name("x86_64-pc-windows-msvc"), "bugsee-cli.exe");
    assert_eq!(binary_name("aarch64-apple-darwin"), "bugsee-cli");
}

#[test]
fn an_update_is_planned_by_the_latest_version() {
    let step = plan_update("0.5.0", &None, " 0.6.1\n", false, false).unwrap();
    assert_eq!(step, UpdateStep::Install("0.6.1".to_string()));
    let step = plan_update("0.5.0", &None, "1.0.0", false, true).unwrap();
    assert_eq!(step, UpdateStep::Report("1.0.0".to_string(), UpdateAction::UpToDate));
    let step = plan_update("0.5.0", &None, "0.6.1", true, false).unwrap();
    assert_eq!(step, UpdateStep::Report("0.6.1".to_string(), UpdateAction::Available));
    let e = plan_update("0.5.0", &None, "latest", false, false).unwrap_err();
    assert_eq!(e.message(), "input invalid: not a valid X.Y.Z version: \"latest\"");
}

#[test]
fn a_version_that_is_asked_for_may_cross_majors() {
    let wanted = Some("2.0.0".to_string());
    let step = plan_update("0.5.0", &wanted, "", false, false).unwrap();
    assert_eq!(step, UpdateStep::Install("2.0.0".to_string()));
    let same = Some("0.5.0".to_string());
    let step = plan_update("0.5.0", &same, "", false, false).unwrap();
    assert_eq!(step, UpdateStep::Report("0.5.0".to_string(), UpdateAction::UpToDate));
    let step = plan_update("0.5.0", &same, "", false, true).unwrap();
    assert_eq!(step, UpdateStep::Install("0.5.0".to_string()));
}

#[test]
fn a_check_is_throttled_while_the_last_one_is_fresh() {
    assert!(is_throttled(Some(100), Some(950), 1000));
    assert!(!is_throttled(Some(100), Some(900), 1000));
    assert!(!is_throttled(Some(100), None, 1000));
    assert!(!is_throttled(None, Some(950), 1000));
    assert_eq!(parse_last_check("950\n"), Some(950));
    assert_eq!(parse_last_check("soon"), None);
}

#[test]
fn a_throttled_update_lets_failures_pass() {
    assert_eq!(attempt_action(Some(100), true), Some(UpdateAction::Skipped));
    assert_eq!(attempt_action(Some(100), false), None);
    assert_eq!(attempt_action(None, true), None);
    assert_eq!(UpdateAction::Skipped.as_str(), "skipped");
    assert_eq!(UpdateAction::UpToDate.as_str(), "up-to-date");
}

#[test]
fn a_checksum_is_the_digest_of_the_bytes() {
    let digest = "ba7816bf8f01cfea414140de5dae2223b00361a396177a9cb410ff61f20015ad";
    assert_eq!(sha256_hex(b"abc"), digest);
    assert_eq!(to_hex(&[0x00, 0x0f, 0xff]), "000fff");
    assert!(checksum_matches(b"abc", &format!("{digest}  x.tar.xz\n")));
    assert!(checksum_matches(b"abc", &digest.to_uppercase()));
    assert!(!checksum_matches(b"abd", digest));
    assert!(!checksum_matches(b"abc", ""));
}

#[test]
fn versions_are_ordered_one_way() {
    assert_eq!(cmp_versions("0.5.0", "0.5.1"), Ordering::Less);
    assert_eq!(cmp_versions("0.5.1", "0.5.0"), Ordering::Greater);
}

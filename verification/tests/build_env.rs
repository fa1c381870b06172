use bugsee_cli::build_env::{
    all_digits, format_xcode_actual, local_hostname, normalise_dotted_three_parts,
    resolve_machine_label, resolve_xcode_version, strip_lead,
};
use bugsee_cli::env::{env_truthy, env_truthy_default_true, Env};

fn env_with(pairs: &[(&str, &str)]) -> Env {
    Env::from_pairs(
        pairs
            .iter()
            .map(|(k, v)| (k.to_string(), v.to_string()))
            .collect(),
    )
}

#[test]
fn format_xcode_actual_canonical_inputs() {
    assert_eq!(format_xcode_actual("1620"), "16.2.0");
    assert_eq!(format_xcode_actual("1543"), "15.4.3");
    assert_eq!(format_xcode_actual("800"), "8.0.0");
}

#[test]
fn format_xcode_actual_short_inputs_preserve_digits() {
    assert_eq!(format_xcode_actual("6"), "0.0.6");
    assert_eq!(format_xcode_actual("06"), "0.0.6");
    assert_eq!(format_xcode_actual("15"), "0.1.5");
    assert_eq!(format_xcode_actual(""), "0.0.0");
}

#[test]
fn normalise_dotted_pads_to_three_parts() {
    assert_eq!(normalise_dotted_three_parts("16.2"), "16.2.0");
    assert_eq!(normalise_dotted_three_parts("16"), "16.0.0");
    assert_eq!(normalise_dotted_three_parts("16.2.0"), "16.2.0");
    assert_eq!(normalise_dotted_three_parts("16.2.0.42"), "16.2.0");
}

#[test]
fn resolve_xcode_version_reads_env_var() {
    let actual = Some("1620".to_string());
    let stdout = Some("Xcode 15.4\nBuild version 15F31d\n".to_string());
    assert_eq!(resolve_xcode_version(&actual, &stdout).as_deref(), Some("16.2.0"));
    assert_eq!(resolve_xcode_version(&None, &stdout).as_deref(), Some("15.4.0"));
    assert_eq!(resolve_xcode_version(&None, &None), None);
}

#[test]
fn github_actions_with_runner_name() {
    let env = env_with(&[
        ("GITHUB_ACTIONS", "true"),
        ("RUNNER_NAME", "gh-runner-7"),
        ("CI", "true"),
    ]);
    assert_eq!(
        resolve_machine_label(&env, &None).as_deref(),
        Some("github-actions:gh-runner-7"),
    );
}

#[test]
fn github_actions_without_runner_name() {
    let env = env_with(&[("GITHUB_ACTIONS", "true")]);
    assert_eq!(
        resolve_machine_label(&env, &None).as_deref(),
        Some("github-actions"),
    );
}

#[test]
fn gitlab_prefers_runner_description_over_id() {
    let env = env_with(&[
        ("GITLAB_CI", "true"),
        ("CI_RUNNER_DESCRIPTION", "macos-arm64-pool"),
        ("CI_RUNNER_ID", "12345"),
    ]);
    assert_eq!(
        resolve_machine_label(&env, &None).as_deref(),
        Some("gitlab-ci:macos-arm64-pool"),
    );
}

#[test]
fn gitlab_falls_back_to_runner_id() {
    let env = env_with(&[
        ("GITLAB_CI", "true"),
        ("CI_RUNNER_ID", "12345"),
    ]);
    assert_eq!(
        resolve_machine_label(&env, &None).as_deref(),
        Some("gitlab-ci:12345"),
    );
}

#[test]
fn jenkins_uses_node_name() {
    let env = env_with(&[
        ("JENKINS_URL", "https://jenkins.example.com"),
        ("NODE_NAME", "mac-build-agent"),
    ]);
    assert_eq!(
        resolve_machine_label(&env, &None).as_deref(),
        Some("jenkins:mac-build-agent"),
    );
}

#[test]
fn circleci_uses_node_index() {
    let env = env_with(&[("CIRCLECI", "true"), ("CIRCLE_NODE_INDEX", "0")]);
    assert_eq!(
        resolve_machine_label(&env, &None).as_deref(),
        Some("circleci:0"),
    );
}

#[test]
fn bitrise_uses_app_slug() {
    let env = env_with(&[
        ("BITRISE_IO", "true"),
        ("BITRISE_APP_SLUG", "abc123def456"),
    ]);
    assert_eq!(
        resolve_machine_label(&env, &None).as_deref(),
        Some("bitrise:abc123def456"),
    );
}

#[test]
fn xcode_cloud_uses_workflow_name() {
    let env = env_with(&[
        ("CI_WORKFLOW", "Release Archive"),
        ("CI", "true"),
    ]);
    assert_eq!(
        resolve_machine_label(&env, &None).as_deref(),
        Some("xcode-cloud:Release Archive"),
    );
}

#[test]
fn generic_ci_uses_hostname_from_env() {
    let env = env_with(&[("CI", "true"), ("HOSTNAME", "ci-runner-42")]);
    assert_eq!(
        resolve_machine_label(&env, &None).as_deref(),
        Some("ci:ci-runner-42"),
    );
}

#[test]
fn no_provider_returns_local_hostname_or_none() {
    let env = Env::new();
    let label = resolve_machine_label(&env, &local_hostname(&Some("build-mac\n".to_string())));
    assert_eq!(label.as_deref(), Some("build-mac"));
    assert_eq!(resolve_machine_label(&env, &None), None);
    if let Some(l) = label {
        assert!(!l.starts_with("github-actions"));
        assert!(!l.starts_with("gitlab-ci"));
        assert!(!l.starts_with("ci:"));
    }
}

#[test]
fn build_env_env_truthy_canonical_tokens() {
    for tok in &["1", "true", "yes", "on", "TRUE"] {
        assert!(env_truthy(Some(&tok.to_string())), "expected: {:?}", tok);
    }
}

#[test]
fn build_env_env_truthy_falsy_tokens() {
    for tok in &["", "0", "false", "off"] {
        assert!(!env_truthy(Some(&tok.to_string())), "expected falsy: {:?}", tok);
    }
    assert!(!env_truthy(None));
}

#[test]
fn leading_zeros_and_digits_are_told_apart() {
    assert_eq!(strip_lead("007"), "7");
    assert_eq!(strip_lead("00"), "0");
    assert!(all_digits("1620"));
    assert!(!all_digits("16.2"));
    assert!(!all_digits(""));
}

#[test]
fn three_parts_stay_three_parts() {
    let once = normalise_dotted_three_parts("16.2");
    assert_eq!(normalise_dotted_three_parts(&once), once);
}

#[test]
fn a_hostname_is_trimmed_and_must_not_be_blank() {
    assert_eq!(local_hostname(&Some("  mac-1 \n".to_string())).as_deref(), Some("mac-1"));
    assert_eq!(local_hostname(&Some(" \n".to_string())), None);
    assert_eq!(local_hostname(&None), None);
}

#[test]
fn what_is_on_by_default_is_left_on_by_a_blank() {
    assert!(env_truthy_default_true(None));
    assert!(env_truthy_default_true(Some(&"  ".to_string())));
    assert!(env_truthy_default_true(Some(&"Yes".to_string())));
    assert!(!env_truthy_default_true(Some(&"0".to_string())));
}

#[test]
fn a_variable_that_is_set_is_read_back() {
    let mut env = env_with(&[("A", "1"), ("B", " x ")]);
    env.set("A", "2");
    assert_eq!(env.get("A").map(|s| s.as_str()), Some("2"));
    assert_eq!(env.get("C"), None);
    assert_eq!(env.trimmed("B"), "x");
    assert_eq!(env.trimmed("C"), "");
    assert_eq!(env.nonblank("B").as_deref(), Some("x"));
    assert_eq!(env.nonblank("C"), None);
}

use bugsee_cli::env::{env_truthy, Env};
use bugsee_cli::vcs_metadata::{
    git_fallback, parse_github_pull_ref, resolve, set_if_present, set_if_present_raw, VcsMetadata,
};

fn env_with(pairs: &[(&str, &str)]) -> Env {
    Env::from_pairs(
        pairs
            .iter()
            .map(|(k, v)| (k.to_string(), v.to_string()))
            .collect(),
    )
}

#[test]
fn vcs_metadata_env_truthy_canonical_tokens() {
    for tok in &["1", "true", "yes", "on", "TRUE", "YES", "  on  "] {
        assert!(
            env_truthy(Some(&tok.to_string())),
            "expected truthy: {:?}",
            tok
        );
    }
}

#[test]
fn vcs_metadata_env_truthy_falsy_tokens() {
    for tok in &["", "   ", "0", "false", "no", "off", "maybe"] {
        assert!(
            !env_truthy(Some(&tok.to_string())),
            "expected falsy: {:?}",
            tok
        );
    }
    assert!(!env_truthy(None));
}

#[test]
fn github_actions_push_event() {
    let env = env_with(&[
        ("GITHUB_ACTIONS", "true"),
        ("GITHUB_SHA", "abc123def456"),
        ("GITHUB_REPOSITORY", "org/repo"),
        ("GITHUB_REF", "refs/heads/master"),
        ("GITHUB_EVENT_NAME", "push"),
    ]);
    let m = resolve(&env, &None);
    assert_eq!(m.provider, Some("github"));
    assert_eq!(m.commit_sha.as_deref(), Some("abc123def456"));
    assert_eq!(m.repo.as_deref(), Some("org/repo"));
    assert_eq!(m.branch.as_deref(), Some("master"));
    assert_eq!(m.pr_number, None);
    assert_eq!(m.base_branch, None);
}

#[test]
fn github_actions_tag_push_leaves_branch_absent() {
    let env = env_with(&[
        ("GITHUB_ACTIONS", "true"),
        ("GITHUB_SHA", "tag-sha"),
        ("GITHUB_REPOSITORY", "org/repo"),
        ("GITHUB_REF", "refs/tags/v1.0.0"),
        ("GITHUB_EVENT_NAME", "push"),
    ]);
    let m = resolve(&env, &None);
    assert_eq!(m.provider, Some("github"));
    assert_eq!(m.commit_sha.as_deref(), Some("tag-sha"));
    assert_eq!(
        m.branch, None,
        "tag-pushed branch must be None, not the literal ref string",
    );
}

#[test]
fn github_actions_pull_request_event() {
    let env = env_with(&[
        ("GITHUB_ACTIONS", "true"),
        ("GITHUB_SHA", "pr-sha"),
        ("GITHUB_REPOSITORY", "org/repo"),
        ("GITHUB_HEAD_REF", "feature/x"),
        ("GITHUB_BASE_REF", "main"),
        ("GITHUB_REF", "refs/pull/42/merge"),
        ("GITHUB_EVENT_NAME", "pull_request"),
    ]);
    let m = resolve(&env, &None);
    assert_eq!(m.provider, Some("github"));
    assert_eq!(m.commit_sha.as_deref(), Some("pr-sha"));
    assert_eq!(m.branch.as_deref(), Some("feature/x"));
    assert_eq!(m.base_branch.as_deref(), Some("main"));
    assert_eq!(m.pr_number, Some(42));
}

#[test]
fn gitlab_merge_request_pipeline() {
    let env = env_with(&[
        ("GITLAB_CI", "true"),
        ("CI_COMMIT_SHA", "gl-sha"),
        ("CI_PROJECT_PATH", "group/project"),
        ("CI_MERGE_REQUEST_IID", "7"),
        ("CI_MERGE_REQUEST_SOURCE_BRANCH_NAME", "feat/foo"),
        ("CI_MERGE_REQUEST_TARGET_BRANCH_NAME", "develop"),
    ]);
    let m = resolve(&env, &None);
    assert_eq!(m.provider, Some("gitlab"));
    assert_eq!(m.commit_sha.as_deref(), Some("gl-sha"));
    assert_eq!(m.repo.as_deref(), Some("group/project"));
    assert_eq!(m.branch.as_deref(), Some("feat/foo"));
    assert_eq!(m.base_branch.as_deref(), Some("develop"));
    assert_eq!(m.pr_number, Some(7));
}

#[test]
fn gitlab_push_pipeline() {
    let env = env_with(&[
        ("GITLAB_CI", "true"),
        ("CI_COMMIT_SHA", "gl-push-sha"),
        ("CI_COMMIT_REF_NAME", "master"),
    ]);
    let m = resolve(&env, &None);
    assert_eq!(m.provider, Some("gitlab"));
    assert_eq!(m.commit_sha.as_deref(), Some("gl-push-sha"));
    assert_eq!(m.branch.as_deref(), Some("master"));
    assert_eq!(m.pr_number, None);
    assert_eq!(m.base_branch, None);
}

#[test]
fn bitbucket_pr_pipeline() {
    let env = env_with(&[
        ("BITBUCKET_BUILD_NUMBER", "42"),
        ("BITBUCKET_COMMIT", "bb-sha"),
        ("BITBUCKET_REPO_FULL_NAME", "team/repo"),
        ("BITBUCKET_BRANCH", "feature/x"),
        ("BITBUCKET_PR_ID", "99"),
        ("BITBUCKET_PR_DESTINATION_BRANCH", "master"),
    ]);
    let m = resolve(&env, &None);
    assert_eq!(m.provider, Some("bitbucket"));
    assert_eq!(m.commit_sha.as_deref(), Some("bb-sha"));
    assert_eq!(m.repo.as_deref(), Some("team/repo"));
    assert_eq!(m.branch.as_deref(), Some("feature/x"));
    assert_eq!(m.base_branch.as_deref(), Some("master"));
    assert_eq!(m.pr_number, Some(99));
}

#[test]
fn git_fallback_in_real_repo() {
    let sha = "0123456789abcdef0123456789abcdef01234567";
    let env = Env::new();
    let m = resolve(&env, &Some(format!("{sha}\nmain\n")));
    assert!(m.commit_sha.is_some());
    assert_eq!(m.commit_sha.as_ref().unwrap().len(), 40);
    assert_eq!(m.branch.as_deref(), Some("main"));
    assert_eq!(m.provider, None);
}

#[test]
fn git_fallback_omits_branch_when_head_is_detached() {
    let sha = "0123456789abcdef0123456789abcdef01234567";
    let env = Env::new();
    let m = resolve(&env, &Some(format!("{sha}\nHEAD\n")));
    assert_eq!(m.commit_sha.as_ref().unwrap().len(), 40);
    assert_eq!(
        m.branch, None,
        "detached HEAD must produce branch=None, not literal HEAD",
    );
}

#[test]
fn git_fallback_empty_for_nonexistent_dir() {
    let env = Env::new();
    let m = resolve(&env, &None);
    assert_eq!(m, VcsMetadata::default());
}

#[test]
fn git_fallback_empty_for_non_git_dir() {
    assert_eq!(git_fallback(&None), VcsMetadata::default());
    assert_eq!(git_fallback(&Some("".to_string())), VcsMetadata::default());
}

#[test]
fn parse_github_pull_ref_canonical_form() {
    assert_eq!(parse_github_pull_ref("refs/pull/42/merge"), Some(42));
    assert_eq!(parse_github_pull_ref("refs/pull/9999/head"), Some(9999));
}

#[test]
fn parse_github_pull_ref_rejects_non_pull_refs() {
    assert_eq!(parse_github_pull_ref("refs/heads/main"), None);
    assert_eq!(parse_github_pull_ref(""), None);
    assert_eq!(parse_github_pull_ref("refs/pull/notanumber/merge"), None);
}

#[test]
fn set_if_present_skips_empty_and_whitespace() {
    let mut dest: Option<String> = None;
    set_if_present(&mut dest, Some(&"".to_string()));
    set_if_present(&mut dest, Some(&"   ".to_string()));
    assert_eq!(dest, None);
    set_if_present(&mut dest, Some(&"value".to_string()));
    assert_eq!(dest.as_deref(), Some("value"));
    set_if_present(&mut dest, Some(&"  trimmed  ".to_string()));
    assert_eq!(dest.as_deref(), Some("trimmed"));
}

#[test]
fn a_raw_value_is_set_where_it_is_not_blank() {
    let mut dest: Option<String> = None;
    set_if_present_raw(&mut dest, Some(" "));
    set_if_present_raw(&mut dest, None);
    assert_eq!(dest, None);
    set_if_present_raw(&mut dest, Some(" x "));
    assert_eq!(dest.as_deref(), Some("x"));
}

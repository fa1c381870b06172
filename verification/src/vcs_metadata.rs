//! Which commit, branch and pull request a build belongs to, as the CI provider
//! tells it or else `git`.
use crate::env::{Env, env_truthy, lookup, nonblank, truthy};
use crate::numeral::{decimal, law_numbers_are_read_as_written, natural_value, parse_u64};
use crate::text::{
    before, has_prefix, law_before_the_first, law_prefixes_and_suffixes,
    law_trimming_takes_the_ends, lemma_pieces_append, lemma_pieces_single, line_seq, lines,
    opt_ref, opt_str, pieces, str_eq, strip_prefix, strs, take_before, trim, trimmed,
};
use vstd::prelude::*;
use vstd::string::*;

verus! {

/// The arguments of `vcs-metadata`.
#[derive(Debug)]
pub struct VcsMetadataArgs {
    pub working_dir: Option<String>,
}

/// Where a build comes from. What is unknown is absent.
#[derive(Debug, Clone, PartialEq, Eq)]
pub struct VcsMetadata {
    pub provider: Option<&'static str>,
    pub commit_sha: Option<String>,
    pub base_sha: Option<String>,
    pub branch: Option<String>,
    pub base_branch: Option<String>,
    pub pr_number: Option<u64>,
    pub repo: Option<String>,
}

/// Where a build comes from, as text and numbers.
pub struct Vcs {
    pub provider: Option<Seq<char>>,
    pub commit_sha: Option<Seq<char>>,
    pub base_sha: Option<Seq<char>>,
    pub branch: Option<Seq<char>>,
    pub base_branch: Option<Seq<char>>,
    pub pr_number: Option<nat>,
    pub repo: Option<Seq<char>>,
}

impl View for VcsMetadata {
    type V = Vcs;

    open spec fn view(&self) -> Vcs {
        Vcs {
            provider: match self.provider {
                Some(p) => Some(p@),
                None => None,
            },
            commit_sha: opt_str(self.commit_sha),
            base_sha: opt_str(self.base_sha),
            branch: opt_str(self.branch),
            base_branch: opt_str(self.base_branch),
            pr_number: match self.pr_number {
                Some(n) => Some(n as nat),
                None => None,
            },
            repo: opt_str(self.repo),
        }
    }
}

pub open spec fn no_vcs() -> Vcs {
    Vcs {
        provider: None,
        commit_sha: None,
        base_sha: None,
        branch: None,
        base_branch: None,
        pr_number: None,
        repo: None,
    }
}

impl Default for VcsMetadata {
    fn default() -> (r: VcsMetadata)
        ensures
            r@ == no_vcs(),
    {
        VcsMetadata {
            provider: None,
            commit_sha: None,
            base_sha: None,
            branch: None,
            base_branch: None,
            pr_number: None,
            repo: None,
        }
    }
}

/// A decimal number that fits 64 bits.
pub open spec fn small_number(s: Seq<char>) -> Option<nat> {
    match natural_value(s, 10) {
        Some(n) if n <= u64::MAX => Some(n),
        _ => None,
    }
}

/// The number of the pull request that a ref `refs/pull/<n>/…` names.
pub open spec fn pull_ref_number(refs: Seq<char>) -> Option<nat> {
    if has_prefix(refs, "refs/pull/"@) {
        small_number(before(refs.skip("refs/pull/"@.len() as int), '/'))
    } else {
        None
    }
}

/// The branch that a ref `refs/heads/<branch>` names.
pub open spec fn head_ref_branch(refs: Option<Seq<char>>) -> Option<Seq<char>> {
    if refs is Some && has_prefix(refs->0, "refs/heads/"@) {
        nonblank(Some(refs->0.skip("refs/heads/"@.len() as int)))
    } else {
        None
    }
}

pub open spec fn var(m: Map<Seq<char>, Seq<char>>, k: Seq<char>) -> Option<Seq<char>> {
    nonblank(lookup(m, k))
}

/// GitHub Actions: a pull request has its branches and number, a push the branch
/// that was pushed to, and a tag no branch.
pub open spec fn github_vcs(m: Map<Seq<char>, Seq<char>>) -> Vcs {
    let base = Vcs {
        provider: Some("github"@),
        commit_sha: var(m, "GITHUB_SHA"@),
        repo: var(m, "GITHUB_REPOSITORY"@),
        ..no_vcs()
    };
    if lookup(m, "GITHUB_EVENT_NAME"@) == Some("pull_request"@) {
        Vcs {
            branch: var(m, "GITHUB_HEAD_REF"@),
            base_branch: var(m, "GITHUB_BASE_REF"@),
            pr_number: match lookup(m, "GITHUB_REF"@) {
                Some(r) => pull_ref_number(r),
                None => None,
            },
            ..base
        }
    } else {
        Vcs { branch: head_ref_branch(lookup(m, "GITHUB_REF"@)), ..base }
    }
}

/// GitLab CI: a merge request has its branches and number; otherwise the branch,
/// which a tag pipeline does not have.
pub open spec fn gitlab_vcs(m: Map<Seq<char>, Seq<char>>) -> Vcs {
    let base = Vcs {
        provider: Some("gitlab"@),
        commit_sha: var(m, "CI_COMMIT_SHA"@),
        repo: var(m, "CI_PROJECT_PATH"@),
        ..no_vcs()
    };
    match var(m, "CI_MERGE_REQUEST_IID"@) {
        Some(iid) => Vcs {
            branch: var(m, "CI_MERGE_REQUEST_SOURCE_BRANCH_NAME"@),
            base_branch: var(m, "CI_MERGE_REQUEST_TARGET_BRANCH_NAME"@),
            pr_number: small_number(iid),
            ..base
        },
        None => Vcs {
            branch: if var(m, "CI_COMMIT_BRANCH"@) is Some {
                var(m, "CI_COMMIT_BRANCH"@)
            } else if var(m, "CI_COMMIT_TAG"@) is Some {
                None
            } else {
                var(m, "CI_COMMIT_REF_NAME"@)
            },
            ..base
        },
    }
}

/// Bitbucket Pipelines: the full name of the repository comes before its slug.
pub open spec fn bitbucket_vcs(m: Map<Seq<char>, Seq<char>>) -> Vcs {
    let base = Vcs {
        provider: Some("bitbucket"@),
        commit_sha: var(m, "BITBUCKET_COMMIT"@),
        repo: if lookup(m, "BITBUCKET_REPO_FULL_NAME"@) is Some {
            var(m, "BITBUCKET_REPO_FULL_NAME"@)
        } else {
            var(m, "BITBUCKET_REPO_SLUG"@)
        },
        branch: var(m, "BITBUCKET_BRANCH"@),
        ..no_vcs()
    };
    match var(m, "BITBUCKET_PR_ID"@) {
        Some(id) => Vcs {
            base_branch: var(m, "BITBUCKET_PR_DESTINATION_BRANCH"@),
            pr_number: small_number(id),
            ..base
        },
        None => base,
    }
}

/// What `git rev-parse` printed: the commit, then the branch. A detached head has
/// no branch.
pub open spec fn git_vcs(stdout: Option<Seq<char>>) -> Vcs {
    match stdout {
        None => no_vcs(),
        Some(text) => {
            let ls = line_seq(trimmed(text));
            let commit = if ls.len() > 0 {
                nonblank(Some(ls[0]))
            } else {
                None
            };
            let branch = if ls.len() > 1 {
                nonblank(Some(ls[1]))
            } else {
                None
            };
            Vcs {
                commit_sha: commit,
                branch: if branch == Some("HEAD"@) {
                    None
                } else {
                    branch
                },
                ..no_vcs()
            }
        },
    }
}

/// Where a build comes from: the first provider whose sign is set tells it, or
/// else `git`.
pub open spec fn vcs_of(m: Map<Seq<char>, Seq<char>>, git: Option<Seq<char>>) -> Vcs {
    if truthy(lookup(m, "GITHUB_ACTIONS"@)) {
        github_vcs(m)
    } else if truthy(lookup(m, "GITLAB_CI"@)) {
        gitlab_vcs(m)
    } else if var(m, "BITBUCKET_BUILD_NUMBER"@) is Some {
        bitbucket_vcs(m)
    } else {
        git_vcs(git)
    }
}

/// Sets `dest` to the trimmed value, unless that is empty or there is none.
pub fn set_if_present(dest: &mut Option<String>, value: Option<&String>)
    ensures
        opt_str(*final(dest)) == if nonblank(opt_ref(value)) is Some {
            nonblank(opt_ref(value))
        } else {
            opt_str(*old(dest))
        },
{
    match value {
        Some(v) => set_if_present_raw(dest, Some(v.as_str())),
        None => {},
    }
}

pub open spec fn opt_slice(o: Option<&str>) -> Option<Seq<char>> {
    match o {
        Some(s) => Some(s@),
        None => None,
    }
}

/// Sets `dest` to the trimmed value, unless that is empty or there is none.
pub fn set_if_present_raw(dest: &mut Option<String>, value: Option<&str>)
    ensures
        opt_str(*final(dest)) == if nonblank(opt_slice(value)) is Some {
            nonblank(opt_slice(value))
        } else {
            opt_str(*old(dest))
        },
{
    match value {
        Some(v) => {
            let t = trim(v);
            if !t.as_str().is_empty() {
                *dest = Some(t);
            }
        },
        None => {},
    }
}

pub open spec fn opt_nat(o: Option<u64>) -> Option<nat> {
    match o {
        Some(n) => Some(n as nat),
        None => None,
    }
}

/// The number of the pull request that a ref `refs/pull/<n>/…` names.
pub fn parse_github_pull_ref(refs: &str) -> (r: Option<u64>)
    ensures
        opt_nat(r) == pull_ref_number(refs@),
{
    match strip_prefix(refs, "refs/pull/") {
        Some(rest) => {
            let n = take_before(rest.as_str(), '/');
            parse_u64(n.as_str())
        },
        None => None,
    }
}

fn resolve_github(env: &Env) -> (r: VcsMetadata)
    ensures
        r@ == github_vcs(env@),
{
    let mut out = VcsMetadata::default();
    out.provider = Some("github");
    out.commit_sha = env.nonblank("GITHUB_SHA");
    out.repo = env.nonblank("GITHUB_REPOSITORY");
    let is_pull = match env.get("GITHUB_EVENT_NAME") {
        Some(e) => str_eq(e.as_str(), "pull_request"),
        None => false,
    };
    if is_pull {
        out.branch = env.nonblank("GITHUB_HEAD_REF");
        out.base_branch = env.nonblank("GITHUB_BASE_REF");
        out.pr_number =
        match env.get("GITHUB_REF") {
            Some(r) => parse_github_pull_ref(r.as_str()),
            None => None,
        };
    } else {
        match env.get("GITHUB_REF") {
            Some(r) => match strip_prefix(r.as_str(), "refs/heads/") {
                Some(b) => {
                    let mut branch: Option<String> = None;
                    set_if_present_raw(&mut branch, Some(b.as_str()));
                    out.branch = branch;
                },
                None => {},
            },
            None => {},
        }
    }
    out
}

fn resolve_gitlab(env: &Env) -> (r: VcsMetadata)
    ensures
        r@ == gitlab_vcs(env@),
{
    let mut out = VcsMetadata::default();
    out.provider = Some("gitlab");
    out.commit_sha = env.nonblank("CI_COMMIT_SHA");
    out.repo = env.nonblank("CI_PROJECT_PATH");
    match env.nonblank("CI_MERGE_REQUEST_IID") {
        Some(iid) => {
            out.branch = env.nonblank("CI_MERGE_REQUEST_SOURCE_BRANCH_NAME");
            out.base_branch = env.nonblank("CI_MERGE_REQUEST_TARGET_BRANCH_NAME");
            out.pr_number = parse_u64(iid.as_str());
        },
        None => {
            let branch = env.nonblank("CI_COMMIT_BRANCH");
            if branch.is_some() {
                out.branch = branch;
            } else if env.nonblank("CI_COMMIT_TAG").is_none() {
                out.branch = env.nonblank("CI_COMMIT_REF_NAME");
            }
        },
    }
    out
}

fn resolve_bitbucket(env: &Env) -> (r: VcsMetadata)
    ensures
        r@ == bitbucket_vcs(env@),
{
    let mut out = VcsMetadata::default();
    out.provider = Some("bitbucket");
    out.commit_sha = env.nonblank("BITBUCKET_COMMIT");
    out.repo =
    if env.get("BITBUCKET_REPO_FULL_NAME").is_some() {
        env.nonblank("BITBUCKET_REPO_FULL_NAME")
    } else {
        env.nonblank("BITBUCKET_REPO_SLUG")
    };
    out.branch = env.nonblank("BITBUCKET_BRANCH");
    match env.nonblank("BITBUCKET_PR_ID") {
        Some(id) => {
            out.base_branch = env.nonblank("BITBUCKET_PR_DESTINATION_BRANCH");
            out.pr_number = parse_u64(id.as_str());
        },
        None => {},
    }
    out
}

/// What `git` tells, given what `git rev-parse HEAD --abbrev-ref HEAD` printed,
/// where it could be run and succeeded.
pub fn git_fallback(stdout: &Option<String>) -> (r: VcsMetadata)
    ensures
        r@ == git_vcs(opt_str(*stdout)),
{
    let mut out = VcsMetadata::default();
    match stdout {
        None => {},
        Some(text) => {
            let t = trim(text.as_str());
            let ls = lines(t.as_str());
            proof {
                assert forall|i: int| 0 <= i < ls@.len() implies strs(ls@)[i] == (
                #[trigger] ls@[i])@ by {}
            }
            if ls.len() > 0 {
                let mut commit: Option<String> = None;
                set_if_present(&mut commit, Some(&ls[0]));
                out.commit_sha = commit;
            }
            if ls.len() > 1 {
                let mut branch: Option<String> = None;
                set_if_present(&mut branch, Some(&ls[1]));
                match branch {
                    Some(b) => {
                        if !str_eq(b.as_str(), "HEAD") {
                            out.branch = Some(b);
                        }
                    },
                    None => {},
                }
            }
        },
    }
    out
}

/// Where a build comes from. `git` is what `git rev-parse HEAD --abbrev-ref HEAD`
/// printed in the working directory, where it could be run and succeeded.
pub fn resolve(env: &Env, git: &Option<String>) -> (r: VcsMetadata)
    ensures
        r@ == vcs_of(env@, opt_str(*git)),
        ({
            let v = vcs_of(env@, opt_str(*git));
            &&& r.provider is Some <==> v.provider is Some
            &&& r.provider is Some ==> r.provider->0@ == v.provider->0
            &&& opt_str(r.commit_sha) == v.commit_sha
            &&& opt_str(r.base_sha) == v.base_sha
            &&& opt_str(r.branch) == v.branch
            &&& opt_str(r.base_branch) == v.base_branch
            &&& r.pr_number is Some <==> v.pr_number is Some
            &&& r.pr_number is Some ==> r.pr_number->0 == v.pr_number->0
            &&& opt_str(r.repo) == v.repo
        }),
{
    if env_truthy(env.get("GITHUB_ACTIONS")) {
        return resolve_github(env);
    }
    if env_truthy(env.get("GITLAB_CI")) {
        return resolve_gitlab(env);
    }
    if env.nonblank("BITBUCKET_BUILD_NUMBER").is_some() {
        return resolve_bitbucket(env);
    }
    git_fallback(git)
}

/// A push on GitHub carries neither a pull request nor a base branch, and a push
/// of anything but a branch carries no branch.
pub proof fn law_push_is_no_pull_request(m: Map<Seq<char>, Seq<char>>, git: Option<Seq<char>>)
    requires
        truthy(lookup(m, "GITHUB_ACTIONS"@)),
        lookup(m, "GITHUB_EVENT_NAME"@) != Some("pull_request"@),
    ensures
        vcs_of(m, git).pr_number is None,
        vcs_of(m, git).base_branch is None,
        lookup(m, "GITHUB_REF"@) is Some && !has_prefix(
            lookup(m, "GITHUB_REF"@)->0,
            "refs/heads/"@,
        ) ==> vcs_of(m, git).branch is None,
{
}

/// What `git` tells is used only where no provider is recognised, and then names
/// neither a provider nor a repository.
pub proof fn law_git_tells_commit_and_branch_only(
    m: Map<Seq<char>, Seq<char>>,
    git: Option<Seq<char>>,
    other: Option<Seq<char>>,
)
    ensures
        vcs_of(m, git).provider is Some ==> vcs_of(m, git) == vcs_of(m, other),
        vcs_of(m, git).provider is None ==> {
            &&& vcs_of(m, git).repo is None
            &&& vcs_of(m, git).base_branch is None
            &&& vcs_of(m, git).pr_number is None
            &&& vcs_of(m, git).branch != Some("HEAD"@)
        },
        vcs_of(m, git).base_sha is None,
{
}

/// A variable is told as its value without the white space around it, where anything is
/// left.
pub proof fn law_variables_are_told_trimmed(m: Map<Seq<char>, Seq<char>>, k: Seq<char>)
    ensures
        m.dom().contains(k) && trimmed(m[k]).len() > 0 ==> var(m, k) == Some(trimmed(m[k])),
        !m.dom().contains(k) || trimmed(m[k]).len() == 0 ==> var(m, k) is None,
{
}

/// On GitHub a pull request is told with its own branch, the branch that it goes to and its
/// number, which the ref names.
pub proof fn law_github_pull_requests(
    m: Map<Seq<char>, Seq<char>>,
    git: Option<Seq<char>>,
    n: nat,
    rest: Seq<char>,
)
    requires
        m.dom().contains("GITHUB_ACTIONS"@),
        truthy(Some(m["GITHUB_ACTIONS"@])),
        m.dom().contains("GITHUB_EVENT_NAME"@),
        m["GITHUB_EVENT_NAME"@] == "pull_request"@,
    ensures
        vcs_of(m, git).provider == Some("github"@),
        vcs_of(m, git).commit_sha == var(m, "GITHUB_SHA"@),
        vcs_of(m, git).repo == var(m, "GITHUB_REPOSITORY"@),
        vcs_of(m, git).branch == var(m, "GITHUB_HEAD_REF"@),
        vcs_of(m, git).base_branch == var(m, "GITHUB_BASE_REF"@),
        !m.dom().contains("GITHUB_REF"@) ==> vcs_of(m, git).pr_number is None,
        n <= u64::MAX && m.dom().contains("GITHUB_REF"@) && m["GITHUB_REF"@] == "refs/pull/"@
            + decimal(n) + "/"@ + rest ==> vcs_of(m, git).pr_number == Some(n),
        m.dom().contains("GITHUB_REF"@) && !has_prefix(m["GITHUB_REF"@], "refs/pull/"@)
            ==> vcs_of(m, git).pr_number is None,
{
    reveal_strlit("refs/pull/");
    reveal_strlit("/");
    let p = "refs/pull/"@;
    let refs = p + decimal(n) + "/"@ + rest;
    law_numbers_are_read_as_written(n);
    law_prefixes_and_suffixes(p, decimal(n) + "/"@ + rest);
    assert(refs =~= p + (decimal(n) + "/"@ + rest));
    assert("/"@ =~= seq!['/']);
    assert(refs.skip(p.len() as int) =~= decimal(n) + seq!['/'] + rest);
    assert(!decimal(n).contains('/'));
    law_before_the_first(decimal(n), '/', rest);
}

/// On GitHub anything but a pull request is told with the branch that the ref names, and
/// with no branch where it names none.
pub proof fn law_github_pushes(
    m: Map<Seq<char>, Seq<char>>,
    git: Option<Seq<char>>,
    name: Seq<char>,
)
    requires
        m.dom().contains("GITHUB_ACTIONS"@),
        truthy(Some(m["GITHUB_ACTIONS"@])),
        !m.dom().contains("GITHUB_EVENT_NAME"@) || m["GITHUB_EVENT_NAME"@] != "pull_request"@,
    ensures
        vcs_of(m, git).provider == Some("github"@),
        vcs_of(m, git).commit_sha == var(m, "GITHUB_SHA"@),
        vcs_of(m, git).repo == var(m, "GITHUB_REPOSITORY"@),
        vcs_of(m, git).base_branch is None,
        vcs_of(m, git).pr_number is None,
        m.dom().contains("GITHUB_REF"@) && m["GITHUB_REF"@] == "refs/heads/"@ + name && trimmed(
            name,
        ).len() > 0 ==> vcs_of(m, git).branch == Some(trimmed(name)),
        !m.dom().contains("GITHUB_REF"@) ==> vcs_of(m, git).branch is None,
        m.dom().contains("GITHUB_REF"@) && m["GITHUB_REF"@] == "refs/tags/"@ + name ==> vcs_of(
            m,
            git,
        ).branch is None,
{
    reveal_strlit("refs/heads/");
    reveal_strlit("refs/tags/");
    let p = "refs/heads/"@;
    law_prefixes_and_suffixes(p, name);
    assert((p + name).skip(p.len() as int) =~= name);
    let t = "refs/tags/"@ + name;
    assert(t[5] == 't');
    assert(has_prefix(t, p) ==> t.take(p.len() as int)[5] == p[5]);
}

/// On GitLab a merge request is told with its two branches and its number.
pub proof fn law_gitlab_merge_requests(
    m: Map<Seq<char>, Seq<char>>,
    git: Option<Seq<char>>,
    n: nat,
)
    requires
        !truthy(lookup(m, "GITHUB_ACTIONS"@)),
        m.dom().contains("GITLAB_CI"@),
        truthy(Some(m["GITLAB_CI"@])),
        m.dom().contains("CI_MERGE_REQUEST_IID"@),
        trimmed(m["CI_MERGE_REQUEST_IID"@]).len() > 0,
    ensures
        vcs_of(m, git).provider == Some("gitlab"@),
        vcs_of(m, git).commit_sha == var(m, "CI_COMMIT_SHA"@),
        vcs_of(m, git).repo == var(m, "CI_PROJECT_PATH"@),
        vcs_of(m, git).branch == var(m, "CI_MERGE_REQUEST_SOURCE_BRANCH_NAME"@),
        vcs_of(m, git).base_branch == var(m, "CI_MERGE_REQUEST_TARGET_BRANCH_NAME"@),
        n <= u64::MAX && trimmed(m["CI_MERGE_REQUEST_IID"@]) == decimal(n) ==> vcs_of(
            m,
            git,
        ).pr_number == Some(n),
{
    law_numbers_are_read_as_written(n);
}

/// On GitLab a branch pipeline is told with its branch, whatever else is set; a tag pipeline
/// has none; and where neither is named the name of the ref stands in.
pub proof fn law_gitlab_pipelines(m: Map<Seq<char>, Seq<char>>, git: Option<Seq<char>>)
    requires
        !truthy(lookup(m, "GITHUB_ACTIONS"@)),
        m.dom().contains("GITLAB_CI"@),
        truthy(Some(m["GITLAB_CI"@])),
        !m.dom().contains("CI_MERGE_REQUEST_IID"@) || trimmed(m["CI_MERGE_REQUEST_IID"@]).len()
            == 0,
    ensures
        vcs_of(m, git).provider == Some("gitlab"@),
        vcs_of(m, git).commit_sha == var(m, "CI_COMMIT_SHA"@),
        vcs_of(m, git).repo == var(m, "CI_PROJECT_PATH"@),
        vcs_of(m, git).base_branch is None,
        vcs_of(m, git).pr_number is None,
        m.dom().contains("CI_COMMIT_BRANCH"@) && trimmed(m["CI_COMMIT_BRANCH"@]).len() > 0
            ==> vcs_of(m, git).branch == Some(trimmed(m["CI_COMMIT_BRANCH"@])),
        var(m, "CI_COMMIT_BRANCH"@) is None && var(m, "CI_COMMIT_TAG"@) is Some ==> vcs_of(
            m,
            git,
        ).branch is None,
        var(m, "CI_COMMIT_BRANCH"@) is None && var(m, "CI_COMMIT_TAG"@) is None ==> vcs_of(
            m,
            git,
        ).branch == var(m, "CI_COMMIT_REF_NAME"@),
{
}

/// On Bitbucket the commit, the branch and the full name of the repository are told, and of
/// a pull request the branch that it goes to and its number.
pub proof fn law_bitbucket_pipelines(
    m: Map<Seq<char>, Seq<char>>,
    git: Option<Seq<char>>,
    n: nat,
)
    requires
        !truthy(lookup(m, "GITHUB_ACTIONS"@)),
        !truthy(lookup(m, "GITLAB_CI"@)),
        m.dom().contains("BITBUCKET_BUILD_NUMBER"@),
        trimmed(m["BITBUCKET_BUILD_NUMBER"@]).len() > 0,
    ensures
        vcs_of(m, git).provider == Some("bitbucket"@),
        vcs_of(m, git).commit_sha == var(m, "BITBUCKET_COMMIT"@),
        vcs_of(m, git).branch == var(m, "BITBUCKET_BRANCH"@),
        m.dom().contains("BITBUCKET_REPO_FULL_NAME"@) ==> vcs_of(m, git).repo == var(
            m,
            "BITBUCKET_REPO_FULL_NAME"@,
        ),
        !m.dom().contains("BITBUCKET_REPO_FULL_NAME"@) ==> vcs_of(m, git).repo == var(
            m,
            "BITBUCKET_REPO_SLUG"@,
        ),
        var(m, "BITBUCKET_PR_ID"@) is None ==> {
            &&& vcs_of(m, git).base_branch is None
            &&& vcs_of(m, git).pr_number is None
        },
        var(m, "BITBUCKET_PR_ID"@) is Some ==> vcs_of(m, git).base_branch == var(
            m,
            "BITBUCKET_PR_DESTINATION_BRANCH"@,
        ),
        n <= u64::MAX && var(m, "BITBUCKET_PR_ID"@) == Some(decimal(n)) ==> vcs_of(
            m,
            git,
        ).pr_number == Some(n),
{
    law_numbers_are_read_as_written(n);
}

/// Without a provider what `git` printed is told: the commit from its first line and the
/// branch from its second, unless the head is detached.
pub proof fn law_git_prints_commit_and_branch(
    m: Map<Seq<char>, Seq<char>>,
    commit: Seq<char>,
    branch: Seq<char>,
)
    requires
        !truthy(lookup(m, "GITHUB_ACTIONS"@)),
        !truthy(lookup(m, "GITLAB_CI"@)),
        !m.dom().contains("BITBUCKET_BUILD_NUMBER"@),
        commit.len() > 0,
        branch.len() > 0,
        forall|i: int| 0 <= i < commit.len() ==> '!' <= #[trigger] commit[i] <= '~',
        forall|i: int| 0 <= i < branch.len() ==> '!' <= #[trigger] branch[i] <= '~',
    ensures
        ({
            let v = vcs_of(m, Some(commit + seq!['\n'] + branch + seq!['\n']));
            &&& v.provider is None
            &&& v.commit_sha == Some(commit)
            &&& v.branch == if branch == "HEAD"@ {
                None
            } else {
                Some(branch)
            }
        }),
        vcs_of(m, None) == no_vcs(),
{
    let e = Seq::<char>::empty();
    let s = commit + seq!['\n'] + branch;
    let text = s + seq!['\n'];
    assert(s[0] == commit[0]);
    assert(s.last() == branch[branch.len() - 1]);
    law_trimming_takes_the_ends(e, s, seq!['\n']);
    assert(e + s + seq!['\n'] =~= text);
    assert(!commit.contains('\n'));
    assert(!branch.contains('\n'));
    lemma_pieces_single(commit, '\n');
    lemma_pieces_append(commit, '\n', branch);
    let p = pieces(s, seq!['\n']);
    assert(p =~= seq![commit, branch]);
    assert(commit.last() == commit[commit.len() - 1]);
    assert(p.drop_last() =~= seq![commit]);
    let ls = line_seq(s);
    assert(ls =~= seq![commit, branch]);
    law_trimming_takes_the_ends(e, commit, e);
    law_trimming_takes_the_ends(e, branch, e);
}

/// Where git prints one line only there is no branch, where its second line is `HEAD` neither,
/// and where it prints nothing there is no commit.
pub proof fn law_git_without_a_branch(commit: Seq<char>)
    requires
        commit.len() > 0,
        forall|i: int| 0 <= i < commit.len() ==> '!' <= #[trigger] commit[i] <= '~',
    ensures
        git_vcs(Some(commit)).commit_sha == Some(commit),
        git_vcs(Some(commit)).branch is None,
        git_vcs(None).commit_sha is None,
        git_vcs(None).branch is None,
{
    let e = Seq::<char>::empty();
    assert(commit.last() == commit[commit.len() - 1]);
    law_trimming_takes_the_ends(e, commit, e);
    let c = '\n';
    assert(!commit.contains(c)) by {
        if commit.contains(c) {
            let k = choose|k: int| 0 <= k < commit.len() && commit[k] == c;
            assert(commit[k] == c);
        }
    }
    lemma_pieces_single(commit, c);
    let p = pieces(commit, seq!['\n']);
    assert(p =~= seq![commit]);
    assert(line_seq(commit) =~= seq![commit]);
}

/// A ref of a branch names the branch, and any other ref names none.
pub proof fn law_refs_of_branches(name: Seq<char>, refs: Seq<char>)
    ensures
        head_ref_branch(Some("refs/heads/"@ + name)) == nonblank(Some(name)),
        head_ref_branch(None) is None,
        !has_prefix(refs, "refs/heads/"@) ==> head_ref_branch(Some(refs)) is None,
{
    let p = "refs/heads/"@;
    law_prefixes_and_suffixes(p, name);
    assert((p + name).skip(p.len() as int) =~= name);
}

} // verus!

//! The environment of a build: the version of Xcode and the label of the machine.
use crate::dep_entry::copy_opt;
use crate::env::{Env, env_truthy, lookup, nonblank, truthy};
use crate::text::{
    cat3, cat5, from_range, has_prefix, is_line, is_white, law_lines_come_back,
    law_prefixes_and_suffixes, law_trimming_takes_the_ends, lemma_pieces_nonempty,
    lemma_pieces_without, line_seq, lines, opt_ref, opt_str, pieces, split_any, strip_prefix,
    strs, text_of_lines, to_chars, trim, trimmed, trimmed_end,
};
use vstd::prelude::*;
use vstd::string::*;

verus! {

/// The `build-env` commands.
#[derive(Debug)]
pub enum BuildEnvCommand {
    /// The dotted version of Xcode.
    XcodeVersion,
    /// The label of the machine.
    MachineLabel,
    /// The top-level values of a property list.
    ReadPlist(ReadPlistArgs),
}

/// The arguments of `read-plist`.
#[derive(Debug)]
pub struct ReadPlistArgs {
    pub path: String,
}

pub open spec fn part_or_zero(p: Seq<Seq<char>>, i: int) -> Seq<char> {
    if i < p.len() {
        p[i]
    } else {
        "0"@
    }
}

/// A dotted version with exactly three parts: missing ones are `0`, further ones
/// are dropped.
pub open spec fn three_parts(s: Seq<char>) -> Seq<char> {
    let p = pieces(s, seq!['.']);
    p[0] + "."@ + part_or_zero(p, 1) + "."@ + part_or_zero(p, 2)
}

/// A dotted version with exactly three parts.
pub fn normalise_dotted_three_parts(s: &str) -> (r: String)
    ensures
        r@ == three_parts(s@),
{
    let seps = ['.'];
    let parts = split_any(s, &seps);
    proof {
        assert(seps@ =~= seq!['.']);
        assert forall|i: int| 0 <= i < parts@.len() implies strs(parts@)[i] == (
        #[trigger] parts@[i])@ by {}
    }
    let minor = if parts.len() > 1 {
        parts[1].as_str()
    } else {
        "0"
    };
    let patch = if parts.len() > 2 {
        parts[2].as_str()
    } else {
        "0"
    };
    cat5(parts[0].as_str(), ".", minor, ".", patch)
}

/// The text without leading zeros; `0` where nothing is left.
pub open spec fn without_zeros(s: Seq<char>) -> Seq<char>
    decreases s.len(),
{
    if s.len() == 0 {
        "0"@
    } else if s[0] == '0' {
        without_zeros(s.skip(1))
    } else {
        s
    }
}

/// The text without leading zeros; `0` where nothing is left.
pub fn strip_lead(s: &str) -> (r: String)
    ensures
        r@ == without_zeros(s@),
{
    let v = to_chars(s);
    let n: usize = v.len();
    let mut i: usize = 0;
    proof {
        assert(v@.skip(0) =~= v@);
    }
    while i < n && v[i] == '0'
        invariant
            n == v@.len(),
            i <= n,
            without_zeros(v@) == without_zeros(v@.skip(i as int)),
        decreases n - i,
    {
        proof {
            assert(v@.skip(i as int).skip(1) =~= v@.skip(i + 1));
        }
        i += 1;
    }
    if i == n {
        "0".to_owned()
    } else {
        proof {
            assert(v@.subrange(i as int, n as int) =~= v@.skip(i as int));
        }
        from_range(&v, i, n)
    }
}

/// The dotted form of the digits that Xcode gives for its version: the last is the
/// patch, the one before it the minor version, the rest the major version.
pub open spec fn xcode_digits(s: Seq<char>) -> Seq<char> {
    let n = s.len() as int;
    if n == 0 {
        "0.0.0"@
    } else {
        let patch = s.skip(n - 1);
        let minor = if n >= 2 {
            s.subrange(n - 2, n - 1)
        } else {
            "0"@
        };
        let major = if n >= 3 {
            s.take(n - 2)
        } else {
            "0"@
        };
        without_zeros(major) + "."@ + without_zeros(minor) + "."@ + without_zeros(patch)
    }
}

/// The dotted form of the digits that Xcode gives for its version.
pub fn format_xcode_actual(s: &str) -> (r: String)
    ensures
        r@ == xcode_digits(s@),
{
    let v = to_chars(s);
    let n: usize = v.len();
    if n == 0 {
        return "0.0.0".to_owned();
    }
    let patch = from_range(&v, n - 1, n);
    proof {
        assert(patch@ =~= s@.skip(n - 1));
    }
    let minor = if n >= 2 {
        from_range(&v, n - 2, n - 1)
    } else {
        "0".to_owned()
    };
    let major = if n >= 3 {
        from_range(&v, 0, n - 2)
    } else {
        "0".to_owned()
    };
    let a = strip_lead(major.as_str());
    let b = strip_lead(minor.as_str());
    let c = strip_lead(patch.as_str());
    cat5(a.as_str(), ".", b.as_str(), ".", c.as_str())
}

/// At least one character, and all of them digits.
pub open spec fn is_digits(s: Seq<char>) -> bool {
    s.len() > 0 && forall|i: int| 0 <= i < s.len() ==> '0' <= #[trigger] s[i] <= '9'
}

pub fn all_digits(s: &str) -> (r: bool)
    ensures
        r == is_digits(s@),
{
    let v = to_chars(s);
    if v.len() == 0 {
        return false;
    }
    let mut i: usize = 0;
    while i < v.len()
        invariant
            v@ == s@,
            i <= v@.len(),
            forall|j: int| 0 <= j < i ==> '0' <= #[trigger] v@[j] <= '9',
        decreases v@.len() - i,
    {
        if !('0' <= v[i] && v[i] <= '9') {
            return false;
        }
        i += 1;
    }
    true
}

/// The version that the output of `xcodebuild -version` tells.
pub open spec fn xcodebuild_version(stdout: Seq<char>) -> Option<Seq<char>> {
    let ls = line_seq(stdout);
    if ls.len() == 0 {
        None
    } else {
        let first = trimmed(ls[0]);
        if has_prefix(first, "Xcode"@) {
            let v = trimmed(first.skip("Xcode"@.len() as int));
            if v.len() == 0 {
                None
            } else {
                Some(three_parts(v))
            }
        } else {
            None
        }
    }
}

/// The version of Xcode: from the variable that Xcode sets, or else from
/// `xcodebuild`.
pub open spec fn xcode_version(
    actual: Option<Seq<char>>,
    xcodebuild: Option<Seq<char>>,
) -> Option<Seq<char>> {
    if actual is Some && is_digits(actual->0) {
        Some(xcode_digits(actual->0))
    } else {
        match xcodebuild {
            Some(out) => xcodebuild_version(out),
            None => None,
        }
    }
}

/// The version of Xcode. `actual` is the variable `XCODE_VERSION_ACTUAL`;
/// `xcodebuild` is what `xcodebuild -version` printed, where it succeeded.
pub fn resolve_xcode_version(actual: &Option<String>, xcodebuild: &Option<String>) -> (r: Option<
    String,
>)
    ensures
        opt_str(r) == xcode_version(opt_str(*actual), opt_str(*xcodebuild)),
{
    match actual {
        Some(s) => {
            if all_digits(s.as_str()) {
                return Some(format_xcode_actual(s.as_str()));
            }
        },
        None => {},
    }
    match xcodebuild {
        None => None,
        Some(out) => {
            let ls = lines(out.as_str());
            if ls.len() == 0 {
                return None;
            }
            proof {
                assert(strs(ls@)[0] == ls@[0]@);
            }
            let first = trim(ls[0].as_str());
            match strip_prefix(first.as_str(), "Xcode") {
                None => None,
                Some(rest) => {
                    let v = trim(rest.as_str());
                    if v.as_str().is_empty() {
                        None
                    } else {
                        Some(normalise_dotted_three_parts(v.as_str()))
                    }
                },
            }
        },
    }
}

proof fn lemma_pieces_append(a: Seq<char>, c: char, b: Seq<char>)
    requires
        !b.contains(c),
    ensures
        pieces(a + seq![c] + b, seq![c]) == pieces(a, seq![c]).push(b),
{
    crate::text::lemma_pieces_append(a, c, b);
}

proof fn lemma_pieces_single(a: Seq<char>, c: char)
    requires
        !a.contains(c),
    ensures
        pieces(a, seq![c]) == seq![a],
{
    crate::text::lemma_pieces_single(a, c);
}

/// A normalised version has exactly three parts, and normalising it again changes
/// nothing: both ways to learn the version of Xcode tell it in one form.
pub proof fn law_three_parts_is_stable(s: Seq<char>)
    ensures
        pieces(three_parts(s), seq!['.']).len() == 3,
        three_parts(three_parts(s)) == three_parts(s),
{
    reveal_strlit(".");
    reveal_strlit("0");
    let p = pieces(s, seq!['.']);
    lemma_pieces_nonempty(s, seq!['.']);
    let a = p[0];
    let b = part_or_zero(p, 1);
    let c = part_or_zero(p, 2);
    lemma_pieces_without(s, '.', 0);
    if p.len() > 1 {
        lemma_pieces_without(s, '.', 1);
    } else {
        assert(!"0"@.contains('.'));
    }
    if p.len() > 2 {
        lemma_pieces_without(s, '.', 2);
    } else {
        assert(!"0"@.contains('.'));
    }
    assert("."@ =~= seq!['.']);
    lemma_pieces_single(a, '.');
    lemma_pieces_append(a, '.', b);
    lemma_pieces_append(a + seq!['.'] + b, '.', c);
    assert(three_parts(s) =~= a + seq!['.'] + b + seq!['.'] + c);
    let q = pieces(three_parts(s), seq!['.']);
    assert(q =~= seq![a, b, c]);
}

/// A label of a provider, with the detail behind it where there is one.
pub open spec fn with_detail(prefix: Seq<char>, detail: Option<Seq<char>>) -> Seq<char> {
    match nonblank(detail) {
        Some(d) => prefix + ":"@ + d,
        None => prefix,
    }
}

/// The first of two variables that is set and not blank.
pub open spec fn first_nonblank(
    m: Map<Seq<char>, Seq<char>>,
    a: Seq<char>,
    b: Seq<char>,
) -> Option<Seq<char>> {
    match nonblank(lookup(m, a)) {
        Some(x) => Some(x),
        None => nonblank(lookup(m, b)),
    }
}

pub open spec fn is_set(m: Map<Seq<char>, Seq<char>>, k: Seq<char>) -> bool {
    nonblank(lookup(m, k)) is Some
}

/// The label of the machine that a build runs on: that of the first provider
/// whose sign is set, or else the name of the host.
pub open spec fn machine_label(
    m: Map<Seq<char>, Seq<char>>,
    hostname: Option<Seq<char>>,
) -> Option<Seq<char>> {
    if truthy(lookup(m, "GITHUB_ACTIONS"@)) {
        Some(with_detail("github-actions"@, lookup(m, "RUNNER_NAME"@)))
    } else if truthy(lookup(m, "GITLAB_CI"@)) {
        Some(
            with_detail(
                "gitlab-ci"@,
                first_nonblank(m, "CI_RUNNER_DESCRIPTION"@, "CI_RUNNER_ID"@),
            ),
        )
    } else if is_set(m, "JENKINS_URL"@) {
        Some(with_detail("jenkins"@, lookup(m, "NODE_NAME"@)))
    } else if truthy(lookup(m, "CIRCLECI"@)) {
        Some(with_detail("circleci"@, lookup(m, "CIRCLE_NODE_INDEX"@)))
    } else if truthy(lookup(m, "BITRISE_IO"@)) {
        Some(with_detail("bitrise"@, lookup(m, "BITRISE_APP_SLUG"@)))
    } else if is_set(m, "TEAMCITY_VERSION"@) {
        Some(with_detail("teamcity"@, first_nonblank(m, "AGENT_NAME"@, "agent.name"@)))
    } else if is_set(m, "CI_WORKFLOW"@) || truthy(lookup(m, "CI_XCODE_CLOUD"@)) {
        Some(
            with_detail("xcode-cloud"@, first_nonblank(m, "CI_WORKFLOW"@, "CI_XCODEBUILD_ACTION"@)),
        )
    } else if truthy(lookup(m, "CI"@)) {
        Some(
            with_detail(
                "ci"@,
                match nonblank(lookup(m, "HOSTNAME"@)) {
                    Some(h) => Some(h),
                    None => hostname,
                },
            ),
        )
    } else {
        hostname
    }
}

fn label(prefix: &str, detail: Option<String>) -> (r: String)
    ensures
        r@ == with_detail(prefix@, opt_str(detail)),
{
    match detail {
        Some(d) => {
            let t = trim(d.as_str());
            if t.as_str().is_empty() {
                prefix.to_owned()
            } else {
                cat3(prefix, ":", t.as_str())
            }
        },
        None => prefix.to_owned(),
    }
}

fn copied(v: Option<&String>) -> (r: Option<String>)
    ensures
        opt_str(r) == opt_ref(v),
{
    match v {
        Some(s) => Some(s.clone()),
        None => None,
    }
}

fn pick_nonblank(env: &Env, a: &str, b: &str) -> (r: Option<String>)
    ensures
        opt_str(r) == first_nonblank(env@, a@, b@),
{
    match env.nonblank(a) {
        Some(x) => Some(x),
        None => env.nonblank(b),
    }
}

/// The label of the machine that a build runs on. `hostname` is the name of the
/// host, where it could be learnt.
pub fn resolve_machine_label(env: &Env, hostname: &Option<String>) -> (r: Option<String>)
    ensures
        opt_str(r) == machine_label(env@, opt_str(*hostname)),
{
    if env_truthy(env.get("GITHUB_ACTIONS")) {
        return Some(label("github-actions", copied(env.get("RUNNER_NAME"))));
    }
    if env_truthy(env.get("GITLAB_CI")) {
        return Some(
            label("gitlab-ci", pick_nonblank(env, "CI_RUNNER_DESCRIPTION", "CI_RUNNER_ID")),
        );
    }
    if env.nonblank("JENKINS_URL").is_some() {
        return Some(label("jenkins", copied(env.get("NODE_NAME"))));
    }
    if env_truthy(env.get("CIRCLECI")) {
        return Some(label("circleci", copied(env.get("CIRCLE_NODE_INDEX"))));
    }
    if env_truthy(env.get("BITRISE_IO")) {
        return Some(label("bitrise", copied(env.get("BITRISE_APP_SLUG"))));
    }
    if env.nonblank("TEAMCITY_VERSION").is_some() {
        return Some(label("teamcity", pick_nonblank(env, "AGENT_NAME", "agent.name")));
    }
    if env.nonblank("CI_WORKFLOW").is_some() || env_truthy(env.get("CI_XCODE_CLOUD")) {
        return Some(
            label("xcode-cloud", pick_nonblank(env, "CI_WORKFLOW", "CI_XCODEBUILD_ACTION")),
        );
    }
    if env_truthy(env.get("CI")) {
        let host = match env.nonblank("HOSTNAME") {
            Some(h) => Some(h),
            None => copy_opt(hostname),
        };
        return Some(label("ci", host));
    }
    copy_opt(hostname)
}

/// The name of the host out of what `hostname` printed, where it succeeded.
pub fn local_hostname(stdout: &Option<String>) -> (r: Option<String>)
    ensures
        opt_str(r) == nonblank(opt_str(*stdout)),
{
    match stdout {
        Some(s) => {
            let t = trim(s.as_str());
            if t.as_str().is_empty() {
                None
            } else {
                Some(t)
            }
        },
        None => None,
    }
}

/// The label of a provider, with what it says of the machine behind it where it says
/// anything.
pub proof fn law_labels_have_details(prefix: Seq<char>, detail: Seq<char>)
    ensures
        with_detail(prefix, None) == prefix,
        trimmed(detail).len() == 0 ==> with_detail(prefix, Some(detail)) == prefix,
        trimmed(detail).len() > 0 ==> with_detail(prefix, Some(detail)) == prefix + seq![':']
            + trimmed(detail),
{
    reveal_strlit(":");
    assert(":"@ =~= seq![':']);
}

/// Which provider labels the machine, in the order in which they are asked: GitHub, GitLab,
/// Jenkins, CircleCI, Bitrise, TeamCity, Xcode Cloud, any other, and else the host.
pub proof fn law_providers_label_machines(
    m: Map<Seq<char>, Seq<char>>,
    hostname: Option<Seq<char>>,
)
    ensures
        ({
            let r = machine_label(m, hostname);
            let github = truthy(lookup(m, "GITHUB_ACTIONS"@));
            let gitlab = truthy(lookup(m, "GITLAB_CI"@));
            let jenkins = nonblank(lookup(m, "JENKINS_URL"@)) is Some;
            let circle = truthy(lookup(m, "CIRCLECI"@));
            let bitrise = truthy(lookup(m, "BITRISE_IO"@));
            let teamcity = nonblank(lookup(m, "TEAMCITY_VERSION"@)) is Some;
            let cloud = nonblank(lookup(m, "CI_WORKFLOW"@)) is Some || truthy(
                lookup(m, "CI_XCODE_CLOUD"@),
            );
            let any = truthy(lookup(m, "CI"@));
            &&& github ==> r == Some(with_detail("github-actions"@, lookup(m, "RUNNER_NAME"@)))
            &&& !github && gitlab ==> r is Some && has_prefix(r->0, "gitlab-ci"@)
            &&& !github && !gitlab && jenkins ==> r == Some(
                with_detail("jenkins"@, lookup(m, "NODE_NAME"@)),
            )
            &&& !github && !gitlab && !jenkins && circle ==> r == Some(
                with_detail("circleci"@, lookup(m, "CIRCLE_NODE_INDEX"@)),
            )
            &&& !github && !gitlab && !jenkins && !circle && bitrise ==> r == Some(
                with_detail("bitrise"@, lookup(m, "BITRISE_APP_SLUG"@)),
            )
            &&& !github && !gitlab && !jenkins && !circle && !bitrise && teamcity ==> r is Some
                && has_prefix(r->0, "teamcity"@)
            &&& !github && !gitlab && !jenkins && !circle && !bitrise && !teamcity && cloud ==> r
                is Some && has_prefix(r->0, "xcode-cloud"@)
            &&& !github && !gitlab && !jenkins && !circle && !bitrise && !teamcity && !cloud && any
                ==> r is Some && has_prefix(r->0, "ci"@)
            &&& !github && !gitlab && !jenkins && !circle && !bitrise && !teamcity && !cloud && !any
                ==> r == hostname
        }),
{
    lemma_detail_prefix("gitlab-ci"@, first_nonblank(m, "CI_RUNNER_DESCRIPTION"@, "CI_RUNNER_ID"@));
    lemma_detail_prefix("teamcity"@, first_nonblank(m, "AGENT_NAME"@, "agent.name"@));
    lemma_detail_prefix(
        "xcode-cloud"@,
        first_nonblank(m, "CI_WORKFLOW"@, "CI_XCODEBUILD_ACTION"@),
    );
    lemma_detail_prefix(
        "ci"@,
        match nonblank(lookup(m, "HOSTNAME"@)) {
            Some(h) => Some(h),
            None => hostname,
        },
    );
}

proof fn lemma_detail_prefix(prefix: Seq<char>, detail: Option<Seq<char>>)
    ensures
        has_prefix(with_detail(prefix, detail), prefix),
{
    law_prefixes_and_suffixes(prefix, Seq::empty());
    assert(prefix + Seq::<char>::empty() =~= prefix);
    match nonblank(detail) {
        Some(d) => {
            law_prefixes_and_suffixes(prefix, ":"@ + d);
            assert(prefix + ":"@ + d =~= prefix + (":"@ + d));
        },
        None => {},
    }
}

/// What the label of a provider says of the machine, where two variables can tell it: on
/// GitLab the description of the runner before its id, on TeamCity the name of the agent, on
/// Xcode Cloud the workflow before the action, and elsewhere the variable before the host.
pub proof fn law_details_by_preference(m: Map<Seq<char>, Seq<char>>, hostname: Option<Seq<char>>)
    requires
        !truthy(lookup(m, "GITHUB_ACTIONS"@)),
    ensures
        ({
            let r = machine_label(m, hostname);
            let gitlab = truthy(lookup(m, "GITLAB_CI"@));
            let earlier = gitlab || nonblank(lookup(m, "JENKINS_URL"@)) is Some || truthy(
                lookup(m, "CIRCLECI"@),
            ) || truthy(lookup(m, "BITRISE_IO"@));
            let teamcity = nonblank(lookup(m, "TEAMCITY_VERSION"@)) is Some;
            let workflow = nonblank(lookup(m, "CI_WORKFLOW"@));
            let description = nonblank(lookup(m, "CI_RUNNER_DESCRIPTION"@));
            let runner = nonblank(lookup(m, "CI_RUNNER_ID"@));
            let agent = nonblank(lookup(m, "AGENT_NAME"@));
            &&& gitlab && description is Some ==> r == Some(
                "gitlab-ci"@ + ":"@ + trimmed(description->0),
            )
            &&& gitlab && description is None && runner is Some ==> r == Some(
                "gitlab-ci"@ + ":"@ + trimmed(runner->0),
            )
            &&& gitlab && description is None && runner is None ==> r == Some("gitlab-ci"@)
            &&& !earlier && teamcity && agent is Some ==> r == Some(
                "teamcity"@ + ":"@ + trimmed(agent->0),
            )
            &&& !earlier && teamcity && agent is None && nonblank(lookup(m, "agent.name"@))
                is Some ==> r == Some(
                "teamcity"@ + ":"@ + trimmed(nonblank(lookup(m, "agent.name"@))->0),
            )
            &&& !earlier && !teamcity && workflow is Some ==> r == Some(
                "xcode-cloud"@ + ":"@ + trimmed(workflow->0),
            )
            &&& !earlier && !teamcity && workflow is None && !truthy(
                lookup(m, "CI_XCODE_CLOUD"@),
            ) && truthy(lookup(m, "CI"@)) && nonblank(lookup(m, "HOSTNAME"@)) is Some ==> r
                == Some("ci"@ + ":"@ + trimmed(nonblank(lookup(m, "HOSTNAME"@))->0))
        }),
{
    lemma_trimmed_twice(m, "CI_RUNNER_DESCRIPTION"@);
    lemma_trimmed_twice(m, "CI_RUNNER_ID"@);
    lemma_trimmed_twice(m, "AGENT_NAME"@);
    lemma_trimmed_twice(m, "agent.name"@);
    lemma_trimmed_twice(m, "CI_WORKFLOW"@);
    lemma_trimmed_twice(m, "HOSTNAME"@);
}

/// What was trimmed is not blank.
proof fn lemma_trimmed_twice(m: Map<Seq<char>, Seq<char>>, k: Seq<char>)
    ensures
        nonblank(lookup(m, k)) is Some ==> trimmed(nonblank(lookup(m, k))->0).len() > 0,
{
    if nonblank(lookup(m, k)) is Some {
        let v = m[k];
        let t = trimmed(v);
        lemma_ends(v);
        law_trimming_takes_the_ends(Seq::empty(), t, Seq::empty());
    }
}

proof fn lemma_ends(s: Seq<char>)
    ensures
        trimmed(s).len() > 0 ==> !is_white(trimmed(s)[0]) && !is_white(trimmed(s).last()),
    decreases s.len(),
{
    if s.len() > 0 && is_white(s[0]) {
        lemma_ends(s.skip(1));
    } else {
        lemma_end_end(s);
    }
}

proof fn lemma_end_end(s: Seq<char>)
    ensures
        trimmed_end(s).len() > 0 ==> !is_white(trimmed_end(s).last()) && trimmed_end(s)[0] == s[0],
    decreases s.len(),
{
    if s.len() > 0 && is_white(s.last()) {
        lemma_end_end(s.drop_last());
    }
}

/// A version of three parts stays, missing parts are zero, and further parts are dropped.
pub proof fn law_versions_get_three_parts(
    a: Seq<char>,
    b: Seq<char>,
    c: Seq<char>,
    d: Seq<char>,
)
    requires
        !a.contains('.'),
        !b.contains('.'),
        !c.contains('.'),
        !d.contains('.'),
    ensures
        three_parts(a) == a + ".0.0"@,
        three_parts(a + seq!['.'] + b) == a + seq!['.'] + b + ".0"@,
        three_parts(a + seq!['.'] + b + seq!['.'] + c) == a + seq!['.'] + b + seq!['.'] + c,
        three_parts(a + seq!['.'] + b + seq!['.'] + c + seq!['.'] + d) == a + seq!['.'] + b
            + seq!['.'] + c,
{
    reveal_strlit(".");
    reveal_strlit("0");
    reveal_strlit(".0.0");
    reveal_strlit(".0");
    let ab = a + seq!['.'] + b;
    let abc = ab + seq!['.'] + c;
    lemma_pieces_single(a, '.');
    lemma_pieces_append(a, '.', b);
    lemma_pieces_append(ab, '.', c);
    lemma_pieces_append(abc, '.', d);
    assert("."@ =~= seq!['.']);
    assert(a + "."@ + "0"@ + "."@ + "0"@ =~= a + ".0.0"@);
    assert(a + "."@ + b + "."@ + "0"@ =~= ab + ".0"@);
    assert(a + "."@ + b + "."@ + c =~= abc);
}

/// The digits that Xcode gives for its version are the major version, then one digit for the
/// minor version and one for the patch: `1520` is `15.2.0`.
pub proof fn law_digits_of_the_version(major: Seq<char>, minor: char, patch: char)
    requires
        major.len() > 0,
        major[0] != '0',
    ensures
        xcode_digits(major + seq![minor, patch]) == major + seq!['.', minor, '.', patch],
{
    reveal_strlit(".");
    reveal_strlit("0");
    let s = major + seq![minor, patch];
    let n = s.len() as int;
    assert(s.skip(n - 1) =~= seq![patch]);
    assert(s.subrange(n - 2, n - 1) =~= seq![minor]);
    assert(s.take(n - 2) =~= major);
    lemma_one_digit(minor);
    lemma_one_digit(patch);
    assert(major + "."@ + seq![minor] + "."@ + seq![patch] =~= major + seq![
        '.',
        minor,
        '.',
        patch,
    ]);
}

proof fn lemma_one_digit(c: char)
    ensures
        without_zeros(seq![c]) == seq![c],
{
    reveal_strlit("0");
    assert(seq![c].skip(1) =~= Seq::empty());
    assert(without_zeros(seq![c].skip(1)) == "0"@);
    assert("0"@ =~= seq!['0']);
}

/// The variable of Xcode comes before what `xcodebuild` prints, where it holds digits; and
/// what that prints is `Xcode` and the version on its first line.
pub proof fn law_where_the_version_comes_from(
    actual: Seq<char>,
    printed: Option<Seq<char>>,
    version: Seq<char>,
    rest: Seq<char>,
)
    requires
        version.len() > 0,
        forall|i: int| 0 <= i < version.len() ==> '!' <= #[trigger] version[i] <= '~',
    ensures
        is_digits(actual) ==> xcode_version(Some(actual), printed) == Some(xcode_digits(actual)),
        !is_digits(actual) && printed is Some ==> xcode_version(Some(actual), printed)
            == xcodebuild_version(printed->0),
        printed is Some ==> xcode_version(None, printed) == xcodebuild_version(printed->0),
        xcode_version(None, None) is None,
        xcodebuild_version(text_of_lines(seq!["Xcode "@ + version])) == Some(three_parts(version)),
{
    reveal_strlit("Xcode ");
    reveal_strlit("Xcode");
    let first = "Xcode "@ + version;
    let ls = seq![first];
    assert(first[first.len() - 1] == version[version.len() - 1]);
    assert(is_line(first)) by {
        if first.contains('\n') {
            let k = choose|k: int| 0 <= k < first.len() && first[k] == '\n';
            if k >= 6 {
                assert(first[k] == version[k - 6]);
            }
        }
    }
    assert forall|i: int| 0 <= i < ls.len() implies is_line(#[trigger] ls[i]) by {}
    law_lines_come_back(ls);
    let e = Seq::<char>::empty();
    law_trimming_takes_the_ends(e, first, e);
    law_prefixes_and_suffixes("Xcode"@, seq![' '] + version);
    assert(first =~= "Xcode"@ + (seq![' '] + version));
    assert(first.skip(5) =~= seq![' '] + version);
    law_trimming_takes_the_ends(seq![' '], version, e);
    assert(version.last() == version[version.len() - 1]);
    assert(seq![' '] + version + e =~= seq![' '] + version);
}

/// Digits are at least one, and nothing but digits.
pub proof fn law_what_digits_are(s: Seq<char>, i: int)
    ensures
        !is_digits(Seq::empty()),
        0 <= i < s.len() && !('0' <= s[i] <= '9') ==> !is_digits(s),
        is_digits(s) ==> s.len() > 0,
{
}

} // verus!

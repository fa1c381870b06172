//! The record by which a build is registered.
use crate::dep_entry::{Dep, DepEntry, copy_entry, copy_opt, deps};
use crate::env::{Env, lookup, nonblank};
use crate::ios_deps::{CollectResult, DEPENDENCIES_MAX_COUNT};
use crate::plist::BundleInfo;
use crate::text::{cat2, opt_str, str_eq};
use crate::timeline::TimingsSummary;
use crate::vcs_metadata::{Vcs, VcsMetadata, no_vcs};
use vstd::prelude::*;
use vstd::string::*;

verus! {

/// What is collected where the collector does not say.
pub const DEPS_COLLECTION_SCOPE: &'static str = "all";

/// The version of the layout of the list of dependencies.
pub const DEPS_SCHEMA_VERSION: i64 = 1;

/// How dependencies were collected.
#[derive(Debug, PartialEq, Eq)]
pub struct CollectionConfig {
    pub scope: String,
    pub include_selected_reason: bool,
    pub max_count: usize,
}

pub open spec fn is_config(c: CollectionConfig, scope: Seq<char>) -> bool {
    &&& c.scope@ == scope
    &&& !c.include_selected_reason
    &&& c.max_count == DEPENDENCIES_MAX_COUNT
}

/// How dependencies are collected.
pub fn collection_config(scope: &str) -> (r: CollectionConfig)
    ensures
        is_config(r, scope@),
{
    CollectionConfig {
        scope: scope.to_owned(),
        include_selected_reason: false,
        max_count: DEPENDENCIES_MAX_COUNT,
    }
}

/// How many dependencies there are, by kind.
#[derive(Debug, PartialEq, Eq)]
pub struct DepsSummary {
    pub total: usize,
    pub direct: usize,
    pub transitive: usize,
    pub library: usize,
    pub project: usize,
    pub file: usize,
    pub truncated: bool,
    pub collected_at: String,
    pub collection_config: CollectionConfig,
}

/// How many of the dependencies are direct.
pub open spec fn direct_count(s: Seq<Dep>) -> nat {
    s.filter(|d: Dep| d.direct).len()
}

/// How many of the dependencies are libraries.
pub open spec fn library_count(s: Seq<Dep>) -> nat {
    s.filter(|d: Dep| d.type_ == "library"@).len()
}

/// The summary of a list of dependencies.
pub open spec fn is_summary(
    r: DepsSummary,
    s: Seq<Dep>,
    truncated: bool,
    scope: Seq<char>,
    collected_at: Seq<char>,
) -> bool {
    &&& r.total == s.len()
    &&& r.direct == direct_count(s)
    &&& r.transitive == s.len() - direct_count(s)
    &&& r.library == library_count(s)
    &&& r.project == 0
    &&& r.file == 0
    &&& r.truncated == truncated
    &&& r.collected_at@ == collected_at
    &&& is_config(r.collection_config, scope)
}

proof fn lemma_count_step(s: Seq<Dep>, d: Dep, f: spec_fn(Dep) -> bool)
    ensures
        s.push(d).filter(f).len() == s.filter(f).len() + if f(d) {
            1nat
        } else {
            0nat
        },
        s.filter(f).len() <= s.len(),
{
    reveal(Seq::filter);
    assert(s.push(d).drop_last() =~= s);
    lemma_count_bound(s, f);
}

proof fn lemma_count_bound(s: Seq<Dep>, f: spec_fn(Dep) -> bool)
    ensures
        s.filter(f).len() <= s.len(),
    decreases s.len(),
{
    reveal(Seq::filter);
    if s.len() > 0 {
        lemma_count_bound(s.drop_last(), f);
    }
}

/// The summary of a list of dependencies.
pub fn deps_summary(
    entries: &Vec<DepEntry>,
    truncated: bool,
    scope: &str,
    collected_at: &str,
) -> (r: DepsSummary)
    ensures
        is_summary(r, deps(entries@), truncated, scope@, collected_at@),
{
    let n: usize = entries.len();
    let ghost all = deps(entries@);
    let mut direct: usize = 0;
    let mut library: usize = 0;
    let mut i: usize = 0;
    proof {
        reveal(Seq::filter);
    }
    while i < n
        invariant
            n == entries@.len(),
            i <= n,
            all == deps(entries@),
            direct == direct_count(all.take(i as int)),
            library == library_count(all.take(i as int)),
            direct <= i,
            library <= i,
        decreases n - i,
    {
        let e = &entries[i];
        proof {
            assert(all[i as int] == e@);
            assert(all.take(i + 1) =~= all.take(i as int).push(all[i as int]));
            lemma_count_step(all.take(i as int), e@, |d: Dep| d.direct);
            lemma_count_step(all.take(i as int), e@, |d: Dep| d.type_ == "library"@);
        }
        if e.direct {
            direct += 1;
        }
        if str_eq(e.type_.as_str(), "library") {
            library += 1;
        }
        i += 1;
    }
    proof {
        assert(all.take(n as int) =~= all);
    }
    DepsSummary {
        total: n,
        direct,
        transitive: n - direct,
        library,
        project: 0,
        file: 0,
        truncated,
        collected_at: collected_at.to_owned(),
        collection_config: collection_config(scope),
    }
}

/// The list of dependencies as it is uploaded.
#[derive(Debug, PartialEq, Eq)]
pub struct DepsBlob {
    pub schema_version: i64,
    pub truncated: bool,
    pub collection_config: CollectionConfig,
    pub dependencies: Vec<DepEntry>,
}

/// The list of dependencies as it is uploaded.
pub fn deps_blob(entries: &Vec<DepEntry>, truncated: bool, scope: &str) -> (r: DepsBlob)
    ensures
        r.schema_version == DEPS_SCHEMA_VERSION,
        r.truncated == truncated,
        is_config(r.collection_config, scope@),
        deps(r.dependencies@) == deps(entries@),
{
    let mut out: Vec<DepEntry> = Vec::new();
    let mut i: usize = 0;
    while i < entries.len()
        invariant
            i <= entries@.len(),
            deps(out@) == deps(entries@).take(i as int),
        decreases entries@.len() - i,
    {
        let e = copy_entry(&entries[i]);
        proof {
            assert(deps(out@.push(e)) =~= deps(out@).push(e@));
            assert(deps(entries@).take(i + 1) =~= deps(entries@).take(i as int).push(e@));
        }
        out.push(e);
        i += 1;
    }
    proof {
        assert(deps(entries@).take(i as int) =~= deps(entries@));
    }
    DepsBlob {
        schema_version: DEPS_SCHEMA_VERSION,
        truncated,
        collection_config: collection_config(scope),
        dependencies: out,
    }
}

/// The scope that is reported: that of the collector, where it says.
pub open spec fn reported_scope(label: Seq<char>) -> Seq<char> {
    if label.len() == 0 {
        DEPS_COLLECTION_SCOPE@
    } else {
        label
    }
}

/// What is sent of the dependencies that were collected: their summary and their list,
/// or nothing where there are none.
pub fn stage_deps(collected: &CollectResult, collected_at: &str) -> (r: Option<
    (DepsSummary, DepsBlob),
>)
    ensures
        match r {
            Some((summary, blob)) => {
                let scope = reported_scope(collected.scope_label@);
                &&& collected.entries@.len() > 0
                &&& is_summary(
                    summary,
                    deps(collected.entries@),
                    collected.truncated,
                    scope,
                    collected_at@,
                )
                &&& blob.schema_version == DEPS_SCHEMA_VERSION
                &&& blob.truncated == collected.truncated
                &&& is_config(blob.collection_config, scope)
                &&& deps(blob.dependencies@) == deps(collected.entries@)
            },
            None => collected.entries@.len() == 0,
        },
{
    if collected.entries.len() == 0 {
        return None;
    }
    let scope = if collected.scope_label.as_str().is_empty() {
        DEPS_COLLECTION_SCOPE
    } else {
        collected.scope_label.as_str()
    };
    Some(
        (
            deps_summary(&collected.entries, collected.truncated, scope, collected_at),
            deps_blob(&collected.entries, collected.truncated, scope),
        ),
    )
}

/// How a build was made.
#[derive(Debug, PartialEq, Eq)]
pub struct BuildMetadata {
    pub machine: Option<String>,
    pub plugin_version: String,
    pub build_system_version: Option<String>,
    pub build_sdk_version: Option<String>,
    pub timings: Option<TimingsSummary>,
}

/// The record of a build. What is absent is not sent.
#[derive(Debug, PartialEq, Eq)]
pub struct RegistrationPayload {
    pub uuid: String,
    pub format: String,
    pub package_id: Option<String>,
    pub version: Option<String>,
    pub build: Option<String>,
    pub build_configuration: Option<String>,
    pub artifact_size: Option<u64>,
    pub request_artifact_upload: bool,
    pub vcs: Option<VcsMetadata>,
    pub build_metadata: BuildMetadata,
    pub request_dependencies_upload: Option<bool>,
    pub dependencies_summary: Option<DepsSummary>,
}

/// The name and version of this tool, as builds record it.
pub fn plugin_version(version: &str) -> (r: String)
    ensures
        r@ == "bugsee-cli/"@ + version@,
{
    cat2("bugsee-cli/", version)
}

/// Nothing is known of where a build comes from.
pub open spec fn is_unknown(v: Vcs) -> bool {
    &&& v.provider is None
    &&& v.commit_sha is None
    &&& v.base_sha is None
    &&& v.branch is None
    &&& v.base_branch is None
    &&& v.pr_number is None
    &&& v.repo is None
}

fn is_blank_vcs(v: &VcsMetadata) -> (r: bool)
    ensures
        r == is_unknown(v@),
{
    v.provider.is_none() && v.commit_sha.is_none() && v.base_sha.is_none() && v.branch.is_none()
        && v.base_branch.is_none() && v.pr_number.is_none() && v.repo.is_none()
}

/// The record of a build. `artifact_size` is zero where the app could not be packaged;
/// `tool_version` is the version of this tool.
pub fn build_registration_payload(
    env: &Env,
    bundle: &BundleInfo,
    vcs: VcsMetadata,
    machine: Option<String>,
    xcode_version: Option<String>,
    deps_summary_value: Option<DepsSummary>,
    timings_summary: Option<TimingsSummary>,
    build_uuid: &str,
    artifact_size: u64,
    request_artifact_upload: bool,
    tool_version: &str,
) -> (r: RegistrationPayload)
    ensures
        r.uuid@ == build_uuid@,
        r.format@ == "ipa"@,
        opt_str(r.package_id) == opt_str(bundle.package_id),
        opt_str(r.version) == opt_str(bundle.version),
        opt_str(r.build) == opt_str(bundle.build),
        opt_str(r.build_configuration) == nonblank(lookup(env@, "CONFIGURATION"@)),
        r.artifact_size == if artifact_size > 0 {
            Some(artifact_size)
        } else {
            None
        },
        r.request_artifact_upload == request_artifact_upload,
        r.vcs == if is_unknown(vcs@) {
            None
        } else {
            Some(vcs)
        },
        r.build_metadata.machine == machine,
        r.build_metadata.plugin_version@ == "bugsee-cli/"@ + tool_version@,
        r.build_metadata.build_system_version == xcode_version,
        opt_str(r.build_metadata.build_sdk_version) == nonblank(lookup(env@, "SDK_NAME"@)),
        r.build_metadata.timings == timings_summary,
        r.request_dependencies_upload == if deps_summary_value is Some {
            Some(true)
        } else {
            None
        },
        r.dependencies_summary == deps_summary_value,
{
    let vcs_is_blank = is_blank_vcs(&vcs);
    RegistrationPayload {
        uuid: build_uuid.to_owned(),
        format: "ipa".to_owned(),
        package_id: copy_opt(&bundle.package_id),
        version: copy_opt(&bundle.version),
        build: copy_opt(&bundle.build),
        build_configuration: env.nonblank("CONFIGURATION"),
        artifact_size: if artifact_size > 0 {
            Some(artifact_size)
        } else {
            None
        },
        request_artifact_upload,
        vcs: if vcs_is_blank {
            None
        } else {
            Some(vcs)
        },
        build_metadata: BuildMetadata {
            machine,
            plugin_version: plugin_version(tool_version),
            build_system_version: xcode_version,
            build_sdk_version: env.nonblank("SDK_NAME"),
            timings: timings_summary,
        },
        request_dependencies_upload: if deps_summary_value.is_some() {
            Some(true)
        } else {
            None
        },
        dependencies_summary: deps_summary_value,
    }
}

proof fn lemma_filter_push(s: Seq<Dep>, d: Dep, f: spec_fn(Dep) -> bool)
    ensures
        s.push(d).filter(f).len() == s.filter(f).len() + (if f(d) {
            1nat
        } else {
            0nat
        }),
{
    reveal(Seq::filter);
    assert(s.push(d).drop_last() =~= s);
}

/// One more dependency counts as direct exactly where it is, and as a library exactly where
/// it is one.
pub proof fn law_dependencies_are_counted(s: Seq<Dep>, d: Dep)
    ensures
        direct_count(Seq::empty()) == 0,
        library_count(Seq::empty()) == 0,
        d.direct ==> direct_count(s.push(d)) == direct_count(s) + 1,
        !d.direct ==> direct_count(s.push(d)) == direct_count(s),
        d.type_ == "library"@ ==> library_count(s.push(d)) == library_count(s) + 1,
        d.type_ != "library"@ ==> library_count(s.push(d)) == library_count(s),
{
    reveal(Seq::filter);
    lemma_filter_push(s, d, |d: Dep| d.direct);
    lemma_filter_push(s, d, |d: Dep| d.type_ == "library"@);
}

/// How dependencies are collected: at most five thousand of them, of the scope that the
/// collector names or else of all.
pub proof fn law_how_dependencies_are_collected(c: CollectionConfig, label: Seq<char>)
    requires
        is_config(c, reported_scope(label)),
    ensures
        c.max_count == 5000,
        !c.include_selected_reason,
        label.len() > 0 ==> c.scope@ == label,
        label.len() == 0 ==> c.scope@ == "all"@,
{
}

/// A summary tells as many direct and transitive dependencies as there are together.
pub proof fn law_summaries_add_up(
    r: DepsSummary,
    s: Seq<Dep>,
    truncated: bool,
    scope: Seq<char>,
    at: Seq<char>,
)
    requires
        is_summary(r, s, truncated, scope, at),
    ensures
        r.total == s.len(),
        r.direct + r.transitive == r.total,
        r.direct == direct_count(s),
        r.library == library_count(s),
        r.project == 0,
        r.file == 0,
        r.truncated == truncated,
        r.collected_at@ == at,
        r.collection_config.scope@ == scope,
{
}

/// A build comes from somewhere where anything at all is known of it.
pub proof fn law_known_origins_are_told(v: Vcs)
    ensures
        v.commit_sha is Some ==> !is_unknown(v),
        v.branch is Some ==> !is_unknown(v),
        v.provider is Some ==> !is_unknown(v),
        v.repo is Some ==> !is_unknown(v),
        v.pr_number is Some ==> !is_unknown(v),
        v.base_branch is Some ==> !is_unknown(v),
        v.base_sha is Some ==> !is_unknown(v),
        is_unknown(no_vcs()),
{
}

} // verus!

//! The Xcode post-action: its flags, whether it runs, and what it works on.
use crate::env::{
    Env, env_truthy, env_truthy_default_true, is_on_token, lookup, trimmed_var, truthy,
    truthy_by_default,
};
use crate::numeral::{dec_i64, signed_decimal};
use crate::text::{cat3, has_prefix, lowered, opt_str, starts_with, str_eq, to_lower, trimmed};
use crate::update::{debug_quote, debug_quoted};
use vstd::prelude::*;
use vstd::string::*;

verus! {

/// The `xcode` commands.
#[derive(Debug)]
pub enum XcodeCommand {
    /// Publish a build from a post-action of Xcode.
    PostAction {
        /// Run in the foreground.
        force_foreground: bool,
        overrides: PostActionOverrides,
    },
}

/// Flags that take the place of environment variables. Percentages are given by their
/// text.
#[derive(Debug)]
pub struct PostActionOverrides {
    pub enable_build_info: bool,
    pub disable_build_info: bool,
    pub enable_all_actions: bool,
    pub disable_all_actions: bool,
    pub enable_all_configurations: bool,
    pub disable_all_configurations: bool,
    pub enable_dependencies: bool,
    pub disable_dependencies: bool,
    pub enable_timings: bool,
    pub disable_timings: bool,
    pub enable_size_analysis: bool,
    pub disable_size_analysis: bool,
    pub enable_chunked_upload: bool,
    pub disable_chunked_upload: bool,
    pub enable_size_check: bool,
    pub disable_size_check: bool,
    pub size_check_warning_pct: Option<String>,
    pub size_check_fail_pct: Option<String>,
    pub size_check_warning_bytes: Option<i64>,
    pub size_check_fail_bytes: Option<i64>,
}

impl Default for PostActionOverrides {
    fn default() -> (r: PostActionOverrides)
        ensures
            forall|k: Seq<char>| #[trigger] flag_value(r, k) is None,
    {
        PostActionOverrides {
            enable_build_info: false,
            disable_build_info: false,
            enable_all_actions: false,
            disable_all_actions: false,
            enable_all_configurations: false,
            disable_all_configurations: false,
            enable_dependencies: false,
            disable_dependencies: false,
            enable_timings: false,
            disable_timings: false,
            enable_size_analysis: false,
            disable_size_analysis: false,
            enable_chunked_upload: false,
            disable_chunked_upload: false,
            enable_size_check: false,
            disable_size_check: false,
            size_check_warning_pct: None,
            size_check_fail_pct: None,
            size_check_warning_bytes: None,
            size_check_fail_bytes: None,
        }
    }
}

/// What a pair of flags says: on, off, or nothing.
pub open spec fn toggle(enable: bool, disable: bool) -> Option<bool> {
    if enable {
        Some(true)
    } else if disable {
        Some(false)
    } else {
        None
    }
}

/// What a pair of flags says: on, off, or nothing.
pub fn resolve_toggle(enable: bool, disable: bool) -> (r: Option<bool>)
    ensures
        r == toggle(enable, disable),
{
    if enable {
        Some(true)
    } else if disable {
        Some(false)
    } else {
        None
    }
}

/// The token of a switch.
pub open spec fn token(v: Option<bool>) -> Option<Seq<char>> {
    match v {
        Some(true) => Some("1"@),
        Some(false) => Some("0"@),
        None => None,
    }
}

/// A number that was given, in decimal.
pub open spec fn shown_number(v: Option<i64>) -> Option<Seq<char>> {
    match v {
        Some(n) => Some(signed_decimal(n as int)),
        None => None,
    }
}

/// The value that the flags give to a variable, if they give one. The flags on
/// configurations speak for the older name of their variable too.
pub open spec fn flag_value(o: PostActionOverrides, key: Seq<char>) -> Option<Seq<char>> {
    if key == "BUGSEE_BUILD_INFO_ENABLED"@ {
        token(toggle(o.enable_build_info, o.disable_build_info))
    } else if key == "BUGSEE_BUILD_INFO_ALL_ACTIONS"@ {
        token(toggle(o.enable_all_actions, o.disable_all_actions))
    } else if key == "BUGSEE_BUILD_INFO_ALL_CONFIGURATIONS"@ || key
        == "BUGSEE_SIZE_ANALYSIS_ALL_CONFIGURATIONS"@ {
        token(toggle(o.enable_all_configurations, o.disable_all_configurations))
    } else if key == "BUGSEE_DEPENDENCIES_ENABLED"@ {
        token(toggle(o.enable_dependencies, o.disable_dependencies))
    } else if key == "BUGSEE_BUILD_INFO_TIMINGS_ENABLED"@ {
        token(toggle(o.enable_timings, o.disable_timings))
    } else if key == "BUGSEE_SIZE_ANALYSIS_ENABLED"@ {
        token(toggle(o.enable_size_analysis, o.disable_size_analysis))
    } else if key == "BUGSEE_CHUNKED_UPLOAD"@ {
        token(toggle(o.enable_chunked_upload, o.disable_chunked_upload))
    } else if key == "BUGSEE_SIZE_CHECK_ENABLED"@ {
        token(toggle(o.enable_size_check, o.disable_size_check))
    } else if key == "BUGSEE_SIZE_CHECK_WARNING_PCT"@ {
        opt_str(o.size_check_warning_pct)
    } else if key == "BUGSEE_SIZE_CHECK_FAIL_PCT"@ {
        opt_str(o.size_check_fail_pct)
    } else if key == "BUGSEE_SIZE_CHECK_WARNING_BYTES"@ {
        shown_number(o.size_check_warning_bytes)
    } else if key == "BUGSEE_SIZE_CHECK_FAIL_BYTES"@ {
        shown_number(o.size_check_fail_bytes)
    } else {
        None
    }
}

/// A value that was given, or else the one that was there.
pub open spec fn preferred(given: Option<Seq<char>>, there: Option<Seq<char>>) -> Option<
    Seq<char>,
> {
    if given is Some {
        given
    } else {
        there
    }
}

/// The environment `r` is `m` with the flags laid over it: a flag that is given counts,
/// one that is not leaves the variable as it is.
pub open spec fn overlaid(
    m: Map<Seq<char>, Seq<char>>,
    o: PostActionOverrides,
    r: Map<Seq<char>, Seq<char>>,
) -> bool {
    forall|k: Seq<char>| #[trigger] lookup(r, k) == preferred(flag_value(o, k), lookup(m, k))
}

/// The environment `r` is `m` with one variable set, where there is a value for it.
#[verifier::opaque]
spec fn set_where_given(
    m: Map<Seq<char>, Seq<char>>,
    key: Seq<char>,
    v: Option<Seq<char>>,
    r: Map<Seq<char>, Seq<char>>,
) -> bool {
    forall|k: Seq<char>|
        #![trigger lookup(r, k)]
        lookup(r, k) == if k == key {
            preferred(v, lookup(m, k))
        } else {
            lookup(m, k)
        }
}

proof fn lemma_set(
    m: Map<Seq<char>, Seq<char>>,
    key: Seq<char>,
    v: Option<Seq<char>>,
    r: Map<Seq<char>, Seq<char>>,
    k: Seq<char>,
)
    requires
        set_where_given(m, key, v, r),
    ensures
        lookup(r, k) == if k == key {
            preferred(v, lookup(m, k))
        } else {
            lookup(m, k)
        },
{
    reveal(set_where_given);
}

fn set_bool(env: &mut Env, key: &str, v: Option<bool>)
    ensures
        set_where_given(old(env)@, key@, token(v), final(env)@),
{
    proof {
        reveal(set_where_given);
    }
    match v {
        Some(b) => env.set(
            key,
            if b {
                "1"
            } else {
                "0"
            },
        ),
        None => {},
    }
}

fn set_text(env: &mut Env, key: &str, v: &Option<String>)
    ensures
        set_where_given(old(env)@, key@, opt_str(*v), final(env)@),
{
    proof {
        reveal(set_where_given);
    }
    match v {
        Some(t) => env.set(key, t.as_str()),
        None => {},
    }
}

fn set_num(env: &mut Env, key: &str, v: Option<i64>)
    ensures
        set_where_given(old(env)@, key@, shown_number(v), final(env)@),
{
    proof {
        reveal(set_where_given);
    }
    match v {
        Some(n) => {
            let t = dec_i64(n);
            env.set(key, t.as_str())
        },
        None => {},
    }
}

/// Lays the flags over the environment.
pub fn apply_overrides(env: &mut Env, o: &PostActionOverrides)
    ensures
        overlaid(old(env)@, *o, final(env)@),
{
    proof {
        lemma_keys_differ();
    }
    let configurations = resolve_toggle(o.enable_all_configurations, o.disable_all_configurations);
    set_bool(
        env,
        "BUGSEE_BUILD_INFO_ENABLED",
        resolve_toggle(o.enable_build_info, o.disable_build_info),
    );
    let ghost m1 = env@;
    set_bool(
        env,
        "BUGSEE_BUILD_INFO_ALL_ACTIONS",
        resolve_toggle(o.enable_all_actions, o.disable_all_actions),
    );
    let ghost m2 = env@;
    set_bool(env, "BUGSEE_BUILD_INFO_ALL_CONFIGURATIONS", configurations);
    let ghost m3 = env@;
    set_bool(env, "BUGSEE_SIZE_ANALYSIS_ALL_CONFIGURATIONS", configurations);
    let ghost m4 = env@;
    set_bool(
        env,
        "BUGSEE_DEPENDENCIES_ENABLED",
        resolve_toggle(o.enable_dependencies, o.disable_dependencies),
    );
    let ghost m5 = env@;
    set_bool(
        env,
        "BUGSEE_BUILD_INFO_TIMINGS_ENABLED",
        resolve_toggle(o.enable_timings, o.disable_timings),
    );
    let ghost m6 = env@;
    set_bool(
        env,
        "BUGSEE_SIZE_ANALYSIS_ENABLED",
        resolve_toggle(o.enable_size_analysis, o.disable_size_analysis),
    );
    let ghost m7 = env@;
    set_bool(
        env,
        "BUGSEE_CHUNKED_UPLOAD",
        resolve_toggle(o.enable_chunked_upload, o.disable_chunked_upload),
    );
    let ghost m8 = env@;
    set_bool(
        env,
        "BUGSEE_SIZE_CHECK_ENABLED",
        resolve_toggle(o.enable_size_check, o.disable_size_check),
    );
    let ghost m9 = env@;
    set_text(env, "BUGSEE_SIZE_CHECK_WARNING_PCT", &o.size_check_warning_pct);
    let ghost m10 = env@;
    set_text(env, "BUGSEE_SIZE_CHECK_FAIL_PCT", &o.size_check_fail_pct);
    let ghost m11 = env@;
    set_num(env, "BUGSEE_SIZE_CHECK_WARNING_BYTES", o.size_check_warning_bytes);
    let ghost m12 = env@;
    set_num(env, "BUGSEE_SIZE_CHECK_FAIL_BYTES", o.size_check_fail_bytes);
    let ghost m13 = env@;
    proof {
        let m0 = old(env)@;
        assert forall|k: Seq<char>| #[trigger] lookup(env@, k) == preferred(
            flag_value(*o, k),
            lookup(m0, k),
        ) by {
            lemma_set(m0, "BUGSEE_BUILD_INFO_ENABLED"@, token(toggle(o.enable_build_info, o.disable_build_info)), m1, k);
            lemma_set(m1, "BUGSEE_BUILD_INFO_ALL_ACTIONS"@, token(toggle(o.enable_all_actions, o.disable_all_actions)), m2, k);
            lemma_set(m2, "BUGSEE_BUILD_INFO_ALL_CONFIGURATIONS"@, token(toggle(o.enable_all_configurations, o.disable_all_configurations)), m3, k);
            lemma_set(m3, "BUGSEE_SIZE_ANALYSIS_ALL_CONFIGURATIONS"@, token(toggle(o.enable_all_configurations, o.disable_all_configurations)), m4, k);
            lemma_set(m4, "BUGSEE_DEPENDENCIES_ENABLED"@, token(toggle(o.enable_dependencies, o.disable_dependencies)), m5, k);
            lemma_set(m5, "BUGSEE_BUILD_INFO_TIMINGS_ENABLED"@, token(toggle(o.enable_timings, o.disable_timings)), m6, k);
            lemma_set(m6, "BUGSEE_SIZE_ANALYSIS_ENABLED"@, token(toggle(o.enable_size_analysis, o.disable_size_analysis)), m7, k);
            lemma_set(m7, "BUGSEE_CHUNKED_UPLOAD"@, token(toggle(o.enable_chunked_upload, o.disable_chunked_upload)), m8, k);
            lemma_set(m8, "BUGSEE_SIZE_CHECK_ENABLED"@, token(toggle(o.enable_size_check, o.disable_size_check)), m9, k);
            lemma_set(m9, "BUGSEE_SIZE_CHECK_WARNING_PCT"@, opt_str(o.size_check_warning_pct), m10, k);
            lemma_set(m10, "BUGSEE_SIZE_CHECK_FAIL_PCT"@, opt_str(o.size_check_fail_pct), m11, k);
            lemma_set(m11, "BUGSEE_SIZE_CHECK_WARNING_BYTES"@, shown_number(o.size_check_warning_bytes), m12, k);
            lemma_set(m12, "BUGSEE_SIZE_CHECK_FAIL_BYTES"@, shown_number(o.size_check_fail_bytes), m13, k);
        }
    }
}

/// Without flags the environment stays as it is.
pub proof fn law_no_flags_change_nothing(
    m: Map<Seq<char>, Seq<char>>,
    o: PostActionOverrides,
    r: Map<Seq<char>, Seq<char>>,
)
    requires
        overlaid(m, o, r),
        forall|k: Seq<char>| flag_value(o, k) is None,
    ensures
        r == m,
{
    assert forall|k: Seq<char>| r.dom().contains(k) <==> m.dom().contains(k) by {
        assert(lookup(r, k) == lookup(m, k));
    }
    assert forall|k: Seq<char>| r.dom().contains(k) implies r[k] == m[k] by {
        assert(lookup(r, k) == lookup(m, k));
    }
    assert(r =~= m);
}

/// Whether the post-action runs, or why not.
#[derive(Debug, PartialEq, Eq)]
pub enum Gate {
    Run,
    Skip(String),
}

/// Whether the post-action runs, or why not, as text.
pub enum GateView {
    Run,
    Skip(Seq<char>),
}

impl View for Gate {
    type V = GateView;

    open spec fn view(&self) -> GateView {
        match self {
            Gate::Run => GateView::Run,
            Gate::Skip(r) => GateView::Skip(r@),
        }
    }
}

/// There is an archive to work on.
pub open spec fn has_archive(m: Map<Seq<char>, Seq<char>>, archive_is_dir: bool) -> bool {
    trimmed_var(m, "ACTION"@) == "install"@ && trimmed_var(m, "ARCHIVE_PATH"@).len() > 0
        && archive_is_dir
}

/// There is a build directory to work on, and that was asked for.
pub open spec fn has_build_dir(m: Map<Seq<char>, Seq<char>>, build_dir_is_dir: bool) -> bool {
    truthy(lookup(m, "BUGSEE_BUILD_INFO_ALL_ACTIONS"@)) && trimmed_var(
        m,
        "TARGET_BUILD_DIR"@,
    ).len() > 0 && build_dir_is_dir
}

/// A configuration of the release kind.
pub open spec fn is_release(configuration: Seq<char>) -> bool {
    has_prefix(lowered(configuration), "release"@)
}

pub open spec fn all_configurations(m: Map<Seq<char>, Seq<char>>) -> bool {
    truthy(lookup(m, "BUGSEE_BUILD_INFO_ALL_CONFIGURATIONS"@)) || truthy(
        lookup(m, "BUGSEE_SIZE_ANALYSIS_ALL_CONFIGURATIONS"@),
    )
}

/// Whether the post-action runs: there must be something to work on, it must not be
/// switched off, and the configuration must be of the release kind unless all are
/// wanted.
pub open spec fn gate_of(
    m: Map<Seq<char>, Seq<char>>,
    archive_is_dir: bool,
    build_dir_is_dir: bool,
) -> GateView {
    let action = trimmed_var(m, "ACTION"@);
    let configuration = trimmed_var(m, "CONFIGURATION"@);
    if !has_archive(m, archive_is_dir) && !has_build_dir(m, build_dir_is_dir) {
        GateView::Skip(
            if action != "install"@ {
                if truthy(lookup(m, "BUGSEE_BUILD_INFO_ALL_ACTIONS"@)) {
                    "BUGSEE_BUILD_INFO_ALL_ACTIONS is set but TARGET_BUILD_DIR is missing — cannot locate the .app"@
                } else {
                    "build-info upload requires an Archive action (got ACTION="@ + debug_quoted(
                        action,
                    )
                        + "); set BUGSEE_BUILD_INFO_ALL_ACTIONS=1 to also register on plain Build actions"@
                }
            } else {
                "build-info upload could not locate the .xcarchive (ARCHIVE_PATH="@ + debug_quoted(
                    trimmed_var(m, "ARCHIVE_PATH"@),
                ) + ")"@
            },
        )
    } else if !truthy_by_default(lookup(m, "BUGSEE_BUILD_INFO_ENABLED"@)) {
        GateView::Skip("BUGSEE_BUILD_INFO_ENABLED is disabled"@)
    } else if !is_release(configuration) && !all_configurations(m) {
        GateView::Skip(
            "build-info upload skipped for configuration "@ + debug_quoted(configuration)
                + " (set BUGSEE_BUILD_INFO_ALL_CONFIGURATIONS=1 to include non-Release configurations)"@,
        )
    } else {
        GateView::Run
    }
}

/// Whether the post-action runs. `archive_is_dir` and `build_dir_is_dir` say whether
/// the trimmed `ARCHIVE_PATH` and `TARGET_BUILD_DIR` are directories.
pub fn should_run(env: &Env, archive_is_dir: bool, build_dir_is_dir: bool) -> (r: Gate)
    ensures
        r@ == gate_of(env@, archive_is_dir, build_dir_is_dir),
{
    let action = env.trimmed("ACTION");
    let archive_path = env.trimmed("ARCHIVE_PATH");
    let is_install = str_eq(action.as_str(), "install");
    let with_archive = is_install && !archive_path.as_str().is_empty() && archive_is_dir;
    let all_actions = env_truthy(env.get("BUGSEE_BUILD_INFO_ALL_ACTIONS"));
    let build_dir = env.trimmed("TARGET_BUILD_DIR");
    let with_build_dir = all_actions && !build_dir.as_str().is_empty() && build_dir_is_dir;
    if !with_archive && !with_build_dir {
        let reason = if !is_install {
            if all_actions {
                "BUGSEE_BUILD_INFO_ALL_ACTIONS is set but TARGET_BUILD_DIR is missing — cannot locate the .app".to_owned()
            } else {
                let q = debug_quote(action.as_str());
                cat3(
                    "build-info upload requires an Archive action (got ACTION=",
                    q.as_str(),
                    "); set BUGSEE_BUILD_INFO_ALL_ACTIONS=1 to also register on plain Build actions",
                )
            }
        } else {
            let q = debug_quote(archive_path.as_str());
            cat3(
                "build-info upload could not locate the .xcarchive (ARCHIVE_PATH=",
                q.as_str(),
                ")",
            )
        };
        return Gate::Skip(reason);
    }
    if !env_truthy_default_true(env.get("BUGSEE_BUILD_INFO_ENABLED")) {
        return Gate::Skip("BUGSEE_BUILD_INFO_ENABLED is disabled".to_owned());
    }
    let configuration = env.trimmed("CONFIGURATION");
    let all = env_truthy(env.get("BUGSEE_BUILD_INFO_ALL_CONFIGURATIONS")) || env_truthy(
        env.get("BUGSEE_SIZE_ANALYSIS_ALL_CONFIGURATIONS"),
    );
    let lower = to_lower(configuration.as_str());
    if !starts_with(lower.as_str(), "release") && !all {
        let q = debug_quote(configuration.as_str());
        return Gate::Skip(
            cat3(
                "build-info upload skipped for configuration ",
                q.as_str(),
                " (set BUGSEE_BUILD_INFO_ALL_CONFIGURATIONS=1 to include non-Release configurations)",
            ),
        );
    }
    Gate::Run
}

/// The post-action runs exactly where there is an archive or a build directory that
/// was asked for, it is not switched off, and the configuration is wanted.
pub proof fn law_gate_admits_exactly(
    m: Map<Seq<char>, Seq<char>>,
    archive_is_dir: bool,
    build_dir_is_dir: bool,
)
    ensures
        gate_of(m, archive_is_dir, build_dir_is_dir) == GateView::Run <==> {
            &&& has_archive(m, archive_is_dir) || has_build_dir(m, build_dir_is_dir)
            &&& truthy_by_default(lookup(m, "BUGSEE_BUILD_INFO_ENABLED"@))
            &&& is_release(trimmed_var(m, "CONFIGURATION"@)) || all_configurations(m)
        },
{
}

proof fn lemma_one_token()
    ensures
        is_on_token("1"@),
        !is_on_token("0"@),
        trimmed("0"@) == "0"@,
{
    reveal_strlit("1");
    reveal_strlit("0");
    reveal_strlit("true");
    reveal_strlit("yes");
    reveal_strlit("on");
    assert(trimmed("1"@) == "1"@);
    assert(trimmed("0"@) == "0"@);
    assert(lowered("1"@) =~= "1"@);
    assert(lowered("0"@) =~= "0"@);
    assert("0"@[0] != "1"@[0]);
    assert("true"@.len() != 1 && "yes"@.len() != 1 && "on"@.len() != 1);
}

/// The switches mean what they say: switching the flow off keeps the post-action from
/// running, and restricting it to release configurations keeps it from any other,
/// whatever the environment sets.
pub proof fn law_disabling_flags_gate(
    m: Map<Seq<char>, Seq<char>>,
    o: PostActionOverrides,
    r: Map<Seq<char>, Seq<char>>,
    archive_is_dir: bool,
    build_dir_is_dir: bool,
)
    requires
        overlaid(m, o, r),
    ensures
        !o.enable_build_info && o.disable_build_info ==> gate_of(
            r,
            archive_is_dir,
            build_dir_is_dir,
        ) is Skip,
        !o.enable_all_configurations && o.disable_all_configurations && !is_release(
            trimmed_var(m, "CONFIGURATION"@),
        ) ==> gate_of(r, archive_is_dir, build_dir_is_dir) is Skip,
{
    lemma_one_token();
    lemma_keys_differ();
    reveal_strlit("0");
    assert(trimmed("0"@).len() == 1);
    assert(lookup(r, "BUGSEE_BUILD_INFO_ENABLED"@) == preferred(
        token(toggle(o.enable_build_info, o.disable_build_info)),
        lookup(m, "BUGSEE_BUILD_INFO_ENABLED"@),
    ));
    assert(flag_value(o, "BUGSEE_BUILD_INFO_ALL_CONFIGURATIONS"@) == token(
        toggle(o.enable_all_configurations, o.disable_all_configurations),
    ));
    assert(flag_value(o, "BUGSEE_SIZE_ANALYSIS_ALL_CONFIGURATIONS"@) == token(
        toggle(o.enable_all_configurations, o.disable_all_configurations),
    ));
    assert(flag_value(o, "CONFIGURATION"@) is None);
}

proof fn lemma_keys_differ()
    ensures
        "CONFIGURATION"@.len() == 13,
        "BUGSEE_BUILD_INFO_ENABLED"@.len() == 25,
        "BUGSEE_BUILD_INFO_ALL_ACTIONS"@.len() == 29,
        "BUGSEE_BUILD_INFO_ALL_CONFIGURATIONS"@.len() == 36,
        "BUGSEE_SIZE_ANALYSIS_ALL_CONFIGURATIONS"@.len() == 39,
        "BUGSEE_DEPENDENCIES_ENABLED"@.len() == 27,
        "BUGSEE_BUILD_INFO_TIMINGS_ENABLED"@.len() == 33,
        "BUGSEE_SIZE_ANALYSIS_ENABLED"@.len() == 28,
        "BUGSEE_CHUNKED_UPLOAD"@.len() == 21,
        "BUGSEE_SIZE_CHECK_ENABLED"@.len() == 25,
        "BUGSEE_SIZE_CHECK_WARNING_PCT"@.len() == 29,
        "BUGSEE_SIZE_CHECK_FAIL_PCT"@.len() == 26,
        "BUGSEE_SIZE_CHECK_WARNING_BYTES"@.len() == 31,
        "BUGSEE_SIZE_CHECK_FAIL_BYTES"@.len() == 28,
        "BUGSEE_BUILD_INFO_ENABLED"@ != "BUGSEE_SIZE_CHECK_ENABLED"@,
        "BUGSEE_BUILD_INFO_ALL_ACTIONS"@ != "BUGSEE_SIZE_CHECK_WARNING_PCT"@,
        "BUGSEE_SIZE_ANALYSIS_ENABLED"@ != "BUGSEE_SIZE_CHECK_FAIL_BYTES"@,
{
    reveal_strlit("CONFIGURATION");
    reveal_strlit("BUGSEE_BUILD_INFO_ENABLED");
    reveal_strlit("BUGSEE_BUILD_INFO_ALL_ACTIONS");
    reveal_strlit("BUGSEE_BUILD_INFO_ALL_CONFIGURATIONS");
    reveal_strlit("BUGSEE_SIZE_ANALYSIS_ALL_CONFIGURATIONS");
    reveal_strlit("BUGSEE_DEPENDENCIES_ENABLED");
    reveal_strlit("BUGSEE_BUILD_INFO_TIMINGS_ENABLED");
    reveal_strlit("BUGSEE_SIZE_ANALYSIS_ENABLED");
    reveal_strlit("BUGSEE_CHUNKED_UPLOAD");
    reveal_strlit("BUGSEE_SIZE_CHECK_ENABLED");
    reveal_strlit("BUGSEE_SIZE_CHECK_WARNING_PCT");
    reveal_strlit("BUGSEE_SIZE_CHECK_FAIL_PCT");
    reveal_strlit("BUGSEE_SIZE_CHECK_WARNING_BYTES");
    reveal_strlit("BUGSEE_SIZE_CHECK_FAIL_BYTES");
    assert("BUGSEE_BUILD_INFO_ENABLED"@[7] == 'B');
    assert("BUGSEE_SIZE_CHECK_ENABLED"@[7] == 'S');
    assert("BUGSEE_BUILD_INFO_ALL_ACTIONS"@[7] == 'B');
    assert("BUGSEE_SIZE_CHECK_WARNING_PCT"@[7] == 'S');
    assert("BUGSEE_SIZE_ANALYSIS_ENABLED"@[12] == 'A');
    assert("BUGSEE_SIZE_CHECK_FAIL_BYTES"@[12] == 'C');
}

/// The names of the variables that flags speak for are all different.
proof fn lemma_flag_keys()
    ensures
        "BUGSEE_BUILD_INFO_ALL_ACTIONS"@ != "BUGSEE_BUILD_INFO_ENABLED"@,
        "BUGSEE_BUILD_INFO_ALL_CONFIGURATIONS"@ != "BUGSEE_BUILD_INFO_ENABLED"@,
        "BUGSEE_SIZE_ANALYSIS_ALL_CONFIGURATIONS"@ != "BUGSEE_BUILD_INFO_ENABLED"@,
        "BUGSEE_DEPENDENCIES_ENABLED"@ != "BUGSEE_BUILD_INFO_ENABLED"@,
        "BUGSEE_BUILD_INFO_TIMINGS_ENABLED"@ != "BUGSEE_BUILD_INFO_ENABLED"@,
        "BUGSEE_SIZE_ANALYSIS_ENABLED"@ != "BUGSEE_BUILD_INFO_ENABLED"@,
        "BUGSEE_CHUNKED_UPLOAD"@ != "BUGSEE_BUILD_INFO_ENABLED"@,
        "BUGSEE_SIZE_CHECK_ENABLED"@ != "BUGSEE_BUILD_INFO_ENABLED"@,
        "BUGSEE_SIZE_CHECK_WARNING_PCT"@ != "BUGSEE_BUILD_INFO_ENABLED"@,
        "BUGSEE_SIZE_CHECK_FAIL_PCT"@ != "BUGSEE_BUILD_INFO_ENABLED"@,
        "BUGSEE_SIZE_CHECK_WARNING_BYTES"@ != "BUGSEE_BUILD_INFO_ENABLED"@,
        "BUGSEE_SIZE_CHECK_FAIL_BYTES"@ != "BUGSEE_BUILD_INFO_ENABLED"@,
        "BUGSEE_BUILD_INFO_ALL_CONFIGURATIONS"@ != "BUGSEE_BUILD_INFO_ALL_ACTIONS"@,
        "BUGSEE_SIZE_ANALYSIS_ALL_CONFIGURATIONS"@ != "BUGSEE_BUILD_INFO_ALL_ACTIONS"@,
        "BUGSEE_DEPENDENCIES_ENABLED"@ != "BUGSEE_BUILD_INFO_ALL_ACTIONS"@,
        "BUGSEE_BUILD_INFO_TIMINGS_ENABLED"@ != "BUGSEE_BUILD_INFO_ALL_ACTIONS"@,
        "BUGSEE_SIZE_ANALYSIS_ENABLED"@ != "BUGSEE_BUILD_INFO_ALL_ACTIONS"@,
        "BUGSEE_CHUNKED_UPLOAD"@ != "BUGSEE_BUILD_INFO_ALL_ACTIONS"@,
        "BUGSEE_SIZE_CHECK_ENABLED"@ != "BUGSEE_BUILD_INFO_ALL_ACTIONS"@,
        "BUGSEE_SIZE_CHECK_WARNING_PCT"@ != "BUGSEE_BUILD_INFO_ALL_ACTIONS"@,
        "BUGSEE_SIZE_CHECK_FAIL_PCT"@ != "BUGSEE_BUILD_INFO_ALL_ACTIONS"@,
        "BUGSEE_SIZE_CHECK_WARNING_BYTES"@ != "BUGSEE_BUILD_INFO_ALL_ACTIONS"@,
        "BUGSEE_SIZE_CHECK_FAIL_BYTES"@ != "BUGSEE_BUILD_INFO_ALL_ACTIONS"@,
        "BUGSEE_SIZE_ANALYSIS_ALL_CONFIGURATIONS"@ != "BUGSEE_BUILD_INFO_ALL_CONFIGURATIONS"@,
        "BUGSEE_DEPENDENCIES_ENABLED"@ != "BUGSEE_BUILD_INFO_ALL_CONFIGURATIONS"@,
        "BUGSEE_BUILD_INFO_TIMINGS_ENABLED"@ != "BUGSEE_BUILD_INFO_ALL_CONFIGURATIONS"@,
        "BUGSEE_SIZE_ANALYSIS_ENABLED"@ != "BUGSEE_BUILD_INFO_ALL_CONFIGURATIONS"@,
        "BUGSEE_CHUNKED_UPLOAD"@ != "BUGSEE_BUILD_INFO_ALL_CONFIGURATIONS"@,
        "BUGSEE_SIZE_CHECK_ENABLED"@ != "BUGSEE_BUILD_INFO_ALL_CONFIGURATIONS"@,
        "BUGSEE_SIZE_CHECK_WARNING_PCT"@ != "BUGSEE_BUILD_INFO_ALL_CONFIGURATIONS"@,
        "BUGSEE_SIZE_CHECK_FAIL_PCT"@ != "BUGSEE_BUILD_INFO_ALL_CONFIGURATIONS"@,
        "BUGSEE_SIZE_CHECK_WARNING_BYTES"@ != "BUGSEE_BUILD_INFO_ALL_CONFIGURATIONS"@,
        "BUGSEE_SIZE_CHECK_FAIL_BYTES"@ != "BUGSEE_BUILD_INFO_ALL_CONFIGURATIONS"@,
        "BUGSEE_DEPENDENCIES_ENABLED"@ != "BUGSEE_SIZE_ANALYSIS_ALL_CONFIGURATIONS"@,
        "BUGSEE_BUILD_INFO_TIMINGS_ENABLED"@ != "BUGSEE_SIZE_ANALYSIS_ALL_CONFIGURATIONS"@,
        "BUGSEE_SIZE_ANALYSIS_ENABLED"@ != "BUGSEE_SIZE_ANALYSIS_ALL_CONFIGURATIONS"@,
        "BUGSEE_CHUNKED_UPLOAD"@ != "BUGSEE_SIZE_ANALYSIS_ALL_CONFIGURATIONS"@,
        "BUGSEE_SIZE_CHECK_ENABLED"@ != "BUGSEE_SIZE_ANALYSIS_ALL_CONFIGURATIONS"@,
        "BUGSEE_SIZE_CHECK_WARNING_PCT"@ != "BUGSEE_SIZE_ANALYSIS_ALL_CONFIGURATIONS"@,
        "BUGSEE_SIZE_CHECK_FAIL_PCT"@ != "BUGSEE_SIZE_ANALYSIS_ALL_CONFIGURATIONS"@,
        "BUGSEE_SIZE_CHECK_WARNING_BYTES"@ != "BUGSEE_SIZE_ANALYSIS_ALL_CONFIGURATIONS"@,
        "BUGSEE_SIZE_CHECK_FAIL_BYTES"@ != "BUGSEE_SIZE_ANALYSIS_ALL_CONFIGURATIONS"@,
        "BUGSEE_BUILD_INFO_TIMINGS_ENABLED"@ != "BUGSEE_DEPENDENCIES_ENABLED"@,
        "BUGSEE_SIZE_ANALYSIS_ENABLED"@ != "BUGSEE_DEPENDENCIES_ENABLED"@,
        "BUGSEE_CHUNKED_UPLOAD"@ != "BUGSEE_DEPENDENCIES_ENABLED"@,
        "BUGSEE_SIZE_CHECK_ENABLED"@ != "BUGSEE_DEPENDENCIES_ENABLED"@,
        "BUGSEE_SIZE_CHECK_WARNING_PCT"@ != "BUGSEE_DEPENDENCIES_ENABLED"@,
        "BUGSEE_SIZE_CHECK_FAIL_PCT"@ != "BUGSEE_DEPENDENCIES_ENABLED"@,
        "BUGSEE_SIZE_CHECK_WARNING_BYTES"@ != "BUGSEE_DEPENDENCIES_ENABLED"@,
        "BUGSEE_SIZE_CHECK_FAIL_BYTES"@ != "BUGSEE_DEPENDENCIES_ENABLED"@,
        "BUGSEE_SIZE_ANALYSIS_ENABLED"@ != "BUGSEE_BUILD_INFO_TIMINGS_ENABLED"@,
        "BUGSEE_CHUNKED_UPLOAD"@ != "BUGSEE_BUILD_INFO_TIMINGS_ENABLED"@,
        "BUGSEE_SIZE_CHECK_ENABLED"@ != "BUGSEE_BUILD_INFO_TIMINGS_ENABLED"@,
        "BUGSEE_SIZE_CHECK_WARNING_PCT"@ != "BUGSEE_BUILD_INFO_TIMINGS_ENABLED"@,
        "BUGSEE_SIZE_CHECK_FAIL_PCT"@ != "BUGSEE_BUILD_INFO_TIMINGS_ENABLED"@,
        "BUGSEE_SIZE_CHECK_WARNING_BYTES"@ != "BUGSEE_BUILD_INFO_TIMINGS_ENABLED"@,
        "BUGSEE_SIZE_CHECK_FAIL_BYTES"@ != "BUGSEE_BUILD_INFO_TIMINGS_ENABLED"@,
        "BUGSEE_CHUNKED_UPLOAD"@ != "BUGSEE_SIZE_ANALYSIS_ENABLED"@,
        "BUGSEE_SIZE_CHECK_ENABLED"@ != "BUGSEE_SIZE_ANALYSIS_ENABLED"@,
        "BUGSEE_SIZE_CHECK_WARNING_PCT"@ != "BUGSEE_SIZE_ANALYSIS_ENABLED"@,
        "BUGSEE_SIZE_CHECK_FAIL_PCT"@ != "BUGSEE_SIZE_ANALYSIS_ENABLED"@,
        "BUGSEE_SIZE_CHECK_WARNING_BYTES"@ != "BUGSEE_SIZE_ANALYSIS_ENABLED"@,
        "BUGSEE_SIZE_CHECK_FAIL_BYTES"@ != "BUGSEE_SIZE_ANALYSIS_ENABLED"@,
        "BUGSEE_SIZE_CHECK_ENABLED"@ != "BUGSEE_CHUNKED_UPLOAD"@,
        "BUGSEE_SIZE_CHECK_WARNING_PCT"@ != "BUGSEE_CHUNKED_UPLOAD"@,
        "BUGSEE_SIZE_CHECK_FAIL_PCT"@ != "BUGSEE_CHUNKED_UPLOAD"@,
        "BUGSEE_SIZE_CHECK_WARNING_BYTES"@ != "BUGSEE_CHUNKED_UPLOAD"@,
        "BUGSEE_SIZE_CHECK_FAIL_BYTES"@ != "BUGSEE_CHUNKED_UPLOAD"@,
        "BUGSEE_SIZE_CHECK_WARNING_PCT"@ != "BUGSEE_SIZE_CHECK_ENABLED"@,
        "BUGSEE_SIZE_CHECK_FAIL_PCT"@ != "BUGSEE_SIZE_CHECK_ENABLED"@,
        "BUGSEE_SIZE_CHECK_WARNING_BYTES"@ != "BUGSEE_SIZE_CHECK_ENABLED"@,
        "BUGSEE_SIZE_CHECK_FAIL_BYTES"@ != "BUGSEE_SIZE_CHECK_ENABLED"@,
        "BUGSEE_SIZE_CHECK_FAIL_PCT"@ != "BUGSEE_SIZE_CHECK_WARNING_PCT"@,
        "BUGSEE_SIZE_CHECK_WARNING_BYTES"@ != "BUGSEE_SIZE_CHECK_WARNING_PCT"@,
        "BUGSEE_SIZE_CHECK_FAIL_BYTES"@ != "BUGSEE_SIZE_CHECK_WARNING_PCT"@,
        "BUGSEE_SIZE_CHECK_WARNING_BYTES"@ != "BUGSEE_SIZE_CHECK_FAIL_PCT"@,
        "BUGSEE_SIZE_CHECK_FAIL_BYTES"@ != "BUGSEE_SIZE_CHECK_FAIL_PCT"@,
        "BUGSEE_SIZE_CHECK_FAIL_BYTES"@ != "BUGSEE_SIZE_CHECK_WARNING_BYTES"@,
{
    reveal_strlit("BUGSEE_BUILD_INFO_ENABLED");
    reveal_strlit("BUGSEE_BUILD_INFO_ALL_ACTIONS");
    reveal_strlit("BUGSEE_BUILD_INFO_ALL_CONFIGURATIONS");
    reveal_strlit("BUGSEE_SIZE_ANALYSIS_ALL_CONFIGURATIONS");
    reveal_strlit("BUGSEE_DEPENDENCIES_ENABLED");
    reveal_strlit("BUGSEE_BUILD_INFO_TIMINGS_ENABLED");
    reveal_strlit("BUGSEE_SIZE_ANALYSIS_ENABLED");
    reveal_strlit("BUGSEE_CHUNKED_UPLOAD");
    reveal_strlit("BUGSEE_SIZE_CHECK_ENABLED");
    reveal_strlit("BUGSEE_SIZE_CHECK_WARNING_PCT");
    reveal_strlit("BUGSEE_SIZE_CHECK_FAIL_PCT");
    reveal_strlit("BUGSEE_SIZE_CHECK_WARNING_BYTES");
    reveal_strlit("BUGSEE_SIZE_CHECK_FAIL_BYTES");
    assert("BUGSEE_BUILD_INFO_ENABLED"@.len() != "BUGSEE_BUILD_INFO_ALL_ACTIONS"@.len());
    assert("BUGSEE_BUILD_INFO_ENABLED"@.len() != "BUGSEE_BUILD_INFO_ALL_CONFIGURATIONS"@.len());
    assert("BUGSEE_BUILD_INFO_ENABLED"@.len() != "BUGSEE_SIZE_ANALYSIS_ALL_CONFIGURATIONS"@.len());
    assert("BUGSEE_BUILD_INFO_ENABLED"@.len() != "BUGSEE_DEPENDENCIES_ENABLED"@.len());
    assert("BUGSEE_BUILD_INFO_ENABLED"@.len() != "BUGSEE_BUILD_INFO_TIMINGS_ENABLED"@.len());
    assert("BUGSEE_BUILD_INFO_ENABLED"@.len() != "BUGSEE_SIZE_ANALYSIS_ENABLED"@.len());
    assert("BUGSEE_BUILD_INFO_ENABLED"@.len() != "BUGSEE_CHUNKED_UPLOAD"@.len());
    assert("BUGSEE_BUILD_INFO_ENABLED"@[7] != "BUGSEE_SIZE_CHECK_ENABLED"@[7]);
    assert("BUGSEE_BUILD_INFO_ENABLED"@.len() != "BUGSEE_SIZE_CHECK_WARNING_PCT"@.len());
    assert("BUGSEE_BUILD_INFO_ENABLED"@.len() != "BUGSEE_SIZE_CHECK_FAIL_PCT"@.len());
    assert("BUGSEE_BUILD_INFO_ENABLED"@.len() != "BUGSEE_SIZE_CHECK_WARNING_BYTES"@.len());
    assert("BUGSEE_BUILD_INFO_ENABLED"@.len() != "BUGSEE_SIZE_CHECK_FAIL_BYTES"@.len());
    assert("BUGSEE_BUILD_INFO_ALL_ACTIONS"@.len() != "BUGSEE_BUILD_INFO_ALL_CONFIGURATIONS"@.len());
    assert("BUGSEE_BUILD_INFO_ALL_ACTIONS"@.len() != "BUGSEE_SIZE_ANALYSIS_ALL_CONFIGURATIONS"@.len());
    assert("BUGSEE_BUILD_INFO_ALL_ACTIONS"@.len() != "BUGSEE_DEPENDENCIES_ENABLED"@.len());
    assert("BUGSEE_BUILD_INFO_ALL_ACTIONS"@.len() != "BUGSEE_BUILD_INFO_TIMINGS_ENABLED"@.len());
    assert("BUGSEE_BUILD_INFO_ALL_ACTIONS"@.len() != "BUGSEE_SIZE_ANALYSIS_ENABLED"@.len());
    assert("BUGSEE_BUILD_INFO_ALL_ACTIONS"@.len() != "BUGSEE_CHUNKED_UPLOAD"@.len());
    assert("BUGSEE_BUILD_INFO_ALL_ACTIONS"@.len() != "BUGSEE_SIZE_CHECK_ENABLED"@.len());
    assert("BUGSEE_BUILD_INFO_ALL_ACTIONS"@[7] != "BUGSEE_SIZE_CHECK_WARNING_PCT"@[7]);
    assert("BUGSEE_BUILD_INFO_ALL_ACTIONS"@.len() != "BUGSEE_SIZE_CHECK_FAIL_PCT"@.len());
    assert("BUGSEE_BUILD_INFO_ALL_ACTIONS"@.len() != "BUGSEE_SIZE_CHECK_WARNING_BYTES"@.len());
    assert("BUGSEE_BUILD_INFO_ALL_ACTIONS"@.len() != "BUGSEE_SIZE_CHECK_FAIL_BYTES"@.len());
    assert("BUGSEE_BUILD_INFO_ALL_CONFIGURATIONS"@.len() != "BUGSEE_SIZE_ANALYSIS_ALL_CONFIGURATIONS"@.len());
    assert("BUGSEE_BUILD_INFO_ALL_CONFIGURATIONS"@.len() != "BUGSEE_DEPENDENCIES_ENABLED"@.len());
    assert("BUGSEE_BUILD_INFO_ALL_CONFIGURATIONS"@.len() != "BUGSEE_BUILD_INFO_TIMINGS_ENABLED"@.len());
    assert("BUGSEE_BUILD_INFO_ALL_CONFIGURATIONS"@.len() != "BUGSEE_SIZE_ANALYSIS_ENABLED"@.len());
    assert("BUGSEE_BUILD_INFO_ALL_CONFIGURATIONS"@.len() != "BUGSEE_CHUNKED_UPLOAD"@.len());
    assert("BUGSEE_BUILD_INFO_ALL_CONFIGURATIONS"@.len() != "BUGSEE_SIZE_CHECK_ENABLED"@.len());
    assert("BUGSEE_BUILD_INFO_ALL_CONFIGURATIONS"@.len() != "BUGSEE_SIZE_CHECK_WARNING_PCT"@.len());
    assert("BUGSEE_BUILD_INFO_ALL_CONFIGURATIONS"@.len() != "BUGSEE_SIZE_CHECK_FAIL_PCT"@.len());
    assert("BUGSEE_BUILD_INFO_ALL_CONFIGURATIONS"@.len() != "BUGSEE_SIZE_CHECK_WARNING_BYTES"@.len());
    assert("BUGSEE_BUILD_INFO_ALL_CONFIGURATIONS"@.len() != "BUGSEE_SIZE_CHECK_FAIL_BYTES"@.len());
    assert("BUGSEE_SIZE_ANALYSIS_ALL_CONFIGURATIONS"@.len() != "BUGSEE_DEPENDENCIES_ENABLED"@.len());
    assert("BUGSEE_SIZE_ANALYSIS_ALL_CONFIGURATIONS"@.len() != "BUGSEE_BUILD_INFO_TIMINGS_ENABLED"@.len());
    assert("BUGSEE_SIZE_ANALYSIS_ALL_CONFIGURATIONS"@.len() != "BUGSEE_SIZE_ANALYSIS_ENABLED"@.len());
    assert("BUGSEE_SIZE_ANALYSIS_ALL_CONFIGURATIONS"@.len() != "BUGSEE_CHUNKED_UPLOAD"@.len());
    assert("BUGSEE_SIZE_ANALYSIS_ALL_CONFIGURATIONS"@.len() != "BUGSEE_SIZE_CHECK_ENABLED"@.len());
    assert("BUGSEE_SIZE_ANALYSIS_ALL_CONFIGURATIONS"@.len() != "BUGSEE_SIZE_CHECK_WARNING_PCT"@.len());
    assert("BUGSEE_SIZE_ANALYSIS_ALL_CONFIGURATIONS"@.len() != "BUGSEE_SIZE_CHECK_FAIL_PCT"@.len());
    assert("BUGSEE_SIZE_ANALYSIS_ALL_CONFIGURATIONS"@.len() != "BUGSEE_SIZE_CHECK_WARNING_BYTES"@.len());
    assert("BUGSEE_SIZE_ANALYSIS_ALL_CONFIGURATIONS"@.len() != "BUGSEE_SIZE_CHECK_FAIL_BYTES"@.len());
    assert("BUGSEE_DEPENDENCIES_ENABLED"@.len() != "BUGSEE_BUILD_INFO_TIMINGS_ENABLED"@.len());
    assert("BUGSEE_DEPENDENCIES_ENABLED"@.len() != "BUGSEE_SIZE_ANALYSIS_ENABLED"@.len());
    assert("BUGSEE_DEPENDENCIES_ENABLED"@.len() != "BUGSEE_CHUNKED_UPLOAD"@.len());
    assert("BUGSEE_DEPENDENCIES_ENABLED"@.len() != "BUGSEE_SIZE_CHECK_ENABLED"@.len());
    assert("BUGSEE_DEPENDENCIES_ENABLED"@.len() != "BUGSEE_SIZE_CHECK_WARNING_PCT"@.len());
    assert("BUGSEE_DEPENDENCIES_ENABLED"@.len() != "BUGSEE_SIZE_CHECK_FAIL_PCT"@.len());
    assert("BUGSEE_DEPENDENCIES_ENABLED"@.len() != "BUGSEE_SIZE_CHECK_WARNING_BYTES"@.len());
    assert("BUGSEE_DEPENDENCIES_ENABLED"@.len() != "BUGSEE_SIZE_CHECK_FAIL_BYTES"@.len());
    assert("BUGSEE_BUILD_INFO_TIMINGS_ENABLED"@.len() != "BUGSEE_SIZE_ANALYSIS_ENABLED"@.len());
    assert("BUGSEE_BUILD_INFO_TIMINGS_ENABLED"@.len() != "BUGSEE_CHUNKED_UPLOAD"@.len());
    assert("BUGSEE_BUILD_INFO_TIMINGS_ENABLED"@.len() != "BUGSEE_SIZE_CHECK_ENABLED"@.len());
    assert("BUGSEE_BUILD_INFO_TIMINGS_ENABLED"@.len() != "BUGSEE_SIZE_CHECK_WARNING_PCT"@.len());
    assert("BUGSEE_BUILD_INFO_TIMINGS_ENABLED"@.len() != "BUGSEE_SIZE_CHECK_FAIL_PCT"@.len());
    assert("BUGSEE_BUILD_INFO_TIMINGS_ENABLED"@.len() != "BUGSEE_SIZE_CHECK_WARNING_BYTES"@.len());
    assert("BUGSEE_BUILD_INFO_TIMINGS_ENABLED"@.len() != "BUGSEE_SIZE_CHECK_FAIL_BYTES"@.len());
    assert("BUGSEE_SIZE_ANALYSIS_ENABLED"@.len() != "BUGSEE_CHUNKED_UPLOAD"@.len());
    assert("BUGSEE_SIZE_ANALYSIS_ENABLED"@.len() != "BUGSEE_SIZE_CHECK_ENABLED"@.len());
    assert("BUGSEE_SIZE_ANALYSIS_ENABLED"@.len() != "BUGSEE_SIZE_CHECK_WARNING_PCT"@.len());
    assert("BUGSEE_SIZE_ANALYSIS_ENABLED"@.len() != "BUGSEE_SIZE_CHECK_FAIL_PCT"@.len());
    assert("BUGSEE_SIZE_ANALYSIS_ENABLED"@.len() != "BUGSEE_SIZE_CHECK_WARNING_BYTES"@.len());
    assert("BUGSEE_SIZE_ANALYSIS_ENABLED"@[12] != "BUGSEE_SIZE_CHECK_FAIL_BYTES"@[12]);
    assert("BUGSEE_CHUNKED_UPLOAD"@.len() != "BUGSEE_SIZE_CHECK_ENABLED"@.len());
    assert("BUGSEE_CHUNKED_UPLOAD"@.len() != "BUGSEE_SIZE_CHECK_WARNING_PCT"@.len());
    assert("BUGSEE_CHUNKED_UPLOAD"@.len() != "BUGSEE_SIZE_CHECK_FAIL_PCT"@.len());
    assert("BUGSEE_CHUNKED_UPLOAD"@.len() != "BUGSEE_SIZE_CHECK_WARNING_BYTES"@.len());
    assert("BUGSEE_CHUNKED_UPLOAD"@.len() != "BUGSEE_SIZE_CHECK_FAIL_BYTES"@.len());
    assert("BUGSEE_SIZE_CHECK_ENABLED"@.len() != "BUGSEE_SIZE_CHECK_WARNING_PCT"@.len());
    assert("BUGSEE_SIZE_CHECK_ENABLED"@.len() != "BUGSEE_SIZE_CHECK_FAIL_PCT"@.len());
    assert("BUGSEE_SIZE_CHECK_ENABLED"@.len() != "BUGSEE_SIZE_CHECK_WARNING_BYTES"@.len());
    assert("BUGSEE_SIZE_CHECK_ENABLED"@.len() != "BUGSEE_SIZE_CHECK_FAIL_BYTES"@.len());
    assert("BUGSEE_SIZE_CHECK_WARNING_PCT"@.len() != "BUGSEE_SIZE_CHECK_FAIL_PCT"@.len());
    assert("BUGSEE_SIZE_CHECK_WARNING_PCT"@.len() != "BUGSEE_SIZE_CHECK_WARNING_BYTES"@.len());
    assert("BUGSEE_SIZE_CHECK_WARNING_PCT"@.len() != "BUGSEE_SIZE_CHECK_FAIL_BYTES"@.len());
    assert("BUGSEE_SIZE_CHECK_FAIL_PCT"@.len() != "BUGSEE_SIZE_CHECK_WARNING_BYTES"@.len());
    assert("BUGSEE_SIZE_CHECK_FAIL_PCT"@.len() != "BUGSEE_SIZE_CHECK_FAIL_BYTES"@.len());
    assert("BUGSEE_SIZE_CHECK_WARNING_BYTES"@.len() != "BUGSEE_SIZE_CHECK_FAIL_BYTES"@.len());
}

/// A pair of flags switches a variable: on with `1`, off with `0`, and otherwise it stays.
pub open spec fn is_switched(
    m: Map<Seq<char>, Seq<char>>,
    r: Map<Seq<char>, Seq<char>>,
    key: Seq<char>,
    enable: bool,
    disable: bool,
) -> bool {
    &&& enable ==> lookup(r, key) == Some("1"@)
    &&& !enable && disable ==> lookup(r, key) == Some("0"@)
    &&& !enable && !disable ==> lookup(r, key) == lookup(m, key)
}

/// Every pair of flags switches the variable that it speaks for, the pair on configurations
/// both names of its variable; thresholds that are given are written into theirs; and no
/// other variable changes.
pub proof fn law_flags_speak_for_their_variables(
    m: Map<Seq<char>, Seq<char>>,
    o: PostActionOverrides,
    r: Map<Seq<char>, Seq<char>>,
)
    requires
        overlaid(m, o, r),
    ensures
        is_switched(
            m,
            r,
            "BUGSEE_BUILD_INFO_ENABLED"@,
            o.enable_build_info,
            o.disable_build_info,
        ),
        is_switched(
            m,
            r,
            "BUGSEE_BUILD_INFO_ALL_ACTIONS"@,
            o.enable_all_actions,
            o.disable_all_actions,
        ),
        is_switched(
            m,
            r,
            "BUGSEE_BUILD_INFO_ALL_CONFIGURATIONS"@,
            o.enable_all_configurations,
            o.disable_all_configurations,
        ),
        is_switched(
            m,
            r,
            "BUGSEE_SIZE_ANALYSIS_ALL_CONFIGURATIONS"@,
            o.enable_all_configurations,
            o.disable_all_configurations,
        ),
        is_switched(
            m,
            r,
            "BUGSEE_DEPENDENCIES_ENABLED"@,
            o.enable_dependencies,
            o.disable_dependencies,
        ),
        is_switched(
            m,
            r,
            "BUGSEE_BUILD_INFO_TIMINGS_ENABLED"@,
            o.enable_timings,
            o.disable_timings,
        ),
        is_switched(
            m,
            r,
            "BUGSEE_SIZE_ANALYSIS_ENABLED"@,
            o.enable_size_analysis,
            o.disable_size_analysis,
        ),
        is_switched(
            m,
            r,
            "BUGSEE_CHUNKED_UPLOAD"@,
            o.enable_chunked_upload,
            o.disable_chunked_upload,
        ),
        is_switched(
            m,
            r,
            "BUGSEE_SIZE_CHECK_ENABLED"@,
            o.enable_size_check,
            o.disable_size_check,
        ),
        o.size_check_warning_pct is Some ==> lookup(r, "BUGSEE_SIZE_CHECK_WARNING_PCT"@) == Some(
            o.size_check_warning_pct->0@,
        ),
        o.size_check_fail_pct is Some ==> lookup(r, "BUGSEE_SIZE_CHECK_FAIL_PCT"@) == Some(
            o.size_check_fail_pct->0@,
        ),
        o.size_check_warning_bytes is Some ==> lookup(r, "BUGSEE_SIZE_CHECK_WARNING_BYTES"@)
            == Some(signed_decimal(o.size_check_warning_bytes->0 as int)),
        o.size_check_fail_bytes is Some ==> lookup(r, "BUGSEE_SIZE_CHECK_FAIL_BYTES"@) == Some(
            signed_decimal(o.size_check_fail_bytes->0 as int),
        ),
        o.size_check_warning_pct is None ==> lookup(r, "BUGSEE_SIZE_CHECK_WARNING_PCT"@) == lookup(
            m,
            "BUGSEE_SIZE_CHECK_WARNING_PCT"@,
        ),
        o.size_check_fail_pct is None ==> lookup(r, "BUGSEE_SIZE_CHECK_FAIL_PCT"@) == lookup(
            m,
            "BUGSEE_SIZE_CHECK_FAIL_PCT"@,
        ),
        o.size_check_warning_bytes is None ==> lookup(r, "BUGSEE_SIZE_CHECK_WARNING_BYTES"@)
            == lookup(m, "BUGSEE_SIZE_CHECK_WARNING_BYTES"@),
        o.size_check_fail_bytes is None ==> lookup(r, "BUGSEE_SIZE_CHECK_FAIL_BYTES"@) == lookup(
            m,
            "BUGSEE_SIZE_CHECK_FAIL_BYTES"@,
        ),
        lookup(r, "ACTION"@) == lookup(m, "ACTION"@),
        lookup(r, "CONFIGURATION"@) == lookup(m, "CONFIGURATION"@),
        lookup(r, "ARCHIVE_PATH"@) == lookup(m, "ARCHIVE_PATH"@),
{
    lemma_flag_keys();
    reveal_strlit("ACTION");
    reveal_strlit("CONFIGURATION");
    reveal_strlit("ARCHIVE_PATH");
    lemma_no_flag(o, "ACTION"@);
    lemma_no_flag(o, "CONFIGURATION"@);
    lemma_no_flag(o, "ARCHIVE_PATH"@);
    lemma_overlaid_at(m, o, r, "ACTION"@);
    lemma_overlaid_at(m, o, r, "CONFIGURATION"@);
    lemma_overlaid_at(m, o, r, "ARCHIVE_PATH"@);
    lemma_overlaid_at(m, o, r, "BUGSEE_BUILD_INFO_ENABLED"@);
    lemma_overlaid_at(m, o, r, "BUGSEE_BUILD_INFO_ALL_ACTIONS"@);
    lemma_overlaid_at(m, o, r, "BUGSEE_BUILD_INFO_ALL_CONFIGURATIONS"@);
    lemma_overlaid_at(m, o, r, "BUGSEE_SIZE_ANALYSIS_ALL_CONFIGURATIONS"@);
    lemma_overlaid_at(m, o, r, "BUGSEE_DEPENDENCIES_ENABLED"@);
    lemma_overlaid_at(m, o, r, "BUGSEE_BUILD_INFO_TIMINGS_ENABLED"@);
    lemma_overlaid_at(m, o, r, "BUGSEE_SIZE_ANALYSIS_ENABLED"@);
    lemma_overlaid_at(m, o, r, "BUGSEE_CHUNKED_UPLOAD"@);
    lemma_overlaid_at(m, o, r, "BUGSEE_SIZE_CHECK_ENABLED"@);
    lemma_overlaid_at(m, o, r, "BUGSEE_SIZE_CHECK_WARNING_PCT"@);
    lemma_overlaid_at(m, o, r, "BUGSEE_SIZE_CHECK_FAIL_PCT"@);
    lemma_overlaid_at(m, o, r, "BUGSEE_SIZE_CHECK_WARNING_BYTES"@);
    lemma_overlaid_at(m, o, r, "BUGSEE_SIZE_CHECK_FAIL_BYTES"@);
}

/// A name shorter than those that flags speak for is none of them.
proof fn lemma_no_flag(o: PostActionOverrides, k: Seq<char>)
    requires
        k.len() < 21,
    ensures
        flag_value(o, k) is None,
{
    reveal_strlit("BUGSEE_BUILD_INFO_ENABLED");
    reveal_strlit("BUGSEE_BUILD_INFO_ALL_ACTIONS");
    reveal_strlit("BUGSEE_BUILD_INFO_ALL_CONFIGURATIONS");
    reveal_strlit("BUGSEE_SIZE_ANALYSIS_ALL_CONFIGURATIONS");
    reveal_strlit("BUGSEE_DEPENDENCIES_ENABLED");
    reveal_strlit("BUGSEE_BUILD_INFO_TIMINGS_ENABLED");
    reveal_strlit("BUGSEE_SIZE_ANALYSIS_ENABLED");
    reveal_strlit("BUGSEE_CHUNKED_UPLOAD");
    reveal_strlit("BUGSEE_SIZE_CHECK_ENABLED");
    reveal_strlit("BUGSEE_SIZE_CHECK_WARNING_PCT");
    reveal_strlit("BUGSEE_SIZE_CHECK_FAIL_PCT");
    reveal_strlit("BUGSEE_SIZE_CHECK_WARNING_BYTES");
    reveal_strlit("BUGSEE_SIZE_CHECK_FAIL_BYTES");
}

proof fn lemma_overlaid_at(
    m: Map<Seq<char>, Seq<char>>,
    o: PostActionOverrides,
    r: Map<Seq<char>, Seq<char>>,
    k: Seq<char>,
)
    requires
        overlaid(m, o, r),
    ensures
        lookup(r, k) == preferred(flag_value(o, k), lookup(m, k)),
{
}

/// When the post-action runs, in full: after an archive action whose archive is a directory,
/// or after any action where that was asked for and the build directory is one; unless it is
/// switched off; and for configurations whose name begins with `release` in any case, or for
/// all where either variable asks for them.
pub proof fn law_when_the_post_action_runs(
    m: Map<Seq<char>, Seq<char>>,
    archive_is_dir: bool,
    build_dir_is_dir: bool,
)
    ensures
        gate_of(m, archive_is_dir, build_dir_is_dir) == GateView::Run <==> {
            &&& {
                ||| trimmed_var(m, "ACTION"@) == "install"@ && trimmed_var(
                    m,
                    "ARCHIVE_PATH"@,
                ).len() > 0 && archive_is_dir
                ||| truthy(lookup(m, "BUGSEE_BUILD_INFO_ALL_ACTIONS"@)) && trimmed_var(
                    m,
                    "TARGET_BUILD_DIR"@,
                ).len() > 0 && build_dir_is_dir
            }
            &&& truthy_by_default(lookup(m, "BUGSEE_BUILD_INFO_ENABLED"@))
            &&& has_prefix(lowered(trimmed_var(m, "CONFIGURATION"@)), "release"@) || truthy(
                lookup(m, "BUGSEE_BUILD_INFO_ALL_CONFIGURATIONS"@),
            ) || truthy(lookup(m, "BUGSEE_SIZE_ANALYSIS_ALL_CONFIGURATIONS"@))
        },
{
}

/// Why the post-action does not run, as it is told: an archive that is not there, an action
/// that leaves none, a switch that is off, or a configuration that is not for release.
pub proof fn law_why_the_post_action_does_not_run(m: Map<Seq<char>, Seq<char>>)
    ensures
        ({
            let r = gate_of(m, false, false);
            let s = gate_of(m, true, true);
            let action = trimmed_var(m, "ACTION"@);
            let all = truthy(lookup(m, "BUGSEE_BUILD_INFO_ALL_ACTIONS"@));
            let found = (action == "install"@ && trimmed_var(m, "ARCHIVE_PATH"@).len() > 0) || (all
                && trimmed_var(m, "TARGET_BUILD_DIR"@).len() > 0);
            let on = truthy_by_default(lookup(m, "BUGSEE_BUILD_INFO_ENABLED"@));
            &&& action == "install"@ ==> r == GateView::Skip(
                "build-info upload could not locate the .xcarchive (ARCHIVE_PATH="@ + debug_quoted(
                    trimmed_var(m, "ARCHIVE_PATH"@),
                ) + ")"@,
            )
            &&& action != "install"@ && all ==> r == GateView::Skip(
                "BUGSEE_BUILD_INFO_ALL_ACTIONS is set but TARGET_BUILD_DIR is missing — cannot locate the .app"@,
            )
            &&& action != "install"@ && !all ==> r == GateView::Skip(
                "build-info upload requires an Archive action (got ACTION="@ + debug_quoted(action)
                    + "); set BUGSEE_BUILD_INFO_ALL_ACTIONS=1 to also register on plain Build actions"@,
            )
            &&& found && !on ==> s == GateView::Skip("BUGSEE_BUILD_INFO_ENABLED is disabled"@)
            &&& found && on && s != GateView::Run ==> s == GateView::Skip(
                "build-info upload skipped for configuration "@ + debug_quoted(
                    trimmed_var(m, "CONFIGURATION"@),
                )
                    + " (set BUGSEE_BUILD_INFO_ALL_CONFIGURATIONS=1 to include non-Release configurations)"@,
            )
        }),
{
}

} // verus!

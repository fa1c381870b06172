//! The post-action step by step: what is done next, given what came of the step
//! before, and what is reported at the end.
use crate::env::{
    Env, env_truthy, env_truthy_default_true, lookup, trimmed_var, truthy, truthy_by_default,
};
use crate::error::{Error, Failure, config_invalid, failure};
use crate::paths::{Part, PathPart, has_path, parse_path, part_views, path_parts, paths_of};
use crate::size_check::Verdict;
use crate::text::opt_str;
use crate::xcode::{Gate, GateView, gate_of, should_run};
use crate::xcode_app::{app_of, find_app};
use vstd::prelude::*;
use vstd::string::*;

verus! {

/// Whether the post-action goes ahead, and on which app.
#[derive(Debug, PartialEq, Eq)]
pub enum Admission {
    /// It does not, for the reason given.
    Skipped(String),
    /// It does not: there is no app.
    NoApp,
    /// It does.
    Admitted(Vec<Part>),
}

pub open spec fn archive_exists(m: Map<Seq<char>, Seq<char>>, dirs: Seq<Seq<PathPart>>) -> bool {
    dirs.contains(path_parts(trimmed_var(m, "ARCHIVE_PATH"@)))
}

pub open spec fn build_dir_exists(m: Map<Seq<char>, Seq<char>>, dirs: Seq<Seq<PathPart>>) -> bool {
    dirs.contains(path_parts(trimmed_var(m, "TARGET_BUILD_DIR"@)))
}

pub open spec fn gate_on(m: Map<Seq<char>, Seq<char>>, dirs: Seq<Seq<PathPart>>) -> GateView {
    gate_of(m, archive_exists(m, dirs), build_dir_exists(m, dirs))
}

/// Whether the post-action goes ahead: it must be called for, an app token is then
/// required, and without an app there is nothing to do. `dirs` are the directories that
/// exist.
pub fn admission(env: &Env, dirs: &Vec<Vec<Part>>, app_token: &Option<String>) -> (r: Result<
    Admission,
    Error,
>)
    ensures
        match gate_on(env@, paths_of(dirs@)) {
            GateView::Skip(reason) => r is Ok && r->Ok_0 is Skipped && r->Ok_0->Skipped_0@
                == reason,
            GateView::Run => if app_token is None {
                failure(r) == Some(
                    Failure::ConfigInvalid(
                        "--app-token (or BUGSEE_APP_TOKEN) is required for `xcode post-action` (it registers the build with Bugsee)"@,
                    ),
                )
            } else {
                match app_of(env@, paths_of(dirs@)) {
                    Some(p) => r is Ok && r->Ok_0 is Admitted && part_views(r->Ok_0->Admitted_0@)
                        == p,
                    None => r is Ok && r->Ok_0 is NoApp,
                }
            },
        },
{
    let archive = env.trimmed("ARCHIVE_PATH");
    let archive_path = parse_path(archive.as_str());
    let build_dir = env.trimmed("TARGET_BUILD_DIR");
    let build_path = parse_path(build_dir.as_str());
    match should_run(env, has_path(dirs, &archive_path), has_path(dirs, &build_path)) {
        Gate::Skip(reason) => {
            return Ok(Admission::Skipped(reason));
        },
        Gate::Run => {},
    }
    if app_token.is_none() {
        return Err(
            config_invalid(
                "--app-token (or BUGSEE_APP_TOKEN) is required for `xcode post-action` (it registers the build with Bugsee)",
            ),
        );
    }
    match find_app(env, dirs) {
        Some(p) => Ok(Admission::Admitted(p)),
        None => Ok(Admission::NoApp),
    }
}

/// What is done next.
#[derive(Debug, Clone, Copy, PartialEq, Eq, Structural)]
pub enum Step {
    CollectDependencies,
    DecodeTimings,
    /// Pack the app into an archive.
    Package,
    /// Ask for the size of the build before.
    FetchBaseline,
    /// Register the build; with its archive or without, in chunks or at once.
    Register { with_artifact: bool, chunked: bool },
    UploadSymbols,
    CheckSize,
    /// All is done.
    Report,
}

/// What came of a step.
#[derive(Debug)]
pub enum Outcome {
    /// Whether there is a list of dependencies to send.
    Dependencies(bool),
    /// Whether there is a timeline to send.
    Timings(bool),
    /// The size of the archive, where it could be packed.
    Packaged(Option<u64>),
    /// Whether there is something to check the size against.
    Baseline(bool),
    /// Whether the build was registered and what was to go with it was sent.
    Registered(bool),
    /// Whether the debug symbols were sent.
    Symbols(bool),
    /// What the check of the size came to, with its line.
    Checked(Verdict, String),
}

/// What came of a step, as text and numbers.
pub enum OutcomeView {
    Dependencies(bool),
    Timings(bool),
    Packaged(Option<u64>),
    Baseline(bool),
    Registered(bool),
    Symbols(bool),
    Checked(Verdict, Seq<char>),
}

impl View for Outcome {
    type V = OutcomeView;

    open spec fn view(&self) -> OutcomeView {
        match self {
            Outcome::Dependencies(b) => OutcomeView::Dependencies(*b),
            Outcome::Timings(b) => OutcomeView::Timings(*b),
            Outcome::Packaged(s) => OutcomeView::Packaged(*s),
            Outcome::Baseline(b) => OutcomeView::Baseline(*b),
            Outcome::Registered(b) => OutcomeView::Registered(*b),
            Outcome::Symbols(b) => OutcomeView::Symbols(*b),
            Outcome::Checked(v, l) => OutcomeView::Checked(*v, l@),
        }
    }
}

/// A run of the post-action: what is done next, what was asked for, and what came of
/// the steps so far.
#[derive(Debug)]
pub struct PostActionRun {
    pub step: Step,
    pub want_timings: bool,
    pub want_size_analysis: bool,
    pub want_chunks: bool,
    pub deps_collected: bool,
    pub timings_collected: bool,
    /// The size of the archive, where the app was packed.
    pub artifact_size: Option<u64>,
    pub prepared: bool,
    pub registered: bool,
    pub dsym_uploaded: bool,
    pub checked: Option<(Verdict, String)>,
}

/// A run of the post-action, as text and numbers.
pub struct RunView {
    pub step: Step,
    pub want_timings: bool,
    pub want_size_analysis: bool,
    pub want_chunks: bool,
    pub deps_collected: bool,
    pub timings_collected: bool,
    pub artifact_size: Option<u64>,
    pub prepared: bool,
    pub registered: bool,
    pub dsym_uploaded: bool,
    pub checked: Option<(Verdict, Seq<char>)>,
}

impl View for PostActionRun {
    type V = RunView;

    open spec fn view(&self) -> RunView {
        RunView {
            step: self.step,
            want_timings: self.want_timings,
            want_size_analysis: self.want_size_analysis,
            want_chunks: self.want_chunks,
            deps_collected: self.deps_collected,
            timings_collected: self.timings_collected,
            artifact_size: self.artifact_size,
            prepared: self.prepared,
            registered: self.registered,
            dsym_uploaded: self.dsym_uploaded,
            checked: match self.checked {
                Some((v, l)) => Some((v, l@)),
                None => None,
            },
        }
    }
}

impl RunView {
    /// The archive goes with the record: that was asked for, and there is one.
    pub open spec fn sends_artifact(self) -> bool {
        self.want_size_analysis && self.artifact_size is Some
    }
}

pub open spec fn step_after_deps(want_timings: bool) -> Step {
    if want_timings {
        Step::DecodeTimings
    } else {
        Step::Package
    }
}

/// A run at its beginning. Dependencies and timings are left out only where that was
/// asked for; the archive is sent, and in chunks, only where that was asked for.
pub open spec fn first_run(m: Map<Seq<char>, Seq<char>>) -> RunView {
    let want_timings = truthy_by_default(lookup(m, "BUGSEE_BUILD_INFO_TIMINGS_ENABLED"@));
    RunView {
        step: if truthy_by_default(lookup(m, "BUGSEE_DEPENDENCIES_ENABLED"@)) {
            Step::CollectDependencies
        } else {
            step_after_deps(want_timings)
        },
        want_timings,
        want_size_analysis: truthy(lookup(m, "BUGSEE_SIZE_ANALYSIS_ENABLED"@)),
        want_chunks: truthy(lookup(m, "BUGSEE_CHUNKED_UPLOAD"@)),
        deps_collected: false,
        timings_collected: false,
        artifact_size: None,
        prepared: false,
        registered: false,
        dsym_uploaded: false,
        checked: None,
    }
}

/// The run after a step. An outcome of another step changes nothing.
pub open spec fn run_after(s: RunView, o: OutcomeView) -> RunView {
    match (s.step, o) {
        (Step::CollectDependencies, OutcomeView::Dependencies(b)) => RunView {
            step: step_after_deps(s.want_timings),
            deps_collected: b,
            ..s
        },
        (Step::DecodeTimings, OutcomeView::Timings(b)) => RunView {
            step: Step::Package,
            timings_collected: b,
            ..s
        },
        (Step::Package, OutcomeView::Packaged(size)) => RunView {
            step: Step::FetchBaseline,
            artifact_size: size,
            ..s
        },
        (Step::FetchBaseline, OutcomeView::Baseline(b)) => RunView {
            step: Step::Register {
                with_artifact: s.sends_artifact(),
                chunked: s.sends_artifact() && s.want_chunks,
            },
            prepared: b,
            ..s
        },
        (Step::Register { .. }, OutcomeView::Registered(b)) => RunView {
            step: Step::UploadSymbols,
            registered: b,
            ..s
        },
        (Step::UploadSymbols, OutcomeView::Symbols(b)) => RunView {
            step: if s.prepared && s.artifact_size is Some {
                Step::CheckSize
            } else {
                Step::Report
            },
            dsym_uploaded: b,
            ..s
        },
        (Step::CheckSize, OutcomeView::Checked(v, l)) => RunView {
            step: Step::Report,
            checked: Some((v, l)),
            ..s
        },
        _ => s,
    }
}

impl PostActionRun {
    /// A run at its beginning.
    pub fn begin(env: &Env) -> (r: PostActionRun)
        ensures
            r@ == first_run(env@),
    {
        let want_timings = env_truthy_default_true(env.get("BUGSEE_BUILD_INFO_TIMINGS_ENABLED"));
        PostActionRun {
            step: if env_truthy_default_true(env.get("BUGSEE_DEPENDENCIES_ENABLED")) {
                Step::CollectDependencies
            } else if want_timings {
                Step::DecodeTimings
            } else {
                Step::Package
            },
            want_timings,
            want_size_analysis: env_truthy(env.get("BUGSEE_SIZE_ANALYSIS_ENABLED")),
            want_chunks: env_truthy(env.get("BUGSEE_CHUNKED_UPLOAD")),
            deps_collected: false,
            timings_collected: false,
            artifact_size: None,
            prepared: false,
            registered: false,
            dsym_uploaded: false,
            checked: None,
        }
    }

    /// Takes what came of a step and goes on to the next.
    pub fn advance(&mut self, outcome: Outcome)
        ensures
            final(self)@ == run_after(old(self)@, outcome@),
    {
        let sends = self.want_size_analysis && self.artifact_size.is_some();
        match (self.step, outcome) {
            (Step::CollectDependencies, Outcome::Dependencies(b)) => {
                self.deps_collected = b;
                self.step = if self.want_timings {
                    Step::DecodeTimings
                } else {
                    Step::Package
                };
            },
            (Step::DecodeTimings, Outcome::Timings(b)) => {
                self.timings_collected = b;
                self.step = Step::Package;
            },
            (Step::Package, Outcome::Packaged(size)) => {
                self.artifact_size = size;
                self.step = Step::FetchBaseline;
            },
            (Step::FetchBaseline, Outcome::Baseline(b)) => {
                self.prepared = b;
                self.step = Step::Register {
                    with_artifact: sends,
                    chunked: sends && self.want_chunks,
                };
            },
            (Step::Register { .. }, Outcome::Registered(b)) => {
                self.registered = b;
                self.step = Step::UploadSymbols;
            },
            (Step::UploadSymbols, Outcome::Symbols(b)) => {
                self.dsym_uploaded = b;
                self.step = if self.prepared && self.artifact_size.is_some() {
                    Step::CheckSize
                } else {
                    Step::Report
                };
            },
            (Step::CheckSize, Outcome::Checked(v, l)) => {
                self.checked = Some((v, l));
                self.step = Step::Report;
            },
            _ => {},
        }
    }

    /// The report, once all is done.
    pub fn report(&self) -> (r: Option<PostActionReport>)
        ensures
            r is Some <==> self.step == Step::Report,
            r is Some ==> r->0@ == report_of(self@),
    {
        match self.step {
            Step::Report => {},
            _ => {
                return None;
            },
        }
        let size_check = match &self.checked {
            Some((Verdict::Pass, _)) => "pass",
            Some((Verdict::Warn, _)) => "warn",
            Some((Verdict::Fail, _)) => "fail",
            None => "skip",
        };
        let line = match &self.checked {
            Some((Verdict::Fail, l)) => Some(l.clone()),
            _ => None,
        };
        Some(
            PostActionReport {
                build_registered: self.registered,
                artifact_uploaded: self.want_size_analysis && self.artifact_size.is_some()
                    && self.registered,
                dsym_uploaded: self.dsym_uploaded,
                deps_collected: self.deps_collected,
                timings: self.timings_collected,
                size_analysis: self.want_size_analysis,
                size_check,
                size_check_fail_line: line,
            },
        )
    }
}

/// What a run reports. The last field is not printed.
#[derive(Debug, Clone)]
pub struct PostActionReport {
    pub build_registered: bool,
    pub artifact_uploaded: bool,
    pub dsym_uploaded: bool,
    pub deps_collected: bool,
    pub timings: bool,
    pub size_analysis: bool,
    /// `pass`, `warn`, `fail` or `skip`.
    pub size_check: &'static str,
    /// The line of the check, where it failed.
    pub size_check_fail_line: Option<String>,
}

/// What a run reports, as text.
pub struct ReportView {
    pub build_registered: bool,
    pub artifact_uploaded: bool,
    pub dsym_uploaded: bool,
    pub deps_collected: bool,
    pub timings: bool,
    pub size_analysis: bool,
    pub size_check: Seq<char>,
    pub size_check_fail_line: Option<Seq<char>>,
}

impl View for PostActionReport {
    type V = ReportView;

    open spec fn view(&self) -> ReportView {
        ReportView {
            build_registered: self.build_registered,
            artifact_uploaded: self.artifact_uploaded,
            dsym_uploaded: self.dsym_uploaded,
            deps_collected: self.deps_collected,
            timings: self.timings,
            size_analysis: self.size_analysis,
            size_check: self.size_check@,
            size_check_fail_line: opt_str(self.size_check_fail_line),
        }
    }
}

/// What a run reports.
pub open spec fn report_of(s: RunView) -> ReportView {
    ReportView {
        build_registered: s.registered,
        artifact_uploaded: s.sends_artifact() && s.registered,
        dsym_uploaded: s.dsym_uploaded,
        deps_collected: s.deps_collected,
        timings: s.timings_collected,
        size_analysis: s.want_size_analysis,
        size_check: match s.checked {
            None => "skip"@,
            Some((Verdict::Pass, _)) => "pass"@,
            Some((Verdict::Warn, _)) => "warn"@,
            Some((Verdict::Fail, _)) => "fail"@,
        },
        size_check_fail_line: match s.checked {
            Some((Verdict::Fail, l)) => Some(l),
            _ => None,
        },
    }
}

impl PostActionReport {
    /// How the run ends: it fails exactly where the check of the size failed.
    pub fn conclude(&self) -> (r: Result<(), Error>)
        ensures
            match self@.size_check_fail_line {
                Some(l) => failure(r) == Some(Failure::SizeCheckFailed(l)),
                None => r is Ok,
            },
    {
        match &self.size_check_fail_line {
            Some(l) => Err(Error::SizeCheckFailed(l.clone())),
            None => Ok(()),
        }
    }
}

/// How far a run is.
pub open spec fn progress(s: Step) -> int {
    match s {
        Step::CollectDependencies => 0,
        Step::DecodeTimings => 1,
        Step::Package => 2,
        Step::FetchBaseline => 3,
        Step::Register { .. } => 4,
        Step::UploadSymbols => 5,
        Step::CheckSize => 6,
        Step::Report => 7,
    }
}

/// The run after a list of outcomes.
pub open spec fn run_after_all(s: RunView, os: Seq<OutcomeView>) -> RunView
    decreases os.len(),
{
    if os.len() == 0 {
        s
    } else {
        run_after(run_after_all(s, os.drop_last()), os.last())
    }
}

/// A run never goes back: the baseline is read before the build is registered, and the
/// size is checked after the symbols were sent, so that a failed check keeps nothing
/// from being uploaded. An outcome either moves the run on or changes nothing.
pub proof fn law_runs_move_forward(s: RunView, o: OutcomeView)
    ensures
        run_after(s, o) == s || progress(run_after(s, o).step) > progress(s.step),
        s.step != Step::Report ==> (run_after(s, o).step == Step::Report ==> s.step
            == Step::UploadSymbols || s.step == Step::CheckSize),
        run_after(s, o).step == Step::UploadSymbols ==> s.step == Step::UploadSymbols || s.step is Register,
        run_after(s, o).step is Register ==> s.step is Register || s.step == Step::FetchBaseline,
{
}

/// What a run holds at every step.
pub open spec fn is_sound(s: RunView) -> bool {
    &&& s.step is Register ==> s.step == (Step::Register {
        with_artifact: s.sends_artifact(),
        chunked: s.sends_artifact() && s.want_chunks,
    })
    &&& s.checked is Some ==> s.prepared && s.artifact_size is Some && s.step == Step::Report
    &&& s.registered ==> progress(s.step) > 4
    &&& s.dsym_uploaded ==> progress(s.step) > 5
    &&& s.prepared ==> progress(s.step) > 3
    &&& s.artifact_size is Some ==> progress(s.step) > 2
    &&& s.step == Step::CheckSize ==> s.prepared && s.artifact_size is Some
}

/// Whatever comes of the steps, the archive is sent only where that was asked for and
/// the app was packed, and the size is checked only where it is known and there is
/// something to check it against.
pub proof fn law_runs_stay_sound(m: Map<Seq<char>, Seq<char>>, os: Seq<OutcomeView>)
    ensures
        is_sound(run_after_all(first_run(m), os)),
        run_after_all(first_run(m), os).want_size_analysis == truthy(
            lookup(m, "BUGSEE_SIZE_ANALYSIS_ENABLED"@),
        ),
    decreases os.len(),
{
    if os.len() > 0 {
        law_runs_stay_sound(m, os.drop_last());
    }
}

/// Only a failed check of the size fails a run: no upload that goes wrong does.
pub proof fn law_only_the_size_check_fails(s: RunView)
    ensures
        report_of(s).size_check_fail_line is Some <==> s.checked is Some && (s.checked->0).0
            == Verdict::Fail,
        report_of(s).artifact_uploaded ==> report_of(s).build_registered
            && report_of(s).size_analysis,
{
}

/// What a run is asked for: dependencies and timings unless they are switched off, the
/// archive and chunks only where they are switched on; and what it begins with.
pub proof fn law_what_a_run_is_asked_for(m: Map<Seq<char>, Seq<char>>)
    ensures
        ({
            let s = first_run(m);
            let deps = truthy_by_default(lookup(m, "BUGSEE_DEPENDENCIES_ENABLED"@));
            let timings = truthy_by_default(lookup(m, "BUGSEE_BUILD_INFO_TIMINGS_ENABLED"@));
            &&& s.want_timings <==> timings
            &&& s.want_size_analysis <==> truthy(lookup(m, "BUGSEE_SIZE_ANALYSIS_ENABLED"@))
            &&& s.want_chunks <==> truthy(lookup(m, "BUGSEE_CHUNKED_UPLOAD"@))
            &&& s.step == Step::CollectDependencies <==> deps
            &&& s.step == Step::DecodeTimings <==> !deps && timings
            &&& s.step == Step::Package <==> !deps && !timings
            &&& !s.registered && !s.deps_collected && !s.timings_collected && !s.dsym_uploaded
                && !s.prepared
            &&& s.artifact_size is None && s.checked is None
        }),
{
}

/// What a run reports is what came of its steps, each under its own name: whatever the
/// answers are, the build is registered where the registration went well, the archive was
/// sent where that was asked for, the app was packed and the build registered, and so on.
/// The size is checked where there is a baseline and an archive, and only then.
pub proof fn law_a_run_reports_what_came_of_it(
    s: RunView,
    deps: bool,
    timings: bool,
    size: Option<u64>,
    baseline: bool,
    registered: bool,
    symbols: bool,
    verdict: Verdict,
    line: Seq<char>,
)
    requires
        s.step == Step::CollectDependencies,
        s.want_timings,
        s.checked is None,
    ensures
        ({
            let a = run_after(s, OutcomeView::Dependencies(deps));
            let b = run_after(a, OutcomeView::Timings(timings));
            let c = run_after(b, OutcomeView::Packaged(size));
            let d = run_after(c, OutcomeView::Baseline(baseline));
            let e = run_after(d, OutcomeView::Registered(registered));
            let f = run_after(e, OutcomeView::Symbols(symbols));
            let g = run_after(f, OutcomeView::Checked(verdict, line));
            let sends = s.want_size_analysis && size is Some;
            let checks = baseline && size is Some;
            let last = if checks {
                g
            } else {
                f
            };
            let r = report_of(last);
            &&& a.step == Step::DecodeTimings
            &&& b.step == Step::Package
            &&& c.step == Step::FetchBaseline
            &&& d.step == (Step::Register { with_artifact: sends, chunked: sends && s.want_chunks })
            &&& e.step == Step::UploadSymbols
            &&& f.step == if checks {
                Step::CheckSize
            } else {
                Step::Report
            }
            &&& last.step == Step::Report
            &&& r.build_registered == registered
            &&& r.artifact_uploaded == (sends && registered)
            &&& r.dsym_uploaded == symbols
            &&& r.deps_collected == deps
            &&& r.timings == timings
            &&& r.size_analysis == s.want_size_analysis
            &&& !checks ==> r.size_check == "skip"@
            &&& checks && verdict == Verdict::Pass ==> r.size_check == "pass"@
            &&& checks && verdict == Verdict::Warn ==> r.size_check == "warn"@
            &&& checks && verdict == Verdict::Fail ==> r.size_check == "fail"@
            &&& r.size_check_fail_line == if checks && verdict == Verdict::Fail {
                Some(line)
            } else {
                None
            }
        }),
{
}

/// Where timings are not wanted the app is packed right after the dependencies.
pub proof fn law_timings_can_be_left_out(s: RunView, deps: bool)
    requires
        s.step == Step::CollectDependencies,
        !s.want_timings,
    ensures
        run_after(s, OutcomeView::Dependencies(deps)).step == Step::Package,
        run_after(s, OutcomeView::Dependencies(deps)).deps_collected == deps,
        run_after(s, OutcomeView::Dependencies(deps)).timings_collected == s.timings_collected,
{
}

/// A run depends on two directories: whether its archive and its build directory are among
/// those that exist.
pub proof fn law_runs_depend_on_directories(
    m: Map<Seq<char>, Seq<char>>,
    dirs: Seq<Seq<PathPart>>,
)
    ensures
        gate_on(m, dirs) == gate_of(
            m,
            dirs.contains(path_parts(trimmed_var(m, "ARCHIVE_PATH"@))),
            dirs.contains(path_parts(trimmed_var(m, "TARGET_BUILD_DIR"@))),
        ),
{
}

} // verus!

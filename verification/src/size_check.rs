//! The size check of a build: whether the artefact grew past a threshold against
//! the build before it.
//!
//! A shrunk or unchanged artefact passes. A fail comes before a warning, and
//! within each the percentage before the bytes. Percentages are doubles by their
//! bits; the callers compute the growth in percent and hand it in.
use crate::decimals::{
    as_double, hundredths_text, law_decimals_are_digits, law_small_integers_are_exact,
    round_ratio, round_to_double, rounded, show_hundredths, show_tenths, tenths_text,
};
use crate::double::{
    INFINITE, SIGN_BIT, double_is_finite, double_is_nan, double_is_whole, double_key,
    double_tenths, double_whole, is_finite, is_nan, is_whole, order_key, tenths_of, whole_part,
};
use crate::env::{Env, env_truthy, lookup, truthy};
use crate::json::{JsonAt, JsonShape, json_at, look_up};
use crate::numeral::{
    bounded, dec_i64, decimal, digit_char, integer_value, law_integers_are_read_as_written,
    parse_i64, signed_decimal,
};
use crate::text::{
    cat2, cat3, cat4, cat5, has_prefix, has_suffix, law_prefixes_and_suffixes, opt_str, trim,
    trimmed,
};
use vstd::prelude::*;
use vstd::string::*;

verus! {

/// The thresholds of growth. One that is absent is not checked.
#[derive(Debug, Clone, Copy, PartialEq, Eq, Structural)]
pub struct Thresholds {
    pub warning_pct: Option<u64>,
    pub fail_pct: Option<u64>,
    pub warning_bytes: Option<u64>,
    pub fail_bytes: Option<u64>,
}

impl Default for Thresholds {
    fn default() -> (r: Thresholds)
        ensures
            r == (Thresholds {
                warning_pct: None,
                fail_pct: None,
                warning_bytes: None,
                fail_bytes: None,
            }),
    {
        Thresholds { warning_pct: None, fail_pct: None, warning_bytes: None, fail_bytes: None }
    }
}

impl Thresholds {
    /// Whether nothing is checked.
    pub fn is_empty(&self) -> (r: bool)
        ensures
            r == (self.warning_pct is None && self.fail_pct is None && self.warning_bytes is None
                && self.fail_bytes is None),
    {
        self.warning_pct.is_none() && self.fail_pct.is_none() && self.warning_bytes.is_none()
            && self.fail_bytes.is_none()
    }
}

/// The size of the build before.
#[derive(Debug, Clone)]
pub struct Baseline {
    pub artifact_size: u64,
    pub version: Option<String>,
    pub build: Option<String>,
}

/// A check that is ready to be made.
#[derive(Debug, Clone)]
pub struct Prepared {
    pub thresholds: Thresholds,
    pub baseline: Baseline,
}

/// What a check comes to.
#[derive(Debug, Clone, Copy, PartialEq, Eq, Structural)]
pub enum Verdict {
    Pass,
    Warn,
    Fail,
}

/// A double that is finite and greater than zero.
pub open spec fn is_positive(bits: u64) -> bool {
    0 < bits < INFINITE
}

/// A percentage threshold: the value of a variable, where it reads as a positive
/// number.
pub open spec fn pct_threshold(raw: Option<Seq<char>>, parsed: Option<u64>) -> Option<u64> {
    if raw is Some && raw->0.len() > 0 && parsed is Some && is_positive(parsed->0) {
        parsed
    } else {
        None
    }
}

/// A percentage threshold. `parsed` is the double that the trimmed value of the
/// variable reads as.
pub fn parse_pos_float(env: &Env, key: &str, parsed: Option<u64>) -> (r: Option<u64>)
    ensures
        r == pct_threshold(lookup(env@, key@), parsed),
{
    match env.get(key) {
        Some(raw) => if raw.as_str().is_empty() {
            None
        } else {
            match parsed {
                Some(bits) => if 0 < bits && bits < INFINITE {
                    Some(bits)
                } else {
                    None
                },
                None => None,
            }
        },
        None => None,
    }
}

/// A threshold in bytes: the value of a variable, where it reads as a positive
/// 64-bit integer.
pub open spec fn bytes_threshold(raw: Option<Seq<char>>) -> Option<u64> {
    match raw {
        Some(t) => match bounded(
            integer_value(trimmed(t), 10),
            i64::MIN as int,
            i64::MAX as int,
        ) {
            Some(n) if n > 0 => Some(n as u64),
            _ => None,
        },
        None => None,
    }
}

/// A threshold in bytes.
pub fn parse_pos_int(env: &Env, key: &str) -> (r: Option<u64>)
    ensures
        r == bytes_threshold(lookup(env@, key@)),
{
    match env.get(key) {
        Some(raw) => {
            let t = trim(raw.as_str());
            match parse_i64(t.as_str(), 10) {
                Some(n) => if n > 0 {
                    Some(n as u64)
                } else {
                    None
                },
                None => None,
            }
        },
        None => None,
    }
}

/// The thresholds that the environment sets.
pub open spec fn thresholds_of(
    m: Map<Seq<char>, Seq<char>>,
    warning: Option<u64>,
    fail: Option<u64>,
) -> Thresholds {
    Thresholds {
        warning_pct: pct_threshold(lookup(m, "BUGSEE_SIZE_CHECK_WARNING_PCT"@), warning),
        fail_pct: pct_threshold(lookup(m, "BUGSEE_SIZE_CHECK_FAIL_PCT"@), fail),
        warning_bytes: bytes_threshold(lookup(m, "BUGSEE_SIZE_CHECK_WARNING_BYTES"@)),
        fail_bytes: bytes_threshold(lookup(m, "BUGSEE_SIZE_CHECK_FAIL_BYTES"@)),
    }
}

/// The thresholds that the environment sets. `warning` and `fail` are the doubles
/// that the trimmed values of the two percentage variables read as.
pub fn resolve_thresholds(env: &Env, warning: Option<u64>, fail: Option<u64>) -> (r: Thresholds)
    ensures
        r == thresholds_of(env@, warning, fail),
{
    Thresholds {
        warning_pct: parse_pos_float(env, "BUGSEE_SIZE_CHECK_WARNING_PCT", warning),
        fail_pct: parse_pos_float(env, "BUGSEE_SIZE_CHECK_FAIL_PCT", fail),
        warning_bytes: parse_pos_int(env, "BUGSEE_SIZE_CHECK_WARNING_BYTES"),
        fail_bytes: parse_pos_int(env, "BUGSEE_SIZE_CHECK_FAIL_BYTES"),
    }
}

pub open spec fn magnitude_of(n: int) -> nat {
    if n < 0 {
        (-n) as nat
    } else {
        n as nat
    }
}

pub open spec fn sign_text(negative: bool) -> Seq<char> {
    if negative {
        "-"@
    } else {
        Seq::empty()
    }
}

/// A number of bytes as it is shown: in the unit of its magnitude, with one or two
/// decimals, rounded to the nearest with ties to even. From two to the 53rd on the
/// number is that of the nearest double.
pub open spec fn bytes_text(n: int) -> Seq<char> {
    let a = magnitude_of(n);
    if a < 1024 {
        signed_decimal(n) + " B"@
    } else if a < 1048576 {
        sign_text(n < 0) + tenths_text(rounded(a * 10, 1024)) + " KB"@
    } else if a < 1073741824 {
        sign_text(n < 0) + tenths_text(rounded(a * 10, 1048576)) + " MB"@
    } else {
        sign_text(n < 0) + hundredths_text(rounded(as_double(a) * 100, 1073741824)) + " GB"@
    }
}

/// A number of bytes as it is shown.
pub fn format_bytes(n: i64) -> (r: String)
    ensures
        r@ == bytes_text(n as int),
{
    let a: u64 = if n < 0 {
        (-(n as i128)) as u64
    } else {
        n as u64
    };
    if a < 1024 {
        let d = dec_i64(n);
        return cat2(d.as_str(), " B");
    }
    let sign = if n < 0 {
        "-"
    } else {
        ""
    };
    proof {
        reveal_strlit("");
        assert(""@ =~= Seq::<char>::empty());
    }
    if a < 1048576 {
        let t = round_ratio((a as u128) * 10, 1024);
        let s = show_tenths(t as u64);
        return cat3(sign, s.as_str(), " KB");
    }
    if a < 1073741824 {
        let t = round_ratio((a as u128) * 10, 1048576);
        let s = show_tenths(t as u64);
        return cat3(sign, s.as_str(), " MB");
    }
    let d = round_to_double(a);
    let t = round_ratio(d * 100, 1073741824);
    proof {
        let n100 = (d * 100) as nat;
        assert(n100 / 1073741824 < 0x1_0000_0000_0000);
    }
    let s = show_hundredths(t as u64);
    cat3(sign, s.as_str(), " GB")
}

/// A percentage as it is shown: a whole one without decimals, any other with one,
/// rounded to the nearest with ties to even. One beyond the 64-bit integers is shown as
/// the nearest of them.
pub open spec fn pct_text(bits: u64) -> Seq<char> {
    let negative = bits >= SIGN_BIT;
    if is_nan(bits) {
        "NaN%"@
    } else if !is_finite(bits) {
        if negative {
            "-9223372036854775808%"@
        } else {
            "9223372036854775807%"@
        }
    } else if is_whole(bits) {
        let w = whole_part(bits) as int;
        let v = if negative {
            if w > 0x8000_0000_0000_0000 {
                -0x8000_0000_0000_0000
            } else {
                -w
            }
        } else if w > 0x7fff_ffff_ffff_ffff {
            0x7fff_ffff_ffff_ffff
        } else {
            w
        };
        signed_decimal(v) + "%"@
    } else {
        sign_text(negative) + tenths_text(tenths_of(bits)) + "%"@
    }
}

/// A percentage, by the bits of its double, as it is shown.
pub fn format_pct(bits: u64) -> (r: String)
    ensures
        r@ == pct_text(bits),
{
    let negative = bits >= SIGN_BIT;
    if double_is_nan(bits) {
        return "NaN%".to_owned();
    }
    if !double_is_finite(bits) {
        return if negative {
            "-9223372036854775808%".to_owned()
        } else {
            "9223372036854775807%".to_owned()
        };
    }
    if double_is_whole(bits) {
        let v: i64 = if negative {
            let w = double_whole(bits, 0x8000_0000_0000_0000);
            if w == 0x8000_0000_0000_0000 {
                i64::MIN
            } else {
                -(w as i64)
            }
        } else {
            double_whole(bits, 0x7fff_ffff_ffff_ffff) as i64
        };
        let d = dec_i64(v);
        cat2(d.as_str(), "%")
    } else {
        let t = double_tenths(bits);
        let s = show_tenths(t);
        let sign = if negative {
            "-"
        } else {
            ""
        };
        proof {
            reveal_strlit("");
            assert(""@ =~= Seq::<char>::empty());
        }
        cat3(sign, s.as_str(), "%")
    }
}

/// What an evaluation comes to.
#[derive(Debug, PartialEq, Eq)]
pub struct Evaluation {
    pub verdict: Verdict,
    /// The threshold that was crossed.
    pub triggered_by: Option<String>,
    pub delta_bytes: i64,
    /// The growth in percent, by the bits of its double.
    pub delta_pct: u64,
}

/// What an evaluation comes to, as text and numbers.
pub struct Eval {
    pub verdict: Verdict,
    pub triggered_by: Option<Seq<char>>,
    pub delta_bytes: int,
    pub delta_pct: u64,
}

impl View for Evaluation {
    type V = Eval;

    open spec fn view(&self) -> Eval {
        Eval {
            verdict: self.verdict,
            triggered_by: opt_str(self.triggered_by),
            delta_bytes: self.delta_bytes as int,
            delta_pct: self.delta_pct,
        }
    }
}

pub open spec fn pct_crossed(delta: u64, threshold: Option<u64>) -> bool {
    threshold is Some && !is_nan(delta) && !is_nan(threshold->0) && order_key(delta) >= order_key(
        threshold->0,
    )
}

fn crosses_pct(delta: u64, threshold: u64) -> (r: bool)
    ensures
        r == pct_crossed(delta, Some(threshold)),
{
    !double_is_nan(delta) && !double_is_nan(threshold) && double_key(delta) >= double_key(threshold)
}

pub open spec fn bytes_crossed(delta: int, threshold: Option<u64>) -> bool {
    threshold is Some && delta >= threshold->0
}

/// What a check of a size against a baseline comes to. `pct` is the growth in
/// percent.
pub open spec fn evaluation(local: nat, baseline: nat, t: Thresholds, pct: u64) -> Eval {
    let delta = local - baseline;
    let with = |v: Verdict, by: Option<Seq<char>>|
        Eval { verdict: v, triggered_by: by, delta_bytes: delta, delta_pct: pct };
    if baseline == 0 {
        Eval { verdict: Verdict::Pass, triggered_by: None, delta_bytes: 0, delta_pct: 0 }
    } else if delta <= 0 {
        with(Verdict::Pass, None)
    } else if pct_crossed(pct, t.fail_pct) {
        with(Verdict::Fail, Some("fail threshold "@ + pct_text(t.fail_pct->0)))
    } else if bytes_crossed(delta, t.fail_bytes) {
        with(Verdict::Fail, Some("fail threshold "@ + bytes_text(t.fail_bytes->0 as int)))
    } else if pct_crossed(pct, t.warning_pct) {
        with(Verdict::Warn, Some("warning threshold "@ + pct_text(t.warning_pct->0)))
    } else if bytes_crossed(delta, t.warning_bytes) {
        with(Verdict::Warn, Some("warning threshold "@ + bytes_text(t.warning_bytes->0 as int)))
    } else {
        with(Verdict::Pass, None)
    }
}

/// Thresholds that can be crossed: positive, and the percentages finite.
pub open spec fn thresholds_valid(t: Thresholds) -> bool {
    &&& t.fail_pct is Some ==> is_positive(t.fail_pct->0)
    &&& t.warning_pct is Some ==> is_positive(t.warning_pct->0)
    &&& t.fail_bytes is Some ==> 0 < t.fail_bytes->0 <= i64::MAX
    &&& t.warning_bytes is Some ==> 0 < t.warning_bytes->0 <= i64::MAX
}

/// The thresholds that an environment sets are valid: none is set that could never be
/// crossed, and none that every size crosses.
pub proof fn law_thresholds_are_valid(
    m: Map<Seq<char>, Seq<char>>,
    warning: Option<u64>,
    fail: Option<u64>,
)
    ensures
        thresholds_valid(thresholds_of(m, warning, fail)),
{
}

/// What a check of a size against a baseline comes to. `delta_pct` is the growth
/// in percent, by the bits of its double.
pub fn evaluate(local_size: u64, baseline_size: u64, t: &Thresholds, delta_pct: u64) -> (r:
    Evaluation)
    requires
        local_size <= i64::MAX,
        baseline_size <= i64::MAX,
    ensures
        r@ == evaluation(local_size as nat, baseline_size as nat, *t, delta_pct),
        ({
            let e = evaluation(local_size as nat, baseline_size as nat, *t, delta_pct);
            &&& r.verdict == e.verdict
            &&& opt_str(r.triggered_by) == e.triggered_by
            &&& r.delta_bytes == e.delta_bytes
            &&& r.delta_pct == e.delta_pct
        }),
{
    if baseline_size == 0 {
        return Evaluation {
            verdict: Verdict::Pass,
            triggered_by: None,
            delta_bytes: 0,
            delta_pct: 0,
        };
    }
    let delta: i64 = local_size as i64 - baseline_size as i64;
    if delta <= 0 {
        return Evaluation {
            verdict: Verdict::Pass,
            triggered_by: None,
            delta_bytes: delta,
            delta_pct,
        };
    }
    let grown: u64 = delta as u64;
    match t.fail_pct {
        Some(fp) => {
            if crosses_pct(delta_pct, fp) {
                let s = format_pct(fp);
                return Evaluation {
                    verdict: Verdict::Fail,
                    triggered_by: Some(cat2("fail threshold ", s.as_str())),
                    delta_bytes: delta,
                    delta_pct,
                };
            }
        },
        None => {},
    }
    match t.fail_bytes {
        Some(fb) => {
            if grown >= fb {
                let s = format_bytes(fb as i64);
                return Evaluation {
                    verdict: Verdict::Fail,
                    triggered_by: Some(cat2("fail threshold ", s.as_str())),
                    delta_bytes: delta,
                    delta_pct,
                };
            }
        },
        None => {},
    }
    match t.warning_pct {
        Some(wp) => {
            if crosses_pct(delta_pct, wp) {
                let s = format_pct(wp);
                return Evaluation {
                    verdict: Verdict::Warn,
                    triggered_by: Some(cat2("warning threshold ", s.as_str())),
                    delta_bytes: delta,
                    delta_pct,
                };
            }
        },
        None => {},
    }
    match t.warning_bytes {
        Some(wb) => {
            if grown >= wb {
                let s = format_bytes(wb as i64);
                return Evaluation {
                    verdict: Verdict::Warn,
                    triggered_by: Some(cat2("warning threshold ", s.as_str())),
                    delta_bytes: delta,
                    delta_pct,
                };
            }
        },
        None => {},
    }
    Evaluation { verdict: Verdict::Pass, triggered_by: None, delta_bytes: delta, delta_pct }
}

/// A check fails exactly where the artefact grew and crossed a fail threshold, and
/// a size that did not grow passes whatever the thresholds.
pub proof fn law_only_growth_fails(local: nat, baseline: nat, t: Thresholds, pct: u64)
    ensures
        evaluation(local, baseline, t, pct).verdict == Verdict::Fail <==> {
            &&& baseline > 0
            &&& local > baseline
            &&& (pct_crossed(pct, t.fail_pct) || bytes_crossed(local - baseline, t.fail_bytes))
        },
        local <= baseline || baseline == 0 ==> evaluation(local, baseline, t, pct).verdict
            == Verdict::Pass,
        evaluation(local, baseline, t, pct).verdict != Verdict::Pass <==> evaluation(
            local,
            baseline,
            t,
            pct,
        ).triggered_by is Some,
{
}

/// How the build before is called.
pub open spec fn baseline_label(
    version: Option<Seq<char>>,
    build: Option<Seq<char>>,
) -> Seq<char> {
    let v = version is Some && version->0.len() > 0;
    let b = build is Some && build->0.len() > 0;
    if v && b {
        "version "@ + version->0 + " ("@ + build->0 + ")"@
    } else if v {
        "version "@ + version->0
    } else if b {
        "("@ + build->0 + ")"@
    } else {
        "previous build"@
    }
}

fn name_baseline(version: &Option<String>, build: &Option<String>) -> (r: String)
    ensures
        r@ == baseline_label(opt_str(*version), opt_str(*build)),
{
    let none = String::new();
    let v = match version {
        Some(s) => s,
        None => &none,
    };
    let b = match build {
        Some(s) => s,
        None => &none,
    };
    if !v.as_str().is_empty() && !b.as_str().is_empty() {
        cat5("version ", v.as_str(), " (", b.as_str(), ")")
    } else if !v.as_str().is_empty() {
        cat2("version ", v.as_str())
    } else if !b.as_str().is_empty() {
        cat3("(", b.as_str(), ")")
    } else {
        "previous build".to_owned()
    }
}

pub open spec fn with_plus(delta: int, text: Seq<char>) -> Seq<char> {
    if delta >= 0 {
        "+"@ + text
    } else {
        text
    }
}

/// The line that tells of a check.
pub open spec fn summary_line(local: nat, p: Prepared, e: Eval) -> Seq<char> {
    "Bugsee size check: "@ + bytes_text(p.baseline.artifact_size as int) + " → "@ + bytes_text(
        local as int,
    ) + " ("@ + with_plus(e.delta_bytes, pct_text(e.delta_pct)) + ", "@ + with_plus(
        e.delta_bytes,
        bytes_text(e.delta_bytes),
    ) + ") vs "@ + baseline_label(opt_str(p.baseline.version), opt_str(p.baseline.build))
}

/// The line that is printed for a check.
pub open spec fn verdict_line(local: nat, p: Prepared, e: Eval) -> Seq<char> {
    let s = summary_line(local, p, e);
    match e.verdict {
        Verdict::Pass => s,
        Verdict::Warn => "warning: "@ + s + " — exceeds "@ + e.triggered_by->0,
        Verdict::Fail => s + " — exceeds "@ + e.triggered_by->0,
    }
}

impl Prepared {
    /// Makes the check: the verdict and the line that is printed. `delta_pct` is the
    /// growth in percent, by the bits of its double.
    pub fn decide(&self, local_size: u64, delta_pct: u64) -> (r: (Verdict, String))
        requires
            local_size <= i64::MAX,
            self.baseline.artifact_size <= i64::MAX,
        ensures
            ({
                let e = evaluation(
                    local_size as nat,
                    self.baseline.artifact_size as nat,
                    self.thresholds,
                    delta_pct,
                );
                &&& r.0 == e.verdict
                &&& r.1@ == verdict_line(local_size as nat, *self, e)
            }),
    {
        let e = evaluate(
            local_size,
            self.baseline.artifact_size,
            &self.thresholds,
            delta_pct,
        );
        let was = format_bytes(self.baseline.artifact_size as i64);
        let is = format_bytes(local_size as i64);
        let pct = format_pct(e.delta_pct);
        let bytes = format_bytes(e.delta_bytes);
        let plus = e.delta_bytes >= 0;
        let pct_signed = if plus {
            cat2("+", pct.as_str())
        } else {
            pct
        };
        let bytes_signed = if plus {
            cat2("+", bytes.as_str())
        } else {
            bytes
        };
        let name = name_baseline(&self.baseline.version, &self.baseline.build);
        let head = cat5("Bugsee size check: ", was.as_str(), " → ", is.as_str(), " (");
        let mid = cat4(head.as_str(), pct_signed.as_str(), ", ", bytes_signed.as_str());
        let summary = cat3(mid.as_str(), ") vs ", name.as_str());
        proof {
            assert(summary@ == summary_line(local_size as nat, *self, e@));
        }
        match e.verdict {
            Verdict::Pass => (Verdict::Pass, summary),
            Verdict::Warn => {
                let by = match &e.triggered_by {
                    Some(s) => s.as_str(),
                    None => "",
                };
                (Verdict::Warn, cat4("warning: ", summary.as_str(), " — exceeds ", by))
            },
            Verdict::Fail => {
                let by = match &e.triggered_by {
                    Some(s) => s.as_str(),
                    None => "",
                };
                (Verdict::Fail, cat3(summary.as_str(), " — exceeds ", by))
            },
        }
    }
}

/// The check is to be made: it is switched on, has a threshold, and the app has an
/// id.
pub open spec fn check_is_due(
    m: Map<Seq<char>, Seq<char>>,
    t: Thresholds,
    package_id: Option<Seq<char>>,
) -> bool {
    &&& truthy(lookup(m, "BUGSEE_SIZE_CHECK_ENABLED"@))
    &&& !(t.warning_pct is None && t.fail_pct is None && t.warning_bytes is None && t.fail_bytes
        is None)
    &&& package_id is Some && package_id->0.len() > 0
}

/// Whether the check is to be made.
pub fn is_due(env: &Env, t: &Thresholds, package_id: &Option<String>) -> (r: bool)
    ensures
        r == check_is_due(env@, *t, opt_str(*package_id)),
{
    if !env_truthy(env.get("BUGSEE_SIZE_CHECK_ENABLED")) {
        return false;
    }
    if t.is_empty() {
        return false;
    }
    match package_id {
        Some(p) => !p.as_str().is_empty(),
        None => false,
    }
}

/// The check that is made with a baseline, where it is due and there is one.
pub fn prepare(
    env: &Env,
    warning: Option<u64>,
    fail: Option<u64>,
    package_id: &Option<String>,
    baseline: Option<Baseline>,
) -> (r: Option<Prepared>)
    ensures
        r is Some <==> baseline is Some && check_is_due(
            env@,
            thresholds_of(env@, warning, fail),
            opt_str(*package_id),
        ),
        r is Some ==> r->0.thresholds == thresholds_of(env@, warning, fail) && r->0.baseline
            == baseline->0,
        r is Some ==> thresholds_valid(r->0.thresholds),
{
    let thresholds = resolve_thresholds(env, warning, fail);
    if !is_due(env, &thresholds, package_id) {
        return None;
    }
    match baseline {
        Some(b) => Some(Prepared { thresholds, baseline: b }),
        None => None,
    }
}

/// What is asked of the server about the build before: the app, the format, and
/// the configuration where there is one.
pub fn baseline_query(package_id: &str, build_configuration: &str) -> (r: Vec<(String, String)>)
    ensures
        r@.len() == if build_configuration@.len() == 0 {
            2nat
        } else {
            3nat
        },
        r@[0].0@ == "package_id"@ && r@[0].1@ == package_id@,
        r@[1].0@ == "format"@ && r@[1].1@ == "ipa"@,
        build_configuration@.len() > 0 ==> r@[2].0@ == "build_configuration"@ && r@[2].1@
            == build_configuration@,
{
    let mut q: Vec<(String, String)> = Vec::new();
    q.push(("package_id".to_owned(), package_id.to_owned()));
    q.push(("format".to_owned(), "ipa".to_owned()));
    if !build_configuration.is_empty() {
        q.push(("build_configuration".to_owned(), build_configuration.to_owned()));
    }
    q
}

/// Where the reply of the server tells of the build before: under `result` where
/// that is an object, otherwise at the top level.
pub open spec fn reply_build(reply: Seq<char>) -> Seq<char> {
    if json_at(reply, "/result"@) == JsonAt::Object {
        "/result/build"@
    } else {
        "/build"@
    }
}

/// A string of the reply, where it is not empty.
pub open spec fn reply_text(at: JsonAt) -> Option<Seq<char>> {
    match at {
        JsonAt::Text(s) => if s.len() > 0 {
            Some(s)
        } else {
            None
        },
        _ => None,
    }
}

/// The size that a number of the reply tells: its whole part, where it is
/// positive.
pub open spec fn reply_size(at: JsonAt) -> Option<nat> {
    match at {
        JsonAt::Number(bits) => if is_positive(bits) {
            Some(
                if whole_part(bits) <= u64::MAX {
                    whole_part(bits)
                } else {
                    u64::MAX as nat
                },
            )
        } else {
            None
        },
        _ => None,
    }
}

/// The size that a number of the reply tells.
pub fn read_size(at: &JsonShape) -> (r: Option<u64>)
    ensures
        match reply_size(at@) {
            Some(n) => r is Some && r->0 == n,
            None => r is None,
        },
{
    match at {
        JsonShape::Number(bits) => if 0 < *bits && *bits < INFINITE {
            Some(double_whole(*bits, u64::MAX))
        } else {
            None
        },
        _ => None,
    }
}

fn read_text(at: JsonShape) -> (r: Option<String>)
    ensures
        opt_str(r) == reply_text(at@),
{
    match at {
        JsonShape::Text(s) => if s.as_str().is_empty() {
            None
        } else {
            Some(s)
        },
        _ => None,
    }
}

/// The build before, out of the reply of the server; none where the reply tells of
/// none, or of none with a size.
pub fn parse_baseline(reply: &str) -> (r: Option<Baseline>)
    ensures
        ({
            let at = reply_build(reply@);
            let size = reply_size(json_at(reply@, at + "/artifact_size"@));
            &&& r is Some <==> json_at(reply@, at) == JsonAt::Object && size is Some
            &&& r is Some ==> {
                &&& r->0.artifact_size == size->0
                &&& opt_str(r->0.version) == reply_text(json_at(reply@, at + "/version"@))
                &&& opt_str(r->0.build) == reply_text(json_at(reply@, at + "/build"@))
            }
        }),
        json_at(reply@, "/result"@) == JsonAt::Object ==> {
            let size = reply_size(json_at(reply@, "/result/build/artifact_size"@));
            &&& r is Some <==> json_at(reply@, "/result/build"@) == JsonAt::Object && size is Some
            &&& r is Some ==> {
                &&& r->0.artifact_size == size->0
                &&& opt_str(r->0.version) == reply_text(json_at(reply@, "/result/build/version"@))
                &&& opt_str(r->0.build) == reply_text(json_at(reply@, "/result/build/build"@))
            }
        },
        json_at(reply@, "/result"@) != JsonAt::Object ==> {
            let size = reply_size(json_at(reply@, "/build/artifact_size"@));
            &&& r is Some <==> json_at(reply@, "/build"@) == JsonAt::Object && size is Some
            &&& r is Some ==> {
                &&& r->0.artifact_size == size->0
                &&& opt_str(r->0.version) == reply_text(json_at(reply@, "/build/version"@))
                &&& opt_str(r->0.build) == reply_text(json_at(reply@, "/build/build"@))
            }
        },
{
    proof {
        reveal_strlit("/result/build");
        reveal_strlit("/build");
        reveal_strlit("/artifact_size");
        reveal_strlit("/version");
        reveal_strlit("/result/build/artifact_size");
        reveal_strlit("/result/build/version");
        reveal_strlit("/result/build/build");
        reveal_strlit("/build/artifact_size");
        reveal_strlit("/build/version");
        reveal_strlit("/build/build");
        assert("/result/build"@ + "/artifact_size"@ =~= "/result/build/artifact_size"@);
        assert("/result/build"@ + "/version"@ =~= "/result/build/version"@);
        assert("/result/build"@ + "/build"@ =~= "/result/build/build"@);
        assert("/build"@ + "/artifact_size"@ =~= "/build/artifact_size"@);
        assert("/build"@ + "/version"@ =~= "/build/version"@);
        assert("/build"@ + "/build"@ =~= "/build/build"@);
    }
    let at = match look_up(reply, "/result") {
        JsonShape::Object => "/result/build",
        _ => "/build",
    };
    match look_up(reply, at) {
        JsonShape::Object => {},
        _ => {
            return None;
        },
    }
    let p = cat2(at, "/artifact_size");
    let size = match read_size(&look_up(reply, p.as_str())) {
        Some(n) => n,
        None => {
            return None;
        },
    };
    let v = cat2(at, "/version");
    let b = cat2(at, "/build");
    Some(
        Baseline {
            artifact_size: size,
            version: read_text(look_up(reply, v.as_str())),
            build: read_text(look_up(reply, b.as_str())),
        },
    )
}

/// A check warns exactly where it does not fail, there is a build before, the artefact grew
/// and crossed a warning threshold; it fails exactly where it grew and crossed a fail
/// threshold. A threshold in bytes is crossed by growing by as many bytes or more.
pub proof fn law_verdicts(local: nat, baseline: nat, t: Thresholds, pct: u64)
    ensures
        ({
            let v = evaluation(local, baseline, t, pct).verdict;
            let grown = local - baseline;
            let fails = pct_crossed(pct, t.fail_pct) || (t.fail_bytes is Some && grown
                >= t.fail_bytes->0);
            let warns = pct_crossed(pct, t.warning_pct) || (t.warning_bytes is Some && grown
                >= t.warning_bytes->0);
            &&& v == Verdict::Fail <==> baseline > 0 && local > baseline && fails
            &&& v == Verdict::Warn <==> baseline > 0 && local > baseline && !fails && warns
            &&& v == Verdict::Pass <==> baseline == 0 || local <= baseline || (!fails && !warns)
        }),
{
}

/// A percentage that is positive and finite crosses a threshold that is so too exactly where
/// it is not below it; what is no number crosses nothing, and nothing crosses a threshold
/// that is not there.
pub proof fn law_percentages_cross(d: u64, t: u64)
    ensures
        0 < d < 0x7ff0_0000_0000_0000 && 0 < t < 0x7ff0_0000_0000_0000 ==> (pct_crossed(
            d,
            Some(t),
        ) <==> d >= t),
        !pct_crossed(d, None),
        0x7ff0_0000_0000_0000 < d < 0x8000_0000_0000_0000 ==> !pct_crossed(d, Some(t)),
        0x8000_0000_0000_0000 <= d && 0 < t < 0x8000_0000_0000_0000 ==> !pct_crossed(d, Some(t)),
{
}

/// What a check names as crossed: a fail threshold before a warning, and of two the
/// percentage before the bytes. What grew is told exactly.
pub proof fn law_the_threshold_that_is_named(local: nat, baseline: nat, t: Thresholds, pct: u64)
    requires
        baseline > 0,
        local > baseline,
    ensures
        ({
            let e = evaluation(local, baseline, t, pct);
            let fail_bytes = t.fail_bytes is Some && local - baseline >= t.fail_bytes->0;
            let fails = pct_crossed(pct, t.fail_pct) || fail_bytes;
            let warning_bytes = t.warning_bytes is Some && local - baseline >= t.warning_bytes->0;
            &&& e.delta_bytes == local - baseline
            &&& e.delta_pct == pct
            &&& pct_crossed(pct, t.fail_pct) ==> e.triggered_by == Some(
                "fail threshold "@ + pct_text(t.fail_pct->0),
            )
            &&& fail_bytes && !pct_crossed(pct, t.fail_pct) ==> e.triggered_by == Some(
                "fail threshold "@ + bytes_text(t.fail_bytes->0 as int),
            )
            &&& !fails && pct_crossed(pct, t.warning_pct) ==> e.triggered_by == Some(
                "warning threshold "@ + pct_text(t.warning_pct->0),
            )
            &&& !fails && warning_bytes && !pct_crossed(pct, t.warning_pct) ==> e.triggered_by
                == Some("warning threshold "@ + bytes_text(t.warning_bytes->0 as int))
        }),
{
}

/// More growth is never judged more kindly, and nor are lower thresholds in bytes.
pub proof fn law_more_growth_is_no_better(
    small: nat,
    large: nat,
    baseline: nat,
    t: Thresholds,
    pct: u64,
)
    requires
        small <= large,
    ensures
        evaluation(small, baseline, t, pct).verdict == Verdict::Fail ==> evaluation(
            large,
            baseline,
            t,
            pct,
        ).verdict == Verdict::Fail,
        evaluation(small, baseline, t, pct).verdict != Verdict::Pass ==> evaluation(
            large,
            baseline,
            t,
            pct,
        ).verdict != Verdict::Pass,
{
}

/// Each threshold comes from its own variable: a number of bytes as it is written there, a
/// percentage as it is read by the caller, where they are positive.
pub proof fn law_thresholds_come_from_their_variables(
    m: Map<Seq<char>, Seq<char>>,
    warning: Option<u64>,
    fail: Option<u64>,
    n: nat,
)
    requires
        0 < n <= i64::MAX,
    ensures
        ({
            let t = thresholds_of(m, warning, fail);
            &&& m.dom().contains("BUGSEE_SIZE_CHECK_WARNING_BYTES"@) && trimmed(
                m["BUGSEE_SIZE_CHECK_WARNING_BYTES"@],
            ) == decimal(n) ==> t.warning_bytes == Some(n as u64)
            &&& m.dom().contains("BUGSEE_SIZE_CHECK_FAIL_BYTES"@) && trimmed(
                m["BUGSEE_SIZE_CHECK_FAIL_BYTES"@],
            ) == decimal(n) ==> t.fail_bytes == Some(n as u64)
            &&& !m.dom().contains("BUGSEE_SIZE_CHECK_WARNING_BYTES"@) ==> t.warning_bytes is None
            &&& !m.dom().contains("BUGSEE_SIZE_CHECK_FAIL_BYTES"@) ==> t.fail_bytes is None
            &&& m.dom().contains("BUGSEE_SIZE_CHECK_WARNING_PCT"@)
                && m["BUGSEE_SIZE_CHECK_WARNING_PCT"@].len() > 0 && warning is Some && 0
                < warning->0 < 0x7ff0_0000_0000_0000 ==> t.warning_pct == warning
            &&& m.dom().contains("BUGSEE_SIZE_CHECK_FAIL_PCT"@)
                && m["BUGSEE_SIZE_CHECK_FAIL_PCT"@].len() > 0 && fail is Some && 0 < fail->0
                < 0x7ff0_0000_0000_0000 ==> t.fail_pct == fail
            &&& !m.dom().contains("BUGSEE_SIZE_CHECK_WARNING_PCT"@) || warning is None
                || warning->0 == 0 || warning->0 >= 0x7ff0_0000_0000_0000 ==> t.warning_pct is None
            &&& !m.dom().contains("BUGSEE_SIZE_CHECK_FAIL_PCT"@) || fail is None || fail->0 == 0
                || fail->0 >= 0x7ff0_0000_0000_0000 ==> t.fail_pct is None
        }),
{
    law_integers_are_read_as_written(n as int);
}

/// A threshold in bytes that is zero, negative or no number is none.
pub proof fn law_no_threshold_without_a_positive_number(s: Seq<char>, n: int)
    requires
        integer_value(trimmed(s), 10) is None || integer_value(trimmed(s), 10)->0 <= 0,
    ensures
        bytes_threshold(Some(s)) is None,
{
}

/// Sizes are shown in the largest unit that they fill: whole numbers of kilobytes,
/// megabytes and gigabytes show as such, and what shrank shows as what grew with a minus.
pub proof fn law_sizes_are_shown_in_their_unit(k: nat, n: nat)
    requires
        0 < k < 1024,
        0 < n,
    ensures
        bytes_text(k as int) == decimal(k) + " B"@,
        bytes_text((k * 1024) as int) == decimal(k) + ".0 KB"@,
        bytes_text((k * 1048576) as int) == decimal(k) + ".0 MB"@,
        bytes_text((k * 1073741824) as int) == decimal(k) + ".00 GB"@,
        bytes_text(-(n as int)) == seq!['-'] + bytes_text(n as int),
{
    reveal_strlit(" B");
    reveal_strlit("-");
    reveal_strlit(" KB");
    reveal_strlit(" MB");
    reveal_strlit(" GB");
    reveal_strlit(".0 KB");
    reveal_strlit(".0 MB");
    reveal_strlit(".00 GB");
    let e = Seq::<char>::empty();
    law_decimals_are_digits(k, 0, 0);
    lemma_exact((10 * k) as nat, 1024);
    lemma_exact((10 * k) as nat, 1048576);
    lemma_exact((100 * k) as nat, 1073741824);
    law_small_integers_are_exact((k * 1073741824) as nat);
    assert((k * 1024) * 10 == (10 * k) * 1024);
    assert((k * 1048576) * 10 == (10 * k) * 1048576);
    assert((k * 1073741824) * 100 == (100 * k) * 1073741824);
    let t = decimal(k) + seq!['.', digit_char(0)];
    let h = decimal(k) + seq!['.', digit_char(0), digit_char(0)];
    assert(e + t + " KB"@ =~= decimal(k) + ".0 KB"@);
    assert(e + t + " MB"@ =~= decimal(k) + ".0 MB"@);
    assert(e + h + " GB"@ =~= decimal(k) + ".00 GB"@);
    let m = -(n as int);
    assert("-"@ =~= seq!['-']);
    if n < 1024 {
        assert((seq!['-'] + decimal(n)) + " B"@ =~= seq!['-'] + (decimal(n) + " B"@));
    } else if n < 1048576 {
        let x = tenths_text(rounded(n * 10, 1024));
        assert("-"@ + x + " KB"@ =~= seq!['-'] + (e + x + " KB"@));
    } else if n < 1073741824 {
        let x = tenths_text(rounded(n * 10, 1048576));
        assert("-"@ + x + " MB"@ =~= seq!['-'] + (e + x + " MB"@));
    } else {
        let x = hundredths_text(rounded(as_double(n) * 100, 1073741824));
        assert("-"@ + x + " GB"@ =~= seq!['-'] + (e + x + " GB"@));
    }
}

proof fn lemma_exact(a: nat, d: nat)
    requires
        d > 0,
    ensures
        rounded(a * d, d) == a,
{
    vstd::arithmetic::div_mod::lemma_div_multiples_vanish(a as int, d as int);
    vstd::arithmetic::div_mod::lemma_mod_multiples_basic(a as int, d as int);
    assert(a * d == d * a) by (nonlinear_arith);
}

/// How the line of a check is built: it tells the size before, the size now and the build
/// that it compares with, begins with `warning:` exactly where it warns, and ends with the
/// threshold that was crossed.
pub proof fn law_lines_tell_the_check(local: nat, p: Prepared, e: Eval)
    requires
        e.verdict != Verdict::Pass ==> e.triggered_by is Some,
    ensures
        ({
            let line = verdict_line(local, p, e);
            let label = baseline_label(opt_str(p.baseline.version), opt_str(p.baseline.build));
            let head = "Bugsee size check: "@ + bytes_text(p.baseline.artifact_size as int) + " → "@
                + bytes_text(local as int) + " ("@;
            &&& e.verdict == Verdict::Warn ==> has_prefix(line, "warning: "@ + head)
            &&& e.verdict != Verdict::Warn ==> has_prefix(line, head)
            &&& e.verdict == Verdict::Pass ==> has_suffix(line, " vs "@ + label)
            &&& e.verdict != Verdict::Pass ==> has_suffix(
                line,
                " vs "@ + label + " — exceeds "@ + e.triggered_by->0,
            )
        }),
{
    let label = baseline_label(opt_str(p.baseline.version), opt_str(p.baseline.build));
    let head = "Bugsee size check: "@ + bytes_text(p.baseline.artifact_size as int) + " → "@
        + bytes_text(local as int) + " ("@;
    let x = with_plus(e.delta_bytes, pct_text(e.delta_pct));
    let y = with_plus(e.delta_bytes, bytes_text(e.delta_bytes));
    let mid = x + ", "@ + y + seq![')'];
    let tail = " vs "@ + label;
    let none = Seq::<char>::empty();
    assert(summary_line(local, p, e) == head + x + ", "@ + y + ") vs "@ + label);
    assert(head + x + ", "@ + y + ") vs "@ + label == head + mid + tail) by {
        reveal_strlit(") vs ");
        reveal_strlit(" vs ");
        assert(") vs "@ =~= seq![')', ' ', 'v', 's', ' ']);
        assert(" vs "@ =~= seq![' ', 'v', 's', ' ']);
        lemma_summary_parts(head, x, ", "@, y, label);
    }
    match e.verdict {
        Verdict::Pass => {
            lemma_line_ends(none, head, mid, tail, none);
            assert(none + head =~= head);
            assert(head + mid + tail + none =~= head + mid + tail);
            assert(tail + none =~= tail);
        },
        Verdict::Warn => {
            let by = " — exceeds "@ + e.triggered_by->0;
            lemma_line_ends("warning: "@, head, mid, tail, by);
            assert("warning: "@ + (head + mid + tail) + " — exceeds "@ + e.triggered_by->0
                =~= "warning: "@ + head + mid + tail + by);
            assert(tail + by =~= " vs "@ + label + " — exceeds "@ + e.triggered_by->0);
        },
        Verdict::Fail => {
            let by = " — exceeds "@ + e.triggered_by->0;
            lemma_line_ends(none, head, mid, tail, by);
            assert(none + head =~= head);
            assert(head + mid + tail + " — exceeds "@ + e.triggered_by->0 =~= head + mid + tail
                + by);
            assert(tail + by =~= " vs "@ + label + " — exceeds "@ + e.triggered_by->0);
        },
    }
}

proof fn lemma_summary_parts(
    head: Seq<char>,
    x: Seq<char>,
    comma: Seq<char>,
    y: Seq<char>,
    label: Seq<char>,
)
    ensures
        head + x + comma + y + seq![')', ' ', 'v', 's', ' '] + label == head + (x + comma + y
            + seq![')']) + (seq![' ', 'v', 's', ' '] + label),
{
    assert(head + x + comma + y + seq![')', ' ', 'v', 's', ' '] + label =~= head + (x + comma + y
        + seq![')']) + (seq![' ', 'v', 's', ' '] + label));
}

proof fn lemma_line_ends(
    pre: Seq<char>,
    head: Seq<char>,
    mid: Seq<char>,
    tail: Seq<char>,
    by: Seq<char>,
)
    ensures
        has_prefix(pre + head + mid + tail + by, pre + head),
        has_suffix(pre + head + mid + tail + by, tail + by),
{
    law_prefixes_and_suffixes(pre + head, mid + tail + by);
    law_prefixes_and_suffixes(pre + head + mid, tail + by);
    assert(pre + head + mid + tail + by =~= (pre + head) + (mid + tail + by));
    assert(pre + head + mid + tail + by =~= (pre + head + mid) + (tail + by));
}

/// The build before is called by its version and its build number, those that it has.
pub proof fn law_the_build_before_has_a_name(v: Seq<char>, b: Seq<char>)
    requires
        v.len() > 0,
        b.len() > 0,
    ensures
        baseline_label(Some(v), Some(b)) == "version "@ + v + " ("@ + b + ")"@,
        baseline_label(Some(v), None) == "version "@ + v,
        baseline_label(Some(v), Some(Seq::empty())) == "version "@ + v,
        baseline_label(None, Some(b)) == "("@ + b + ")"@,
        baseline_label(None, None) == "previous build"@,
{
}

/// A check is made only where it is switched on, a threshold is set and the app has an id.
pub proof fn law_checks_are_made_on_demand(
    m: Map<Seq<char>, Seq<char>>,
    t: Thresholds,
    id: Seq<char>,
)
    ensures
        !m.dom().contains("BUGSEE_SIZE_CHECK_ENABLED"@) ==> !check_is_due(m, t, Some(id)),
        !check_is_due(m, t, None),
        !check_is_due(m, t, Some(Seq::empty())),
        m.dom().contains("BUGSEE_SIZE_CHECK_ENABLED"@) && truthy(
            Some(m["BUGSEE_SIZE_CHECK_ENABLED"@]),
        ) && id.len() > 0 ==> (check_is_due(m, t, Some(id)) <==> t.warning_pct is Some
            || t.fail_pct is Some || t.warning_bytes is Some || t.fail_bytes is Some),
{
}

/// What counts as a size and as a text in the reply of the server: a positive number, cut to
/// its whole part, and a string that is not empty.
pub proof fn law_what_a_reply_tells(bits: u64, text: Seq<char>)
    ensures
        0 < bits < 0x7ff0_0000_0000_0000 && whole_part(bits) <= u64::MAX ==> reply_size(
            JsonAt::Number(bits),
        ) == Some(whole_part(bits)),
        bits == 0 || bits >= 0x7ff0_0000_0000_0000 ==> reply_size(JsonAt::Number(bits)) is None,
        reply_size(JsonAt::Text(text)) is None,
        reply_size(JsonAt::Object) is None,
        text.len() > 0 ==> reply_text(JsonAt::Text(text)) == Some(text),
        text.len() == 0 ==> reply_text(JsonAt::Text(text)) is None,
        reply_text(JsonAt::Number(bits)) is None,
        reply_text(JsonAt::Object) is None,
{
}

/// Where a reply tells of a build: under `result` where there is such an object, else at the
/// top.
pub proof fn law_where_a_reply_tells_of_a_build(reply: Seq<char>)
    ensures
        json_at(reply, "/result"@) == JsonAt::Object ==> reply_build(reply) == "/result/build"@,
        json_at(reply, "/result"@) != JsonAt::Object ==> reply_build(reply) == "/build"@,
{
}

/// The size in a reply: the whole part of a positive number, and none of anything else.
pub proof fn law_sizes_in_replies(bits: u64, at: JsonAt)
    ensures
        0 < bits < 9218868437227405312 && whole_part(bits) <= u64::MAX ==> reply_size(
            JsonAt::Number(bits),
        ) == Some(whole_part(bits)),
        0 < bits < 9218868437227405312 && whole_part(bits) > u64::MAX ==> reply_size(
            JsonAt::Number(bits),
        ) == Some(u64::MAX as nat),
        bits == 0 || bits >= 9218868437227405312 ==> reply_size(JsonAt::Number(bits)) is None,
        at !is Number ==> reply_size(at) is None,
{
}

/// Growth is shown with a plus; what shrank has its own sign.
pub proof fn law_growth_is_shown_with_a_plus(delta: int, text: Seq<char>)
    ensures
        delta >= 0 ==> with_plus(delta, text) == seq!['+'] + text,
        delta < 0 ==> with_plus(delta, text) == text,
{
    reveal_strlit("+");
    assert("+"@ =~= seq!['+']);
}

/// How a percentage is shown: a whole one as an integer, any other with one digit behind the
/// point, both with a minus where it is negative; and the greatest integers stand for what
/// is beyond them.
pub proof fn law_percentages_are_shown(bits: u64)
    ensures
        ({
            let negative = bits >= 9223372036854775808;
            let finite = bits < 9218868437227405312 || (negative && bits < 18442240474082181120);
            let w = whole_part(bits) as int;
            &&& finite && is_whole(bits) && !negative && w <= i64::MAX ==> pct_text(bits)
                == signed_decimal(w) + "%"@
            &&& finite && is_whole(bits) && !negative && w > i64::MAX ==> pct_text(bits)
                == signed_decimal(i64::MAX as int) + "%"@
            &&& finite && is_whole(bits) && negative && w <= i64::MAX ==> pct_text(bits)
                == signed_decimal(-w) + "%"@
            &&& finite && is_whole(bits) && negative && w > i64::MAX ==> pct_text(bits)
                == signed_decimal(i64::MIN as int) + "%"@
            &&& finite && !is_whole(bits) && !negative ==> pct_text(bits) == tenths_text(
                tenths_of(bits),
            ) + "%"@
            &&& finite && !is_whole(bits) && negative ==> pct_text(bits) == seq!['-']
                + tenths_text(tenths_of(bits)) + "%"@
            &&& bits == 9218868437227405312 ==> pct_text(bits) == "9223372036854775807%"@
            &&& bits == 18442240474082181120 ==> pct_text(bits) == "-9223372036854775808%"@
            &&& !finite && bits != 9218868437227405312 && bits != 18442240474082181120
                ==> pct_text(bits) == "NaN%"@
        }),
{
    reveal_strlit("-");
    assert("-"@ =~= seq!['-']);
    let t = tenths_text(tenths_of(bits));
    assert(Seq::<char>::empty() + t =~= t);
}

} // verus!

use bugsee_cli::double::{double_key, key_bits};
use bugsee_cli::intervals::interval_union;
use bugsee_cli::paths::{parse_path, Part};
use bugsee_cli::slf::{
    extract_slf_sections, tokenize_slf, Token, CLASS_COMMAND, CLASS_SECTION,
};
use bugsee_cli::timeline::{finish_stream, resolve, Measures, Parsed, TargetMeasures};
use bugsee_cli::titles::{
    classify_section_title, os_basename, pick_category, sanitize_section_title_for_emission,
    show_title, Category,
};
use bugsee_cli::xcactivitylog::{
    dominant_category_for_window, find_derived_data_root, find_latest_xcactivitylog, parse_stream,
    parse_xcactivitylog, window_groups, LogFacts, LogFile, Timed,
};
use flate2::write::GzEncoder;
use flate2::Compression;
use std::io::Write;

const CF_ABSOLUTE_TIME_EPOCH_OFFSET: f64 = 978_307_200.0;

const T0: f64 = 8.0e8;

fn key(x: f64) -> i64 {
    double_key(x.to_bits())
}

fn seconds(key: i64) -> f64 {
    f64::from_bits(key_bits(key))
}

fn py_round_to_i64(x: f64) -> i64 {
    x.round_ties_even() as i64
}

fn millis(x: f64) -> i64 {
    py_round_to_i64(x * 1000.0)
}

fn length(windows: &[(i64, i64)]) -> f64 {
    windows.iter().map(|w| seconds(w.1) - seconds(w.0)).sum()
}

/// The arithmetic on the times of a log.
fn measure(f: &LogFacts) -> Measures {
    let start = seconds(f.build_start);
    let span = (seconds(f.build_end) - start) * 1000.0;
    Measures {
        span_is_finite: span.is_finite(),
        total_ms: py_round_to_i64(span),
        native_ms: millis(length(&f.native)),
        resources_ms: millis(length(&f.resources)),
        packaging_ms: millis(length(&f.packaging)),
        other_ms: millis(length(&f.other)),
        build_started_at_ms: millis(start + CF_ABSOLUTE_TIME_EPOCH_OFFSET),
        wall_clock_ms: millis(seconds(f.targets_end) - start),
        targets: f
            .targets
            .iter()
            .map(|t| TargetMeasures {
                occupancy: t.groups.iter().map(|g| key(length(&g.windows))).collect(),
                duration: key(seconds(t.end_cf) - seconds(t.start_cf)),
                duration_ms: millis(seconds(t.end_cf) - seconds(t.start_cf)),
                start_ms: millis(seconds(t.start_cf) - start),
                end_ms: millis(seconds(t.end_cf) - start),
            })
            .collect(),
    }
}

fn finish(facts: Option<LogFacts>) -> Option<Parsed> {
    let facts = facts?;
    let m = measure(&facts);
    finish_stream(&facts, &m)
}

fn gzip(data: &[u8]) -> Vec<u8> {
    let mut enc = GzEncoder::new(Vec::new(), Compression::default());
    enc.write_all(data).unwrap();
    enc.finish().unwrap()
}

fn paths(texts: &[&str]) -> Vec<Vec<Part>> {
    texts.iter().map(|t| parse_path(t)).collect()
}

struct SlfWriter {
    buf: Vec<u8>,
    classes: Vec<String>,
}

impl SlfWriter {
    fn new() -> Self {
        Self {
            buf: b"SLF0".to_vec(),
            classes: Vec::new(),
        }
    }

    fn string(&mut self, s: &str) -> &mut Self {
        let raw = s.as_bytes();
        self.buf.extend_from_slice(raw.len().to_string().as_bytes());
        self.buf.push(b'"');
        self.buf.extend_from_slice(raw);
        self
    }

    fn class_def(&mut self, name: &str) -> i64 {
        let raw = name.as_bytes();
        self.buf.extend_from_slice(raw.len().to_string().as_bytes());
        self.buf.push(b'%');
        self.buf.extend_from_slice(raw);
        self.classes.push(name.to_string());
        self.classes.len() as i64
    }

    fn blob(&mut self, raw: &[u8]) -> &mut Self {
        self.buf.extend_from_slice(raw.len().to_string().as_bytes());
        self.buf.push(b'*');
        self.buf.extend_from_slice(raw);
        self
    }

    fn integer(&mut self, v: i64) -> &mut Self {
        self.buf.extend_from_slice(format!("{v:x}").as_bytes());
        self.buf.push(b'#');
        self
    }

    fn double(&mut self, v: f64) -> &mut Self {
        let hex: String = v.to_le_bytes().iter().map(|b| format!("{b:02x}")).collect();
        self.buf.extend_from_slice(hex.as_bytes());
        self.buf.push(b'^');
        self
    }

    fn class_ref(&mut self, idx: i64) -> &mut Self {
        self.buf.extend_from_slice(format!("{idx:x}").as_bytes());
        self.buf.push(b'@');
        self
    }

    fn array(&mut self, count: i64) -> &mut Self {
        self.buf.extend_from_slice(format!("{count:x}").as_bytes());
        self.buf.push(b'(');
        self
    }

    fn null(&mut self) -> &mut Self {
        self.buf.push(b'-');
        self
    }

    fn raw(&mut self, raw: &[u8]) -> &mut Self {
        self.buf.extend_from_slice(raw);
        self
    }

    fn bytes(&self) -> Vec<u8> {
        self.buf.clone()
    }
}

fn section_header(
    w: &mut SlfWriter,
    class_idx: i64,
    title: &str,
    start_cf: f64,
    end_cf: f64,
    n_children: i64,
) {
    w.class_ref(class_idx);
    w.integer(1);
    w.string("com.apple.dt.IDE.BuildLogSection");
    w.string(title);
    w.string("");
    w.double(start_cf);
    w.double(end_cf);
    if n_children > 0 {
        w.array(n_children);
    } else {
        w.null();
    }
}

fn build_log(
    commands: &[(&str, f64, f64)],
    targets: &[(&str, f64, f64)],
    extra: &[(&str, &str, f64, f64)],
    with_blob: bool,
) -> Vec<u8> {
    let mut w = SlfWriter::new();
    let sec_idx = w.class_def(CLASS_SECTION);
    let cmd_idx = w.class_def(CLASS_COMMAND);
    w.class_def("IDEActivityLogUnitTestSection");

    if with_blob {
        w.blob(br##"{"k":"^\"#(value"}"##);
    }

    for (title, s, e) in targets {
        section_header(&mut w, sec_idx, title, *s, *e, 0);
        w.raw(b"  ");
    }
    for (cls_name, title, s, e) in extra {
        let idx = if *cls_name == CLASS_SECTION {
            sec_idx
        } else {
            cmd_idx
        };
        section_header(&mut w, idx, title, *s, *e, 0);
        w.raw(b"  ");
    }
    for (title, s, e) in commands {
        section_header(&mut w, cmd_idx, title, *s, *e, 0);
        w.raw(b"  ");
    }
    w.bytes()
}

fn parse(commands: &[(&str, f64, f64)], targets: &[(&str, f64, f64)]) -> Parsed {
    finish(parse_stream(&build_log(commands, targets, &[], false))).expect("parse")
}

#[test]
fn string_length_is_decimal_not_hex() {
    let mut w = SlfWriter::new();
    w.string("abcdefghijkl");
    let (tokens, desync) = tokenize_slf(&w.bytes());
    assert_eq!(desync, 0);
    assert_eq!(tokens, vec![Token::Str("abcdefghijkl".into())]);
}

#[test]
fn blob_consumed_in_bytes_no_desync() {
    let mut w = SlfWriter::new();
    w.blob(br##"{"k":"^\"#(value"}"##);
    w.string("after");
    let (tokens, desync) = tokenize_slf(&w.bytes());
    assert_eq!(desync, 0);
    assert_eq!(tokens.last(), Some(&Token::Str("after".into())));
}

#[test]
fn double_decodes_little_endian() {
    let mut w = SlfWriter::new();
    w.double(1234.5);
    let (tokens, _d) = tokenize_slf(&w.bytes());
    match tokens.as_slice() {
        [Token::Double(Some(v))] => assert!((f64::from_bits(*v) - 1234.5).abs() < 1e-9),
        other => panic!("expected one double, got {other:?}"),
    }
}

#[test]
fn int_is_hex() {
    let mut data = b"SLF0".to_vec();
    data.extend_from_slice(b"ff#");
    let (tokens, desync) = tokenize_slf(&data);
    assert_eq!(desync, 0);
    assert_eq!(tokens, vec![Token::Int]);
}

#[test]
fn null_token() {
    let mut data = b"SLF0".to_vec();
    data.push(b'-');
    let (tokens, desync) = tokenize_slf(&data);
    assert_eq!(desync, 0);
    assert_eq!(tokens, vec![Token::Null]);
}

#[test]
fn malformed_double_yields_none_not_crash() {
    let mut data = b"SLF0".to_vec();
    data.extend_from_slice(b"zzzzzzzzzzzzzzzz^");
    let (tokens, desync) = tokenize_slf(&data);
    assert_eq!(tokens, vec![Token::Double(None)]);
    assert_eq!(desync, 1);
}

#[test]
fn short_double_payload_is_none_without_desync() {
    let mut data = b"SLF0".to_vec();
    data.extend_from_slice(b"abc^");
    let (tokens, desync) = tokenize_slf(&data);
    assert_eq!(tokens, vec![Token::Double(None)]);
    assert_eq!(desync, 0);
}

#[test]
fn resolves_class_refs_1_based() {
    let parsed = parse(
        &[("Compile Foo.swift (arm64)", T0, T0 + 1.0)],
        &[("Build target Alpha", T0, T0 + 2.0)],
    );
    assert!(parsed.total_ms > 0);
    assert_eq!(parsed.top_tasks.len(), 1);
}

#[test]
fn inverted_timestamps_dropped() {
    let data = build_log(&[("Ld X", T0 + 5.0, T0 + 1.0)], &[], &[], false);
    assert!(finish(parse_stream(&data)).is_none());
}

#[test]
fn non_finite_timestamps_dropped() {
    let data = build_log(&[("Ld X", f64::NAN, T0 + 1.0)], &[], &[], false);
    assert!(finish(parse_stream(&data)).is_none());
}

#[test]
fn huge_finite_span_drops_timings_no_saturation() {
    let data = build_log(&[("Compile A.swift", T0, 1.0e308)], &[], &[], false);
    assert!(
        finish(parse_stream(&data)).is_none(),
        "an overflowing span must drop timings, not saturate"
    );
}

#[test]
fn non_section_class_refs_ignored() {
    let mut w = SlfWriter::new();
    w.class_def(CLASS_SECTION);
    w.class_def(CLASS_COMMAND);
    w.class_def("IDEActivityLogUnitTestSection");
    section_header(&mut w, 3, "RunTests", T0, T0 + 1.0, 0);
    assert!(finish(parse_stream(&w.bytes())).is_none());
}

fn interval_union_seconds(intervals: &[(f64, f64)]) -> f64 {
    let keys: Vec<(i64, i64)> = intervals.iter().map(|(a, b)| (key(*a), key(*b))).collect();
    length(&interval_union(&keys))
}

#[test]
fn interval_union_empty() {
    assert_eq!(interval_union_seconds(&[]), 0.0);
}

#[test]
fn interval_union_disjoint_sums() {
    assert!((interval_union_seconds(&[(0.0, 1.0), (2.0, 4.0)]) - 3.0).abs() < 1e-9);
}

#[test]
fn interval_union_fully_overlapping_is_not_sum() {
    assert!((interval_union_seconds(&[(0.0, 3.0), (0.0, 3.0)]) - 3.0).abs() < 1e-9);
}

#[test]
fn interval_union_partial_overlap_merges() {
    assert!((interval_union_seconds(&[(0.0, 2.0), (1.0, 3.0)]) - 3.0).abs() < 1e-9);
}

#[test]
fn interval_union_nested_absorbed() {
    assert!((interval_union_seconds(&[(0.0, 10.0), (2.0, 3.0)]) - 10.0).abs() < 1e-9);
}

#[test]
fn interval_union_unsorted_input() {
    assert!((interval_union_seconds(&[(5.0, 6.0), (0.0, 1.0), (2.0, 3.0)]) - 3.0).abs() < 1e-9);
}

#[test]
fn swift_compile_is_native() {
    assert_eq!(
        classify_section_title("Compile Foo.swift (arm64)"),
        Some(Category::Native)
    );
}

#[test]
fn compile_c_is_native() {
    assert_eq!(
        classify_section_title("CompileC bar.o"),
        Some(Category::Native)
    );
}

#[test]
fn compile_swift_sources_is_native() {
    assert_eq!(
        classify_section_title("CompileSwiftSources normal arm64"),
        Some(Category::Native)
    );
}

#[test]
fn compiling_clang_module_is_native() {
    assert_eq!(
        classify_section_title("Compiling Clang module Foundation"),
        Some(Category::Native)
    );
}

#[test]
fn ld_is_packaging() {
    assert_eq!(
        classify_section_title("Ld MyApp normal"),
        Some(Category::Packaging)
    );
}

#[test]
fn link_is_packaging() {
    assert_eq!(
        classify_section_title("Link MyApp"),
        Some(Category::Packaging)
    );
}

#[test]
fn link_storyboards_is_resources() {
    assert_eq!(
        classify_section_title("LinkStoryboards"),
        Some(Category::Resources)
    );
}

#[test]
fn validate_is_packaging() {
    assert_eq!(
        classify_section_title("Validate MyApp.app"),
        Some(Category::Packaging)
    );
}

#[test]
fn compile_asset_catalogs_is_resources() {
    assert_eq!(
        classify_section_title("Compile asset catalog Assets.xcassets"),
        Some(Category::Resources)
    );
}

#[test]
fn process_info_plist_is_resources() {
    assert_eq!(
        classify_section_title("ProcessInfoPlistFile Info.plist"),
        Some(Category::Resources)
    );
}

#[test]
fn unknown_phase_is_other() {
    assert_eq!(
        classify_section_title("Resolve Package Graph"),
        Some(Category::Other)
    );
}

#[test]
fn empty_title_returns_none() {
    assert_eq!(classify_section_title(""), None);
}

#[test]
fn user_home_path_stripped() {
    assert_eq!(
        sanitize_section_title_for_emission(
            "Compile /Users/alice/Projects/MyApp/Sources/Foo.swift"
        ),
        "Compile <home>/Projects/MyApp/Sources/Foo.swift"
    );
}

#[test]
fn user_home_path_stripped_when_followed_by_non_path_char() {
    assert_eq!(
        sanitize_section_title_for_emission("see /Users/alice)"),
        "see <home>)"
    );
}

#[test]
fn pii_free_title_unchanged() {
    assert_eq!(
        sanitize_section_title_for_emission("Compile Foo.swift (arm64)"),
        "Compile Foo.swift (arm64)"
    );
}

#[test]
fn private_var_folders_path_cleaned() {
    let out = sanitize_section_title_for_emission(
        "WriteAuxiliaryFile /private/var/folders/xy/abc/T/Script.sh",
    );
    assert_eq!(out, "WriteAuxiliaryFile Script.sh");
}

#[test]
fn generic_absolute_path_collapsed_to_basename() {
    assert_eq!(
        sanitize_section_title_for_emission("Strip /Applications/Xcode.app/Contents/usr"),
        "Strip usr"
    );
}

#[test]
fn empty_passes_through() {
    assert_eq!(sanitize_section_title_for_emission(""), "");
}

fn dominant(cmds: &[(Category, f64, f64)], start: f64, end: f64) -> Category {
    let timed: Vec<Timed> = cmds
        .iter()
        .map(|c| Timed { category: c.0, start: key(c.1), end: key(c.2) })
        .collect();
    let groups = window_groups(&timed, key(start), key(end));
    let occupancy: Vec<i64> = groups.iter().map(|g| key(length(&g.windows))).collect();
    dominant_category_for_window(&groups, &occupancy)
}

#[test]
fn dominant_greatest_occupancy_wins() {
    let cmds = [
        (Category::Native, T0, T0 + 1.0),
        (Category::Packaging, T0 + 1.0, T0 + 5.0),
    ];
    assert_eq!(
        dominant(&cmds, T0, T0 + 6.0),
        Category::Packaging
    );
}

#[test]
fn dominant_occupancy_not_sum_decides() {
    let cmds = [
        (Category::Native, T0, T0 + 2.0),
        (Category::Native, T0, T0 + 2.0),
        (Category::Native, T0, T0 + 2.0),
        (Category::Packaging, T0 + 2.0, T0 + 5.0),
    ];
    assert_eq!(
        dominant(&cmds, T0, T0 + 6.0),
        Category::Packaging
    );
}

#[test]
fn dominant_only_contained_commands_count() {
    let cmds = [
        (Category::Native, T0, T0 + 1.0),
        (Category::Packaging, T0 + 1.0, T0 + 100.0),
    ];
    assert_eq!(
        dominant(&cmds, T0, T0 + 2.0),
        Category::Native
    );
}

#[test]
fn dominant_boundary_inclusive() {
    let cmds = [(Category::Packaging, T0, T0 + 2.0)];
    assert_eq!(
        dominant(&cmds, T0, T0 + 2.0),
        Category::Packaging
    );
}

#[test]
fn dominant_no_contained_falls_back_to_native() {
    let cmds = [(Category::Packaging, T0 + 10.0, T0 + 11.0)];
    assert_eq!(
        dominant(&cmds, T0, T0 + 1.0),
        Category::Native
    );
}

#[test]
fn dominant_tie_break_keeps_first_seen() {
    let cmds = [
        (Category::Resources, T0, T0 + 2.0),
        (Category::Packaging, T0 + 2.0, T0 + 4.0),
    ];
    assert_eq!(
        dominant(&cmds, T0, T0 + 4.0),
        Category::Resources
    );
}

#[test]
fn total_ms_is_span_over_all_sections() {
    let parsed = parse(
        &[("Compile Foo.swift", T0, T0 + 3.0)],
        &[("Build target Alpha", T0, T0 + 5.0)],
    );
    assert_eq!(parsed.total_ms, 5000);
}

#[test]
fn category_occupancy_is_union_not_sum() {
    let parsed = parse(
        &[
            ("Compile A.swift", T0, T0 + 2.0),
            ("Compile B.swift", T0, T0 + 2.0),
            ("Compile C.swift", T0, T0 + 2.0),
        ],
        &[("Build target Alpha", T0, T0 + 2.0)],
    );
    assert_eq!(parsed.category_sums.native, 2000);
    assert!(parsed.category_sums.native <= parsed.total_ms);
}

#[test]
fn per_category_occupancy_independent() {
    let parsed = parse(
        &[
            ("Compile A.swift", T0, T0 + 2.0),
            ("Ld App", T0 + 2.0, T0 + 5.0),
        ],
        &[("Build target Alpha", T0, T0 + 5.0)],
    );
    assert_eq!(parsed.category_sums.native, 2000);
    assert_eq!(parsed.category_sums.packaging, 3000);
    assert_eq!(parsed.category_sums.resources, 0);
    assert_eq!(parsed.category_sums.managed_code, 0);
}

#[test]
fn gantt_emits_only_build_target_groupings() {
    let parsed = parse(
        &[("Compile Foo.swift", T0, T0 + 3.0)],
        &[
            ("Build BugseeApp", T0, T0 + 5.0),
            ("Build target Alpha", T0, T0 + 4.0),
            ("Build target Beta", T0 + 1.0, T0 + 5.0),
        ],
    );
    let timeline = parsed.timeline.expect("timeline");
    let paths: Vec<&str> = timeline
        .tasks
        .iter()
        .map(|t| t.path.as_str())
        .collect();
    let mut sorted = paths.clone();
    sorted.sort();
    assert_eq!(sorted, vec!["Alpha", "Beta"]);
    assert!(!paths.contains(&"BugseeApp"));
}

#[test]
fn gantt_offsets_relative_to_build_start() {
    let parsed = parse(&[], &[("Build target Beta", T0 + 1.0, T0 + 5.0)]);
    let timeline = parsed.timeline.expect("timeline");
    let task = &timeline.tasks[0];
    assert_eq!(task.start_ms, 0);
    assert_eq!(task.end_ms, 4000);
    let expected = py_round_to_i64((T0 + 1.0 + CF_ABSOLUTE_TIME_EPOCH_OFFSET) * 1000.0);
    assert_eq!(timeline.build_started_at_ms, expected);
}

#[test]
fn gantt_sorted_by_start_ms_ascending() {
    let parsed = parse(
        &[],
        &[
            ("Build target Late", T0 + 3.0, T0 + 4.0),
            ("Build target Early", T0, T0 + 1.0),
        ],
    );
    let timeline = parsed.timeline.expect("timeline");
    let tasks = &timeline.tasks;
    let starts: Vec<i64> = tasks
        .iter()
        .map(|t| t.start_ms)
        .collect();
    let mut sorted = starts.clone();
    sorted.sort_unstable();
    assert_eq!(starts, sorted);
    assert_eq!(tasks[0].path, "Early");
}

#[test]
fn dominant_category_assignment_in_timeline() {
    let parsed = parse(
        &[("Ld Alpha", T0, T0 + 3.0)],
        &[("Build target Alpha", T0, T0 + 4.0)],
    );
    let timeline = parsed.timeline.expect("timeline");
    assert_eq!(timeline.tasks[0].category.as_str(), "packaging");
}

#[test]
fn dominant_category_falls_back_to_native_in_timeline() {
    let parsed = parse(&[], &[("Build target Empty", T0, T0 + 2.0)]);
    let timeline = parsed.timeline.expect("timeline");
    assert_eq!(timeline.tasks[0].category.as_str(), "native");
}

#[test]
fn parity_with_python_reference_fixture() {
    let parsed = parse(
        &[
            ("Compile Foo.swift (arm64)", T0, T0 + 2.5),
            ("Compile Bar.swift (arm64)", T0 + 0.5, T0 + 3.0),
            ("Ld Beta", T0 + 3.0, T0 + 6.0),
            ("Compile asset catalog", T0 + 1.0, T0 + 1.5),
        ],
        &[
            ("Build BugseeApp", T0, T0 + 7.5),
            ("Build target Alpha", T0, T0 + 4.25),
            ("Build target Beta", T0 + 1.0, T0 + 6.5),
        ],
    );

    assert_eq!(parsed.total_ms, 7500);
    assert_eq!(parsed.category_sums.native, 3000);
    assert_eq!(parsed.category_sums.packaging, 3000);
    assert_eq!(parsed.category_sums.resources, 500);
    assert_eq!(parsed.category_sums.other, 0);
    assert_eq!(parsed.category_sums.managed_code, 0);

    let tt: Vec<(&str, i64)> = parsed
        .top_tasks
        .iter()
        .map(|t| {
            (
                t.name.as_str(),
                t.duration_ms,
            )
        })
        .collect();
    assert_eq!(tt, vec![("Beta", 5500), ("Alpha", 4250)]);

    let tl = parsed.timeline.expect("timeline");
    assert_eq!(tl.schema_version, 1);
    assert_eq!(tl.build_started_at_ms, 1_778_307_200_000_i64);
    assert_eq!(tl.wall_clock_ms, 6500);
    let tasks = &tl.tasks;
    assert_eq!(tasks.len(), 2);
    assert_eq!(
        (tasks[0].path.as_str(), tasks[0].category.as_str(), tasks[0].start_ms, tasks[0].end_ms),
        ("Alpha", "native", 0, 4250)
    );
    assert_eq!(
        (tasks[1].path.as_str(), tasks[1].category.as_str(), tasks[1].start_ms, tasks[1].end_ms),
        ("Beta", "packaging", 1000, 6500)
    );
}

#[test]
fn top_tasks_are_targets_slowest_first() {
    let parsed = parse(
        &[],
        &[
            ("Build target Slow", T0, T0 + 9.0),
            ("Build target Fast", T0, T0 + 1.0),
        ],
    );
    let names: Vec<&str> = parsed
        .top_tasks
        .iter()
        .map(|t| t.name.as_str())
        .collect();
    assert_eq!(names, vec!["Slow", "Fast"]);
    assert_eq!(parsed.top_tasks[0].duration_ms, 9000);
}

#[test]
fn top_tasks_excludes_zero_duration_targets() {
    let parsed = parse(
        &[],
        &[
            ("Build target Real", T0, T0 + 2.0),
            ("Build target Instant", T0, T0),
        ],
    );
    let names: Vec<&str> = parsed
        .top_tasks
        .iter()
        .map(|t| t.name.as_str())
        .collect();
    assert_eq!(names, vec!["Real"]);
}

#[test]
fn no_targets_yields_no_timeline() {
    let parsed = parse(&[("Compile Foo.swift", T0, T0 + 1.0)], &[]);
    assert!(parsed.timeline.is_none());
    assert!(parsed.top_tasks.is_empty());
}

#[test]
fn blob_in_stream_does_not_break_parse() {
    let data = build_log(
        &[("Compile Foo.swift", T0, T0 + 1.0)],
        &[("Build target Alpha", T0, T0 + 2.0)],
        &[],
        true,
    );
    let parsed = finish(parse_stream(&data)).expect("parse survives the blob");
    assert_eq!(parsed.top_tasks.len(), 1);
    assert_eq!(parsed.top_tasks[0].name, "Alpha");
}

#[test]
fn resolve_none_when_objroot_missing() {
    assert!(find_derived_data_root("", &paths(&["/Logs/Build", "Logs/Build"])).is_none());
    let t = resolve(None);
    assert!(t.summary.is_none());
    assert!(t.timeline.is_none());
}

#[test]
fn resolve_none_when_no_log_found() {
    assert!(find_latest_xcactivitylog(&vec![]).is_none());
    let t = resolve(None);
    assert!(t.summary.is_none() && t.timeline.is_none());
}

#[test]
fn resolve_swallows_bad_gzip() {
    let t = resolve(finish(parse_xcactivitylog(b"not real gzip")));
    assert!(t.summary.is_none() && t.timeline.is_none());
}

#[test]
fn resolve_full_synthetic_fixture() {
    let targets = [
        ("Build BugseeSwiftUIDev", T0, T0 + 5.0),
        ("Build target Alpha", T0, T0 + 4.0),
        ("Build target Beta", T0 + 1.0, T0 + 5.0),
    ];
    let commands = [
        ("Compile Foo.swift (arm64)", T0, T0 + 3.0),
        ("Ld Beta", T0 + 1.0, T0 + 4.0),
    ];
    let data = build_log(&commands, &targets, &[], false);
    let t = resolve(finish(parse_xcactivitylog(&gzip(&data))));

    let summary = t.summary.expect("summary");
    assert!(summary.total_ms.unwrap() > 0);
    let bucket = |n: &str| summary.buckets.iter().find(|b| b.0 == n).map(|b| b.1);
    let native_ms = bucket("native_ms").unwrap();
    assert_eq!(native_ms, 3000);
    assert!(native_ms <= summary.total_ms.unwrap());
    assert!(bucket("managed_code_ms").is_none());
    let top_names: Vec<&str> = summary.top_tasks.iter().map(|t| t.name.as_str()).collect();
    assert!(top_names.contains(&"Alpha"));
    assert!(top_names.contains(&"Beta"));
    assert!(!top_names.contains(&"BugseeSwiftUIDev"));

    let timeline = t.timeline.expect("timeline");
    assert_eq!(timeline.schema_version, 1);
    let mut paths: Vec<&str> = timeline.tasks.iter().map(|t| t.path.as_str()).collect();
    paths.sort();
    assert_eq!(paths, vec!["Alpha", "Beta"]);
}

#[test]
fn find_derived_data_root_walks_up() {
    let dirs = paths(&["/dd", "/dd/Logs/Build", "/dd/Build/Intermediates.noindex/Archive"]);
    let found = find_derived_data_root("/dd/Build/Intermediates.noindex/Archive", &dirs).unwrap();
    assert_eq!(found, parse_path("/dd"));
}

#[test]
fn find_derived_data_root_none_when_absent() {
    assert!(find_derived_data_root("/dd", &paths(&["/dd"])).is_none());
}

fn log(name: &str, secs: i64) -> LogFile {
    LogFile { name: name.to_string(), secs, nanos: 0 }
}

#[test]
fn find_latest_picks_newest_by_name_on_mtime_tie() {
    let files = vec![
        log("A-aaaa.xcactivitylog", 5),
        log("Z-zzzz.xcactivitylog", 5),
        log("readme.txt", 9),
    ];
    let found = find_latest_xcactivitylog(&files).unwrap();
    assert!(files[found].name.starts_with("Z-"));
    let files = vec![log("A.xcactivitylog", 6), log("Z.xcactivitylog", 5)];
    assert_eq!(find_latest_xcactivitylog(&files), Some(0));
}

#[test]
fn sections_come_out_with_their_times() {
    let data = build_log(&[("Ld X", T0, T0 + 1.5)], &[], &[], false);
    let (tokens, _) = tokenize_slf(&data);
    let sections = extract_slf_sections(&tokens);
    assert_eq!(sections.len(), 1);
    assert_eq!(sections[0].title, "Ld X");
    assert_eq!(seconds(sections[0].start_cf), T0);
    assert_eq!(seconds(sections[0].end_cf), T0 + 1.5);
}

#[test]
fn keys_order_as_their_numbers() {
    let xs = [-2.5, -1.0, 0.0, 1e-300, 1.0, 2.5];
    for w in xs.windows(2) {
        assert!(key(w[0]) < key(w[1]));
    }
    assert_eq!(key(-0.0), key(0.0));
    assert_eq!(seconds(key(-2.5)), -2.5);
}

#[test]
fn titles_are_shown_without_user_names() {
    assert_eq!(show_title("Ld /Users/bob/x.o /Users/eve"), "Ld <home>/x.o <home>");
    assert_eq!(show_title("a /Users/ b"), "a /Users/ b");
    assert_eq!(show_title("x/Users//private/var/folders/z/bob"), "x/Users/bob");
    assert_eq!(show_title("/Users//private/var/folders/z/bob"), "bob");
    assert_eq!(show_title(&"y".repeat(300)).len(), 255);
    assert_eq!(os_basename("/a/b/"), "");
    assert_eq!(os_basename("/a/b"), "b");
}

#[test]
fn categories_have_an_order() {
    let pick = |n, r, p| pick_category("Some title", n, r, p);
    assert_eq!(pick(true, true, true), Some(Category::Native));
    assert_eq!(pick(false, true, true), Some(Category::Resources));
    assert_eq!(pick(false, false, true), Some(Category::Packaging));
    assert_eq!(pick(false, false, false), Some(Category::Other));
    assert_eq!(pick_category("", true, true, true), None);
}

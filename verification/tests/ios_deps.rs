use bugsee_cli::dep_entry::{make_dep_id, DepEntry};
use bugsee_cli::dep_merge::merge_dep_entries;
use bugsee_cli::ios_deps::{
    bounded_read_to_end, collect, find_first_above, find_xcode_spm_resolved, locate_manifests,
    parse_otool_output, parse_vendored_frameworks, OtoolRun, DEPENDENCIES_MAX_COUNT, MAX_OTOOL_STDOUT_BYTES,
};
use bugsee_cli::manifests::{parse_cartfile_resolved, parse_package_resolved};
use bugsee_cli::paths::{parse_path, Part};
use bugsee_cli::podfile::{is_section_header, parse_podfile_lock, strip_pod_version_paren};
use std::collections::{HashMap, HashSet};

fn paths(texts: &[&str]) -> Vec<Vec<Part>> {
    texts.iter().map(|t| parse_path(t)).collect()
}

const PODFILE_BRAINTREE: &str = "PODS:\n\
    \x20\x20- Braintree (5.26.0):\n\
    \x20\x20\x20\x20- Braintree/Card (= 5.26.0)\n\
    \x20\x20\x20\x20- Braintree/Core (= 5.26.0)\n\
    \x20\x20- Braintree/Card (5.26.0):\n\
    \x20\x20\x20\x20- Braintree/Core\n\
    \x20\x20- Braintree/Core (5.26.0)\n\
    \x20\x20- SocketRocket (0.7.1)\n\
    \n\
    DEPENDENCIES:\n\
    \x20\x20- Braintree\n\
    \x20\x20- SocketRocket (~> 0.7.0)\n\
    \n\
    SPEC CHECKSUMS:\n\
    \x20\x20Braintree: deadbeef0123456789abcdef\n\
    \x20\x20SocketRocket: feedface0123456789abcdef\n";

fn dummy_entry(name: &str) -> DepEntry {
    DepEntry {
        id: make_dep_id("library", "", name),
        group: String::new(),
        name: name.to_string(),
        version: Some("1.0".to_string()),
        direct: true,
        scope: None,
        type_: "library".to_string(),
        parents: Vec::new(),
        url: None,
    }
}

fn dummy_entry_with_url(name: &str, url: &str) -> DepEntry {
    let mut e = dummy_entry(name);
    e.url = Some(url.to_string());
    e
}

fn dummy_transitive(name: &str) -> DepEntry {
    let mut e = dummy_entry(name);
    e.direct = false;
    e
}

#[test]
fn make_dep_id_pinned_format() {
    assert_eq!(make_dep_id("library", "", "Foo"), "library::Foo");
    assert_eq!(make_dep_id("file", "", "Bar.framework"), "file::Bar.framework");
}

#[test]
fn podfile_lock_top_level_and_versions() {
    let entries = parse_podfile_lock(PODFILE_BRAINTREE);
    let by_name: HashMap<&str, &DepEntry> =
        entries.iter().map(|e| (e.name.as_str(), e)).collect();
    assert_eq!(by_name["Braintree"].version.as_deref(), Some("5.26.0"));
    assert_eq!(by_name["SocketRocket"].version.as_deref(), Some("0.7.1"));
    assert!(by_name.contains_key("Braintree/Card"));
}

#[test]
fn podfile_lock_direct_flag() {
    let entries = parse_podfile_lock(PODFILE_BRAINTREE);
    let by_name: HashMap<&str, &DepEntry> =
        entries.iter().map(|e| (e.name.as_str(), e)).collect();
    assert!(by_name["Braintree"].direct);
    assert!(by_name["SocketRocket"].direct);
    assert!(!by_name["Braintree/Card"].direct);
    assert!(!by_name["Braintree/Core"].direct);
}

#[test]
fn podfile_lock_parent_edges() {
    let entries = parse_podfile_lock(PODFILE_BRAINTREE);
    let by_name: HashMap<&str, &DepEntry> =
        entries.iter().map(|e| (e.name.as_str(), e)).collect();
    let card_parents = &by_name["Braintree/Card"].parents;
    assert!(card_parents.contains(&make_dep_id("library", "", "Braintree")));
    let core_parents = &by_name["Braintree/Core"].parents;
    assert!(core_parents.contains(&make_dep_id("library", "", "Braintree")));
    assert!(core_parents.contains(&make_dep_id("library", "", "Braintree/Card")));
    assert!(by_name["SocketRocket"].parents.is_empty());
}

#[test]
fn package_resolved_xcode_legacy_shape() {
    let body = r#"{
        "object": {
            "pins": [
                {
                    "package": "Alamofire",
                    "repositoryURL": "https://github.com/Alamofire/Alamofire.git",
                    "state": {"version": "5.8.1"}
                },
                {
                    "package": "swift-collections",
                    "state": {"revision": "abc123def456"}
                }
            ]
        },
        "version": 1
    }"#;
    let entries = parse_package_resolved(body);
    let by_name: HashMap<&str, &DepEntry> =
        entries.iter().map(|e| (e.name.as_str(), e)).collect();
    assert_eq!(by_name["Alamofire"].version.as_deref(), Some("5.8.1"));
    assert_eq!(
        by_name["swift-collections"].version.as_deref(),
        Some("abc123def456")
    );
    assert!(entries.iter().all(|e| e.direct));
    assert_eq!(
        by_name["Alamofire"].url.as_deref(),
        Some("https://github.com/Alamofire/Alamofire.git"),
    );
    assert_eq!(by_name["swift-collections"].url, None);
}

#[test]
fn package_resolved_v2_uses_location_for_url() {
    let body = r#"{
        "pins": [
            {
                "identity": "alamofire",
                "kind": "remoteSourceControl",
                "location": "https://github.com/Alamofire/Alamofire.git",
                "state": {"version": "5.8.1"}
            }
        ],
        "version": 2
    }"#;
    let entries = parse_package_resolved(body);
    assert_eq!(
        entries[0].url.as_deref(),
        Some("https://github.com/Alamofire/Alamofire.git"),
    );
}

#[test]
fn package_resolved_v2_prefers_identity_over_package() {
    let body = r#"{
        "pins": [
            {
                "identity": "alamofire",
                "package": "Alamofire",
                "kind": "remoteSourceControl",
                "state": {"version": "5.8.1"}
            }
        ],
        "version": 2
    }"#;
    let entries = parse_package_resolved(body);
    assert_eq!(entries[0].name, "alamofire");
}

#[test]
fn package_resolved_state_prefers_version_over_revision() {
    let body = r#"{
        "pins": [
            {
                "identity": "alamofire",
                "state": {
                    "version":  "5.8.1",
                    "revision": "f455c2975872ccd2d9c81594c658af65716e9b9a"
                }
            }
        ],
        "version": 2
    }"#;
    let entries = parse_package_resolved(body);
    assert_eq!(entries[0].version.as_deref(), Some("5.8.1"));
}

#[test]
fn cartfile_resolved_basic() {
    let body = "\
        github \"ReactiveCocoa/ReactiveCocoa\" \"v2.3.1\"\n\
        git \"https://example.com/private.git\" \"1.0.0\"\n\
        binary \"https://example.com/MyBin.json\" \"1.0.0\"\n\
        # comment line — must be skipped\n";
    let entries = parse_cartfile_resolved(body);
    assert_eq!(entries.len(), 3);
    let names: HashMap<&str, &str> = entries
        .iter()
        .map(|e| (e.name.as_str(), e.version.as_deref().unwrap_or("")))
        .collect();
    assert_eq!(names["ReactiveCocoa/ReactiveCocoa"], "v2.3.1");
    assert_eq!(names["https://example.com/private.git"], "1.0.0");
    assert!(entries.iter().all(|e| e.direct));
}

#[test]
fn merger_dedup_first_source_wins_when_no_url_advantage() {
    let mut first = dummy_entry("A");
    first.version = Some("from-cocoapods".to_string());
    let mut second = dummy_entry("A");
    second.version = Some("from-spm".to_string());
    let (out, truncated) = merge_dep_entries(
        vec![vec![first, dummy_entry("B")], vec![second, dummy_entry("C")]],
        DEPENDENCIES_MAX_COUNT,
    );
    assert_eq!(out.len(), 3);
    let kept_a = out.iter().find(|e| e.name == "A").unwrap();
    assert_eq!(kept_a.version.as_deref(), Some("from-cocoapods"));
    assert!(!truncated);
}

#[test]
fn merger_dedup_url_preference_wins_over_first_source() {
    let cocoapods_a = dummy_entry("A");
    let spm_a = dummy_entry_with_url(
        "A", "https://github.com/example/A.git",
    );
    let (out, _) = merge_dep_entries(
        vec![vec![cocoapods_a], vec![spm_a]],
        DEPENDENCIES_MAX_COUNT,
    );
    assert_eq!(out.len(), 1);
    assert_eq!(
        out[0].url.as_deref(),
        Some("https://github.com/example/A.git"),
    );
}

#[test]
fn merger_dedup_both_with_url_first_wins() {
    let first = dummy_entry_with_url("A", "https://first.example/A");
    let second = dummy_entry_with_url("A", "https://second.example/A");
    let (out, _) = merge_dep_entries(
        vec![vec![first], vec![second]],
        DEPENDENCIES_MAX_COUNT,
    );
    assert_eq!(out.len(), 1);
    assert_eq!(out[0].url.as_deref(), Some("https://first.example/A"));
}

#[test]
fn merger_url_preference_preserves_parents_and_demoted_direct_flag() {
    let braintree_umbrella = dummy_entry("Braintree");
    let mut cocoapods_subspec = dummy_transitive("Braintree/Core");
    cocoapods_subspec.parents = vec![make_dep_id("library", "", "Braintree")];
    let spm_entry = dummy_entry_with_url(
        "Braintree/Core",
        "https://github.com/braintree/braintree_ios.git",
    );
    let (out, _) = merge_dep_entries(
        vec![vec![braintree_umbrella, cocoapods_subspec], vec![spm_entry]],
        DEPENDENCIES_MAX_COUNT,
    );
    let core = out.iter().find(|e| e.name == "Braintree/Core").expect("Core kept");
    assert_eq!(
        core.url.as_deref(),
        Some("https://github.com/braintree/braintree_ios.git"),
    );
    assert_eq!(
        core.parents,
        vec![make_dep_id("library", "", "Braintree")],
        "CocoaPods parent edge must survive url-preference replacement",
    );
    assert!(core.direct, "direct must OR-merge to true");
}

#[test]
fn merger_url_preference_does_not_demote_direct_when_both_transitive() {
    let umbrella = dummy_entry("Umbrella");
    let spm_first = dummy_entry_with_url("Pkg", "https://example.com/pkg.git");
    let mut cocoapods_subspec = dummy_transitive("Pkg");
    cocoapods_subspec.parents = vec![make_dep_id("library", "", "Umbrella")];
    let (out, _) = merge_dep_entries(
        vec![vec![spm_first], vec![umbrella, cocoapods_subspec]],
        DEPENDENCIES_MAX_COUNT,
    );
    let pkg = out.iter().find(|e| e.name == "Pkg").expect("Pkg kept");
    assert!(pkg.direct, "first-source direct=true must not be demoted");
    assert_eq!(
        pkg.parents,
        vec![make_dep_id("library", "", "Umbrella")],
        "empty parents must be backfilled from incoming source",
    );
}

#[test]
fn merger_url_preference_fills_in_missing_version() {
    let mut vendored = dummy_entry("Foo");
    vendored.version = None;
    let mut spm = dummy_entry_with_url("Foo", "https://example.com/foo.git");
    spm.version = Some("2.0".to_string());
    let (out, _) = merge_dep_entries(
        vec![vec![vendored], vec![spm]],
        DEPENDENCIES_MAX_COUNT,
    );
    assert_eq!(out.len(), 1);
    assert_eq!(out[0].version.as_deref(), Some("2.0"));
    assert_eq!(
        out[0].url.as_deref(),
        Some("https://example.com/foo.git"),
    );
}

#[test]
fn merger_url_and_version_travel_together_on_replacement() {
    let mut cocoapods = dummy_entry("Alamofire");
    cocoapods.version = Some("1.0".to_string());
    let mut spm = dummy_entry_with_url(
        "Alamofire", "https://github.com/Alamofire/Alamofire.git",
    );
    spm.version = Some("2.0".to_string());
    let (out, _) = merge_dep_entries(
        vec![vec![cocoapods], vec![spm]],
        DEPENDENCIES_MAX_COUNT,
    );
    assert_eq!(out.len(), 1);
    assert_eq!(
        out[0].url.as_deref(),
        Some("https://github.com/Alamofire/Alamofire.git"),
        "url must come from the SPM source",
    );
    assert_eq!(
        out[0].version.as_deref(),
        Some("2.0"),
        "version must come from the SPM source — NOT stay at the \
         stale CocoaPods value, which would scan the wrong version \
         against OSV",
    );
}

#[test]
fn merger_url_promotion_drops_stale_version_when_incoming_has_none() {
    let mut cocoapods = dummy_entry("Alamofire");
    cocoapods.version = Some("1.0".to_string());
    let mut spm = dummy_entry_with_url(
        "Alamofire", "https://github.com/Alamofire/Alamofire.git",
    );
    spm.version = None;
    let (out, _) = merge_dep_entries(
        vec![vec![cocoapods], vec![spm]],
        DEPENDENCIES_MAX_COUNT,
    );
    assert_eq!(out.len(), 1);
    assert_eq!(
        out[0].url.as_deref(),
        Some("https://github.com/Alamofire/Alamofire.git"),
    );
    assert_eq!(
        out[0].version, None,
        "stale CocoaPods version must be dropped when paired with \
         a different-source url",
    );
}

#[test]
fn merger_url_promotion_drops_version_while_preserving_parents_and_direct_false() {
    let umbrella = dummy_entry("Braintree");
    let mut cocoapods_subspec = dummy_transitive("Braintree/Core");
    cocoapods_subspec.version = Some("5.26.0".to_string());
    cocoapods_subspec.parents = vec![make_dep_id("library", "", "Braintree")];
    let mut spm = dummy_entry_with_url(
        "Braintree/Core",
        "https://github.com/braintree/braintree_ios.git",
    );
    spm.version = None;
    let (out, _) = merge_dep_entries(
        vec![vec![umbrella, cocoapods_subspec], vec![spm]],
        DEPENDENCIES_MAX_COUNT,
    );
    let core = out.iter().find(|e| e.name == "Braintree/Core")
        .expect("Core kept");
    assert_eq!(
        core.url.as_deref(),
        Some("https://github.com/braintree/braintree_ios.git"),
    );
    assert_eq!(
        core.version, None,
        "stale CocoaPods version must be dropped on cross-source \
         url promotion regardless of graph context",
    );
    assert_eq!(
        core.parents,
        vec![make_dep_id("library", "", "Braintree")],
        "CocoaPods parent edges must survive url promotion",
    );
    assert!(
        core.direct,
        "direct must OR-merge to true when entry brings direct=true",
    );
}

#[test]
fn merger_dedup_url_bearing_entry_does_not_get_overwritten_by_url_less() {
    let spm_a = dummy_entry_with_url(
        "A", "https://github.com/example/A.git",
    );
    let cocoapods_a = dummy_entry("A");
    let (out, _) = merge_dep_entries(
        vec![vec![spm_a], vec![cocoapods_a]],
        DEPENDENCIES_MAX_COUNT,
    );
    assert_eq!(out.len(), 1);
    assert_eq!(
        out[0].url.as_deref(),
        Some("https://github.com/example/A.git"),
    );
}

#[test]
fn merger_output_is_sorted_by_id_ascending() {
    let entries = vec![vec![
        dummy_entry("Zebra"),
        dummy_entry("Apple"),
        dummy_entry("Mango"),
    ]];
    let (out, _) = merge_dep_entries(entries, DEPENDENCIES_MAX_COUNT);
    let names: Vec<&str> = out.iter().map(|e| e.name.as_str()).collect();
    assert_eq!(names, vec!["Apple", "Mango", "Zebra"]);
}

#[test]
fn merger_truncation_prefers_direct_entries() {
    let mut entries = Vec::new();
    for i in 0..3 {
        entries.push(dummy_entry(&format!("D{}", i)));
    }
    for i in 0..7 {
        entries.push(dummy_transitive(&format!("T{}", i)));
    }
    let (out, truncated) = merge_dep_entries(vec![entries], 5);
    assert!(truncated);
    assert_eq!(out.len(), 5);
    let kept_names: HashSet<&str> = out.iter().map(|e| e.name.as_str()).collect();
    for i in 0..3 {
        let n = format!("D{}", i);
        assert!(
            kept_names.contains(n.as_str()),
            "direct entry D{} must survive truncation, but didn't",
            i,
        );
    }
    let direct_count = out.iter().filter(|e| e.direct).count();
    assert_eq!(direct_count, 3);
}

#[test]
fn merger_truncation_keeps_transitive_consistently_within_id_order() {
    let mut entries = Vec::new();
    entries.push(dummy_entry("A"));
    for name in ["F", "B", "H", "D", "J", "L"] {
        entries.push(dummy_transitive(name));
    }
    let (out, truncated) = merge_dep_entries(vec![entries], 4);
    assert!(truncated);
    assert_eq!(out.len(), 4);
    let names: Vec<&str> = out.iter().map(|e| e.name.as_str()).collect();
    assert_eq!(names, vec!["A", "B", "D", "F"]);
    assert!(out.iter().find(|e| e.name == "A").unwrap().direct);
    for n in ["B", "D", "F"] {
        assert!(
            !out.iter().find(|e| e.name == n).unwrap().direct,
            "{} should remain transitive after truncation",
            n,
        );
    }
}

#[test]
fn merger_truncated_output_still_id_sorted() {
    let mut entries = Vec::new();
    entries.push(dummy_entry("Zebra"));
    entries.push(dummy_entry("Apple"));
    entries.push(dummy_entry("Mango"));
    entries.push(dummy_entry("Banana"));
    let (out, truncated) = merge_dep_entries(vec![entries], 2);
    assert!(truncated);
    assert_eq!(out.len(), 2);
    let names: Vec<&str> = out.iter().map(|e| e.name.as_str()).collect();
    assert_eq!(names, vec!["Apple", "Banana"]);
}

#[test]
fn merger_truncation_strips_dangling_parent_refs_in_kept_set() {
    let mut child = dummy_entry("Child");
    child.parents = vec![make_dep_id("library", "", "Evicted")];
    let (out, _) = merge_dep_entries(vec![vec![child]], DEPENDENCIES_MAX_COUNT);
    assert_eq!(out[0].parents, Vec::<String>::new());
}

#[test]
fn merger_truncates_at_cap() {
    let mut big = Vec::new();
    for i in 0..(DEPENDENCIES_MAX_COUNT + 50) {
        big.push(dummy_entry(&format!("p{}", i)));
    }
    let (out, truncated) = merge_dep_entries(vec![big], DEPENDENCIES_MAX_COUNT);
    assert_eq!(out.len(), DEPENDENCIES_MAX_COUNT);
    assert!(truncated);
}

#[test]
fn merger_filters_dangling_parent_refs() {
    let evicted_id = make_dep_id("library", "", "PARENT");
    let mut child = dummy_entry("CHILD");
    child.parents = vec![evicted_id];
    let (out, _) = merge_dep_entries(vec![vec![child]], DEPENDENCIES_MAX_COUNT);
    assert_eq!(out[0].parents, Vec::<String>::new());
}

#[test]
fn strip_pod_version_paren_handles_constraints() {
    assert_eq!(
        strip_pod_version_paren("Braintree/Card (= 5.26.0)"),
        "Braintree/Card"
    );
    assert_eq!(
        strip_pod_version_paren("Braintree/Card (~> 5.26)"),
        "Braintree/Card"
    );
    assert_eq!(strip_pod_version_paren("  SocketRocket  "), "SocketRocket");
}

#[test]
fn bounded_read_stops_at_cap_plus_one_on_oversized_input() {
    let cap = 16;
    let input = vec![b'A'; cap * 4];
    let mut out = Vec::new();
    let ok = bounded_read_to_end(Some(input.as_slice()), &mut out, cap);
    assert!(ok, "bounded_read_to_end must succeed on a valid stream");
    assert_eq!(
        out.len(),
        cap + 1,
        "bounded_read must stop at cap+1 to signal overflow",
    );
}

#[test]
fn bounded_read_reads_full_input_when_under_cap() {
    let input = b"hello otool".to_vec();
    let mut out = Vec::new();
    let ok = bounded_read_to_end(Some(input.as_slice()), &mut out, 1024);
    assert!(ok);
    assert_eq!(out, input);
}

#[test]
fn bounded_read_returns_false_on_io_error() {
    let mut out = Vec::new();
    let ok = bounded_read_to_end(None, &mut out, 1024);
    assert!(!ok, "I/O error must surface as false");
}

#[test]
fn parse_otool_returns_empty_on_empty_input() {
    assert!(parse_otool_output("").is_empty());
}

#[test]
fn parse_otool_skips_system_dylibs_and_main_binary_lines() {
    let stdout = "\
/path/to/Foo.app/Foo:
\t/usr/lib/libSystem.B.dylib (compatibility version 1.0.0, current version 1.0.0)
\t/System/Library/Frameworks/Foundation.framework/Foundation (compatibility version 300.0.0, current version 1953.4.0)
";
    assert!(parse_otool_output(stdout).is_empty());
}

#[test]
fn parse_otool_extracts_rpath_relative_vendored_frameworks() {
    let stdout = "\
/path/to/Foo.app/Foo:
\t@rpath/Stripe.framework/Stripe (compatibility version 1.0.0, current version 1.0.0)
\t@rpath/Alamofire.framework/Alamofire (compatibility version 1.0.0, current version 5.10.0)
\t/usr/lib/libSystem.B.dylib (compatibility version 1.0.0, current version 1.0.0)
";
    let entries = parse_otool_output(stdout);
    let names: Vec<&str> = entries.iter().map(|e| e.name.as_str()).collect();
    assert!(names.contains(&"Stripe.framework"));
    assert!(names.contains(&"Alamofire.framework"));
    assert_eq!(entries.len(), 2);
    for e in &entries {
        assert_eq!(e.type_, "file");
        assert!(e.direct);
        assert!(e.url.is_none());
        assert!(e.id.starts_with("file::"), "id shape: {}", e.id);
    }
}

#[test]
fn parse_otool_dedups_repeated_framework_references() {
    let stdout = "\
/path/to/Foo.app/Foo:
\t@rpath/Stripe.framework/Stripe (compatibility version 1.0.0, current version 1.0.0)
\t@rpath/Stripe.framework/Stripe (compatibility version 1.0.0, current version 1.0.0)
\t@rpath/Stripe.framework/StripeCore (compatibility version 1.0.0, current version 1.0.0)
";
    let entries = parse_otool_output(stdout);
    assert_eq!(entries.len(), 1);
    assert_eq!(entries[0].name, "Stripe.framework");
}

#[test]
fn parse_otool_skips_non_rpath_relative_loads() {
    let stdout = "\
/path/to/Foo.app/Foo:
\t/opt/homebrew/lib/libsomething.dylib (compatibility version 1.0.0, current version 1.0.0)
";
    assert!(parse_otool_output(stdout).is_empty());
}

#[test]
fn find_first_above_returns_none_for_empty_start_dir() {
    assert!(find_first_above("", "Foo.txt", &paths(&["Foo.txt", "/Foo.txt"])).is_none());
}

#[test]
fn find_first_above_finds_file_at_start_dir() {
    let files = paths(&["/tmp/t/Podfile.lock"]);
    let result = find_first_above("/tmp/t", "Podfile.lock", &files);
    assert!(result.is_some());
    assert_eq!(result.unwrap(), parse_path("/tmp/t/Podfile.lock"));
}

#[test]
fn find_first_above_walks_up_when_file_lives_at_ancestor() {
    let files = paths(&["/tmp/t/Cartfile.resolved"]);
    let result = find_first_above("/tmp/t/a/b", "Cartfile.resolved", &files);
    assert_eq!(result, Some(parse_path("/tmp/t/Cartfile.resolved")));
}

#[test]
fn find_first_above_takes_the_nearest() {
    let files = paths(&["/t/X", "/t/a/X"]);
    assert_eq!(find_first_above("/t/a/b", "X", &files), Some(parse_path("/t/a/X")));
}

#[test]
fn find_first_above_caps_climb_at_six_levels() {
    let files = paths(&["/tmp/t/OutOfReach.txt"]);
    let result = find_first_above("/tmp/t/d/d/d/d/d/d/d", "OutOfReach.txt", &files);
    assert!(
        result.is_none(),
        "find_first_above must respect the 6-level cap; \
         a file 7 levels above was reachable",
    );
    assert!(find_first_above("/tmp/t/d/d/d/d/d", "OutOfReach.txt", &files).is_some());
}

#[test]
fn discovery_finds_xcode_managed_spm_resolved_in_xcodeproj() {
    let dirs = vec!["/p/MyApp.xcodeproj".to_string()];
    let nested = "/p/MyApp.xcodeproj/project.xcworkspace/xcshareddata/swiftpm/Package.resolved";
    let found = find_xcode_spm_resolved(&dirs, &vec![nested.to_string()]);
    assert_eq!(found.as_deref(), Some(nested));
    let result = collect(None, Some(spm_resolved_minimal()), None, None, DEPENDENCIES_MAX_COUNT);
    assert!(
        result.entries.iter().any(|e| e.name == "alamofire"),
        "Xcode-managed SPM Package.resolved must be discoverable; got {:?}",
        result.entries,
    );
}

#[test]
fn discovery_finds_xcode_managed_spm_resolved_in_xcworkspace() {
    let dirs = vec!["/p/MyApp.xcworkspace".to_string()];
    let nested = "/p/MyApp.xcworkspace/xcshareddata/swiftpm/Package.resolved";
    let found = find_xcode_spm_resolved(&dirs, &vec![nested.to_string()]);
    assert_eq!(found.as_deref(), Some(nested));
    let result = collect(None, Some(spm_resolved_minimal()), None, None, DEPENDENCIES_MAX_COUNT);
    assert!(
        result.entries.iter().any(|e| e.name == "alamofire"),
        "Workspace-managed SPM Package.resolved must be discoverable",
    );
}

#[test]
fn discovery_prefers_xcworkspace_over_xcodeproj_when_both_exist() {
    let dirs = vec!["/p/MyApp.xcodeproj".to_string(), "/p/MyApp.xcworkspace".to_string()];
    let in_proj = "/p/MyApp.xcodeproj/project.xcworkspace/xcshareddata/swiftpm/Package.resolved";
    let in_ws = "/p/MyApp.xcworkspace/xcshareddata/swiftpm/Package.resolved";
    let files = vec![in_proj.to_string(), in_ws.to_string()];
    let found = find_xcode_spm_resolved(&dirs, &files);
    assert_eq!(found.as_deref(), Some(in_ws));
    let from_ws = "{\"pins\":[{\"identity\":\"from-ws\",\"kind\":\"remoteSourceControl\",\
         \"location\":\"https://example/ws.git\",\
         \"state\":{\"version\":\"2.0\",\"revision\":\"b\"}}],\"version\":3}";
    let result =
        collect(None, Some(from_ws.to_string()), None, None, DEPENDENCIES_MAX_COUNT);
    assert!(
        result.entries.iter().any(|e| e.name == "from-ws"),
        "xcworkspace should win when both exist; got {:?}",
        result.entries,
    );
    assert!(!result.entries.iter().any(|e| e.name == "from-proj"));
}

fn spm_resolved_minimal() -> String {
    "{\n  \"originHash\" : \"\",\n  \"pins\" : [{\n    \"identity\" : \"alamofire\",\n    \"kind\" : \"remoteSourceControl\",\n    \"location\" : \"https://github.com/Alamofire/Alamofire.git\",\n    \"state\" : { \"revision\" : \"abc\", \"version\" : \"5.10.0\" }\n  }],\n  \"version\" : 3\n}\n".to_string()
}

#[test]
fn resolved_packages_beside_the_project_come_first() {
    let files = paths(&["/p/Podfile.lock", "/Package.resolved"]);
    let nested = "A.xcworkspace/xcshareddata/swiftpm/Package.resolved".to_string();
    let dirs = vec!["A.xcworkspace".to_string()];
    let m = locate_manifests("/p", &files, &dirs, &vec![nested.clone()]);
    assert_eq!(m.podfile, Some(parse_path("/p/Podfile.lock")));
    assert_eq!(m.package_resolved, Some(parse_path("/Package.resolved")));
    assert_eq!(m.cartfile, None);
    let m = locate_manifests("/p", &paths(&[]), &dirs, &vec![nested]);
    assert_eq!(
        m.package_resolved,
        Some(parse_path("/p/A.xcworkspace/xcshareddata/swiftpm/Package.resolved"))
    );
    let files = paths(&["/p/xcshareddata/swiftpm/Package.resolved"]);
    let m = locate_manifests("/p", &files, &vec![], &vec![]);
    assert_eq!(m.package_resolved, Some(files[0].clone()));
}

#[test]
fn collect_merges_all_four_sources() {
    let otool = "/x:\n\t@rpath/Stripe.framework/Stripe (compatibility version 1.0.0, current version 1.0.0)\n";
    let r = collect(
        Some("PODS:\n  - Alpha (1.0)\n\nDEPENDENCIES:\n  - Alpha\n".to_string()),
        Some(spm_resolved_minimal()),
        Some("github \"a/b\" \"2.0\"\n".to_string()),
        Some(OtoolRun { is_file: true, stdout: Some(otool.as_bytes().to_vec()), success: true }),
        DEPENDENCIES_MAX_COUNT,
    );
    let ids: Vec<&str> = r.entries.iter().map(|e| e.id.as_str()).collect();
    assert_eq!(
        ids,
        vec!["file::Stripe.framework", "library::Alpha", "library::a/b", "library::alamofire"]
    );
    assert_eq!(r.scope_label, "all");
    assert!(!r.truncated);
}

#[test]
fn otool_output_counts_only_where_the_run_went_well() {
    let text = b"/x:\n\t@rpath/A.framework/A (compatibility version 1.0.0, current version 1.0.0)\n";
    let good = OtoolRun { is_file: true, stdout: Some(text.to_vec()), success: true };
    assert_eq!(parse_vendored_frameworks(&good)[0].name, "A.framework");
    let failed = OtoolRun { is_file: true, stdout: Some(text.to_vec()), success: false };
    assert!(parse_vendored_frameworks(&failed).is_empty());
    let unread = OtoolRun { is_file: true, stdout: None, success: true };
    assert!(parse_vendored_frameworks(&unread).is_empty());
    assert_eq!(MAX_OTOOL_STDOUT_BYTES, 16 * 1024 * 1024);
}

#[test]
fn otool_output_that_is_no_text_is_read_with_marks() {
    let mut text = b"/x:\n\t@rpath/".to_vec();
    text.push(0xff);
    text.extend_from_slice(b".framework/A (compatibility version 1.0.0, current version 1.0.0)\n");
    let run = OtoolRun { is_file: true, stdout: Some(text), success: true };
    assert_eq!(parse_vendored_frameworks(&run)[0].name, "\u{fffd}.framework");
}

#[test]
fn a_section_header_has_two_characters_before_its_colon() {
    assert!(is_section_header("AB:"));
    assert!(is_section_header("A :"));
    assert!(is_section_header("A_:"));
    assert!(is_section_header("SPEC REPOS:  "));
    assert!(!is_section_header("A:"));
    assert!(!is_section_header(":"));
    assert!(!is_section_header("Ab:"));
    assert!(!is_section_header("_A:"));
    assert!(!is_section_header(" AB:"));
    assert!(!is_section_header("AB"));
}

#[test]
fn a_line_of_one_letter_does_not_end_a_section() {
    let one = parse_podfile_lock("PODS:\n  - One (1.0)\nA:\n  - Two (2.0)\n");
    let names: Vec<&str> = one.iter().map(|e| e.name.as_str()).collect();
    assert_eq!(names, vec!["One", "Two"]);
    let two = parse_podfile_lock("PODS:\n  - One (1.0)\nAB:\n  - Two (2.0)\n");
    let names: Vec<&str> = two.iter().map(|e| e.name.as_str()).collect();
    assert_eq!(names, vec!["One"]);
}

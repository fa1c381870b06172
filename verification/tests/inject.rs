use bugsee_cli::exclude::{is_excluded, matches_pattern};
use bugsee_cli::inject::{
    compute_debug_id, compute_debug_id_with_map, debug_id_token, existing_debug_id,
    is_contained_relative, is_script, judge_map, paired_map, pick_id, read_debug_id, runtime_stub, stamp_bundle, write_map_debug_id,
    InjectStats,
};
use bugsee_cli::inject_run::{inject_paths, SourceFile};
use bugsee_cli::json::{text_at, JsonShape};
use bugsee_cli::paths::{parse_path, Part};

fn paths(texts: &[&str]) -> Vec<Vec<Part>> {
    texts.iter().map(|t| parse_path(t)).collect()
}

fn file(path: &str, text: &str) -> SourceFile {
    SourceFile { path: path.to_string(), text: text.to_string() }
}

fn texts(files: &[SourceFile]) -> Vec<String> {
    files.iter().map(|f| f.text.clone()).collect()
}

/// Stamps a bundle and the map beside it.
fn inject(js: &mut String, map: &mut String) -> InjectStats {
    let mut files = vec![file("/d/app.js", js), file("/d/app.js.map", map)];
    let stats = inject_paths(&mut files, &vec![0], false).unwrap();
    *js = files[0].text.clone();
    *map = files[1].text.clone();
    stats
}

#[test]
fn is_contained_relative_rejects_traversal_and_absolute() {
    assert!(is_contained_relative("bundle.js.map"));
    assert!(is_contained_relative("./maps/bundle.js.map"));
    assert!(is_contained_relative("maps/bundle.js.map"));
    assert!(!is_contained_relative("../secret.json"));
    assert!(!is_contained_relative("../../etc/x.json"));
    assert!(!is_contained_relative("maps/../../escape.json"));
    assert!(!is_contained_relative("/etc/passwd"));
}

#[test]
fn debug_id_is_deterministic_and_content_derived() {
    let a = compute_debug_id(b"console.log(1)");
    let b = compute_debug_id(b"console.log(1)");
    let c = compute_debug_id(b"console.log(2)");
    assert_eq!(a, b, "same content -> same id");
    assert_ne!(a, c, "different content -> different id");
}

#[test]
fn a_changed_map_under_an_unchanged_bundle_gets_a_new_debug_id() {
    let inject_with_map = |map: &str| {
        let mut js = "console.log(1)\n".to_string();
        let mut map = map.to_string();
        inject(&mut js, &mut map);
        read_debug_id(&map, "app.js.map").unwrap().unwrap()
    };
    let before = inject_with_map(r#"{"version":3,"sources":["a.ts"],"mappings":"AAAA"}"#);
    let same = inject_with_map(r#"{"version":3,"sources":["a.ts"],"mappings":"AAAA"}"#);
    let moved = inject_with_map(r#"{"version":3,"sources":["a.ts"],"mappings":"AACA"}"#);
    assert_eq!(before, same, "same bundle + same map -> same id");
    assert_ne!(before, moved, "same bundle + changed map -> new id");
}

#[test]
fn the_id_encoding_is_pinned_to_independently_derived_values() {
    let bundle = b"console.log(1)\n";
    let map = br#"{"version":3,"mappings":"AAAA"}"#;
    assert_eq!(
        compute_debug_id(bundle).hyphenated(),
        "9ca80e34-5d30-5aa4-912b-e209b8a484eb"
    );
    assert_eq!(
        compute_debug_id_with_map(bundle, Some(map)).hyphenated(),
        "256ca4fa-1d71-5674-9d8a-eb359b60f199"
    );
}

#[test]
fn a_reinjected_bundle_moves_a_stale_map_id_to_the_new_one() {
    let mut js = "console.log(1)\n".to_string();
    let mut map = r#"{"version":3,"sources":["a.ts"],"mappings":"AAAA"}"#.to_string();
    inject(&mut js, &mut map);
    let mut js = "console.log(1)\n".to_string();
    let stats = inject(&mut js, &mut map);
    let bundle_id = existing_debug_id(&js).unwrap();
    assert_eq!(text_at(&map, "/debug_id").unwrap(), bundle_id);
    assert_eq!(text_at(&map, "/debugId").unwrap(), bundle_id);
    assert_eq!(stats.maps_updated, 1);
}

#[test]
fn a_bundle_without_a_map_is_keyed_by_its_own_bytes() {
    let mut files = vec![file("/d/app.js", "console.log(1)\n")];
    inject_paths(&mut files, &vec![0], false).unwrap();
    assert_eq!(
        existing_debug_id(&files[0].text).unwrap(),
        compute_debug_id(b"console.log(1)\n").hyphenated()
    );
}

#[test]
fn the_map_bytes_change_the_id_but_the_bundle_bytes_still_do_too() {
    let bundle_a = compute_debug_id_with_map(b"console.log(1)", Some(b"{}"));
    let bundle_b = compute_debug_id_with_map(b"console.log(2)", Some(b"{}"));
    let map_b = compute_debug_id_with_map(b"console.log(1)", Some(b"{ }"));
    assert_ne!(bundle_a, bundle_b);
    assert_ne!(bundle_a, map_b);
    assert_ne!(
        compute_debug_id_with_map(b"ab", Some(b"c")),
        compute_debug_id_with_map(b"a", Some(b"bc"))
    );
    assert_ne!(
        compute_debug_id_with_map(b"console.log(1)", Some(b"")),
        compute_debug_id_with_map(b"console.log(1)", None)
    );
}

#[test]
fn inject_is_idempotent_and_writes_map() {
    let mut js = "console.log('hi')\n//# sourceMappingURL=app.js.map\n".to_string();
    let mut map = r#"{"version":3,"sources":[],"mappings":""}"#.to_string();
    let files = paths(&["/d/app.js", "/d/app.js.map"]);
    assert_eq!(paired_map("/d/app.js", &js, &files), Some(parse_path("/d/app.js.map")));

    let s1 = inject(&mut js, &mut map);
    assert_eq!(s1.js_injected, 1);
    assert_eq!(s1.maps_updated, 1);
    assert!(js.contains("//# debugId="));
    assert!(js.contains("_bugseeDebugIds"));
    let bundle_did = existing_debug_id(&js).unwrap();
    assert_eq!(text_at(&map, "/debug_id").unwrap(), bundle_did);
    assert_eq!(text_at(&map, "/debugId").unwrap(), bundle_did);
    assert_eq!(text_at(&map, "/mappings").unwrap(), "");

    let (js_before, map_before) = (js.clone(), map.clone());
    let s2 = inject(&mut js, &mut map);
    assert_eq!(s2.js_injected, 0, "already injected");
    assert_eq!(s2.js_already, 1);
    assert_eq!(s2.maps_updated, 0);
    assert_eq!((js, map.clone()), (js_before, map_before));
    assert_eq!(
        read_debug_id(&map, "app.js.map").unwrap().unwrap(),
        bundle_did,
        "id unchanged"
    );
}

#[test]
fn read_debug_id_precedence() {
    let read = |doc: &str| read_debug_id(doc, "m.map").unwrap();
    assert_eq!(read(r#"{"debug_id":"new","uuid":"old"}"#).as_deref(), Some("new"));
    assert_eq!(read(r#"{"uuid":"legacy"}"#).as_deref(), Some("legacy"));
    assert_eq!(read(r#"{"version":3}"#), None);
}

#[test]
fn a_map_that_is_no_object_is_refused() {
    let e = write_map_debug_id("not json", "a.map", "id").unwrap_err();
    assert!(e.message().contains("sourcemap is not valid JSON: "));
    assert!(e.message().ends_with("(a.map)"));
    let e = write_map_debug_id("[1]", "a.map", "id").unwrap_err();
    assert_eq!(e.message(), "input invalid: sourcemap is not a JSON object: a.map");
    assert!(read_debug_id("not json", "a.map").is_err());
}

#[test]
fn a_stub_carries_the_id_twice() {
    let stub = runtime_stub("9ca80e34-5d30-5aa4-912b-e209b8a484eb");
    assert_eq!(stub.matches("9ca80e34-5d30-5aa4-912b-e209b8a484eb").count(), 2);
    assert!(stub.ends_with("//# debugId=9ca80e34-5d30-5aa4-912b-e209b8a484eb\n"));
    assert_eq!(existing_debug_id("//# debugId=nonsense\n"), None);
}

#[test]
fn a_map_is_looked_for_beside_its_bundle_only() {
    let files = paths(&["/x.json", "/d/app.js.map", "/d/m/app.map"]);
    let found = |c: &str| paired_map("/d/app.js", c, &files);
    assert_eq!(found("//# sourceMappingURL=../x.json\n"), Some(parse_path("/d/app.js.map")));
    assert_eq!(found("//# sourceMappingURL=m/app.map\n"), Some(parse_path("/d/m/app.map")));
    assert_eq!(found("//# sourceMappingURL=data:x\n"), Some(parse_path("/d/app.js.map")));
    assert_eq!(paired_map("/e/app.js", "", &files), None);
}

#[test]
fn scripts_are_told_by_their_extension() {
    assert!(is_script("a.js") && is_script("a.cjs") && is_script("a.mjs"));
    assert!(!is_script("a.ts") && !is_script("js"));
}

#[test]
fn a_star_in_a_pattern_crosses_directories() {
    assert!(matches_pattern("**/node_modules/**", "a/node_modules/b/c.mjs"));
    assert!(matches_pattern("polyfills*.js", "polyfills.abc.js"));
    assert!(matches_pattern("dist/*", "dist/a/b.js"));
    assert!(!matches_pattern("vendor/**", "dist/vendor/a.js"));
    assert!(!matches_pattern("a.js", "ba.js"));
    assert!(matches_pattern("chunk-?.js", "chunk-1.js"));
    assert!(matches_pattern("a?b", "a/b"));
    assert!(!matches_pattern("chunk-?.js", "chunk-.js"));
    assert!(!matches_pattern("chunk-?.js", "chunk-12.js"));
    let texts = |t: &[&str]| t.iter().map(|s| s.to_string()).collect::<Vec<String>>();
    let forms = texts(&["/p/dist/vendor/a.js", "dist/vendor/a.js", "vendor/a.js"]);
    assert!(is_excluded(&texts(&["x", "vendor/**"]), &forms));
    assert!(!is_excluded(&texts(&["lib/**"]), &forms));
    assert!(!is_excluded(&texts(&[]), &forms));
}

#[test]
fn a_map_is_judged_by_its_two_keys() {
    let id = Some("id".to_string());
    let judge = |snake: &Option<String>, camel: &Option<String>| {
        judge_map(&None, &JsonShape::Object, snake, camel, "a.map", "id").unwrap()
    };
    assert!(!judge(&id, &id));
    assert!(judge(&id, &None));
    assert!(judge(&None, &None));
    assert!(judge(&Some("old".to_string()), &id));
    assert!(judge_map(&None, &JsonShape::List(0), &None, &None, "a.map", "id").is_err());
    assert!(judge_map(&id, &JsonShape::Absent, &None, &None, "a.map", "id").is_err());
    assert_eq!(pick_id(None, id.clone(), Some("u".to_string())), id);
    assert_eq!(pick_id(None, None, None), None);
}

#[test]
fn an_id_is_read_from_the_last_comment() {
    let text = "//# debugId=a\n//# debugId= b \n";
    assert_eq!(debug_id_token(text).as_deref(), Some("b"));
    assert_eq!(debug_id_token("x"), None);
    let long = format!("//# debugId={}{}", "0".repeat(36), "1");
    assert_eq!(debug_id_token(&long).unwrap().len(), 36);
}

#[test]
fn dry_run_writes_nothing() {
    let mut files = vec![
        file("/d/app.mjs", "export const x = 1\n//# sourceMappingURL=app.mjs.map\n"),
        file("/d/app.mjs.map", r#"{"version":3,"sources":[],"mappings":""}"#),
    ];
    let before = texts(&files);
    let s = inject_paths(&mut files, &vec![0], true).unwrap();
    assert_eq!(s.js_injected, 1);
    assert_eq!(s.maps_updated, 1);
    assert_eq!(files[0].text, before[0], "dry-run left the bundle unchanged");
    assert_eq!(files[1].text, before[1], "dry-run left the source map unchanged");
}

#[test]
fn a_second_run_over_several_bundles_changes_nothing() {
    let mut files = vec![
        file("/d/a.js", "a()\n//# sourceMappingURL=maps/a.map\r\n"),
        file("/d/maps/a.map", r#"{"version":3,"x":1.5}"#),
        file("/d/b.cjs", "b()"),
        file("/d/b.cjs.map", "{}"),
        file("/d/c.mjs", "c()\n//# debugId=9ca80e34-5d30-5aa4-912b-e209b8a484eb\n"),
        file("/d/other.txt", "no script"),
    ];
    let bundles = vec![0, 2, 4];
    let s1 = inject_paths(&mut files, &bundles, false).unwrap();
    assert_eq!(s1, InjectStats { js_injected: 2, js_already: 1, js_registered: 1, maps_updated: 2 });
    assert_eq!(files[5].text, "no script");
    assert!(files[1].text.contains(r#""x":1.5"#));
    for (js, map) in [(0, 1), (2, 3)] {
        let id = existing_debug_id(&files[js].text).unwrap();
        assert_eq!(read_debug_id(&files[map].text, "m").unwrap(), Some(id.clone()));
        assert!(stamp_bundle(&files[js].text, None).stamped.is_none());
        assert_eq!(write_map_debug_id(&files[map].text, "m", &id).unwrap(), None);
    }
    let after = texts(&files);
    let s2 = inject_paths(&mut files, &bundles, false).unwrap();
    assert_eq!(s2, InjectStats { js_injected: 0, js_already: 3, js_registered: 0, maps_updated: 0 });
    assert_eq!(texts(&files), after);
}

#[test]
fn a_shared_map_ends_with_the_id_of_the_last_bundle() {
    let mut files = vec![
        file("/d/a.js", "a()\n//# sourceMappingURL=both.map"),
        file("/d/b.js", "b()\n//# sourceMappingURL=both.map"),
        file("/d/both.map", "{}"),
    ];
    let s1 = inject_paths(&mut files, &vec![0, 1], false).unwrap();
    assert_eq!(s1.maps_updated, 2);
    assert_eq!(
        read_debug_id(&files[2].text, "m").unwrap(),
        existing_debug_id(&files[1].text)
    );
    let s2 = inject_paths(&mut files, &vec![0, 1], false).unwrap();
    assert_eq!(s2, InjectStats { js_injected: 0, js_already: 2, js_registered: 0, maps_updated: 2 });
}

#[test]
fn a_refused_map_ends_the_run_and_what_was_stamped_stays() {
    let mut files = vec![
        file("/d/a.js", "a()"),
        file("/d/b.js", "b()"),
        file("/d/b.js.map", "[]"),
        file("/d/c.js", "c()"),
    ];
    let e = inject_paths(&mut files, &vec![0, 1, 3], false).unwrap_err();
    assert_eq!(e.message(), "input invalid: sourcemap is not a JSON object: /d/b.js.map");
    assert!(existing_debug_id(&files[0].text).is_some());
    assert!(existing_debug_id(&files[1].text).is_some());
    assert_eq!(files[2].text, "[]");
    assert_eq!(files[3].text, "c()");
}

#[test]
fn a_bundle_with_the_id_of_another_tool_gains_the_registration_only() {
    let id = "85314830-023f-4cf1-a267-535f4e37bb17";
    let stub = runtime_stub(id);
    let registration = &stub[..stub.find("//# debugId=").unwrap()];
    for end in ["", "\n", "\n//# sourceMappingURL=a.map\n"] {
        let text = format!("x()\n//# debugId={id}{end}");
        let s = stamp_bundle(&text, None);
        assert!(s.carried);
        assert_eq!(s.debug_id, id);
        assert_eq!(s.stamped, Some(format!("{text}{registration}")));
        let again = stamp_bundle(&s.stamped.unwrap(), None);
        assert_eq!(again.debug_id, id);
        assert_eq!(again.stamped, None);
    }
}

#[test]
fn an_id_without_hyphens_at_the_end_stays_readable() {
    let text = "x()\n//# debugId=85314830023f4cf1a267535f4e37bb17";
    let id = "85314830-023f-4cf1-a267-535f4e37bb17";
    let s = stamp_bundle(text, None);
    assert_eq!(s.debug_id, id);
    let stamped = s.stamped.unwrap();
    assert_eq!(stamped, format!("{text}{}", runtime_stub(id)));
    assert_eq!(existing_debug_id(&stamped).as_deref(), Some(id));
    assert_eq!(stamp_bundle(&stamped, None).stamped, None);
}

#[test]
fn a_registration_of_another_id_does_not_count() {
    let id = "85314830-023f-4cf1-a267-535f4e37bb17";
    let other = runtime_stub("9ca80e34-5d30-5aa4-912b-e209b8a484eb");
    let text = format!("x(){other}//# debugId={id}\n");
    let s = stamp_bundle(&text, None);
    assert_eq!(s.debug_id, id);
    assert!(s.stamped.is_some());
}

#[test]
fn a_stamped_bundle_names_the_same_map() {
    let files = paths(&["/d/a.js", "/d/m/a.map", "/d/a.js.map"]);
    let text = "a()\n//# sourceMappingURL=m/a.map";
    let stamped = stamp_bundle(text, None).stamped.unwrap();
    assert_eq!(paired_map("/d/a.js", text, &files), Some(parse_path("/d/m/a.map")));
    assert_eq!(paired_map("/d/a.js", &stamped, &files), Some(parse_path("/d/m/a.map")));
}

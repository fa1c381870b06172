use bugsee_cli::compress::Method;
use bugsee_cli::dsym::{
    extract_slices, extract_uuids, format_uuid, show_slices, DsymSliceView, MachoFile,
};
use bugsee_cli::ids::Uuid;
use bugsee_cli::plist::{
    list_texts, read_plist_to_json, resolve_bundle_info, stringify_plist_value, PlistValue,
};
use bugsee_cli::xcode_ipa::{
    archive_name, executable_name, is_store_extension, main_executable_uuid, package_app_as_ipa,
    select_preferred_uuid, AppFile,
};

fn file(bytes: &[u8]) -> Vec<MachoFile> {
    vec![MachoFile { size: Some(bytes.len() as u64), bytes: Some(bytes.to_vec()) }]
}

fn get<'a>(pairs: &'a Vec<(String, String)>, key: &str) -> Option<&'a str> {
    pairs.iter().find(|p| p.0 == key).map(|p| p.1.as_str())
}

#[test]
fn extract_uuids_returns_empty_for_nonexistent_path() {
    assert!(extract_uuids(&vec![MachoFile { size: None, bytes: None }]).is_empty());
}

#[test]
fn extract_uuids_returns_empty_for_empty_dsym_directory() {
    assert!(extract_uuids(&vec![]).is_empty());
}

#[test]
fn extract_uuids_returns_empty_for_non_macho_file() {
    assert!(extract_uuids(&file(b"this is not a Mach-O binary")).is_empty());
}

#[test]
fn extract_uuids_returns_empty_for_dsym_bundle_with_non_macho_dwarf_file() {
    assert!(extract_uuids(&file(b"junk")).is_empty());
}

#[test]
fn extract_slices_returns_empty_for_nonexistent_path() {
    assert!(extract_slices(&vec![MachoFile { size: None, bytes: None }]).is_empty());
}

#[test]
fn extract_slices_returns_empty_for_empty_dsym_directory() {
    assert!(extract_slices(&vec![]).is_empty());
}

#[test]
fn extract_slices_returns_empty_for_non_macho_file() {
    assert!(extract_slices(&file(b"this is not a Mach-O binary")).is_empty());
}

#[test]
fn extract_slices_returns_empty_for_dsym_bundle_with_non_macho_dwarf_file() {
    assert!(extract_slices(&file(b"junk")).is_empty());
}

#[test]
fn extract_uuids_and_extract_slices_agree_on_uuid_ordering() {
    let mut files = file(b"junk");
    files.append(&mut file(&synthetic_macho_with_uuid()));
    let uuids = extract_uuids(&files);
    let slices = extract_slices(&files);
    assert_eq!(uuids.len(), slices.len());
    for (i, s) in slices.iter().enumerate() {
        assert_eq!(s.uuid, uuids[i]);
    }
}

fn synthetic_macho_with_uuid() -> Vec<u8> {
    let mut buf = Vec::with_capacity(56);
    buf.extend_from_slice(&[0xcf, 0xfa, 0xed, 0xfe]);
    buf.extend_from_slice(&[0x07, 0x00, 0x00, 0x01]);
    buf.extend_from_slice(&[0x03, 0x00, 0x00, 0x00]);
    buf.extend_from_slice(&[0x0a, 0x00, 0x00, 0x00]);
    buf.extend_from_slice(&[0x01, 0x00, 0x00, 0x00]);
    buf.extend_from_slice(&[0x18, 0x00, 0x00, 0x00]);
    buf.extend_from_slice(&[0x00, 0x00, 0x00, 0x00]);
    buf.extend_from_slice(&[0x00, 0x00, 0x00, 0x00]);
    buf.extend_from_slice(&[0x1b, 0x00, 0x00, 0x00]);
    buf.extend_from_slice(&[0x18, 0x00, 0x00, 0x00]);
    buf.extend_from_slice(&[
        0x54, 0xd7, 0x5f, 0xb3, 0x74, 0x7f, 0x38, 0x7f, 0x8a, 0x93, 0x4e, 0xa0, 0x34, 0xb1,
        0xf8, 0xcf,
    ]);
    buf
}

#[test]
fn extract_uuids_round_trips_synthetic_macho_to_uppercase_hex() {
    let uuids = extract_uuids(&file(&synthetic_macho_with_uuid()));
    assert_eq!(uuids, vec!["54D75FB3-747F-387F-8A93-4EA034B1F8CF"]);
}

#[test]
fn extract_slices_round_trips_synthetic_macho_with_arch() {
    let slices = extract_slices(&file(&synthetic_macho_with_uuid()));
    assert_eq!(
        slices.len(),
        1,
        "exactly one slice expected, got {:?}",
        slices
    );
    assert_eq!(slices[0].uuid, "54D75FB3-747F-387F-8A93-4EA034B1F8CF");
    assert_eq!(slices[0].arch, "x86_64");
}

#[test]
fn format_uuid_emits_uppercase_hyphenated_8_4_4_4_12() {
    let id = "54d75fb3-747f-387f-8a93-4ea034b1f8cf";
    assert_eq!(format_uuid(id), "54D75FB3-747F-387F-8A93-4EA034B1F8CF",);
    let out = format_uuid(id);
    let dash_positions: Vec<usize> = out
        .char_indices()
        .filter(|(_, c)| *c == '-')
        .map(|(i, _)| i)
        .collect();
    assert_eq!(dash_positions, vec![8, 13, 18, 23]);
    assert_eq!(out.len(), 36);
}

#[test]
fn a_file_over_the_limit_is_not_read() {
    let bytes = synthetic_macho_with_uuid();
    let f = MachoFile { size: Some(u64::MAX), bytes: Some(bytes) };
    assert!(extract_slices(&vec![f]).is_empty());
}

#[test]
fn slices_are_shown_in_order() {
    let shown = show_slices(&vec![
        ("arm64".to_string(), [1; 16], "aa".to_string()),
        ("x86_64".to_string(), [2; 16], "bb".to_string()),
    ]);
    assert_eq!(
        shown,
        vec![
            DsymSliceView { uuid: "AA".to_string(), arch: "arm64".to_string() },
            DsymSliceView { uuid: "BB".to_string(), arch: "x86_64".to_string() },
        ]
    );
}

#[test]
fn read_plist_xml_returns_string_keys() {
    let body = r#"<?xml version="1.0" encoding="UTF-8"?>
<!DOCTYPE plist PUBLIC "-//Apple//DTD PLIST 1.0//EN" "http://www.apple.com/DTDs/PropertyList-1.0.dtd">
<plist version="1.0">
<dict>
  <key>CFBundleShortVersionString</key>
  <string>1.2.3</string>
  <key>CFBundleVersion</key>
  <string>42</string>
  <key>CFBundleIdentifier</key>
  <string>com.example.app</string>
</dict>
</plist>"#;
    let out = read_plist_to_json(Some(body.as_bytes()));
    assert_eq!(get(&out, "CFBundleShortVersionString"), Some("1.2.3"));
    assert_eq!(get(&out, "CFBundleVersion"), Some("42"));
    assert_eq!(get(&out, "CFBundleIdentifier"), Some("com.example.app"));
}

#[test]
fn read_plist_missing_path_returns_empty_object() {
    let out = read_plist_to_json(None);
    assert!(out.is_empty());
}

#[test]
fn read_plist_malformed_returns_empty_object() {
    let body = "this is not a plist";
    let out = read_plist_to_json(Some(body.as_bytes()));
    assert!(out.is_empty());
}

#[test]
fn read_plist_stringifies_integer_values() {
    let body = r#"<?xml version="1.0" encoding="UTF-8"?>
<!DOCTYPE plist PUBLIC "-//Apple//DTD PLIST 1.0//EN" "http://www.apple.com/DTDs/PropertyList-1.0.dtd">
<plist version="1.0">
<dict>
  <key>CFBundleVersion</key>
  <integer>42</integer>
</dict>
</plist>"#;
    let out = read_plist_to_json(Some(body.as_bytes()));
    assert_eq!(get(&out, "CFBundleVersion"), Some("42"));
}

#[test]
fn plist_values_become_text_where_they_can() {
    assert_eq!(stringify_plist_value(&PlistValue::Text("x".into())).as_deref(), Some("x"));
    assert_eq!(stringify_plist_value(&PlistValue::Whole(Some(-3), None)).as_deref(), Some("-3"));
    assert_eq!(stringify_plist_value(&PlistValue::Whole(None, Some(7))).as_deref(), Some("7"));
    assert_eq!(stringify_plist_value(&PlistValue::Boolean(true)).as_deref(), Some("true"));
    assert_eq!(stringify_plist_value(&PlistValue::Real("1.5".into())).as_deref(), Some("1.5"));
    assert_eq!(stringify_plist_value(&PlistValue::Other), None);
    let items = vec![
        ("a".to_string(), PlistValue::Other),
        ("b".to_string(), PlistValue::Whole(Some(1), Some(1))),
    ];
    assert_eq!(list_texts(&items), vec![("b".to_string(), "1".to_string())]);
}

const INFO_HEAD: &str = r#"<?xml version="1.0" encoding="UTF-8"?>
<!DOCTYPE plist PUBLIC "-//Apple//DTD PLIST 1.0//EN" "http://www.apple.com/DTDs/PropertyList-1.0.dtd">
<plist version="1.0"><dict>"#;

fn info(pairs: &[(&str, &str)]) -> Vec<(String, String)> {
    let mut text = INFO_HEAD.to_string();
    for (k, v) in pairs {
        text.push_str(&format!("<key>{k}</key><string>{v}</string>"));
    }
    text.push_str("</dict></plist>");
    read_plist_to_json(Some(text.as_bytes()))
}

#[test]
fn resolve_bundle_info_maps_plist_keys() {
    let pairs = info(&[
        ("CFBundleIdentifier", "com.example.myapp"),
        ("CFBundleShortVersionString", "2.3.4"),
        ("CFBundleVersion", "987"),
    ]);
    let info = resolve_bundle_info(&pairs);
    assert_eq!(info.package_id.as_deref(), Some("com.example.myapp"));
    assert_eq!(info.version.as_deref(), Some("2.3.4"));
    assert_eq!(info.build.as_deref(), Some("987"));
}

#[test]
fn resolve_bundle_info_missing_plist_is_all_none() {
    let info = resolve_bundle_info(&read_plist_to_json(None));
    assert!(info.package_id.is_none());
    assert!(info.version.is_none());
    assert!(info.build.is_none());
}

#[test]
fn resolve_bundle_info_empty_value_is_none() {
    let pairs = info(&[("CFBundleIdentifier", ""), ("CFBundleShortVersionString", "1.0")]);
    let info = resolve_bundle_info(&pairs);
    assert!(
        info.package_id.is_none(),
        "empty CFBundleIdentifier must be None, got {:?}",
        info.package_id
    );
    assert_eq!(info.version.as_deref(), Some("1.0"));
    assert!(info.build.is_none());
}

fn app_files() -> Vec<AppFile> {
    ["MyApp", "icon.png", "Info.plist", "Frameworks/Lib.framework/Lib"]
        .iter()
        .map(|n| AppFile {
            source: format!("/d/MyApp.app/{n}"),
            rel: format!("MyApp.app/{n}"),
            is_regular: true,
        })
        .collect()
}

#[test]
fn packages_app_under_payload_with_per_file_method() {
    let entries = package_app_as_ipa("/d/MyApp.app", true, &app_files()).unwrap();
    let names: Vec<String> = entries.iter().map(|e| e.name.clone()).collect();
    assert!(names.contains(&"Payload/MyApp.app/Info.plist".to_string()));
    assert!(names.contains(&"Payload/MyApp.app/MyApp".to_string()));
    assert!(names.contains(&"Payload/MyApp.app/icon.png".to_string()));
    assert!(names.contains(&"Payload/MyApp.app/Frameworks/Lib.framework/Lib".to_string()));
    let mut sorted = names.clone();
    sorted.sort();
    assert_eq!(names, sorted);
    let method = |n: &str| entries.iter().find(|e| e.name == n).unwrap().method;
    assert_eq!(method("Payload/MyApp.app/icon.png"), Method::Stored);
    assert_eq!(method("Payload/MyApp.app/Info.plist"), Method::Deflated);
    let bin = entries.iter().find(|e| e.name == "Payload/MyApp.app/MyApp").unwrap();
    assert_eq!(bin.source, "/d/MyApp.app/MyApp");
}

#[test]
fn the_plan_does_not_depend_on_the_order_of_the_files() {
    let mut other = app_files();
    other.reverse();
    let one = package_app_as_ipa("/d/MyApp.app", true, &app_files()).unwrap();
    let two = package_app_as_ipa("/d/MyApp.app", true, &other).unwrap();
    assert_eq!(one, two);
}

#[test]
fn symlinks_are_skipped() {
    let mut files = app_files();
    files.push(AppFile {
        source: "/d/MyApp.app/Current".to_string(),
        rel: "MyApp.app/Current".to_string(),
        is_regular: false,
    });
    let entries = package_app_as_ipa("/d/MyApp.app", true, &files).unwrap();
    assert!(!entries.iter().any(|e| e.name.ends_with("/Current")));
}

#[test]
fn missing_app_dir_errors() {
    assert!(package_app_as_ipa("/d/Nope.app", false, &vec![]).is_err());
}

#[test]
fn packed_kinds_are_stored_whatever_their_case() {
    assert!(is_store_extension("A.PNG"));
    assert!(!is_store_extension("png"));
    assert_eq!(archive_name("My.app/a/b"), "Payload/My.app/a/b");
}

fn u(byte: u8) -> Uuid {
    Uuid { bytes: [byte; 16] }
}

#[test]
fn uuid_prefers_arm64_over_x86_64() {
    let arm = u(0xAA);
    let slices = vec![("x86_64".to_string(), u(0x11)), ("arm64".to_string(), arm)];
    assert_eq!(
        select_preferred_uuid(&slices),
        Some(arm.simple())
    );
}

#[test]
fn uuid_arm64e_beats_x86_64() {
    let arm64e = u(0xBB);
    let slices = vec![
        ("arm64e".to_string(), arm64e),
        ("x86_64".to_string(), u(0x22)),
    ];
    assert_eq!(
        select_preferred_uuid(&slices),
        Some(arm64e.simple())
    );
}

#[test]
fn uuid_falls_back_to_first_slice() {
    let ppc = u(0xCC);
    let slices = vec![("ppc".to_string(), ppc), ("mips".to_string(), u(0x33))];
    assert_eq!(
        select_preferred_uuid(&slices),
        Some(ppc.simple())
    );
}

#[test]
fn uuid_simple_form_is_32_hex_no_dashes() {
    let slices = vec![("arm64".to_string(), u(0xAB))];
    let got = select_preferred_uuid(&slices).unwrap();
    assert_eq!(got.len(), 32);
    assert!(got
        .chars()
        .all(|c| c.is_ascii_hexdigit() && !c.is_ascii_uppercase()));
    assert!(!got.contains('-'));
}

#[test]
fn uuid_empty_and_nil_are_none() {
    assert_eq!(select_preferred_uuid(&vec![]), None);
    assert_eq!(
        select_preferred_uuid(&vec![("arm64".to_string(), u(0))]),
        None
    );
}

#[test]
fn main_executable_uuid_none_when_binary_not_macho() {
    assert_eq!(main_executable_uuid(b"\xcf\xfa\xed\xfe fake macho"), None);
}

#[test]
fn main_executable_uuid_none_when_executable_key_missing() {
    assert_eq!(executable_name(&info(&[])), None);
    let pairs = info(&[("CFBundleExecutable", "MyApp")]);
    assert_eq!(executable_name(&pairs).as_deref(), Some("MyApp"));
}

#[test]
fn main_executable_uuid_is_read_from_the_binary() {
    let id = main_executable_uuid(&synthetic_macho_with_uuid());
    assert_eq!(id.as_deref(), Some("54d75fb3747f387f8a934ea034b1f8cf"));
}

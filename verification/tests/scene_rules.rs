use pkg2mpkg::json::JsonValue;
use pkg2mpkg::json_order::sort_value_keys;
use pkg2mpkg::mpkg::ContainerVersion;
use pkg2mpkg::scene::compat_shader::{
    compat_shader_config_from_value, parse_u64, sort_dedup_paths, validate_project_id_token,
    validate_shader_basename, workshop_project_id, CompatShaderConfig, CompatShaderRule,
};
use pkg2mpkg::scene::package::{verify_local_references, verify_staged_directory, verify_staged_project, ScenePackageExpectation};
use pkg2mpkg::scene::package_input::{
    check_unpack_report, decide_scene_json_entry, is_loose_scene_json_candidate, is_scene_json_value,
    package_entry_is_raw_scene_pkg, scene_json_query, SceneEntryQuery, ScenePackageEntry,
    ScenePackageUnpackLimits, ScenePackageUnpackReport, ScenePackageUnpackRequest,
};
use pkg2mpkg::scene::references::{collect_json_strings, extract_register_assets, looks_like_relative_path};
use pkg2mpkg::scene::source_tree::{archive_path_from_parts, is_excluded_archive_path, SceneInventory, SceneSourceLimits};
use pkg2mpkg::ErrorCode;

fn s(text: &str) -> JsonValue {
    JsonValue::String(text.to_owned())
}

fn obj(pairs: Vec<(&str, JsonValue)>) -> JsonValue {
    JsonValue::Object(pairs.into_iter().map(|(k, v)| (k.to_owned(), v)).collect())
}

fn keys(v: &JsonValue) -> Vec<String> {
    match v {
        JsonValue::Object(pairs) => pairs.iter().map(|(k, _)| k.clone()).collect(),
        _ => Vec::new(),
    }
}

fn request() -> ScenePackageUnpackRequest {
    ScenePackageUnpackRequest::new("/in/scene.pkg".to_owned(), "/task".to_owned(), ScenePackageUnpackLimits::mpkg_aligned()).unwrap()
}

fn report(entries: &[(&str, u64)], total: u64) -> ScenePackageUnpackReport {
    ScenePackageUnpackReport {
        output_dir: "/task".to_owned(),
        entries: entries.iter().map(|(p, n)| ScenePackageEntry { path: (*p).to_owned(), size: *n }).collect(),
        total_bytes: total,
    }
}

#[test]
fn unpack_reports_are_checked_against_the_request() {
    assert!(check_unpack_report(&request(), report(&[("scene.json", 10), ("a.tex", 5)], 15)).is_ok());
    let cases = [
        (report(&[("scene.pkg", 10)], 10), ErrorCode::ConversionFailed),
        (report(&[], 0), ErrorCode::ConversionFailed),
        (report(&[("scene.json", 10)], 11), ErrorCode::ConversionFailed),
        (report(&[("a", 1), ("a", 1)], 2), ErrorCode::InvalidProject),
        (report(&[("../a", 1)], 1), ErrorCode::InvalidProject),
        (report(&[("a", u64::MAX), ("b", 1)], 0), ErrorCode::InvalidProject),
    ];
    for (index, (r, code)) in cases.into_iter().enumerate() {
        assert_eq!(check_unpack_report(&request(), r).unwrap_err().code(), code, "case {index}");
    }
    let mut elsewhere = report(&[("scene.json", 1)], 1);
    elsewhere.output_dir = "/other".to_owned();
    assert_eq!(check_unpack_report(&request(), elsewhere).unwrap_err().code(), ErrorCode::ConversionFailed);
    let tight = ScenePackageUnpackRequest::new(
        "p".to_owned(),
        "/task".to_owned(),
        ScenePackageUnpackLimits { max_entries: 1, max_path_length: 4, max_file_bytes: 10, max_total_bytes: 10 },
    )
    .unwrap();
    assert!(check_unpack_report(&tight, report(&[("a", 1), ("b", 1)], 2)).is_err());
    assert!(check_unpack_report(&tight, report(&[("abcde", 1)], 1)).is_err());
    assert!(ScenePackageUnpackRequest::new("p".to_owned(), "p".to_owned(), ScenePackageUnpackLimits::mpkg_aligned()).is_err());
}

#[test]
fn raw_packages_and_scene_json_candidates() {
    assert!(package_entry_is_raw_scene_pkg("Scene.PKG"));
    assert!(!package_entry_is_raw_scene_pkg("pkg"));
    assert!(is_loose_scene_json_candidate("Scene.JSON"));
    assert!(!is_loose_scene_json_candidate("project.json"));
    assert!(!is_loose_scene_json_candidate("models/a.json"));
    assert!(!is_loose_scene_json_candidate(".PKG2MPKG-x.json"));
    let paths = vec!["a.json".to_owned(), "scene.json".to_owned()];
    assert!(matches!(scene_json_query(&paths), SceneEntryQuery::Canonical));
    let paths = vec!["project.json".to_owned(), "b.json".to_owned(), "x/c.json".to_owned(), "a.JSON".to_owned()];
    match scene_json_query(&paths) {
        SceneEntryQuery::Candidates(c) => assert_eq!(c, vec!["b.json".to_owned(), "a.JSON".to_owned()]),
        SceneEntryQuery::Canonical => panic!("no canonical entry"),
    }
    let candidates = vec!["b.json".to_owned(), "a.json".to_owned()];
    assert_eq!(decide_scene_json_entry(&candidates, &vec![false, true], "pkg").unwrap(), "a.json");
    assert_eq!(decide_scene_json_entry(&candidates, &vec![true, true], "pkg").unwrap_err().code(), ErrorCode::ConversionFailed);
    assert_eq!(decide_scene_json_entry(&candidates, &vec![false, false], "pkg").unwrap_err().code(), ErrorCode::ConversionFailed);
    let scene = obj(vec![("objects", JsonValue::Array(vec![])), ("general", obj(vec![]))]);
    assert!(is_scene_json_value(&scene, true));
    assert!(!is_scene_json_value(&obj(vec![("objects", JsonValue::Array(vec![]))]), true));
    assert!(is_scene_json_value(&obj(vec![("objects", JsonValue::Array(vec![]))]), false));
}

#[test]
fn register_asset_scanner_skips_comments_strings_and_templates() {
    let script = b"// engine.registerAsset('no')\n/* engine.registerAsset(\"no\") */\nlet a = 'engine.registerAsset(\"no\")';\nlet t = `${engine.registerAsset('tpl')} x`;\nfakeengine.registerAsset('no');\nengine . registerAsset ( 'models/a.json' );\nENGINE.registerAsset('no');\nengine.REGISTERASSET(\"b\\\\c.tex\");\nengine.registerAsset(dynamic);";
    let assets = extract_register_assets(script).unwrap();
    assert_eq!(assets, vec!["models/a.json".to_owned(), "b\\c.tex".to_owned()]);
    assert_eq!(extract_register_assets(b"engine.registerAsset('x").unwrap_err().code(), ErrorCode::InvalidProject);
    assert_eq!(extract_register_assets(b"engine.registerAsset(").unwrap_err().code(), ErrorCode::InvalidProject);
    assert_eq!(extract_register_assets(b"let x = `abc").unwrap_err().code(), ErrorCode::InvalidProject);
    assert_eq!(extract_register_assets(b"'a\nb'").unwrap_err().code(), ErrorCode::InvalidProject);
    assert_eq!(extract_register_assets(b"'\xff'").unwrap_err().code(), ErrorCode::InvalidProject);
    assert!(extract_register_assets(b"").unwrap().is_empty());
}

#[test]
fn json_strings_and_relative_path_candidates() {
    let doc = obj(vec![
        ("a", s("models/x.json")),
        ("b", JsonValue::Array(vec![s("one"), JsonValue::Number("3".to_owned()), obj(vec![("c", s("t.tex"))])])),
    ]);
    assert_eq!(collect_json_strings(&doc), vec!["models/x.json".to_owned(), "one".to_owned(), "t.tex".to_owned()]);
    assert!(looks_like_relative_path("models/x.json"));
    assert!(looks_like_relative_path("opaque.tex"));
    assert!(!looks_like_relative_path("one"));
    assert!(!looks_like_relative_path("has space.json"));
    assert!(!looks_like_relative_path("v1.2.3!"));
    assert!(!looks_like_relative_path("x.abcdefghijklmnopq"));
    assert!(!looks_like_relative_path("x."));
}

#[test]
fn inventory_keeps_files_sorted_and_within_limits() {
    let limits = SceneSourceLimits { max_files: 3, max_file_bytes: 100, max_total_bytes: 150 };
    let mut inventory = SceneInventory::new(limits);
    assert_eq!(inventory.add_file("scene.json".to_owned(), "/p/scene.json".to_owned(), 10), Ok(true));
    assert_eq!(inventory.add_file("project.json".to_owned(), "/p/project.json".to_owned(), 10), Ok(true));
    assert_eq!(inventory.add_file("out.MPKG".to_owned(), "/p/out.MPKG".to_owned(), 10), Ok(false));
    assert_eq!(inventory.add_file(".pkg2mpkg-tmp/x".to_owned(), "/p/x".to_owned(), 10), Ok(false));
    assert_eq!(inventory.add_file("big".to_owned(), "/p/big".to_owned(), 101).unwrap_err().code(), ErrorCode::InvalidProject);
    assert_eq!(inventory.add_file("a.tex".to_owned(), "/p/a.tex".to_owned(), 100), Ok(true));
    assert_eq!(inventory.add_file("b.tex".to_owned(), "/p/b.tex".to_owned(), 1).unwrap_err().code(), ErrorCode::InvalidProject);
    let tree = inventory.finish("/p".to_owned(), "scene.json".to_owned(), None).unwrap();
    let paths: Vec<&str> = tree.entries.iter().map(|e| e.archive_path.as_str()).collect();
    assert_eq!(paths, vec!["a.tex", "project.json", "scene.json"]);
    assert_eq!(tree.total_bytes, 120);
    let missing = SceneInventory::new(limits).finish("/p".to_owned(), "scene.json".to_owned(), None);
    assert_eq!(missing.unwrap_err().code(), ErrorCode::InvalidProject);
    assert!(is_excluded_archive_path("a/.Pkg2mpkg-stage/b"));
    assert!(is_excluded_archive_path("x.tex-json"));
    assert!(!is_excluded_archive_path("a.pkg2mpkg-b"));
    assert_eq!(archive_path_from_parts(&vec!["a".to_owned(), "b.tex".to_owned()]).unwrap(), "a/b.tex");
    assert!(archive_path_from_parts(&vec![]).is_err());
    assert!(archive_path_from_parts(&vec!["a\\b".to_owned()]).is_err());
}

#[test]
fn zcompat_config_and_ids() {
    let config = compat_shader_config_from_value(&obj(vec![
        ("maximumprojectid", s("+123")),
        ("frag", s("water.frag")),
        ("vert", JsonValue::Null),
    ]))
    .unwrap();
    assert_eq!(config, CompatShaderConfig { maximum_project_id: 123, frag: Some("water.frag".to_owned()), vert: None });
    let rule = CompatShaderRule { project_id: "100".to_owned(), config, rule_dir: "/rules/100".to_owned() };
    assert!(rule.applies_to("100"));
    assert!(!rule.applies_to("0100"));
    let high = CompatShaderRule { project_id: "200".to_owned(), config: rule.config.clone(), rule_dir: String::new() };
    assert!(!high.applies_to("200"));
    for bad in [
        obj(vec![("maximumprojectid", s("12")), ("frag", JsonValue::Null)]),
        obj(vec![("maximumprojectid", JsonValue::Number("12".to_owned())), ("frag", s("a"))]),
        obj(vec![("maximumprojectid", s("-1")), ("frag", s("a"))]),
        obj(vec![("maximumprojectid", s("1")), ("frag", s("../a"))]),
        obj(vec![("maximumprojectid", s("1")), ("frag", s("a\u{85}b"))]),
    ] {
        assert_eq!(compat_shader_config_from_value(&bad).unwrap_err().code(), ErrorCode::InvalidProject);
    }
    assert_eq!(parse_u64(b"18446744073709551615"), Some(u64::MAX));
    assert_eq!(parse_u64(b"18446744073709551616"), None);
    assert_eq!(parse_u64(b"+"), None);
    assert!(validate_shader_basename("C:a").is_err());
    assert!(validate_shader_basename("..").is_err());
    assert!(validate_shader_basename("ok.frag").is_ok());
    assert!(validate_project_id_token("123").is_ok());
    assert!(validate_project_id_token("12a").is_err());
    assert!(validate_project_id_token(".").is_err());
    assert_eq!(workshop_project_id(&obj(vec![("workshopid", JsonValue::Number("42".to_owned()))])), Some("42".to_owned()));
    assert_eq!(workshop_project_id(&obj(vec![("workshopid", JsonValue::Number("-1".to_owned()))])), None);
    assert_eq!(workshop_project_id(&obj(vec![("workshopid", s("abc"))])), Some("abc".to_owned()));
    let sorted = sort_dedup_paths(&vec!["b".to_owned(), "a".to_owned(), "b".to_owned(), "B".to_owned()]);
    assert_eq!(sorted, vec!["B".to_owned(), "a".to_owned(), "b".to_owned()]);
}

#[test]
fn staged_packages_must_match_the_expectation() {
    let expectation = ScenePackageExpectation {
        scene_entry: "scene.json".to_owned(),
        project_json: b"{\"file\":\"scene.json\",\"type\":\"Scene\"}\n".to_vec(),
        expected_paths: vec!["a.tex".to_owned(), "project.json".to_owned(), "scene.json".to_owned()],
        non_tex_payloads: vec![],
        tex_paths: vec!["a.tex".to_owned()],
        local_references: vec!["scene.json".to_owned()],
    };
    let paths = expectation.expected_paths.clone();
    assert!(verify_staged_directory(ContainerVersion::Pkgm0020, &paths, &expectation).is_ok());
    let error = verify_staged_directory(ContainerVersion::Pkgm0018, &paths, &expectation).unwrap_err();
    assert_eq!(error.code(), ErrorCode::VerificationFailed);
    let reordered = vec!["project.json".to_owned(), "a.tex".to_owned(), "scene.json".to_owned()];
    assert!(verify_staged_directory(ContainerVersion::Pkgm0020, &reordered, &expectation).is_err());
    let doc = obj(vec![("file", s("scene.json")), ("type", s("Scene"))]);
    assert!(verify_staged_project(&expectation.project_json, &doc, &expectation).is_ok());
    let wrong = obj(vec![("file", s("other.json")), ("type", s("Scene"))]);
    assert!(verify_staged_project(&expectation.project_json, &wrong, &expectation).is_err());
    assert!(verify_staged_project(b"{}", &doc, &expectation).is_err());
    assert!(verify_local_references(&paths, &vec!["scene.json".to_owned()]).is_ok());
    assert!(verify_local_references(&paths, &vec!["missing.json".to_owned()]).is_err());
}

#[test]
fn recursive_key_sort_orders_every_object() {
    let doc = obj(vec![
        ("b", obj(vec![("z", JsonValue::Null), ("a", JsonValue::Null)])),
        ("a", JsonValue::Array(vec![obj(vec![("y", JsonValue::Null), ("x", JsonValue::Null)])])),
        ("B", JsonValue::Null),
    ]);
    let sorted = sort_value_keys(&doc);
    assert_eq!(keys(&sorted), vec!["B", "a", "b"]);
    match &sorted {
        JsonValue::Object(pairs) => {
            assert_eq!(keys(&pairs[2].1), vec!["a", "z"]);
            match &pairs[1].1 {
                JsonValue::Array(items) => assert_eq!(keys(&items[0]), vec!["x", "y"]),
                _ => panic!("array expected"),
            }
        }
        _ => panic!("object expected"),
    }
}

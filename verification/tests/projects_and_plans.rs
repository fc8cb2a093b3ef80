use pkg2mpkg::backend::HelperRequirement;

use pkg2mpkg::export::{build_export_plan, ExportMode, ExportRequest, Transformation, VideoInputCompatibility};
use pkg2mpkg::json::JsonValue;
use pkg2mpkg::profile::{Compression, ContentClass, Reduction, SceneProfile};
use pkg2mpkg::project::kind::WallpaperKind;
use pkg2mpkg::project::manifest::ProjectManifest;
use pkg2mpkg::project::source::{
    reject_unsupported, scene_kind_from_document, scene_package_fallback, validate_project_entry, SourceProject,
};
use pkg2mpkg::property::sanitize_mobile_properties;
use pkg2mpkg::{ContainerVersion, Error, ErrorCode};

fn s(text: &str) -> JsonValue {
    JsonValue::String(text.to_owned())
}

fn obj(pairs: Vec<(&str, JsonValue)>) -> JsonValue {
    JsonValue::Object(pairs.into_iter().map(|(k, v)| (k.to_owned(), v)).collect())
}

fn source(kind: WallpaperKind, raw: JsonValue) -> SourceProject {
    SourceProject {
        root: "/projects/demo".to_owned(),
        project_file: Some("/projects/demo/project.json".to_owned()),
        entry_file: "/projects/demo/scene.json".to_owned(),
        title: "Demo".to_owned(),
        kind,
        manifest: ProjectManifest::from_value(raw).unwrap(),
    }
}

#[test]
fn kinds_are_declared_or_inferred_from_the_entry() {
    assert_eq!(WallpaperKind::parse_declared("SCENE").unwrap(), WallpaperKind::Scene);
    assert_eq!(WallpaperKind::parse_declared("Application").unwrap(), WallpaperKind::Application);
    assert_eq!(WallpaperKind::parse_declared("movie").unwrap_err().code(), ErrorCode::InvalidProject);
    assert_eq!(WallpaperKind::infer_from_entry("index.HTM"), Some(WallpaperKind::Web));
    assert_eq!(WallpaperKind::infer_from_entry("clip.webm"), Some(WallpaperKind::Video));
    assert_eq!(WallpaperKind::infer_from_entry("scene.pkg"), Some(WallpaperKind::Scene));
    assert_eq!(WallpaperKind::infer_from_entry("scene.json"), None);
    assert_eq!(WallpaperKind::infer_from_entry(".mp4"), None);
    assert_eq!(WallpaperKind::Application.as_str(), "application");
}

#[test]
fn manifest_kind_prefers_the_declared_type() {
    let m = ProjectManifest::from_value(obj(vec![("type", s("video")), ("file", s("x.pkg"))])).unwrap();
    assert_eq!(m.kind().unwrap(), WallpaperKind::Video);
    let m = ProjectManifest::from_value(obj(vec![("type", JsonValue::Null), ("file", s("x.pkg"))])).unwrap();
    assert_eq!(m.kind().unwrap(), WallpaperKind::Scene);
    let m = ProjectManifest::from_value(obj(vec![("type", JsonValue::Bool(true))])).unwrap();
    assert_eq!(m.kind().unwrap_err().code(), ErrorCode::InvalidProject);
    let m = ProjectManifest::from_value(obj(vec![("title", s("t"))])).unwrap();
    assert_eq!(m.kind().unwrap_err().code(), ErrorCode::InvalidProject);
    assert_eq!(m.title().map(|t| t.as_str()), Some("t"));
    assert!(ProjectManifest::from_value(JsonValue::Array(vec![])).is_err());
}

#[test]
fn project_entries_must_stay_inside_the_project() {
    for entry in ["scene.json", "a/./b.json", "dir//x.json", "a/b..c"] {
        assert!(validate_project_entry(entry).is_ok(), "{entry}");
    }
    for entry in ["", "/etc/passwd", "../x", "a/../b", "./x", ".", "C:x", "a\\b", "a\0b"] {
        assert_eq!(validate_project_entry(entry).unwrap_err().code(), ErrorCode::InvalidProject, "{entry:?}");
    }
}

#[test]
fn web_and_application_are_unsupported() {
    assert!(reject_unsupported(WallpaperKind::Scene).is_ok());
    assert_eq!(
        reject_unsupported(WallpaperKind::Web),
        Err(Error::UnsupportedWallpaperType { kind: "web".to_owned() })
    );
    assert_eq!(reject_unsupported(WallpaperKind::Application).unwrap_err().code().exit_code(), 3);
}

#[test]
fn declared_scene_json_entry_falls_back_to_its_package() {
    assert_eq!(
        scene_package_fallback(Some(WallpaperKind::Scene), "dir/scene.JSON"),
        Some("dir/scene.pkg".to_owned())
    );
    assert_eq!(scene_package_fallback(None, "scene.json"), None);
    assert_eq!(scene_package_fallback(Some(WallpaperKind::Scene), "scene.tex"), None);
}

#[test]
fn scene_documents_need_a_root_marker() {
    assert_eq!(scene_kind_from_document(&obj(vec![("objects", JsonValue::Array(vec![]))])).unwrap(), WallpaperKind::Scene);
    assert!(scene_kind_from_document(&obj(vec![("other", JsonValue::Null)])).is_err());
    assert!(scene_kind_from_document(&s("camera")).is_err());
}

#[test]
fn mobile_properties_drop_the_blacklist() {
    let input = vec![
        ("alignment".to_owned(), JsonValue::Null),
        ("schemecolor".to_owned(), s("0 0 0")),
        ("rate".to_owned(), JsonValue::Number("1".to_owned())),
        ("wec_hue".to_owned(), JsonValue::Null),
    ];
    let kept = sanitize_mobile_properties(&input);
    let keys: Vec<&str> = kept.iter().map(|(k, _)| k.as_str()).collect();
    assert_eq!(keys, vec!["schemecolor"]);
}

#[test]
fn scene_plan_sanitizes_sorts_and_packages_pkgm0020() {
    let raw = obj(vec![
        ("file", s("scene.json")),
        (
            "general",
            obj(vec![(
                "properties",
                obj(vec![("zeta", JsonValue::Null), ("alignmentx", JsonValue::Null), ("alpha", s("a"))]),
            )]),
        ),
    ]);
    let src = source(WallpaperKind::Scene, raw);
    let request = ExportRequest::scene("/out/demo.mpkg".to_owned(), SceneProfile::Balanced, ContentClass::Normal);
    let plan = build_export_plan(&src, request).unwrap();
    assert_eq!(plan.source, "/projects/demo");
    assert_eq!(plan.mode, ExportMode::SceneDynamic { compression: Compression::HighPerformance, reduction: Reduction::X2 });
    assert_eq!(
        plan.transformations,
        vec![
            Transformation::SanitizeProperties,
            Transformation::TranscodeSceneResources { compression: Compression::HighPerformance, reduction: Reduction::X2 },
            Transformation::PackageMpkg { version: ContainerVersion::Pkgm0020 },
        ]
    );
    assert_eq!(plan.helpers, vec![HelperRequirement::ResourceTranscode]);
    assert_eq!(plan.properties.len(), 2);
    let keys: Vec<&String> = plan.properties.keys().collect();
    assert_eq!(keys, vec!["alpha", "zeta"]);
}

#[test]
fn video_plan_and_mode_mismatch() {
    let src = source(WallpaperKind::Video, obj(vec![("file", s("clip.mp4"))]));
    let plan = build_export_plan(&src, ExportRequest::video("/out/v.mpkg".to_owned(), VideoInputCompatibility::Unknown)).unwrap();
    assert_eq!(plan.mode, ExportMode::Video { passthrough: false });
    assert_eq!(plan.helpers, vec![HelperRequirement::H264Encode]);
    assert_eq!(plan.source, "/projects/demo/scene.json");
    let copy = build_export_plan(&src, ExportRequest::video("o".to_owned(), VideoInputCompatibility::AndroidH264Mp4)).unwrap();
    assert_eq!(copy.transformations[1], Transformation::CopyVideo);
    assert!(copy.helpers.is_empty());
    let mismatch = build_export_plan(&src, ExportRequest::scene("o".to_owned(), SceneProfile::High, ContentClass::Normal));
    assert_eq!(mismatch.unwrap_err().code(), ErrorCode::InvalidArguments);
    let empty = build_export_plan(&src, ExportRequest::video(String::new(), VideoInputCompatibility::Unknown));
    assert_eq!(empty.unwrap_err().code(), ErrorCode::InvalidArguments);
    let web = source(WallpaperKind::Web, obj(vec![]));
    let refused = build_export_plan(&web, ExportRequest::video("o".to_owned(), VideoInputCompatibility::Unknown));
    assert_eq!(refused.unwrap_err(), Error::UnsupportedWallpaperType { kind: "web".to_owned() });
}

#[test]
fn performance_plan_needs_capture_and_encoding() {
    let src = source(WallpaperKind::Scene, obj(vec![("file", s("scene.json"))]));
    let plan = build_export_plan(&src, ExportRequest::scene("o".to_owned(), SceneProfile::Performance, ContentClass::Uhd)).unwrap();
    assert_eq!(plan.mode, ExportMode::ScenePreRenderedVideo);
    assert_eq!(plan.helpers, vec![HelperRequirement::SceneCapture, HelperRequirement::H264Encode]);
    assert_eq!(plan.properties.len(), 0);
}

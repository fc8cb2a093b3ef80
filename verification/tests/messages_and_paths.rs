use pkg2mpkg::backend::{check_transcode_report, TextureTranscodeReport, TextureTranscodeRequest};
use pkg2mpkg::cli::{reject_custom_only_flags, resolve_scene_profile_arg, CompressionArg, ProfileArg, ReductionArg};
use pkg2mpkg::codec::{describe_process_failure, CapturedStream};
use pkg2mpkg::execute::check_dynamic_scene;
use pkg2mpkg::export::{CompatibilityTarget, ExportMode, ExportPlan};
use pkg2mpkg::mpkg::ContainerVersion;
use pkg2mpkg::os_path::paths_equal;
use pkg2mpkg::profile::{Compression, Reduction};
use pkg2mpkg::project::kind::WallpaperKind;
use pkg2mpkg::scene::package_input::check_unpack_report;
use pkg2mpkg::{
    Error, ErrorCode, ScenePackageEntry, ScenePackageUnpackLimits, ScenePackageUnpackReport, ScenePackageUnpackRequest,
    Stage,
};

fn unpack_request() -> ScenePackageUnpackRequest {
    ScenePackageUnpackRequest::new("/t/scene.pkg".to_owned(), "/t/out".to_owned(), ScenePackageUnpackLimits::mpkg_aligned())
        .unwrap()
}

fn unpack_report(output_dir: &str, entries: &[(&str, u64)], total: u64) -> ScenePackageUnpackReport {
    ScenePackageUnpackReport {
        output_dir: output_dir.to_owned(),
        entries: entries.iter().map(|(p, n)| ScenePackageEntry { path: (*p).to_owned(), size: *n }).collect(),
        total_bytes: total,
    }
}

#[test]
fn error_messages_match_the_command_line() {
    let web = Error::unsupported_type("web".to_owned());
    assert_eq!(web.message(), "unsupported wallpaper type: web");
    assert_eq!(web.stage(), Stage::Inspect);
    assert_eq!(web.code(), ErrorCode::UnsupportedWallpaperType);
    assert_eq!(web.code().exit_code(), 3);
    assert_eq!(Error::InvalidArguments { reason: "x".to_owned() }.message(), "invalid arguments: x");
    assert_eq!(Error::PackageTooLarge { size: 4_294_967_296 }.message(), "package size 4294967296 exceeds the 4 GiB limit");
    assert_eq!(
        Error::Io { stage: Stage::Pack, path: "/o.mpkg".to_owned(), source: "denied".to_owned() }.message(),
        "I/O failure during Pack at /o.mpkg: denied"
    );
    assert_eq!(Error::Cancelled.message(), "operation cancelled");
    assert_eq!(Error::BackendUnavailable { backend: "resource_transcode".to_owned() }.message(), "backend unavailable: resource_transcode");
}

#[test]
fn profile_flag_errors_name_the_flags() {
    assert_eq!(
        resolve_scene_profile_arg(ProfileArg::Custom, Some(CompressionArg::HighQuality), None).unwrap_err(),
        "custom profile requires both --compression and --reduction"
    );
    assert_eq!(
        resolve_scene_profile_arg(ProfileArg::Balanced, None, Some(ReductionArg::ReductionX2)).unwrap_err(),
        "--compression and --reduction are only valid with --profile custom (not balanced)"
    );
    assert_eq!(
        reject_custom_only_flags(Some(CompressionArg::HighPerformance), None, "high").unwrap_err(),
        "--compression and --reduction are only valid with --profile custom (not high)"
    );
    assert_eq!(reject_custom_only_flags(None, None, "high"), Ok(()));
}

#[test]
fn refused_unpack_entries_are_invalid_projects_and_wrong_totals_conversion_failures() {
    let duplicate = check_unpack_report(&unpack_request(), unpack_report("/t/out", &[("scene.json", 1), ("scene.json", 1)], 2));
    assert!(matches!(duplicate, Err(Error::InvalidProject { .. })));
    let total = check_unpack_report(&unpack_request(), unpack_report("/t/out", &[("scene.json", 1)], 2));
    assert!(matches!(total, Err(Error::ConversionFailed { .. })));
}

#[test]
fn paths_compare_by_component() {
    assert!(paths_equal("a/b", "a/b/"));
    assert!(paths_equal("a/b", "a//b"));
    assert!(paths_equal("a/./b", "a/b"));
    assert!(paths_equal("/t/out", "/t/out/."));
    assert!(!paths_equal("./a", "a"));
    assert!(!paths_equal("/a", "a"));
    assert!(!paths_equal("a/b/../c", "a/c"));
    assert!(check_unpack_report(&unpack_request(), unpack_report("/t/out/", &[("scene.json", 1)], 1)).is_ok());
    let request = TextureTranscodeRequest::new("a/in.tex".to_owned(), "a/b".to_owned(), Compression::HighQuality, Reduction::Original)
        .unwrap();
    let report = TextureTranscodeReport {
        output: "a/b/".to_owned(),
        input_bytes: 1,
        output_bytes: 1,
        compression: Compression::HighQuality,
        reduction: Reduction::Original,
    };
    assert!(check_transcode_report(&request, Ok(report)).is_ok());
    assert!(TextureTranscodeRequest::new("a/b".to_owned(), "a//b/".to_owned(), Compression::HighQuality, Reduction::Original).is_err());
    assert!(ScenePackageUnpackRequest::new("/t/p".to_owned(), "/t/p/".to_owned(), ScenePackageUnpackLimits::mpkg_aligned()).is_err());
}

#[test]
fn dynamic_scene_without_backend_names_resource_transcode() {
    let plan = ExportPlan {
        source: "/in".to_owned(),
        title: "t".to_owned(),
        kind: WallpaperKind::Scene,
        mode: ExportMode::SceneDynamic { compression: Compression::HighQuality, reduction: Reduction::Original },
        compatibility: CompatibilityTarget::WeAndroid { major: 2, minor: 7 },
        properties: indexmap::IndexMap::new(),
        transformations: Vec::new(),
        helpers: vec![pkg2mpkg::HelperRequirement::ResourceTranscode],
        estimated_size: None,
        output: "/out.mpkg".to_owned(),
    };
    match check_dynamic_scene(WallpaperKind::Scene, &plan, false) {
        Err(Error::BackendUnavailable { backend }) => assert_eq!(backend, "resource_transcode"),
        other => panic!("unexpected {other:?}"),
    }
}

#[test]
fn other_versions_print_each_digit_byte_as_a_character() {
    assert_eq!(ContainerVersion::Pkgm0020.as_magic(), "PKGM0020");
    assert_eq!(ContainerVersion::OtherPkgm { digits: *b"0042" }.as_magic(), "PKGM0042");
    assert_eq!(ContainerVersion::OtherPkgm { digits: [0x41, 0xe9, 0x30, 0x31] }.as_magic(), "PKGMA\u{e9}01");
}

#[test]
fn diagnostics_of_invalid_utf8_use_replacement_characters() {
    let mut out = CapturedStream::new();
    out.retain(&[b'o', b'k', 0xff, b'!']);
    assert_eq!(out.diagnostic(), "ok\u{fffd}!");
    let err = CapturedStream::new();
    assert_eq!(describe_process_failure("tool", "status 1", &out, &err), "tool exited with status 1; stdout: ok\u{fffd}!; stderr: <empty>");
}

#[test]
fn kind_names_parse_back_in_any_case() {
    for kind in [WallpaperKind::Scene, WallpaperKind::Video, WallpaperKind::Web, WallpaperKind::Application] {
        assert_eq!(WallpaperKind::parse_declared(kind.as_str()), Ok(kind));
        assert_eq!(WallpaperKind::parse_declared(&kind.as_str().to_ascii_uppercase()), Ok(kind));
    }
    assert_eq!(WallpaperKind::parse_declared("ViDeO"), Ok(WallpaperKind::Video));
    assert!(WallpaperKind::parse_declared("scenes").is_err());
}

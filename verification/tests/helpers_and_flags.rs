use pkg2mpkg::backend::{
    check_transcode_report, transcode_texture_checked, BackendCapabilities, HelperRequirement, ResourceTranscodeBackend,
    TextureTranscodeReport, TextureTranscodeRequest,
};
use pkg2mpkg::cli::{
    export_profile, resolve_scene_profile_arg, validate_export_flag_combinations, Command, CompressionArg, ExportOptions,
    ProfileArg, ReductionArg,
};
use pkg2mpkg::codec::{
    check_created_output, compiler_arguments, winepath_output, CapturedStream, ProcessFailure, ResourceCompilerBackend,
    DIAGNOSTIC_LIMIT,
};
use pkg2mpkg::execute::{converted_texture_name, dispatch_export, helper_name, package_entry_plan, PackedSource};
use pkg2mpkg::export::ExportMode;
use pkg2mpkg::profile::{Compression, Reduction, SceneProfile};
use pkg2mpkg::project::kind::WallpaperKind;
use pkg2mpkg::{Error, ErrorCode, Result};

fn request(compression: Compression, reduction: Reduction) -> TextureTranscodeRequest {
    TextureTranscodeRequest::new("in.tex".to_owned(), "out.tex".to_owned(), compression, reduction).unwrap()
}

#[test]
fn compiler_arguments_for_high_quality_original() {
    let args = compiler_arguments("C:\\in.tex", "C:\\tmp.tex", &request(Compression::HighQuality, Reduction::Original));
    assert_eq!(
        args,
        vec!["-transcode", "-i", "C:\\in.tex", "-o", "C:\\tmp.tex", "-f", "ETC2", "-shrink", "1", "-maxmipmaps", "1"]
    );
}

#[test]
fn compiler_arguments_force_compression_and_reduction_factors() {
    for (reduction, factor) in [(Reduction::X2, "2"), (Reduction::X4, "4")] {
        let args = compiler_arguments("i", "o", &request(Compression::HighPerformance, reduction));
        assert_eq!(&args[7..], &["-c", "force", "-shrink", factor, "-maxmipmaps", "1"]);
    }
}

#[test]
fn only_one_mipmap_is_accepted() {
    let backend = ResourceCompilerBackend::native("compiler.exe".to_owned());
    let mut req = request(Compression::HighQuality, Reduction::Original);
    assert!(backend.validate_request(&req).is_ok());
    req.max_mipmaps = 2;
    assert_eq!(backend.validate_request(&req).unwrap_err().code(), ErrorCode::InvalidArguments);
    let wine = ResourceCompilerBackend::wine("c".to_owned(), "/usr/bin/wine".to_owned(), "/usr/bin/winepath".to_owned());
    assert_eq!(wine.process_name().0, "Wine runtime");
    assert_eq!(backend.process_name().0, "resource compiler");
}

#[test]
fn texture_requests_need_distinct_paths() {
    assert!(TextureTranscodeRequest::new(String::new(), "o".to_owned(), Compression::HighQuality, Reduction::X2).is_err());
    assert!(TextureTranscodeRequest::new("a".to_owned(), "a".to_owned(), Compression::HighQuality, Reduction::X2).is_err());
    assert_eq!(request(Compression::HighQuality, Reduction::X2).max_mipmaps, 1);
}

struct Echo {
    output: &'static str,
}

impl ResourceTranscodeBackend for Echo {
    fn transcode_texture(&self, request: &TextureTranscodeRequest) -> Result<TextureTranscodeReport> {
        Ok(TextureTranscodeReport {
            output: self.output.to_owned(),
            input_bytes: 1,
            output_bytes: 2,
            compression: request.compression,
            reduction: request.reduction,
        })
    }
}

#[test]
fn backend_reports_must_name_the_requested_output() {
    let req = request(Compression::HighQuality, Reduction::X2);
    assert!(transcode_texture_checked(&Echo { output: "out.tex" }, &req).is_ok());
    assert_eq!(transcode_texture_checked(&Echo { output: "other.tex" }, &req).unwrap_err().code(), ErrorCode::ConversionFailed);
    let mismatch = TextureTranscodeReport {
        output: "out.tex".to_owned(),
        input_bytes: 0,
        output_bytes: 0,
        compression: Compression::HighPerformance,
        reduction: Reduction::X2,
    };
    assert_eq!(check_transcode_report(&req, Ok(mismatch)).unwrap_err().code(), ErrorCode::ConversionFailed);
    let passed = Error::BackendUnavailable { backend: "x".to_owned() };
    assert_eq!(check_transcode_report(&req, Err(passed.clone())), Err(passed));
}

#[test]
fn capabilities_list_missing_requirements_in_order() {
    let caps = BackendCapabilities { protocol_version: 1, requirements: vec![HelperRequirement::ResourceTranscode] };
    assert!(caps.satisfies(&HelperRequirement::ResourceTranscode));
    assert_eq!(
        caps.missing_requirements(&[HelperRequirement::H264Encode, HelperRequirement::ResourceTranscode, HelperRequirement::SceneCapture]),
        vec![HelperRequirement::H264Encode, HelperRequirement::SceneCapture]
    );
}

#[test]
fn captured_output_is_bounded_and_described() {
    let mut stream = CapturedStream::new();
    stream.retain(b"  hello \n");
    assert_eq!(stream.diagnostic(), "hello");
    stream.retain(&vec![b'x'; DIAGNOSTIC_LIMIT]);
    assert_eq!(stream.bytes().len(), DIAGNOSTIC_LIMIT);
    assert!(stream.truncated());
    assert!(stream.diagnostic().ends_with(" [truncated]"));
    assert_eq!(CapturedStream::new().diagnostic(), "<empty>");
}

#[test]
fn winepath_output_must_be_one_clean_line() {
    let stream = |bytes: &[u8]| {
        let mut s = CapturedStream::new();
        s.retain(bytes);
        s
    };
    assert_eq!(winepath_output(&stream(b"Z:\\tmp\\a.tex\r\n"), "texture input", "/tmp/a.tex").unwrap(), "Z:\\tmp\\a.tex");
    for bad in [&b"\n\r\n"[..], b"a\nb\n", b"\xff\n"] {
        assert_eq!(winepath_output(&stream(bad), "l", "p").unwrap_err().code(), ErrorCode::ConversionFailed);
    }
}

#[test]
fn launch_failures_map_to_codes() {
    let missing = ProcessFailure::SpawnNotFound { message: "No such file".to_owned() }.into_error("winepath", "/x");
    assert_eq!(missing.code(), ErrorCode::BackendUnavailable);
    let waited = ProcessFailure::Wait { message: "boom".to_owned() }.into_error("winepath", "/x");
    assert_eq!(waited.code(), ErrorCode::ConversionFailed);
}

#[test]
fn created_output_must_be_a_texv0005_file() {
    assert!(check_created_output(true, 12, b"TEXV0005\0").is_ok());
    assert!(check_created_output(true, 0, b"TEXV0005\0").is_err());
    assert!(check_created_output(false, 12, b"TEXV0005\0").is_err());
    assert!(check_created_output(true, 12, b"TEXV0004\0").is_err());
    assert!(check_created_output(true, 3, b"TEX").is_err());
}

#[test]
fn profile_flags_combine_as_the_command_line_allows() {
    assert_eq!(resolve_scene_profile_arg(ProfileArg::High, None, None), Ok(SceneProfile::High));
    assert!(resolve_scene_profile_arg(ProfileArg::Balanced, Some(CompressionArg::HighQuality), None).is_err());
    assert!(resolve_scene_profile_arg(ProfileArg::Custom, Some(CompressionArg::HighQuality), None).is_err());
    assert_eq!(
        resolve_scene_profile_arg(ProfileArg::Custom, Some(CompressionArg::HighPerformance), Some(ReductionArg::ReductionX4)),
        Ok(SceneProfile::Custom { compression: Compression::HighPerformance, reduction: Reduction::X4 })
    );
    assert_eq!(Reduction::from(ReductionArg::HighQuality), Reduction::Original);
    assert!(validate_export_flag_combinations(true, true, true, false).is_ok());
    assert_eq!(validate_export_flag_combinations(true, false, true, false).unwrap_err().code(), ErrorCode::InvalidArguments);
    assert_eq!(validate_export_flag_combinations(false, true, false, false).unwrap_err().code(), ErrorCode::InvalidArguments);
    assert!(validate_export_flag_combinations(true, true, false, true).is_err());
    let command = Command::Inspect { input: "x".to_owned(), json: true };
    assert!(command.json());
}

#[test]
fn export_options_require_a_profile_for_scenes_only() {
    let options = |profile: Option<ProfileArg>| ExportOptions {
        output: "o".to_owned(),
        profile,
        compression: None,
        reduction: None,
        we_runtime: None,
        wine: None,
        winepath: None,
        replace: false,
        dry_run: true,
        json: false,
    };
    assert_eq!(export_profile(WallpaperKind::Scene, &options(None)).unwrap_err().code(), ErrorCode::InvalidArguments);
    assert_eq!(export_profile(WallpaperKind::Scene, &options(Some(ProfileArg::High))).unwrap(), Some(SceneProfile::High));
    assert_eq!(export_profile(WallpaperKind::Video, &options(None)).unwrap(), None);
    assert!(export_profile(WallpaperKind::Video, &options(Some(ProfileArg::High))).is_err());
    assert_eq!(export_profile(WallpaperKind::Web, &options(None)).unwrap_err().code(), ErrorCode::UnsupportedWallpaperType);
}

#[test]
fn execution_dispatch_and_package_order() {
    let dynamic = ExportMode::SceneDynamic { compression: Compression::HighQuality, reduction: Reduction::X2 };
    assert_eq!(dispatch_export(WallpaperKind::Scene, dynamic).unwrap(), (Compression::HighQuality, Reduction::X2));
    assert_eq!(
        dispatch_export(WallpaperKind::Scene, ExportMode::ScenePreRenderedVideo).unwrap_err(),
        Error::BackendUnavailable { backend: "scene_capture+h264_encode".to_owned() }
    );
    assert_eq!(
        dispatch_export(WallpaperKind::Video, ExportMode::Video { passthrough: true }).unwrap_err(),
        Error::BackendUnavailable { backend: "video_export".to_owned() }
    );
    assert_eq!(dispatch_export(WallpaperKind::Web, dynamic).unwrap_err().code(), ErrorCode::UnsupportedWallpaperType);
    assert_eq!(helper_name(HelperRequirement::H264Encode), "h264_encode");
    assert_eq!(converted_texture_name(7), "000007.tex");
    assert_eq!(converted_texture_name(1234567), "1234567.tex");
    let plan = package_entry_plan(&vec!["scene.json".to_owned(), "a.TEX".to_owned(), "project.json".to_owned(), "b.txt".to_owned()]);
    assert_eq!(
        plan,
        vec![
            ("a.TEX".to_owned(), PackedSource::ConvertedTexture),
            ("b.txt".to_owned(), PackedSource::Snapshot),
            ("project.json".to_owned(), PackedSource::ProjectJson),
            ("scene.json".to_owned(), PackedSource::Snapshot),
        ]
    );
}

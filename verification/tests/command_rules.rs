use pkg2mpkg::backend::TextureTranscodeRequest;
use pkg2mpkg::cli::{export_profile, validate_export_flag_combinations, CompressionArg, ExportOptions, ProfileArg};
use pkg2mpkg::codec::{compiler_arguments, describe_process_failure, CapturedStream, ResourceCompilerBackend};
use pkg2mpkg::profile::{Compression, Reduction};
use pkg2mpkg::project::kind::WallpaperKind;
use pkg2mpkg::project::source::reject_unsupported;
use pkg2mpkg::{Error, ErrorCode};

const INPUT: &str = "/tmp/work/源 texture with spaces.tex";
const OUTPUT: &str = "/tmp/work/.pkg2mpkg-resource-staged.tex";

fn request(compression: Compression, reduction: Reduction) -> TextureTranscodeRequest {
    TextureTranscodeRequest::new(INPUT.to_owned(), "/tmp/work/输出 texture with spaces.tex".to_owned(), compression, reduction)
        .unwrap()
}

fn options(profile: Option<ProfileArg>, compression: Option<CompressionArg>) -> ExportOptions {
    ExportOptions {
        output: "out.mpkg".to_owned(),
        profile,
        compression,
        reduction: None,
        we_runtime: None,
        wine: None,
        winepath: None,
        replace: false,
        dry_run: true,
        json: false,
    }
}

fn reason(error: &Error) -> String {
    match error {
        Error::InvalidArguments { reason } => reason.clone(),
        Error::UnsupportedWallpaperType { kind } => kind.clone(),
        other => format!("{other:?}"),
    }
}

#[test]
fn high_quality_original_matches_the_windows_2826_arguments() {
    let request = request(Compression::HighQuality, Reduction::Original);
    let arguments = compiler_arguments(&request.input, OUTPUT, &request);
    assert_eq!(
        arguments,
        vec!["-transcode", "-i", INPUT, "-o", OUTPUT, "-f", "ETC2", "-shrink", "1", "-maxmipmaps", "1"]
    );
}

#[test]
fn high_performance_adds_force_and_maps_reduction_factors() {
    for (reduction, factor) in [(Reduction::X2, "2"), (Reduction::X4, "4")] {
        let request = request(Compression::HighPerformance, reduction);
        let arguments = compiler_arguments(&request.input, OUTPUT, &request);
        assert_eq!(&arguments[7..], &["-c", "force", "-shrink", factor, "-maxmipmaps", "1"]);
    }
}

#[test]
fn max_mipmaps_other_than_one_is_rejected_before_launch() {
    let mut request = request(Compression::HighQuality, Reduction::Original);
    request.max_mipmaps = 2;
    let error = ResourceCompilerBackend::native("compiler.exe".to_owned()).validate_request(&request).unwrap_err();
    assert_eq!(error.code(), ErrorCode::InvalidArguments);
    assert!(reason(&error).contains("max_mipmaps 1"));
}

#[test]
fn helper_diagnostics_are_bounded_and_drained() {
    let stdout = CapturedStream::new();
    let mut stderr = CapturedStream::new();
    for chunk in vec![b'x'; 20_000].chunks(4096) {
        stderr.retain(chunk);
    }
    let diagnostic = describe_process_failure("resource compiler", "exit status: 9", &stdout, &stderr);
    assert!(diagnostic.contains("[truncated]"));
    assert!(diagnostic.len() < 10_000, "diagnostic was {} bytes", diagnostic.len());
}

#[test]
fn invalid_custom_combinations_exit_two() {
    let error = export_profile(WallpaperKind::Scene, &options(Some(ProfileArg::Custom), Some(CompressionArg::HighQuality)))
        .unwrap_err();
    assert_eq!(error.code().exit_code(), 2);
    assert!(reason(&error).contains("--reduction"));

    let error = export_profile(WallpaperKind::Scene, &options(Some(ProfileArg::High), Some(CompressionArg::HighQuality)))
        .unwrap_err();
    assert_eq!(error.code().exit_code(), 2);
    assert!(reason(&error).contains("custom"));
}

#[test]
fn winepath_without_wine_is_invalid_arguments() {
    let error = validate_export_flag_combinations(false, false, true, false).unwrap_err();
    assert_eq!(error.code().exit_code(), 2);
    assert!(reason(&error).contains("--wine"));
}

#[test]
fn wine_without_we_runtime_is_invalid_arguments() {
    let error = validate_export_flag_combinations(false, true, false, false).unwrap_err();
    assert_eq!(error.code().exit_code(), 2);
    assert!(reason(&error).contains("--we-runtime"));
}

#[test]
fn scene_export_requires_an_explicit_profile() {
    let error = export_profile(WallpaperKind::Scene, &options(None, None)).unwrap_err();
    assert_eq!(error.code().exit_code(), 2);
    assert!(reason(&error).contains("--profile"));
}

#[test]
fn web_returns_exit_code_three() {
    let error = reject_unsupported(WallpaperKind::Web).unwrap_err();
    assert_eq!(error.code(), ErrorCode::UnsupportedWallpaperType);
    assert_eq!(error.code().exit_code(), 3);
    assert_eq!(reason(&error), "web");
}

#[test]
fn web_export_exits_three_before_runtime_validation() {
    assert!(validate_export_flag_combinations(true, false, false, false).is_ok());
    let error = export_profile(WallpaperKind::Web, &options(Some(ProfileArg::High), None)).unwrap_err();
    assert_eq!(error.code().exit_code(), 3);
}

#[test]
fn application_export_exits_three_before_runtime_validation() {
    assert!(validate_export_flag_combinations(true, false, false, false).is_ok());
    let error = export_profile(WallpaperKind::Application, &options(Some(ProfileArg::High), None)).unwrap_err();
    assert_eq!(error.code().exit_code(), 3);
    assert_eq!(reason(&error), "application");
}

use pkg2mpkg::profile::{
    classify_from_tags, classify_with_scene, parse_resolution_tag, resolve_scene_profile, Compression,
    ContentClass, ContentClassStep, Reduction, SceneMode, SceneProfile,
};
use pkg2mpkg::project::kind::WallpaperKind;
use pkg2mpkg::resolution::{resolve_video_geometry, Alignment, CropMode, CropRect, Dimensions};
use pkg2mpkg::ErrorCode;

fn dims(width: u32, height: u32) -> Dimensions {
    Dimensions { width, height }
}

#[test]
fn keep_aspect_fits_and_rounds_down_to_even() {
    let g = resolve_video_geometry(dims(1920, 1080), dims(1280, 1280), CropMode::KeepAspect, Alignment::center()).unwrap();
    assert_eq!(g.output, dims(1280, 720));
    assert_eq!(g.crop, None);
    let g = resolve_video_geometry(dims(1000, 3001), dims(720, 1280), CropMode::KeepAspect, Alignment::center()).unwrap();
    assert_eq!(g.output, dims(426, 1280));
}

#[test]
fn cover_crops_aligned_and_matching_aspect_needs_no_crop() {
    let g = resolve_video_geometry(dims(1920, 1080), dims(1080, 1920), CropMode::Cover, Alignment::center()).unwrap();
    assert_eq!(g.output, dims(1080, 1920));
    assert_eq!(g.crop, Some(CropRect { x: 656, y: 0, width: 607, height: 1080 }));
    let left = resolve_video_geometry(dims(1920, 1080), dims(1080, 1920), CropMode::Cover, Alignment::new(0, 50).unwrap()).unwrap();
    assert_eq!(left.crop.unwrap().x, 0);
    let tall = resolve_video_geometry(dims(1080, 1920), dims(1920, 1080), CropMode::Cover, Alignment::new(50, 100).unwrap()).unwrap();
    assert_eq!(tall.crop, Some(CropRect { x: 0, y: 1313, width: 1080, height: 607 }));
    let same = resolve_video_geometry(dims(3840, 2160), dims(1920, 1080), CropMode::Cover, Alignment::center()).unwrap();
    assert_eq!(same.crop, None);
}

#[test]
fn invalid_geometry_inputs_are_argument_errors() {
    let cases = [
        (dims(0, 10), dims(10, 10), Alignment { x: 50, y: 50 }),
        (dims(10, 10), dims(11, 10), Alignment { x: 50, y: 50 }),
        (dims(10, 10), dims(10, 10), Alignment { x: 101, y: 50 }),
        (dims(100000, 1), dims(2, 2), Alignment { x: 50, y: 50 }),
    ];
    for (source, boundary, alignment) in cases {
        let error = resolve_video_geometry(source, boundary, CropMode::KeepAspect, alignment).unwrap_err();
        assert_eq!(error.code(), ErrorCode::InvalidArguments);
    }
    assert!(Dimensions::new_h264(1921, 1080).is_err());
    assert!(Dimensions::new(1, 1).is_ok());
}

#[test]
fn profile_matrix_matches_each_class() {
    let dynamic = |compression, reduction| SceneMode::Dynamic { compression, reduction };
    assert_eq!(resolve_scene_profile(SceneProfile::High, ContentClass::PixelArt), dynamic(Compression::HighQuality, Reduction::Original));
    assert_eq!(resolve_scene_profile(SceneProfile::High, ContentClass::Normal), dynamic(Compression::HighPerformance, Reduction::Original));
    assert_eq!(resolve_scene_profile(SceneProfile::High, ContentClass::Uhd), dynamic(Compression::HighPerformance, Reduction::X2));
    assert_eq!(resolve_scene_profile(SceneProfile::Balanced, ContentClass::PixelArt), dynamic(Compression::HighPerformance, Reduction::Original));
    assert_eq!(resolve_scene_profile(SceneProfile::Balanced, ContentClass::Normal), dynamic(Compression::HighPerformance, Reduction::X2));
    assert_eq!(resolve_scene_profile(SceneProfile::Balanced, ContentClass::Uhd), dynamic(Compression::HighPerformance, Reduction::X4));
    assert_eq!(resolve_scene_profile(SceneProfile::Performance, ContentClass::Normal), SceneMode::PreRendered);
    let custom = SceneProfile::Custom { compression: Compression::HighQuality, reduction: Reduction::X4 };
    assert_eq!(resolve_scene_profile(custom, ContentClass::Uhd), dynamic(Compression::HighQuality, Reduction::X4));
}

#[test]
fn resolution_tags_need_two_numbers_and_an_x() {
    assert_eq!(parse_resolution_tag(b"1920x1080"), Some((1920, 1080)));
    assert_eq!(parse_resolution_tag(b"3840 X 2160 (4K)"), None);
    assert_eq!(parse_resolution_tag(b"Res: 2560 X 1440"), Some((2560, 1440)));
    assert_eq!(parse_resolution_tag(b"1920*1080"), None);
    assert_eq!(parse_resolution_tag(b"1x2x3"), None);
    assert_eq!(parse_resolution_tag(b"Anime"), None);
    assert_eq!(parse_resolution_tag(b"99999999999999999999x1"), None);
}

#[test]
fn tags_decide_uhd_and_scene_area_decides_pixel_art() {
    let tags = |list: &[&str]| list.iter().map(|t| t.as_bytes().to_vec()).collect::<Vec<_>>();
    assert_eq!(
        classify_from_tags(WallpaperKind::Scene, &tags(&["3840x2160"])).unwrap(),
        ContentClassStep::Decided(ContentClass::Uhd)
    );
    assert_eq!(
        classify_from_tags(WallpaperKind::Video, &tags(&["3840x2160"])).unwrap(),
        ContentClassStep::Decided(ContentClass::Normal)
    );
    assert_eq!(
        classify_from_tags(WallpaperKind::Scene, &tags(&["1920x1080", "640x480"])).unwrap(),
        ContentClassStep::NeedsScene { maximum_area: 2_073_600 }
    );
    let overflow = classify_from_tags(WallpaperKind::Scene, &tags(&["18446744073709551615x2"])).unwrap_err();
    assert_eq!(overflow.code(), ErrorCode::InvalidProject);
    assert_eq!(classify_with_scene(0, Some((640, 479))).unwrap(), ContentClass::PixelArt);
    assert_eq!(classify_with_scene(0, Some((640, 480))).unwrap(), ContentClass::Normal);
    assert_eq!(classify_with_scene(0, None).unwrap(), ContentClass::Normal);
    assert_eq!(classify_with_scene(2_073_600, Some((320, 240))).unwrap(), ContentClass::Normal);
    assert_eq!(classify_with_scene(0, Some((u64::MAX, 2))).unwrap_err().code(), ErrorCode::InvalidProject);
}

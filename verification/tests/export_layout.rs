use pkg2mpkg::execute::{package_entry_plan, PackedSource};
use pkg2mpkg::mpkg::ContainerVersion;
use pkg2mpkg::scene::package::{verify_staged_directory, ScenePackageExpectation};
use pkg2mpkg::{ErrorCode, MpkgBuilder, MpkgEntry};

fn expectation(scene_entry: &str, expected_paths: Vec<String>) -> ScenePackageExpectation {
    ScenePackageExpectation {
        scene_entry: scene_entry.to_owned(),
        project_json: Vec::new(),
        expected_paths,
        non_tex_payloads: Vec::new(),
        tex_paths: Vec::new(),
        local_references: Vec::new(),
    }
}

#[test]
fn laid_out_package_passes_the_staged_directory_check() {
    let snapshot: Vec<String> = ["scene.json", "project.json", "materials/b.tex", "Materials/A.TEX", "preview.jpg"]
        .iter()
        .map(|p| p.to_string())
        .collect();
    let plan = package_entry_plan(&snapshot);
    let paths: Vec<String> = plan.iter().map(|(p, _)| p.clone()).collect();
    assert_eq!(paths, vec!["Materials/A.TEX", "materials/b.tex", "preview.jpg", "project.json", "scene.json"]);
    let sources: Vec<PackedSource> = plan.iter().map(|(_, s)| *s).collect();
    assert_eq!(
        sources,
        vec![
            PackedSource::ConvertedTexture,
            PackedSource::ConvertedTexture,
            PackedSource::Snapshot,
            PackedSource::ProjectJson,
            PackedSource::Snapshot,
        ]
    );
    assert!(verify_staged_directory(ContainerVersion::Pkgm0020, &paths, &expectation("scene.json", paths.clone())).is_ok());
}

#[test]
fn staged_directory_check_refuses_another_version_or_order() {
    let paths = vec!["project.json".to_owned(), "scene.json".to_owned()];
    assert!(verify_staged_directory(ContainerVersion::Pkgm0018, &paths, &expectation("scene.json", paths.clone())).is_err());
    let reversed = vec!["scene.json".to_owned(), "project.json".to_owned()];
    assert!(verify_staged_directory(ContainerVersion::Pkgm0020, &reversed, &expectation("scene.json", reversed.clone())).is_err());
}

#[test]
fn staged_entries_must_read_back_as_laid_out() {
    let mut builder = MpkgBuilder::new(ContainerVersion::Pkgm0020);
    builder.add_bytes("project.json", b"{}".to_vec()).unwrap();
    builder.add_bytes("scene.json", b"{\"objects\":[]}".to_vec()).unwrap();
    let read_back = vec![
        MpkgEntry { path: "project.json".to_owned(), offset: 0, size: 2 },
        MpkgEntry { path: "scene.json".to_owned(), offset: 2, size: 14 },
    ];
    assert!(builder.check_staged_entries(ContainerVersion::Pkgm0020, &read_back).is_ok());
    let error = builder.check_staged_entries(ContainerVersion::Pkgm0018, &read_back).unwrap_err();
    assert_eq!(error.code(), ErrorCode::VerificationFailed);
    let mut shorter = read_back.clone();
    shorter[1].size = 13;
    assert_eq!(builder.check_staged_entries(ContainerVersion::Pkgm0020, &shorter).unwrap_err().code(), ErrorCode::VerificationFailed);
    assert!(builder.check_staged_entries(ContainerVersion::Pkgm0020, &read_back[..1].to_vec()).is_err());
}

#[test]
fn versions_compare_by_their_digits() {
    assert!(ContainerVersion::Pkgm0020.same(ContainerVersion::Pkgm0020));
    assert!(!ContainerVersion::Pkgm0020.same(ContainerVersion::Pkgm0018));
    assert!(ContainerVersion::OtherPkgm { digits: *b"0015" }.same(ContainerVersion::OtherPkgm { digits: *b"0015" }));
    assert!(!ContainerVersion::OtherPkgm { digits: *b"0015" }.same(ContainerVersion::OtherPkgm { digits: *b"0016" }));
}

#[test]
fn snapshot_and_converted_sizes_must_match() {
    assert!(pkg2mpkg::execute::check_snapshot_size("scene.json", 10, 10).is_ok());
    assert_eq!(
        pkg2mpkg::execute::check_snapshot_size("scene.json", 10, 9).unwrap_err().code(),
        ErrorCode::ConversionFailed
    );
    assert!(pkg2mpkg::execute::check_converted_size(64, 64).is_ok());
    assert_eq!(pkg2mpkg::execute::check_converted_size(64, 65).unwrap_err().code(), ErrorCode::ConversionFailed);
}

#[test]
fn scene_documents_have_a_size_limit() {
    let limit = pkg2mpkg::profile::MAX_SCENE_DOCUMENT_BYTES;
    assert!(pkg2mpkg::scene::package_input::check_scene_document_size("scene.json", limit, limit).is_ok());
    assert_eq!(
        pkg2mpkg::scene::package_input::check_scene_document_size("scene.json", limit + 1, limit).unwrap_err().code(),
        ErrorCode::InvalidProject
    );
}

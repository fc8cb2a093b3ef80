use pkg2mpkg::project::source::{input_shape, unsupported_input, InputShape};
use pkg2mpkg::scene::source_tree::{SceneInventory, SceneSourceLimits};
use pkg2mpkg::ErrorCode;

#[test]
fn inputs_are_taken_by_their_shape() {
    assert_eq!(input_shape("/w/clip.MP4", true, false), InputShape::DirectVideo);
    assert_eq!(input_shape("/w/clip.webm", true, false), InputShape::DirectVideo);
    assert_eq!(input_shape("/w/out.mpkg", true, false), InputShape::MobilePackage);
    assert_eq!(input_shape("/w/project", false, true), InputShape::ProjectDirectory);
    assert_eq!(input_shape("/w/Project.JSON", true, false), InputShape::ProjectFile);
    assert_eq!(input_shape("/w/scene.pkg", true, false), InputShape::DesktopPackage);
    assert_eq!(input_shape("/w/notes.txt", true, false), InputShape::Unsupported);
    assert_eq!(input_shape("/w/.mp4", true, false), InputShape::Unsupported);
    assert_eq!(unsupported_input("/w/notes.txt").code(), ErrorCode::InvalidProject);
}

#[test]
fn inventory_lists_files_in_archive_path_byte_order() {
    let limits = SceneSourceLimits { max_files: 10, max_file_bytes: 100, max_total_bytes: 1000 };
    let mut inventory = SceneInventory::new(limits);
    for (path, size) in [("scene.json", 10), ("Assets/b.tex", 5), ("project.json", 3), ("assets/a.tex", 7)] {
        assert!(inventory.add_file(path.to_owned(), format!("/src/{path}"), size).unwrap());
    }
    assert!(!inventory.add_file("out.mpkg".to_owned(), "/src/out.mpkg".to_owned(), 1).unwrap());
    let tree = inventory.finish("/src".to_owned(), "scene.json".to_owned(), None).unwrap();
    let paths: Vec<&str> = tree.entries.iter().map(|e| e.archive_path.as_str()).collect();
    assert_eq!(paths, vec!["Assets/b.tex", "assets/a.tex", "project.json", "scene.json"]);
    assert_eq!(tree.total_bytes, 25);
}

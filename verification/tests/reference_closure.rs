use pkg2mpkg::scene::reference_closure::{
    missing_register_asset, reference_candidate, register_asset_path, ReferenceClosure, ReferenceDocument,
};
use pkg2mpkg::ErrorCode;

#[test]
fn closure_follows_reached_files_once_in_reach_order() {
    let mut closure = ReferenceClosure::start("scene.json").unwrap();
    assert_eq!(closure.scene_entry(), "scene.json");
    assert_eq!(closure.next_document(), Some(("scene.json".to_owned(), ReferenceDocument::Json)));
    closure.reach("scripts/main.js".to_owned());
    closure.reach("materials/a.tex".to_owned());
    closure.reach("scripts/main.js".to_owned());
    assert_eq!(closure.next_document(), Some(("scripts/main.js".to_owned(), ReferenceDocument::Script)));
    closure.reach("scene.json".to_owned());
    assert_eq!(closure.next_document(), Some(("materials/a.tex".to_owned(), ReferenceDocument::Other)));
    assert_eq!(closure.next_document(), None);
    let report = closure.finish();
    assert_eq!(report.scene_entry, "scene.json");
    assert_eq!(report.local_references, vec!["materials/a.tex", "scene.json", "scripts/main.js"]);
}

#[test]
fn closure_refuses_an_unsafe_entry() {
    let error = ReferenceClosure::start("../scene.json").unwrap_err();
    assert_eq!(error.code(), ErrorCode::InvalidProject);
}

#[test]
fn json_strings_become_candidates_only_when_path_like() {
    assert_eq!(reference_candidate("models/tree.json").unwrap(), Some("models/tree.json".to_owned()));
    assert_eq!(reference_candidate("opaque.tex").unwrap(), Some("opaque.tex".to_owned()));
    assert_eq!(reference_candidate("hello world").unwrap(), None);
    assert_eq!(reference_candidate("plain").unwrap(), None);
    assert_eq!(reference_candidate("../escape.tex").unwrap_err().code(), ErrorCode::InvalidProject);
}

#[test]
fn register_asset_paths_must_be_safe_and_present() {
    assert_eq!(register_asset_path("sounds/jump.mp3").unwrap(), "sounds/jump.mp3");
    assert_eq!(register_asset_path("/abs.png").unwrap_err().code(), ErrorCode::InvalidProject);
    assert_eq!(missing_register_asset("sounds/jump.mp3").code(), ErrorCode::InvalidProject);
}

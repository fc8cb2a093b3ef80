use pkg2mpkg::mpkg::path::{join_archive_path, normalize_archive_path, validate_archive_path};
use pkg2mpkg::ErrorCode;

#[test]
fn normalize_rejects_escape_forms() {
    for path in ["", "/a", "a\\b", "a/../b", "a//b", "./a", "C:foo", "c:bar"] {
        assert!(normalize_archive_path(path).is_err(), "{path}");
    }
}

#[test]
fn normalize_accepts_relative_utf8() {
    assert_eq!(
        normalize_archive_path("materials/opaque.tex").unwrap(),
        "materials/opaque.tex"
    );
}

#[test]
fn normalize_rejects_dot_components_nul_and_trailing_slash() {
    for path in ["a/./b", "a/.", "..", "a/..", "dir/", "a\0b", "."] {
        assert_eq!(normalize_archive_path(path), Err(path.to_owned()), "{path:?}");
    }
}

#[test]
fn normalize_accepts_dotted_names_and_non_ascii() {
    for path in ["scene.json", ".hidden/x", "a/..b", "材料/图.tex", "1:x", "ab:c"] {
        assert_eq!(normalize_archive_path(path), Ok(path.to_owned()), "{path}");
    }
    assert_eq!(normalize_archive_path("a:b"), Err("a:b".to_owned()));
}

#[test]
fn validate_archive_path_reports_invalid_mpkg() {
    let error = validate_archive_path("../escape").unwrap_err();
    assert_eq!(error.code(), ErrorCode::InvalidMpkg);
    assert_eq!(validate_archive_path("ok/path").unwrap(), "ok/path");
}

#[test]
fn join_archive_path_places_entry_below_root() {
    assert_eq!(join_archive_path("/tmp/out", "a/b.tex"), "/tmp/out/a/b.tex");
    assert_eq!(join_archive_path("/tmp/out/", "a"), "/tmp/out/a");
}

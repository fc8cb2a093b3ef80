//! Rules on a project's entry: which entry paths are safe, which kinds the
//! converter takes, and what a Scene entry document must hold.

use vstd::prelude::*;
use crate::error::{Error, Result};
use crate::json::JsonValue;
use crate::project::manifest::ProjectManifest;
use crate::mpkg::path::{dot_dot_piece_at, dot_piece_at};
use crate::project::kind::{kind_name, lemma_extension_literals, text_bytes, WallpaperKind};
use crate::text::{ascii_alpha, bytes_eq_ignore_case_at, concat, eq_ignore_case, extension_range, file_name_range,
    has_ascii_extension, is_alpha, lemma_extension_of, lemma_no_extension, no_separator, plain_piece, spec_extension_range, spec_file_name_range, spec_has_extension, split_at_ascii};

verus! {

/// An inspected wallpaper source: its directory, the `project.json` it was
/// read from (none for a bare video or an MPKG), its entry file, title,
/// kind and manifest. Paths are held as text.
#[derive(Debug)]
pub struct SourceProject {
    pub root: String,
    pub project_file: Option<String>,
    pub entry_file: String,
    pub title: String,
    pub kind: WallpaperKind,
    pub manifest: ProjectManifest,
}

/// A Scene whose entry is still a desktop `.pkg` that must be unpacked.
pub open spec fn spec_requires_package_unpack(kind: WallpaperKind, entry_file: Seq<char>) -> bool {
    kind == WallpaperKind::Scene && spec_has_extension(text_bytes(entry_file), text_bytes("pkg"@))
}

pub fn source_requires_package_unpack(source: &SourceProject) -> (r: bool)
    ensures
        r == spec_requires_package_unpack(source.kind, source.entry_file@),
{
    match source.kind {
        WallpaperKind::Scene => has_ascii_extension(source.entry_file.as_str().as_bytes(), "pkg".as_bytes()),
        _ => false,
    }
}

/// Only a Scene is ever unpacked, and a Scene is unpacked exactly when its
/// entry file's last extension is `pkg` in any ASCII case. Stated for an
/// entry `prefix + stem + "." + ext`, where `prefix` is empty or ends in
/// `/`, `stem` is non-empty without `/` and `ext` is non-empty without dots
/// or `/`.
pub proof fn lemma_unpack_only_raw_scene_packages(kind: WallpaperKind, entry_file: Seq<char>, prefix: Seq<u8>, stem: Seq<u8>, ext: Seq<u8>)
    requires
        text_bytes(entry_file) == prefix + stem + seq![46u8] + ext,
        prefix.len() == 0 || prefix.last() == 47u8,
        stem.len() > 0,
        ext.len() > 0,
        no_separator(stem),
        plain_piece(ext),
    ensures
        kind != WallpaperKind::Scene ==> !spec_requires_package_unpack(kind, entry_file),
        kind == WallpaperKind::Scene ==> (spec_requires_package_unpack(kind, entry_file) <==> eq_ignore_case(
            ext,
            seq![112u8, 107u8, 103u8],
        )),
{
    lemma_extension_literals();
    lemma_extension_of(prefix, stem, ext);
    assert(spec_has_extension(text_bytes(entry_file), text_bytes("pkg"@)) == eq_ignore_case(ext, text_bytes("pkg"@)));
}

/// A source of another kind than Scene is never unpacked, whatever its
/// entry.
pub proof fn lemma_only_scenes_are_unpacked(kind: WallpaperKind, entry_file: Seq<char>)
    requires
        kind != WallpaperKind::Scene,
    ensures
        !spec_requires_package_unpack(kind, entry_file),
{
}

/// A Scene whose entry file name has no dot is not unpacked.
pub proof fn lemma_no_unpack_without_extension(kind: WallpaperKind, entry_file: Seq<char>, prefix: Seq<u8>, stem: Seq<u8>)
    requires
        text_bytes(entry_file) == prefix + stem,
        prefix.len() == 0 || prefix.last() == 47u8,
        stem.len() > 0,
        plain_piece(stem),
    ensures
        !spec_requires_package_unpack(kind, entry_file),
{
    lemma_no_extension(prefix, stem);
    assert(!spec_has_extension(text_bytes(entry_file), text_bytes("pkg"@)));
}

/// A project entry path that stays inside the project: not empty, no NUL,
/// no backslash, no drive prefix, not absolute, not starting with a `.`
/// component and without `..` components.
pub open spec fn entry_path_ok(b: Seq<u8>) -> bool {
    &&& b.len() > 0
    &&& !b.contains(0u8)
    &&& !b.contains(92u8)
    &&& !(b.len() >= 2 && is_alpha(b[0]) && b[1] == 58)
    &&& b[0] != 47
    &&& !dot_piece_at(b, 0)
    &&& forall|i: int| 0 <= i < b.len() ==> !#[trigger] dot_dot_piece_at(b, i)
}

fn unsafe_entry(entry: &str) -> (e: Error)
    ensures
        e matches Error::InvalidProject { reason } && reason@ == "unsafe project entry path: "@ + entry@,
{
    Error::InvalidProject { reason: concat("unsafe project entry path: ", entry) }
}

/// Refuses an entry path that could leave the project directory.
pub fn validate_project_entry(entry: &str) -> (r: Result<()>)
    ensures
        r is Ok <==> entry_path_ok(text_bytes(entry@)),
        r matches Err(e) ==> e is InvalidProject,
{
    let b = entry.as_bytes();
    let n = b.len();
    if n == 0 || b[0] == 47 {
        return Err(unsafe_entry(entry));
    }
    if n >= 2 && ascii_alpha(b[0]) && b[1] == 58 {
        return Err(unsafe_entry(entry));
    }
    if b[0] == 46 && (n == 1 || b[1] == 47) {
        assert(dot_piece_at(b@, 0));
        return Err(unsafe_entry(entry));
    }
    let mut i: usize = 0;
    while i < n
        invariant
            n == b@.len(),
            b@ == text_bytes(entry@),
            i <= n,
            forall|j: int| 0 <= j < i ==> b@[j] != 0 && b@[j] != 92,
            forall|j: int| 0 <= j < i ==> !#[trigger] dot_dot_piece_at(b@, j),
        decreases n - i,
    {
        let c = b[i];
        if c == 0 || c == 92 {
            assert(b@.contains(c));
            return Err(unsafe_entry(entry));
        }
        if c == 46 && (i == 0 || b[i - 1] == 47) && i + 1 < n && b[i + 1] == 46 && (i + 2 == n || b[i
            + 2] == 47) {
            assert(dot_dot_piece_at(b@, i as int));
            return Err(unsafe_entry(entry));
        }
        i += 1;
    }
    assert(!b@.contains(0u8));
    assert(!b@.contains(92u8));
    Ok(())
}

/// Web and Application wallpapers are refused with their kind's name.
pub fn reject_unsupported(kind: WallpaperKind) -> (r: Result<()>)
    ensures
        r is Ok <==> (kind is Scene || kind is Video),
        r matches Err(e) ==> e is UnsupportedWallpaperType && e->UnsupportedWallpaperType_kind@
            == kind_name(kind),
{
    match kind {
        WallpaperKind::Scene | WallpaperKind::Video => Ok(()),
        WallpaperKind::Web | WallpaperKind::Application => Err(Error::unsupported_type(kind.as_str().to_owned())),
    }
}

/// The `.pkg` entry that stands in for a declared Scene's missing `.json`
/// entry: the path up to its extension's dot, followed by `.pkg`.
pub open spec fn spec_package_fallback(declared: Option<WallpaperKind>, entry: Seq<u8>) -> Option<Seq<u8>> {
    if declared == Some(WallpaperKind::Scene) && spec_has_extension(entry, text_bytes("json"@)) {
        let (start, _end) = spec_extension_range(entry).unwrap();
        Some(entry.subrange(0, start - 1) + text_bytes(".pkg"@))
    } else {
        None
    }
}

pub fn scene_package_fallback(declared: Option<WallpaperKind>, entry: &str) -> (r: Option<String>)
    ensures
        r matches Some(s) ==> spec_package_fallback(declared, text_bytes(entry@)) == Some(text_bytes(s@)),
        r is None ==> spec_package_fallback(declared, text_bytes(entry@)) is None,
{
    let b = entry.as_bytes();
    match declared {
        Some(WallpaperKind::Scene) => {},
        _ => {
            return None;
        },
    }
    if !has_ascii_extension(b, "json".as_bytes()) {
        return None;
    }
    match extension_range(b) {
        None => None,
        Some((start, _end)) => {
            let (stem, _ext) = split_at_ascii(entry, start - 1);
            let out = concat(stem, ".pkg");
            proof {
                crate::text::lemma_encode_concat(stem@, ".pkg"@);
            }
            Some(out)
        },
    }
}

/// Keys whose presence marks a JSON document as a Scene.
pub open spec fn scene_marker(v: JsonValue) -> bool {
    v.spec_get("camera"@) is Some || v.spec_get("objects"@) is Some || v.spec_get("general"@) is Some
}

/// The kind of a JSON entry document: a Scene when its root object has a
/// `camera`, `objects` or `general` member.
pub fn scene_kind_from_document(document: &JsonValue) -> (r: Result<WallpaperKind>)
    ensures
        r is Ok <==> (document is Object && scene_marker(*document)),
        r matches Ok(k) ==> k is Scene,
        r matches Err(e) ==> e is InvalidProject,
{
    if !document.is_object() {
        return Err(Error::InvalidProject { reason: "Scene entry JSON root must be an object".to_owned() });
    }
    if document.get("camera").is_some() || document.get("objects").is_some() || document.get("general").is_some() {
        Ok(WallpaperKind::Scene)
    } else {
        Err(Error::InvalidProject { reason: "JSON entry has no recognized Scene root marker".to_owned() })
    }
}

/// How an input path is inspected: a bare video file, a mobile package, a
/// project directory, its `project.json`, a desktop `.pkg` beside or below
/// its manifest, or none of these.
#[derive(Debug, Clone, Copy, PartialEq, Eq, Structural)]
pub enum InputShape {
    DirectVideo,
    MobilePackage,
    ProjectDirectory,
    ProjectFile,
    DesktopPackage,
    Unsupported,
}

/// The file name of `path` is `project.json`, in any ASCII case.
pub open spec fn names_project_file(path: Seq<u8>) -> bool {
    match spec_file_name_range(path) {
        Some((s, e)) => eq_ignore_case(path.subrange(s, e), text_bytes("project.json"@)),
        None => false,
    }
}

/// Which inputs are taken, and as what: files ending in `.mp4` or `.webm`
/// are videos, `.mpkg` files mobile packages, directories projects; other
/// paths are a `project.json` or a `.pkg` whose manifest is looked for.
pub open spec fn spec_input_shape(path: Seq<u8>, is_file: bool, is_dir: bool) -> InputShape {
    if is_file && (spec_has_extension(path, text_bytes("mp4"@)) || spec_has_extension(path, text_bytes("webm"@))) {
        InputShape::DirectVideo
    } else if is_file && spec_has_extension(path, text_bytes("mpkg"@)) {
        InputShape::MobilePackage
    } else if is_dir {
        InputShape::ProjectDirectory
    } else if names_project_file(path) {
        InputShape::ProjectFile
    } else if spec_has_extension(path, text_bytes("pkg"@)) {
        InputShape::DesktopPackage
    } else {
        InputShape::Unsupported
    }
}

pub fn input_shape(path: &str, is_file: bool, is_dir: bool) -> (r: InputShape)
    ensures
        r == spec_input_shape(text_bytes(path@), is_file, is_dir),
{
    let b = path.as_bytes();
    if is_file && (has_ascii_extension(b, "mp4".as_bytes()) || has_ascii_extension(b, "webm".as_bytes())) {
        return InputShape::DirectVideo;
    }
    if is_file && has_ascii_extension(b, "mpkg".as_bytes()) {
        return InputShape::MobilePackage;
    }
    if is_dir {
        return InputShape::ProjectDirectory;
    }
    let project = "project.json".as_bytes();
    let named = match file_name_range(b) {
        Some((start, end)) => end - start == project.len() && bytes_eq_ignore_case_at(b, start, project),
        None => false,
    };
    if named {
        return InputShape::ProjectFile;
    }
    if has_ascii_extension(b, "pkg".as_bytes()) {
        return InputShape::DesktopPackage;
    }
    InputShape::Unsupported
}

/// An input path that is none of the accepted shapes.
pub fn unsupported_input(path: &str) -> (e: Error)
    ensures
        e matches Error::InvalidProject { reason } && reason@ == "unsupported input path: "@ + path@,
{
    Error::InvalidProject { reason: concat("unsupported input path: ", path) }
}

} // verus!

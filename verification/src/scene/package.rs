//! What a staged Scene MPKG must hold before it is published: the exact
//! path list in byte order, one `project.json` equal to the mobile
//! construction and naming the Scene entry, the expected payloads, TEXV0005
//! textures and every local reference.

use vstd::prelude::*;
use crate::error::{Error, Result};
use crate::json::{JsonValue, str_eq};
use crate::json_order::{bytes_lt, key_lt};
use crate::mpkg::path::{archive_text_ok, normalize_archive_path};
use crate::mpkg::version::ContainerVersion;
use crate::project::kind::text_bytes;
use crate::scene::source_tree::{excluded, is_excluded_archive_path};
use crate::text::{bytes_eq, bytes_eq_at, bytes_eq_ignore_case, concat, eq_ignore_case};

verus! {

/// What a staged SceneDynamic package must contain.
#[derive(Debug)]
pub struct ScenePackageExpectation {
    pub scene_entry: String,
    pub project_json: Vec<u8>,
    /// Archive paths sorted by UTF-8 bytes (exact package order).
    pub expected_paths: Vec<String>,
    /// Non-TEX payloads with their archive paths (project.json excluded).
    pub non_tex_payloads: Vec<(String, Vec<u8>)>,
    /// TEX archive paths that must hold TEXV0005 textures.
    pub tex_paths: Vec<String>,
    /// Local Scene references that must be present in the archive.
    pub local_references: Vec<String>,
}

pub open spec fn texts(v: Seq<String>) -> Seq<Seq<char>> {
    Seq::new(v.len(), |k: int| v[k]@)
}

/// Paths the converter's own staging or derived files would have.
pub open spec fn forbidden(path: Seq<char>) -> bool {
    excluded(text_bytes(path))
}

pub fn is_forbidden_archive_path(path: &str) -> (r: bool)
    ensures
        r == forbidden(path@),
{
    is_excluded_archive_path(path)
}

/// How many of the paths are `project.json`.
pub open spec fn project_json_count(paths: Seq<Seq<char>>) -> nat
    decreases paths.len(),
{
    if paths.len() == 0 {
        0
    } else {
        project_json_count(paths.drop_last()) + if paths.last() == "project.json"@ { 1nat } else { 0nat }
    }
}

/// The directory of a staged package as it must be: PKGM0020, exactly the
/// expected paths, each not below the one before, none forbidden, one
/// `project.json`, and the Scene entry among them.
pub open spec fn staged_directory_ok(version: ContainerVersion, paths: Seq<Seq<char>>, expected: Seq<Seq<char>>, scene_entry: Seq<char>) -> bool {
    &&& version is Pkgm0020
    &&& paths == expected
    &&& forall|i: int| 0 <= i < paths.len() - 1 ==> !key_lt(#[trigger] paths[i + 1], paths[i])
    &&& forall|i: int| 0 <= i < paths.len() ==> !forbidden(#[trigger] paths[i])
    &&& project_json_count(paths) == 1
    &&& paths.contains(scene_entry)
}

fn failed(prefix: &str, detail: &str) -> (e: Error)
    ensures
        e is VerificationFailed,
{
    Error::VerificationFailed { reason: concat(prefix, detail) }
}

fn texts_equal(a: &Vec<String>, b: &Vec<String>) -> (r: bool)
    ensures
        r == (texts(a@) == texts(b@)),
{
    if a.len() != b.len() {
        proof {
            assert(texts(a@).len() != texts(b@).len());
        }
        return false;
    }
    let mut i: usize = 0;
    while i < a.len()
        invariant
            i <= a@.len(),
            a@.len() == b@.len(),
            forall|j: int| 0 <= j < i ==> a@[j]@ == b@[j]@,
        decreases a@.len() - i,
    {
        if !str_eq(a[i].as_str(), b[i].as_str()) {
            proof {
                assert(texts(a@)[i as int] != texts(b@)[i as int]);
            }
            return false;
        }
        i += 1;
    }
    proof {
        assert(texts(a@) =~= texts(b@));
    }
    true
}

/// Checks a staged package's version and path list.
pub fn verify_staged_directory(version: ContainerVersion, paths: &Vec<String>, expectation: &ScenePackageExpectation) -> (r: Result<()>)
    ensures
        r is Ok <==> staged_directory_ok(version, texts(paths@), texts(expectation.expected_paths@), expectation.scene_entry@),
        r matches Err(e) ==> e is VerificationFailed,
{
    let ghost ps = texts(paths@);
    match version {
        ContainerVersion::Pkgm0020 => {},
        _ => {
            return Err(Error::VerificationFailed { reason: "staged package version is not PKGM0020".to_owned() });
        },
    }
    if !texts_equal(paths, &expectation.expected_paths) {
        return Err(Error::VerificationFailed { reason: "staged package path set/order mismatch".to_owned() });
    }
    let n = paths.len();
    let mut i: usize = 0;
    while n > 0 && i < n - 1
        invariant
            n == paths@.len(),
            i <= n,
            ps == texts(paths@),
            forall|j: int| 0 <= j < i && j < n - 1 ==> !key_lt(#[trigger] ps[j + 1], ps[j]),
        decreases n - i,
    {
        if bytes_lt(paths[i + 1].as_str().as_bytes(), paths[i].as_str().as_bytes()) {
            proof {
                assert(key_lt(ps[i + 1], ps[i as int]));
            }
            return Err(Error::VerificationFailed { reason: "staged package entries are not bytewise ordered".to_owned() });
        }
        i += 1;
    }
    let mut count: usize = 0;
    let mut k: usize = 0;
    let mut has_entry = false;
    proof {
        assert(ps.take(0) =~= Seq::<Seq<char>>::empty());
    }
    while k < n
        invariant
            n == paths@.len(),
            ps == texts(paths@),
            k <= n,
            count == project_json_count(ps.take(k as int)),
            count <= k,
            forall|j: int| 0 <= j < k ==> !forbidden(#[trigger] ps[j]),
            has_entry == exists|j: int| 0 <= j < k && ps[j] == expectation.scene_entry@,
        decreases n - k,
    {
        let path = paths[k].as_str();
        if is_forbidden_archive_path(path) {
            assert(forbidden(ps[k as int]));
            return Err(failed("staged package contains forbidden path: ", path));
        }
        proof {
            assert(ps.take(k + 1).drop_last() =~= ps.take(k as int));
            assert(ps.take(k + 1).last() == ps[k as int]);
        }
        if str_eq(path, "project.json") {
            count += 1;
        }
        if str_eq(path, expectation.scene_entry.as_str()) {
            has_entry = true;
        }
        k += 1;
    }
    proof {
        assert(ps.take(n as int) =~= ps);
        if has_entry {
            let j = choose|j: int| 0 <= j < n && ps[j] == expectation.scene_entry@;
            assert(ps.contains(ps[j]));
        }
        if ps.contains(expectation.scene_entry@) {
            let j = choose|j: int| 0 <= j < ps.len() && ps[j] == expectation.scene_entry@;
            assert(0 <= j < n && ps[j] == expectation.scene_entry@);
        }
    }
    if count != 1 {
        return Err(Error::VerificationFailed { reason: "staged package must contain exactly one project.json".to_owned() });
    }
    if !has_entry {
        return Err(failed("staged package is missing declared Scene entry: ", expectation.scene_entry.as_str()));
    }
    Ok(())
}

/// The staged `project.json` as it must be: the exact constructed bytes,
/// a `type` that is absent, null or `scene` (any case), and a `file` that
/// is a safe archive path equal to the Scene entry. `document` is the
/// parse of the bytes without their final line feed.
pub open spec fn staged_project_ok(bytes: Seq<u8>, document: JsonValue, expected: Seq<u8>, scene_entry: Seq<char>) -> bool {
    &&& bytes == expected
    &&& match document.spec_get("type"@) {
        None => true,
        Some(JsonValue::Null) => true,
        Some(JsonValue::String(k)) => eq_ignore_case(text_bytes(k@), text_bytes("scene"@)),
        Some(_) => false,
    }
    &&& match document.spec_get("file"@) {
        Some(JsonValue::String(f)) => archive_text_ok(f@) && f@ == scene_entry,
        _ => false,
    }
}

/// Checks the staged `project.json` bytes and their parsed document.
pub fn verify_staged_project(bytes: &[u8], document: &JsonValue, expectation: &ScenePackageExpectation) -> (r: Result<()>)
    ensures
        r is Ok <==> staged_project_ok(bytes@, *document, expectation.project_json@, expectation.scene_entry@),
        r matches Err(e) ==> e is VerificationFailed,
{
    if !bytes_eq(bytes, expectation.project_json.as_slice()) {
        return Err(Error::VerificationFailed {
            reason: "staged project.json bytes do not match the mobile construction".to_owned(),
        });
    }
    match document.get("type") {
        None => {},
        Some(JsonValue::Null) => {},
        Some(JsonValue::String(kind)) => {
            if !bytes_eq_ignore_case(kind.as_str().as_bytes(), "scene".as_bytes()) {
                return Err(failed("staged project.json type must be scene, got ", kind.as_str()));
            }
        },
        Some(_) => {
            return Err(Error::VerificationFailed { reason: "staged project.json type must be a string when present".to_owned() });
        },
    }
    let entry = match document.get("file") {
        Some(JsonValue::String(f)) => f,
        _ => {
            return Err(Error::VerificationFailed { reason: "staged project.json is missing a string file field".to_owned() });
        },
    };
    let entry = match normalize_archive_path(entry.as_str()) {
        Ok(s) => s,
        Err(bad) => {
            return Err(failed("staged project.json has unsafe file field: ", bad.as_str()));
        },
    };
    if !str_eq(entry.as_str(), expectation.scene_entry.as_str()) {
        return Err(failed("staged project.json file does not match scene entry: ", entry.as_str()));
    }
    Ok(())
}

/// A non-TEX payload must equal the bytes that were staged for it.
pub fn verify_payload(path: &str, expected: &[u8], actual: &[u8]) -> (r: Result<()>)
    ensures
        r is Ok <==> expected@ == actual@,
        r matches Err(e) ==> e is VerificationFailed,
{
    if bytes_eq(actual, expected) {
        Ok(())
    } else {
        Err(failed("non-TEX payload mismatch for ", path))
    }
}

/// The magic that starts every converted texture: `TEXV0005` and a NUL.
pub open spec fn tex_v5_magic() -> Seq<u8> {
    seq![84u8, 69u8, 88u8, 86u8, 48u8, 48u8, 48u8, 53u8, 0u8]
}

pub fn is_tex_v5(bytes: &[u8]) -> (r: bool)
    ensures
        r == (bytes@.len() >= 9 && bytes@.subrange(0, 9) == tex_v5_magic()),
{
    let magic: [u8; 9] = [84u8, 69u8, 88u8, 86u8, 48u8, 48u8, 48u8, 53u8, 0u8];
    assert(magic@ =~= tex_v5_magic());
    bytes.len() >= 9 && bytes_eq_at(bytes, 0, magic.as_slice())
}

/// A converted texture must be a TEXV0005 texture.
pub fn verify_tex_payload(path: &str, bytes: &[u8]) -> (r: Result<()>)
    ensures
        r is Ok <==> (bytes@.len() >= 9 && bytes@.subrange(0, 9) == tex_v5_magic()),
        r matches Err(e) ==> e is VerificationFailed,
{
    if is_tex_v5(bytes) {
        Ok(())
    } else {
        Err(failed("converted TEX is not TEXV0005 for ", path))
    }
}

/// Every local reference must be one of the package's paths.
pub fn verify_local_references(paths: &Vec<String>, references: &Vec<String>) -> (r: Result<()>)
    ensures
        r is Ok <==> forall|k: int| 0 <= k < references@.len() ==> texts(paths@).contains(#[trigger] references@[k]@),
        r matches Err(e) ==> e is VerificationFailed,
{
    let mut k: usize = 0;
    while k < references.len()
        invariant
            k <= references@.len(),
            forall|m: int| 0 <= m < k ==> texts(paths@).contains(#[trigger] references@[m]@),
        decreases references@.len() - k,
    {
        let reference = references[k].as_str();
        let mut found = false;
        let mut i: usize = 0;
        while i < paths.len()
            invariant
                i <= paths@.len(),
                found == exists|j: int| 0 <= j < i && paths@[j]@ == reference@,
            decreases paths@.len() - i,
        {
            if str_eq(paths[i].as_str(), reference) {
                found = true;
            }
            i += 1;
        }
        proof {
            if found {
                let j = choose|j: int| 0 <= j < paths@.len() && paths@[j]@ == reference@;
                assert(texts(paths@)[j] == reference@);
            } else if texts(paths@).contains(reference@) {
                let j = choose|j: int| 0 <= j < texts(paths@).len() && texts(paths@)[j] == reference@;
                assert(paths@[j]@ == reference@);
            }
        }
        if !found {
            return Err(failed("local reference is missing from staged archive: ", reference));
        }
        k += 1;
    }
    Ok(())
}

} // verus!

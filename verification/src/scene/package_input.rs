//! Packaged Scenes: the limits and checks on what an unpack backend reports
//! for a desktop `scene.pkg`, and the choice of the loose Scene JSON entry.

use vstd::prelude::*;
use crate::collections::{key_position, lemma_entries_insert_present, path_index_contains,
    path_index_entries, path_index_insert, path_index_with_capacity};
use crate::error::{spec_error_code, Error, ErrorCode, Result};
use crate::json::{str_eq, JsonValue, spec_str_member};
use crate::mpkg::path::{archive_path_ok, normalize_archive_path};
use crate::os_path::{paths_equal, same_path};
use crate::project::kind::text_bytes;
use crate::project::source::SourceProject;
use crate::text::{bytes_eq_ignore_case, bytes_eq_ignore_case_at, concat, contains_byte,
    eq_ignore_case, has_ascii_extension, spec_has_extension};

verus! {

/// Hard limits applied while unpacking a desktop `scene.pkg`.
#[derive(Debug, Clone, Copy, PartialEq, Eq, Structural)]
pub struct ScenePackageUnpackLimits {
    pub max_entries: u32,
    pub max_path_length: usize,
    pub max_file_bytes: u64,
    pub max_total_bytes: u64,
}

impl ScenePackageUnpackLimits {
    /// Limits aligned with the MPKG reader: one million entries, paths of
    /// at most 16384 bytes, no size limit.
    pub fn mpkg_aligned() -> (l: ScenePackageUnpackLimits)
        ensures
            l == (ScenePackageUnpackLimits {
                max_entries: 1_000_000,
                max_path_length: 16_384,
                max_file_bytes: u64::MAX,
                max_total_bytes: u64::MAX,
            }),
    {
        ScenePackageUnpackLimits {
            max_entries: 1_000_000,
            max_path_length: 16_384,
            max_file_bytes: u64::MAX,
            max_total_bytes: u64::MAX,
        }
    }
}

/// A request to extract a packaged Scene into a task-owned directory.
#[derive(Debug, Clone, PartialEq, Eq)]
pub struct ScenePackageUnpackRequest {
    pub package: String,
    pub output_dir: String,
    pub limits: ScenePackageUnpackLimits,
}

pub open spec fn limits_nonzero(l: ScenePackageUnpackLimits) -> bool {
    l.max_entries != 0 && l.max_path_length != 0 && l.max_file_bytes != 0 && l.max_total_bytes != 0
}

impl ScenePackageUnpackRequest {
    /// A request with non-empty, distinct paths and non-zero limits.
    pub fn new(package: String, output_dir: String, limits: ScenePackageUnpackLimits) -> (r: Result<ScenePackageUnpackRequest>)
        ensures
            r is Ok <==> (package@.len() > 0 && output_dir@.len() > 0 && !same_path(package@, output_dir@)
                && limits_nonzero(limits)),
            r matches Ok(q) ==> q == (ScenePackageUnpackRequest { package, output_dir, limits }),
            r matches Err(e) ==> e is InvalidArguments,
    {
        if package.as_str().is_empty() || output_dir.as_str().is_empty() {
            return Err(Error::InvalidArguments {
                reason: "scene package and output directory paths must not be empty".to_owned(),
            });
        }
        if paths_equal(package.as_str(), output_dir.as_str()) {
            return Err(Error::InvalidArguments {
                reason: concat("scene package and output directory must differ: ", package.as_str()),
            });
        }
        if limits.max_entries == 0 || limits.max_path_length == 0 || limits.max_file_bytes == 0
            || limits.max_total_bytes == 0 {
            return Err(Error::InvalidArguments { reason: "scene package unpack limits must be non-zero".to_owned() });
        }
        Ok(ScenePackageUnpackRequest { package, output_dir, limits })
    }
}

/// One file extracted from a desktop scene package.
#[derive(Debug, Clone, PartialEq, Eq)]
pub struct ScenePackageEntry {
    pub path: String,
    pub size: u64,
}

/// What an unpack backend reports.
#[derive(Debug, Clone, PartialEq, Eq)]
pub struct ScenePackageUnpackReport {
    pub output_dir: String,
    pub entries: Vec<ScenePackageEntry>,
    pub total_bytes: u64,
}

/// A program that extracts a desktop `scene.pkg` as a request says.
pub trait ScenePackageUnpackBackend {
    fn unpack_scene_package(&self, request: &ScenePackageUnpackRequest) -> Result<ScenePackageUnpackReport>;
}

/// A path that ends in `.pkg`, in any case.
pub open spec fn raw_pkg(b: Seq<u8>) -> bool {
    b.len() >= 4 && eq_ignore_case(b.subrange(b.len() - 4, b.len() as int), text_bytes(".pkg"@))
}

pub fn package_entry_is_raw_scene_pkg(entry: &str) -> (r: bool)
    ensures
        r == raw_pkg(text_bytes(entry@)),
{
    let b = entry.as_bytes();
    if b.len() < 4 {
        return false;
    }
    let ext = ".pkg".as_bytes();
    if ext.len() != 4 {
        proof {
            assert(!raw_pkg(text_bytes(entry@)));
        }
        return false;
    }
    bytes_eq_ignore_case_at(b, b.len() - 4, ext)
}

/// Entry `k` repeats the path of an earlier entry.
pub open spec fn path_seen(es: Seq<ScenePackageEntry>, k: int) -> bool {
    exists|j: int| 0 <= j < k && (#[trigger] es[j]).path@ == es[k].path@
}

/// The entries checked in order against the limits and the path rules:
/// `None` where one fails, else their total size and whether any is not a
/// raw `.pkg`.
pub open spec fn entries_scan(limits: ScenePackageUnpackLimits, es: Seq<ScenePackageEntry>) -> Option<(int, bool)>
    decreases es.len(),
{
    if es.len() == 0 {
        Some((0, false))
    } else {
        match entries_scan(limits, es.drop_last()) {
            None => None,
            Some((t, h)) => {
                let e = es.last();
                let b = text_bytes(e.path@);
                let t2 = t + e.size;
                if b.len() > limits.max_path_length || !archive_path_ok(b) || path_seen(es, es.len() - 1)
                    || e.size > limits.max_file_bytes || t2 > u64::MAX || t2 > limits.max_total_bytes {
                    None
                } else {
                    Some((t2, h || !raw_pkg(b)))
                }
            },
        }
    }
}

/// The verdict on a backend's report: `None` when accepted, else the code
/// of the refusal.
pub open spec fn spec_unpack_verdict(request: ScenePackageUnpackRequest, report: ScenePackageUnpackReport) -> Option<ErrorCode> {
    if !same_path(report.output_dir@, request.output_dir@) {
        Some(ErrorCode::ConversionFailed)
    } else if (#[verifier::truncate] (report.entries@.len() as u32)) > request.limits.max_entries {
        Some(ErrorCode::InvalidProject)
    } else {
        match entries_scan(request.limits, report.entries@) {
            None => Some(ErrorCode::InvalidProject),
            Some((t, h)) => if report.total_bytes != t {
                Some(ErrorCode::ConversionFailed)
            } else if report.entries@.len() == 0 || !h {
                Some(ErrorCode::ConversionFailed)
            } else {
                None
            },
        }
    }
}

/// A failure among the first `k` entries is a failure of all of them.
proof fn lemma_scan_prefix_none(limits: ScenePackageUnpackLimits, es: Seq<ScenePackageEntry>, k: int)
    requires
        0 <= k <= es.len(),
        entries_scan(limits, es.take(k)) is None,
    ensures
        entries_scan(limits, es) is None,
    decreases es.len(),
{
    if k == es.len() {
        assert(es.take(k) =~= es);
    } else {
        assert(es.drop_last().take(k) =~= es.take(k));
        lemma_scan_prefix_none(limits, es.drop_last(), k);
    }
}

fn project_error(prefix: &str, detail: &str) -> (e: Error)
    ensures
        e matches Error::InvalidProject { reason } && reason@ == prefix@ + detail@,
{
    Error::InvalidProject { reason: concat(prefix, detail) }
}

/// Checks a backend's report: the requested output directory, at most the
/// entry limit, normalized and distinct paths within the length limit,
/// sizes within the per-file and total limits, a total that matches, and at
/// least one loose (non-`.pkg`) file.
pub fn check_unpack_report(request: &ScenePackageUnpackRequest, report: ScenePackageUnpackReport) -> (r: Result<ScenePackageUnpackReport>)
    ensures
        r is Ok <==> spec_unpack_verdict(*request, report) is None,
        r matches Ok(rep) ==> rep == report,
        r matches Err(e) ==> spec_unpack_verdict(*request, report) == Some(spec_error_code(e)),
        r matches Err(e) ==> (e is InvalidProject || e is ConversionFailed),
{
    if !paths_equal(report.output_dir.as_str(), request.output_dir.as_str()) {
        let m1 = concat("scene package backend reported output ", report.output_dir.as_str());
        let m2 = concat(m1.as_str(), " instead of ");
        return Err(Error::ConversionFailed { reason: concat(m2.as_str(), request.output_dir.as_str()) });
    }
    if (#[verifier::truncate] (report.entries.len() as u32)) > request.limits.max_entries {
        return Err(Error::InvalidProject { reason: "unpacked entry count exceeds limit".to_owned() });
    }
    let limits = request.limits;
    let es = &report.entries;
    let mut seen = path_index_with_capacity(es.len());
    let mut total: u64 = 0;
    let mut has_non_pkg = false;
    let mut i: usize = 0;
    proof {
        assert(es@.take(0) =~= Seq::<ScenePackageEntry>::empty());
    }
    while i < es.len()
        invariant
            i <= es@.len(),
            limits == request.limits,
            same_path(report.output_dir@, request.output_dir@),
            (#[verifier::truncate] (report.entries@.len() as u32)) <= request.limits.max_entries,
            es@ == report.entries@,
            entries_scan(limits, es@.take(i as int)) == Some((total as int, has_non_pkg)),
            forall|key: Seq<char>| (key_position(path_index_entries(seen), key) >= 0) == (exists|j: int| 0 <= j < i && (#[trigger] es@[j]).path@ == key),
        decreases es@.len() - i,
    {
        let ghost pre = es@.take(i as int);
        let ghost next = es@.take(i + 1);
        proof {
            assert(next.drop_last() =~= pre);
            assert(next.last() == es@[i as int]);
            assert forall|j: int| 0 <= j < i implies next[j] == es@[j] by {}
        }
        let entry = &es[i];
        let path = entry.path.as_str();
        if path.as_bytes().len() > limits.max_path_length {
            proof { lemma_scan_prefix_none(limits, es@, i + 1); }
            return Err(project_error("entry path length exceeds limit: ", path));
        }
        match normalize_archive_path(path) {
            Ok(normalized) => {
                if !str_eq(normalized.as_str(), path) {
                    proof { lemma_scan_prefix_none(limits, es@, i + 1); }
            return Err(project_error("unpack path was not normalized: ", path));
                }
            },
            Err(bad) => {
                proof { lemma_scan_prefix_none(limits, es@, i + 1); }
            return Err(project_error("unsafe unpack archive path: ", bad.as_str()));
            },
        }
        if path_index_contains(&seen, path) {
            proof {
                let j = choose|j: int| 0 <= j < i && (#[trigger] es@[j]).path@ == path@;
                assert(next[j].path@ == next[i as int].path@);
                assert(path_seen(next, i as int));
            }
            proof { lemma_scan_prefix_none(limits, es@, i + 1); }
            return Err(project_error("duplicate unpack path: ", path));
        }
        proof {
            if path_seen(next, i as int) {
                let j = choose|j: int| 0 <= j < i && (#[trigger] next[j]).path@ == next[i as int].path@;
                assert(es@[j].path@ == path@);
            }
        }
        if entry.size > limits.max_file_bytes {
            proof { lemma_scan_prefix_none(limits, es@, i + 1); }
            return Err(project_error("file size exceeds per-file limit for ", path));
        }
        total = match total.checked_add(entry.size) {
            Some(t) => t,
            None => {
                proof { lemma_scan_prefix_none(limits, es@, i + 1); }
            return Err(project_error("total byte count overflow while validating ", path));
            },
        };
        if total > limits.max_total_bytes {
            proof { lemma_scan_prefix_none(limits, es@, i + 1); }
            return Err(project_error("total size exceeds total limit while validating ", path));
        }
        if !package_entry_is_raw_scene_pkg(path) {
            has_non_pkg = true;
        }
        proof {
            let b = text_bytes(path@);
            assert(next.last().path@ == path@);
            assert(!(b.len() > limits.max_path_length));
            assert(archive_path_ok(b));
            assert(!path_seen(next, i as int));
            assert(entries_scan(limits, next) == Some((total as int, has_non_pkg)));
        }
        let ghost before = path_index_entries(seen);
        path_index_insert(&mut seen, entry.path.clone(), i);
        proof {
            assert forall|key: Seq<char>| (key_position(path_index_entries(seen), key) >= 0) == (exists|j: int| 0 <= j < i + 1 && (#[trigger] es@[j]).path@ == key) by {
                lemma_entries_insert_present(before, path@, i, key);
                if key == path@ {
                    assert(es@[i as int].path@ == key);
                }
                if exists|j: int| 0 <= j < i + 1 && (#[trigger] es@[j]).path@ == key {
                    let j = choose|j: int| 0 <= j < i + 1 && (#[trigger] es@[j]).path@ == key;
                    if j < i {
                        assert(exists|j2: int| 0 <= j2 < i && (#[trigger] es@[j2]).path@ == key);
                    }
                }
            }
        }
        i += 1;
    }
    proof {
        assert(es@.take(es@.len() as int) =~= es@);
    }
    if report.total_bytes != total {
        return Err(Error::ConversionFailed {
            reason: "scene package backend reported total_bytes that differ from the entry sizes".to_owned(),
        });
    }
    if report.entries.len() == 0 || !has_non_pkg {
        return Err(Error::ConversionFailed {
            reason: "scene package unpack must materialize loose scene files; raw scene.pkg alone is not a successful Android conversion".to_owned(),
        });
    }
    Ok(report)
}

/// Runs the unpack backend and accepts its report only where
/// [`check_unpack_report`] does.
pub fn unpack_scene_package_checked<B: ScenePackageUnpackBackend + ?Sized>(backend: &B, request: &ScenePackageUnpackRequest) -> (r: Result<ScenePackageUnpackReport>)
    ensures
        r matches Ok(rep) ==> spec_unpack_verdict(*request, rep) is None,
{
    match backend.unpack_scene_package(request) {
        Err(e) => Err(e),
        Ok(report) => check_unpack_report(request, report),
    }
}

/// A prepared Scene must not still use a raw `.pkg` as its entry.
pub fn validate_unpacked_scene_tree(source: &SourceProject) -> (r: Result<()>)
    ensures
        match spec_str_member(source.manifest.spec_raw(), "file"@) {
            None => r matches Err(e) && e is InvalidProject,
            Some(entry) => if raw_pkg(text_bytes(entry)) {
                r matches Err(e) && e is ConversionFailed
            } else {
                r is Ok
            },
        },
{
    let entry = match source.manifest.entry() {
        Some(e) => e,
        None => {
            return Err(Error::InvalidProject { reason: "project.json is missing a string file field".to_owned() });
        },
    };
    if package_entry_is_raw_scene_pkg(entry.as_str()) {
        let m = concat("raw package entry cannot be used as an Android Scene entry; unpack first: ", entry.as_str());
        return Err(Error::ConversionFailed { reason: m });
    }
    Ok(())
}

/// A top-level `.json` file other than `project.json` and the converter's
/// own `.pkg2mpkg-` files.
pub open spec fn loose_scene_json_candidate(b: Seq<u8>) -> bool {
    &&& !b.contains(47u8)
    &&& !eq_ignore_case(b, text_bytes("project.json"@))
    &&& !(b.len() >= 10 && eq_ignore_case(b.subrange(0, 10), text_bytes(".pkg2mpkg-"@)))
    &&& spec_has_extension(b, text_bytes("json"@))
}

pub fn is_loose_scene_json_candidate(path: &str) -> (r: bool)
    ensures
        r == loose_scene_json_candidate(text_bytes(path@)),
{
    let b = path.as_bytes();
    if contains_byte(b, 47) || bytes_eq_ignore_case(b, "project.json".as_bytes()) {
        return false;
    }
    let prefix = ".pkg2mpkg-".as_bytes();
    if b.len() >= 10 && prefix.len() == 10 && bytes_eq_ignore_case_at(b, 0, prefix) {
        return false;
    }
    if b.len() >= 10 && prefix.len() != 10 {
        proof {
            assert(!eq_ignore_case(b@.subrange(0, 10), prefix@));
        }
    }
    has_ascii_extension(b, "json".as_bytes())
}

/// A Scene document: a root object whose `objects` is an array and, when a
/// marker is required, whose `camera` or `general` is an object.
pub open spec fn scene_document(v: JsonValue, require_scene_marker: bool) -> bool {
    &&& v is Object
    &&& v.spec_get("objects"@) matches Some(JsonValue::Array(_))
    &&& (!require_scene_marker || v.spec_get("camera"@) matches Some(JsonValue::Object(_))
        || v.spec_get("general"@) matches Some(JsonValue::Object(_)))
}

pub fn is_scene_json_value(v: &JsonValue, require_scene_marker: bool) -> (r: bool)
    ensures
        r == scene_document(*v, require_scene_marker),
{
    if !v.is_object() {
        return false;
    }
    let objects_ok = match v.get("objects") {
        Some(JsonValue::Array(_)) => true,
        _ => false,
    };
    if !objects_ok {
        return false;
    }
    if !require_scene_marker {
        return true;
    }
    let camera_ok = match v.get("camera") {
        Some(JsonValue::Object(_)) => true,
        _ => false,
    };
    let general_ok = match v.get("general") {
        Some(JsonValue::Object(_)) => true,
        _ => false,
    };
    camera_ok || general_ok
}

/// Which documents must be looked at to choose the Scene entry: the
/// canonical `scene.json` alone when the package has one, else each loose
/// candidate in order.
#[derive(Debug)]
pub enum SceneEntryQuery {
    Canonical,
    Candidates(Vec<String>),
}

pub open spec fn has_canonical(paths: Seq<String>) -> bool {
    exists|j: int| 0 <= j < paths.len() && (#[trigger] paths[j])@ == "scene.json"@
}

/// The loose candidates among the paths, in order.
pub open spec fn candidates_of(paths: Seq<String>) -> Seq<Seq<char>>
    decreases paths.len(),
{
    if paths.len() == 0 {
        Seq::empty()
    } else {
        let p = candidates_of(paths.drop_last());
        if loose_scene_json_candidate(text_bytes(paths.last()@)) {
            p.push(paths.last()@)
        } else {
            p
        }
    }
}

pub fn scene_json_query(paths: &Vec<String>) -> (q: SceneEntryQuery)
    ensures
        has_canonical(paths@) ==> q is Canonical,
        !has_canonical(paths@) ==> (q matches SceneEntryQuery::Candidates(c) && c@.len() == candidates_of(paths@).len()
            && forall|k: int| 0 <= k < c@.len() ==> (#[trigger] c@[k])@ == candidates_of(paths@)[k]),
{
    let mut i: usize = 0;
    while i < paths.len()
        invariant
            i <= paths@.len(),
            forall|j: int| 0 <= j < i ==> (#[trigger] paths@[j])@ != "scene.json"@,
        decreases paths@.len() - i,
    {
        if str_eq(paths[i].as_str(), "scene.json") {
            return SceneEntryQuery::Canonical;
        }
        i += 1;
    }
    let mut out: Vec<String> = Vec::new();
    let mut k: usize = 0;
    proof {
        assert(paths@.take(0) =~= Seq::<String>::empty());
    }
    while k < paths.len()
        invariant
            k <= paths@.len(),
            out@.len() == candidates_of(paths@.take(k as int)).len(),
            forall|m: int| 0 <= m < out@.len() ==> (#[trigger] out@[m])@ == candidates_of(paths@.take(k as int))[m],
        decreases paths@.len() - k,
    {
        proof {
            assert(paths@.take(k + 1).drop_last() =~= paths@.take(k as int));
            assert(paths@.take(k + 1).last() == paths@[k as int]);
        }
        if is_loose_scene_json_candidate(paths[k].as_str()) {
            out.push(paths[k].clone());
        }
        k += 1;
    }
    proof {
        assert(paths@.take(paths@.len() as int) =~= paths@);
    }
    SceneEntryQuery::Candidates(out)
}

/// The canonical entry is taken when it is a Scene document.
pub fn decide_canonical_scene_entry(is_scene_document: bool) -> (r: Result<String>)
    ensures
        is_scene_document ==> (r matches Ok(s) && s@ == "scene.json"@),
        !is_scene_document ==> (r matches Err(e) && e is ConversionFailed),
{
    if is_scene_document {
        Ok("scene.json".to_owned())
    } else {
        Err(Error::ConversionFailed {
            reason: "invalid canonical scene.json entry: expected a scene JSON document".to_owned(),
        })
    }
}

/// Number of candidates accepted as Scene documents.
pub open spec fn accepted_count(verdicts: Seq<bool>) -> nat
    decreases verdicts.len(),
{
    if verdicts.len() == 0 {
        0
    } else {
        accepted_count(verdicts.drop_last()) + if verdicts.last() { 1nat } else { 0nat }
    }
}

/// Exactly one candidate must be a Scene document; none, or more than one,
/// is a conversion failure.
pub fn decide_scene_json_entry(candidates: &Vec<String>, verdicts: &Vec<bool>, subject: &str) -> (r: Result<String>)
    requires
        candidates@.len() == verdicts@.len(),
    ensures
        r is Ok <==> accepted_count(verdicts@) == 1,
        r matches Ok(s) ==> exists|k: int| 0 <= k < verdicts@.len() && verdicts@[k] && (#[trigger] candidates@[k])@ == s@,
        r matches Err(e) ==> e is ConversionFailed,
{
    let mut chosen: usize = 0;
    let mut count: usize = 0;
    let mut i: usize = 0;
    proof {
        assert(verdicts@.take(0) =~= Seq::<bool>::empty());
    }
    while i < verdicts.len()
        invariant
            i <= verdicts@.len(),
            candidates@.len() == verdicts@.len(),
            count == accepted_count(verdicts@.take(i as int)),
            count <= i,
            count > 0 ==> chosen < i && verdicts@[chosen as int],
        decreases verdicts@.len() - i,
    {
        proof {
            assert(verdicts@.take(i + 1).drop_last() =~= verdicts@.take(i as int));
            assert(verdicts@.take(i + 1).last() == verdicts@[i as int]);
        }
        if verdicts[i] {
            if count == 0 {
                chosen = i;
            }
            count += 1;
        }
        i += 1;
    }
    proof {
        assert(verdicts@.take(verdicts@.len() as int) =~= verdicts@);
    }
    if count == 1 {
        Ok(candidates[chosen].clone())
    } else if count == 0 {
        Err(Error::ConversionFailed { reason: concat(subject, " did not contain a loose scene JSON entry") })
    } else {
        Err(Error::ConversionFailed { reason: concat(subject, " has ambiguous loose scene JSON entries") })
    }
}

/// A Scene document read from a desktop package may be at most
/// `max_document_bytes` long.
pub fn check_scene_document_size(path: &str, size: u64, max_document_bytes: u64) -> (r: Result<()>)
    ensures
        r is Ok <==> size <= max_document_bytes,
        r matches Err(e) ==> e is InvalidProject,
{
    if size > max_document_bytes {
        return Err(Error::InvalidProject { reason: concat("scene document exceeds the size limit: ", path) });
    }
    Ok(())
}

} // verus!

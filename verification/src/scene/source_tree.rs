//! The inventory of a Scene source: which files of the project tree are
//! packaged, under which archive paths, within which limits.

use vstd::prelude::*;
use crate::error::{Error, Result};
use crate::json::{str_eq, JsonValue, spec_str_member};
use crate::json_order::{bytes_lt, insert_pos, key_lt, keys_sorted, lemma_insert_pos, lemma_insert_sorted, lemma_lex_irreflexive,
    lemma_lex_total, sort_pairs};
use crate::mpkg::path::{archive_path_bytes_ok, archive_text_ok, normalize_archive_path, starts_piece};
use crate::project::kind::{text_bytes, WallpaperKind};
use crate::project::source::SourceProject;
use crate::text::{bytes_eq_ignore_case_at, concat, contains_byte, eq_ignore_case};

verus! {

/// Hard limits applied while inventorying a Scene source tree.
#[derive(Debug, Clone, Copy, PartialEq, Eq, Structural)]
pub struct SceneSourceLimits {
    pub max_files: usize,
    pub max_file_bytes: u64,
    pub max_total_bytes: u64,
}

/// One regular file selected for packaging: its archive path, its path on
/// disk (as text) and its size.
#[derive(Debug, Clone, PartialEq, Eq)]
pub struct SceneSourceEntry {
    pub archive_path: String,
    pub source_path: String,
    pub size: u64,
}

/// The inventory of a Scene project: entries sorted by archive path bytes.
#[derive(Debug)]
pub struct SceneSourceTree {
    pub root: String,
    pub scene_entry: String,
    pub preview: Option<String>,
    pub entries: Vec<SceneSourceEntry>,
    pub total_bytes: u64,
}

pub open spec fn entry_model(e: SceneSourceEntry) -> (Seq<char>, (Seq<char>, u64)) {
    (e.archive_path@, (e.source_path@, e.size))
}

pub open spec fn entries_model(es: Seq<SceneSourceEntry>) -> Seq<(Seq<char>, (Seq<char>, u64))> {
    Seq::new(es.len(), |i: int| entry_model(es[i]))
}

/// A component of the path starts with the converter's `.pkg2mpkg-`
/// prefix, in any case.
pub open spec fn has_staging_component(b: Seq<u8>) -> bool {
    exists|i: int| 0 <= i && i + 10 <= b.len() && starts_piece(b, i) && #[trigger] eq_ignore_case(
        b.subrange(i, i + 10),
        text_bytes(".pkg2mpkg-"@),
    )
}

pub open spec fn ends_with_ic(b: Seq<u8>, suffix: Seq<u8>) -> bool {
    b.len() >= suffix.len() && eq_ignore_case(b.subrange(b.len() - suffix.len(), b.len() as int), suffix)
}

/// Derived files the converter writes: `.tex-json`, `.mpkg`, `.partial`.
pub open spec fn excluded_suffix(b: Seq<u8>) -> bool {
    ends_with_ic(b, text_bytes(".tex-json"@)) || ends_with_ic(b, text_bytes(".mpkg"@)) || ends_with_ic(
        b,
        text_bytes(".partial"@),
    )
}

pub open spec fn excluded(b: Seq<u8>) -> bool {
    has_staging_component(b) || excluded_suffix(b)
}

fn ends_with_ignore_case(b: &[u8], suffix: &[u8]) -> (r: bool)
    ensures
        r == ends_with_ic(b@, suffix@),
{
    if b.len() < suffix.len() {
        return false;
    }
    bytes_eq_ignore_case_at(b, b.len() - suffix.len(), suffix)
}

pub fn has_excluded_suffix(archive_path: &str) -> (r: bool)
    ensures
        r == excluded_suffix(text_bytes(archive_path@)),
{
    let b = archive_path.as_bytes();
    ends_with_ignore_case(b, ".tex-json".as_bytes()) || ends_with_ignore_case(b, ".mpkg".as_bytes())
        || ends_with_ignore_case(b, ".partial".as_bytes())
}

/// `value` starts with `prefix`, ignoring ASCII case.
pub fn starts_with_ignore_ascii_case(value: &str, prefix: &str) -> (r: bool)
    ensures
        r == (text_bytes(value@).len() >= text_bytes(prefix@).len() && eq_ignore_case(
            text_bytes(value@).subrange(0, text_bytes(prefix@).len() as int),
            text_bytes(prefix@),
        )),
{
    let v = value.as_bytes();
    let p = prefix.as_bytes();
    v.len() >= p.len() && bytes_eq_ignore_case_at(v, 0, p)
}

pub fn is_excluded_archive_path(archive_path: &str) -> (r: bool)
    ensures
        r == excluded(text_bytes(archive_path@)),
{
    let b = archive_path.as_bytes();
    let prefix = ".pkg2mpkg-".as_bytes();
    let n = b.len();
    let mut i: usize = 0;
    while i < n
        invariant
            n == b@.len(),
            prefix@ == text_bytes(".pkg2mpkg-"@),
            b@ == text_bytes(archive_path@),
            i <= n,
            forall|j: int| 0 <= j < i ==> !(j + 10 <= n && starts_piece(b@, j) && #[trigger] eq_ignore_case(
                b@.subrange(j, j + 10),
                prefix@,
            )),
        decreases n - i,
    {
        if (i == 0 || b[i - 1] == 47) && prefix.len() == 10 && n - i >= 10 && bytes_eq_ignore_case_at(b, i, prefix) {
            return true;
        }
        proof {
            if prefix@.len() != 10 && i + 10 <= n {
                assert(!eq_ignore_case(b@.subrange(i as int, i + 10), prefix@));
            }
        }
        i += 1;
    }
    has_excluded_suffix(archive_path)
}

/// An archive path from the components of a relative path: each must be
/// free of backslashes and NUL bytes, there must be at least one, and the
/// joined path must follow the archive-path rules.
pub open spec fn join_parts(parts: Seq<Seq<char>>) -> Seq<char>
    decreases parts.len(),
{
    if parts.len() == 0 {
        Seq::empty()
    } else if parts.len() == 1 {
        parts[0]
    } else {
        join_parts(parts.drop_last()) + "/"@ + parts.last()
    }
}

pub open spec fn part_ok(p: Seq<char>) -> bool {
    !text_bytes(p).contains(92u8) && !text_bytes(p).contains(0u8)
}

pub open spec fn spec_archive_path_from_parts(parts: Seq<Seq<char>>) -> Option<Seq<char>> {
    if exists|k: int| 0 <= k < parts.len() && !part_ok(#[trigger] parts[k]) {
        None
    } else if parts.len() == 0 {
        None
    } else if !archive_text_ok(join_parts(parts)) {
        None
    } else {
        Some(join_parts(parts))
    }
}

pub open spec fn texts(v: Seq<String>) -> Seq<Seq<char>> {
    Seq::new(v.len(), |k: int| v[k]@)
}

pub fn archive_path_from_parts(parts: &Vec<String>) -> (r: Result<String>)
    ensures
        r is Ok <==> spec_archive_path_from_parts(texts(parts@)) is Some,
        r matches Ok(s) ==> spec_archive_path_from_parts(texts(parts@)) == Some(s@),
        r matches Err(e) ==> e is InvalidProject,
{
    let ghost ts = texts(parts@);
    let mut joined = String::new();
    let mut i: usize = 0;
    proof {
        assert(ts.take(0) =~= Seq::<Seq<char>>::empty());
    }
    while i < parts.len()
        invariant
            i <= parts@.len(),
            ts == texts(parts@),
            forall|k: int| 0 <= k < i ==> part_ok(#[trigger] ts[k]),
            joined@ == join_parts(ts.take(i as int)),
        decreases parts@.len() - i,
    {
        let part = parts[i].as_str();
        let b = part.as_bytes();
        if contains_byte(b, 92) || contains_byte(b, 0) {
            proof {
                assert(!part_ok(ts[i as int]));
            }
            return Err(Error::InvalidProject { reason: concat("unsafe path component in scene source: ", part) });
        }
        proof {
            assert(ts.take(i + 1).drop_last() =~= ts.take(i as int));
            assert(ts.take(i + 1).last() == ts[i as int]);
        }
        if i == 0 {
            joined = part.to_owned();
            proof {
                assert(ts.take(1) =~= seq![ts[0]]);
            }
        } else {
            let with_slash = concat(joined.as_str(), "/");
            joined = concat(with_slash.as_str(), part);
        }
        i += 1;
    }
    proof {
        assert(ts.take(parts@.len() as int) =~= ts);
    }
    if parts.len() == 0 {
        return Err(Error::InvalidProject { reason: "inventory produced an empty archive path".to_owned() });
    }
    match normalize_archive_path(joined.as_str()) {
        Ok(s) => Ok(s),
        Err(bad) => Err(Error::InvalidProject { reason: concat("unsafe archive path: ", bad.as_str()) }),
    }
}

/// The scene entry and preview of a Scene source to inventory: the limits
/// must be non-zero, the source a Scene, the entry a safe archive path, and
/// a preview, when present, a string holding a safe archive path.
pub open spec fn spec_inventory_start(kind: WallpaperKind, raw: JsonValue, limits: SceneSourceLimits) -> Option<(Seq<char>, Option<Seq<char>>)> {
    if limits.max_files == 0 || limits.max_file_bytes == 0 || limits.max_total_bytes == 0 {
        None
    } else if kind != WallpaperKind::Scene {
        None
    } else {
        match spec_str_member(raw, "file"@) {
            None => None,
            Some(entry) => if !archive_text_ok(entry) {
                None
            } else {
                match raw.spec_get("preview"@) {
                    None => Some((entry, None)),
                    Some(JsonValue::Null) => Some((entry, None)),
                    Some(JsonValue::String(p)) => if archive_text_ok(p@) {
                        Some((entry, Some(p@)))
                    } else {
                        None
                    },
                    Some(_) => None,
                }
            },
        }
    }
}

fn normalize_required_archive_path(path: &str, label: &str) -> (r: Result<String>)
    ensures
        archive_text_ok(path@) ==> (r matches Ok(s) && s@ == path@),
        !archive_text_ok(path@) ==> (r matches Err(e) && e is InvalidProject),
{
    match normalize_archive_path(path) {
        Ok(s) => Ok(s),
        Err(bad) => {
            let m1 = concat("unsafe ", label);
            let m2 = concat(m1.as_str(), " path: ");
            Err(Error::InvalidProject { reason: concat(m2.as_str(), bad.as_str()) })
        },
    }
}

/// Checks the limits, the kind and the manifest's entry and preview before
/// a Scene source is walked; returns the entry and preview paths.
pub fn begin_inventory(source: &SourceProject, limits: SceneSourceLimits) -> (r: Result<(String, Option<String>)>)
    ensures
        r is Ok <==> spec_inventory_start(source.kind, source.manifest.spec_raw(), limits) is Some,
        r matches Ok((e, p)) ==> spec_inventory_start(source.kind, source.manifest.spec_raw(), limits) == Some(
            (e@, match p { Some(s) => Some(s@), None => None::<Seq<char>> }),
        ),
        r matches Err(e) ==> if limits.max_files == 0 || limits.max_file_bytes == 0 || limits.max_total_bytes == 0
            || !(source.kind is Scene) {
            e is InvalidArguments
        } else {
            e is InvalidProject
        },
{
    if limits.max_files == 0 || limits.max_file_bytes == 0 || limits.max_total_bytes == 0 {
        return Err(Error::InvalidArguments { reason: "scene source limits must be non-zero".to_owned() });
    }
    match source.kind {
        WallpaperKind::Scene => {},
        _ => {
            return Err(Error::InvalidArguments {
                reason: concat("scene inventory requires a Scene source, got ", source.kind.as_str()),
            });
        },
    }
    let entry = match source.manifest.entry() {
        Some(e) => e,
        None => {
            return Err(Error::InvalidProject { reason: "project.json is missing a string file field".to_owned() });
        },
    };
    let scene_entry = normalize_required_archive_path(entry.as_str(), "scene entry")?;
    let preview = match source.manifest.raw().get("preview") {
        None => None,
        Some(JsonValue::Null) => None,
        Some(JsonValue::String(value)) => Some(normalize_required_archive_path(value.as_str(), "preview")?),
        Some(_) => {
            return Err(Error::InvalidProject { reason: "project.json preview must be a string when present".to_owned() });
        },
    };
    Ok((scene_entry, preview))
}

/// Files gathered so far, kept sorted by archive path bytes, with their
/// total size and the limits they are held to.
#[derive(Debug)]
pub struct SceneInventory {
    limits: SceneSourceLimits,
    entries: Vec<SceneSourceEntry>,
    total_bytes: u64,
}

/// Sum of the entries' sizes.
pub open spec fn sizes_total(ms: Seq<(Seq<char>, (Seq<char>, u64))>) -> int
    decreases ms.len(),
{
    if ms.len() == 0 {
        0
    } else {
        sizes_total(ms.drop_last()) + ms.last().1.1
    }
}

/// No archive path occurs twice.
pub open spec fn distinct_paths(ms: Seq<(Seq<char>, (Seq<char>, u64))>) -> bool {
    forall|i: int, j: int| 0 <= i < j < ms.len() ==> (#[trigger] ms[i]).0 != (#[trigger] ms[j]).0
}

/// What an inventory holds: distinct archive paths in byte order, each a
/// safe archive path that is not one of the converter's own files, each
/// file within the per-file limit, at most the file limit of them, and a
/// total that is the sum of their sizes and within the total limit.
pub open spec fn inventory_ok(limits: SceneSourceLimits, ms: Seq<(Seq<char>, (Seq<char>, u64))>, total: int) -> bool {
    &&& keys_sorted(ms)
    &&& distinct_paths(ms)
    &&& forall|k: int| 0 <= k < ms.len() ==> archive_text_ok(#[trigger] ms[k].0) && !excluded(text_bytes(ms[k].0))
        && ms[k].1.1 <= limits.max_file_bytes
    &&& ms.len() <= limits.max_files
    &&& total == sizes_total(ms)
    &&& total <= limits.max_total_bytes
}

/// What one regular file does to an inventory: a path that breaks the
/// archive-path rules is refused (`None`), the converter's own files are
/// skipped (`Some(false)`), a path already listed or a file past a limit is
/// refused (`None`), others are added (`Some(true)`).
pub open spec fn spec_add_verdict(
    limits: SceneSourceLimits,
    ms: Seq<(Seq<char>, (Seq<char>, u64))>,
    total: int,
    archive_path: Seq<char>,
    size: int,
) -> Option<bool> {
    if !archive_text_ok(archive_path) {
        None
    } else if excluded(text_bytes(archive_path)) {
        Some(false)
    } else if has_path(ms, archive_path) {
        None
    } else if size > limits.max_file_bytes || ms.len() >= limits.max_files || total + size > u64::MAX || total + size
        > limits.max_total_bytes {
        None
    } else {
        Some(true)
    }
}

/// The sum of sizes after an entry is inserted anywhere.
proof fn lemma_sizes_total_insert(ms: Seq<(Seq<char>, (Seq<char>, u64))>, i: int, x: (Seq<char>, (Seq<char>, u64)))
    requires
        0 <= i <= ms.len(),
    ensures
        sizes_total(ms.insert(i, x)) == sizes_total(ms) + x.1.1,
    decreases ms.len(),
{
    if i == ms.len() {
        assert(ms.insert(i, x).drop_last() =~= ms);
    } else {
        assert(ms.insert(i, x).drop_last() =~= ms.drop_last().insert(i, x));
        lemma_sizes_total_insert(ms.drop_last(), i, x);
    }
}

/// In sorted entries, a path is listed exactly when it is the one just
/// before its insertion point.
proof fn lemma_listed_before_insert_pos(ms: Seq<(Seq<char>, (Seq<char>, u64))>, key: Seq<char>)
    requires
        keys_sorted(ms),
    ensures
        has_path(ms, key) <==> (insert_pos(ms, key) > 0 && ms[insert_pos(ms, key) - 1].0 == key),
{
    lemma_insert_pos(ms, key);
    let p = insert_pos(ms, key);
    if p > 0 && ms[p - 1].0 == key {
        assert(ms[p - 1].0 == key);
    }
    if has_path(ms, key) {
        let j = choose|j: int| 0 <= j < ms.len() && (#[trigger] ms[j]).0 == key;
        if j >= p {
            if j == p {
                lemma_lex_irreflexive(text_bytes(key));
            } else {
                assert(!key_lt(ms[j].0, ms[p].0));
            }
        }
        assert(j < p);
        let q = ms[p - 1].0;
        assert(!key_lt(key, q));
        if j < p - 1 {
            assert(!key_lt(q, ms[j].0));
        }
        lemma_lex_total(text_bytes(key), text_bytes(q));
        if text_bytes(key) == text_bytes(q) {
            vstd::utf8::encode_utf8_decode_utf8(key);
            vstd::utf8::encode_utf8_decode_utf8(q);
        }
    }
}

impl SceneInventory {
    #[verifier::type_invariant]
    closed spec fn inv(self) -> bool {
        inventory_ok(self.limits, entries_model(self.entries@), self.total_bytes as int)
    }

    pub closed spec fn view_entries(&self) -> Seq<(Seq<char>, (Seq<char>, u64))> {
        entries_model(self.entries@)
    }

    pub closed spec fn spec_total(&self) -> int {
        self.total_bytes as int
    }

    pub closed spec fn spec_limits(&self) -> SceneSourceLimits {
        self.limits
    }

    /// An empty inventory held to `limits`.
    pub fn new(limits: SceneSourceLimits) -> (r: SceneInventory)
        ensures
            r.view_entries() == Seq::<(Seq<char>, (Seq<char>, u64))>::empty(),
            r.spec_total() == 0,
            r.spec_limits() == limits,
    {
        let entries: Vec<SceneSourceEntry> = Vec::new();
        assert(entries_model(entries@) =~= Seq::<(Seq<char>, (Seq<char>, u64))>::empty());
        SceneInventory { limits, entries, total_bytes: 0 }
    }

    fn find_pos(&self, key: &str) -> (p: usize)
        ensures
            p as int == insert_pos(self.view_entries(), key@),
    {
        let ghost ms = self.view_entries();
        proof {
            assert(ms.skip(0) =~= ms);
        }
        let mut i: usize = 0;
        while i < self.entries.len()
            invariant
                i <= self.entries@.len(),
                ms == entries_model(self.entries@),
                insert_pos(ms, key@) == i + insert_pos(ms.skip(i as int), key@),
            decreases self.entries@.len() - i,
        {
            let ghost rest = ms.skip(i as int);
            assert(rest[0] == ms[i as int]);
            if bytes_lt(key.as_bytes(), self.entries[i].archive_path.as_str().as_bytes()) {
                return i;
            }
            assert(rest.drop_first() =~= ms.skip(i + 1));
            i += 1;
        }
        i
    }

    /// Adds a regular file found under the project root.
    pub fn add_file(&mut self, archive_path: String, source_path: String, size: u64) -> (r: Result<bool>)
        ensures
            final(self).spec_limits() == old(self).spec_limits(),
            r is Ok <==> spec_add_verdict(old(self).spec_limits(), old(self).view_entries(), old(self).spec_total(), archive_path@, size as int) is Some,
            r matches Ok(added) ==> {
                &&& spec_add_verdict(old(self).spec_limits(), old(self).view_entries(), old(self).spec_total(), archive_path@, size as int) == Some(added)
                &&& added ==> final(self).view_entries() == old(self).view_entries().insert(
                    insert_pos(old(self).view_entries(), archive_path@),
                    (archive_path@, (source_path@, size)),
                ) && final(self).spec_total() == old(self).spec_total() + size
                &&& !added ==> *final(self) == *old(self)
            },
            r matches Err(e) ==> e is InvalidProject,
    {
        proof {
            use_type_invariant(&*self);
        }
        let limits = self.limits;
        if !archive_path_bytes_ok(archive_path.as_str().as_bytes()) {
            return Err(Error::InvalidProject { reason: concat("unsafe archive path in scene source: ", archive_path.as_str()) });
        }
        if is_excluded_archive_path(archive_path.as_str()) {
            return Ok(false);
        }
        let p = self.find_pos(archive_path.as_str());
        let ghost before = self.entries@;
        proof {
            lemma_insert_pos(entries_model(before), archive_path@);
            lemma_listed_before_insert_pos(entries_model(before), archive_path@);
            if p > 0 {
                assert(entries_model(before)[p - 1].0 == before[p - 1].archive_path@);
            }
        }
        if p > 0 && str_eq(self.entries[p - 1].archive_path.as_str(), archive_path.as_str()) {
            return Err(Error::InvalidProject { reason: concat("duplicate archive path in scene source: ", archive_path.as_str()) });
        }
        if size > limits.max_file_bytes {
            return Err(Error::InvalidProject { reason: concat("file size exceeds per-file limit for ", archive_path.as_str()) });
        }
        if self.entries.len() >= limits.max_files {
            return Err(Error::InvalidProject { reason: concat("file count exceeds limit while inventorying ", archive_path.as_str()) });
        }
        let new_total = match self.total_bytes.checked_add(size) {
            Some(t) => t,
            None => {
                return Err(Error::InvalidProject {
                    reason: concat("total byte count overflow while inventorying ", archive_path.as_str()),
                });
            },
        };
        if new_total > limits.max_total_bytes {
            return Err(Error::InvalidProject {
                reason: concat("total size exceeds total limit while inventorying ", archive_path.as_str()),
            });
        }
        let ghost entry = (archive_path@, (source_path@, size));
        proof {
            lemma_inventory_stays_ok(limits, entries_model(before), old(self).spec_total(), archive_path@, source_path@, size);
        }
        let mut taken = SceneInventory::new(limits);
        std::mem::swap(self, &mut taken);
        let SceneInventory { entries: mut es, .. } = taken;
        es.insert(p, SceneSourceEntry { archive_path, source_path, size });
        proof {
            assert(entries_model(es@) =~= entries_model(before).insert(p as int, entry_model(es@[p as int])));
        }
        *self = SceneInventory { limits, entries: es, total_bytes: new_total };
        Ok(true)
    }

    /// Ends the walk: `project.json`, the scene entry and the preview (if
    /// any) must all be among the files.
    pub fn finish(self, root: String, scene_entry: String, preview: Option<String>) -> (r: Result<SceneSourceTree>)
        ensures
            r is Ok <==> (has_path(self.view_entries(), "project.json"@) && has_path(self.view_entries(), scene_entry@)
                && (preview matches Some(p) ==> has_path(self.view_entries(), p@))),
            r matches Ok(t) ==> entries_model(t.entries@) == self.view_entries() && t.total_bytes == self.spec_total()
                && t.root == root && t.scene_entry == scene_entry && t.preview == preview,
            r matches Ok(t) ==> inventory_ok(self.spec_limits(), entries_model(t.entries@), t.total_bytes as int),
            r matches Err(e) ==> e is InvalidProject,
    {
        proof {
            use_type_invariant(&self);
        }
        ensure_required_entry(&self.entries, "project.json", "project.json")?;
        ensure_required_entry(&self.entries, scene_entry.as_str(), "scene entry")?;
        match &preview {
            Some(p) => ensure_required_entry(&self.entries, p.as_str(), "preview")?,
            None => {},
        }
        Ok(SceneSourceTree { root, scene_entry, preview, entries: self.entries, total_bytes: self.total_bytes })
    }
}

/// Law: an empty inventory holds what an inventory must, and adding a file
/// that the verdict admits keeps it so: the paths stay distinct, safe and in
/// byte order, and the sizes, the count and the total stay within the
/// limits, with the total the sum of the sizes. So a finished walk lists
/// its files that way whatever order the directory gave them.
pub proof fn lemma_inventory_stays_ok(
    limits: SceneSourceLimits,
    ms: Seq<(Seq<char>, (Seq<char>, u64))>,
    total: int,
    archive_path: Seq<char>,
    source_path: Seq<char>,
    size: u64,
)
    requires
        inventory_ok(limits, ms, total),
        spec_add_verdict(limits, ms, total, archive_path, size as int) == Some(true),
    ensures
        inventory_ok(limits, Seq::<(Seq<char>, (Seq<char>, u64))>::empty(), 0),
        inventory_ok(
            limits,
            ms.insert(insert_pos(ms, archive_path), (archive_path, (source_path, size))),
            total + size,
        ),
{
    let entry = (archive_path, (source_path, size));
    let p = insert_pos(ms, archive_path);
    lemma_insert_pos(ms, archive_path);
    lemma_insert_sorted(ms, entry);
    lemma_sizes_total_insert(ms, p, entry);
    let ns = ms.insert(p, entry);
    assert forall|i: int, j: int| 0 <= i < j < ns.len() implies (#[trigger] ns[i]).0 != (#[trigger] ns[j]).0 by {
        if i == p {
            assert(ns[j] == ms[j - 1]);
        } else if j == p {
            assert(ns[i] == ms[i]);
        } else {
            assert(ns[i] == ms[if i < p { i } else { i - 1 }]);
            assert(ns[j] == ms[if j < p { j } else { j - 1 }]);
        }
    }
    assert forall|k: int| 0 <= k < ns.len() implies archive_text_ok(#[trigger] ns[k].0) && !excluded(text_bytes(ns[k].0))
        && ns[k].1.1 <= limits.max_file_bytes by {
        if k < p {
            assert(ns[k] == ms[k]);
        } else if k > p {
            assert(ns[k] == ms[k - 1]);
        }
    }
    assert(keys_sorted(Seq::<(Seq<char>, (Seq<char>, u64))>::empty()));
}

pub open spec fn has_path(ms: Seq<(Seq<char>, (Seq<char>, u64))>, path: Seq<char>) -> bool {
    exists|k: int| 0 <= k < ms.len() && (#[trigger] ms[k]).0 == path
}

pub fn ensure_required_entry(entries: &Vec<SceneSourceEntry>, archive_path: &str, label: &str) -> (r: Result<()>)
    ensures
        r is Ok <==> has_path(entries_model(entries@), archive_path@),
        r matches Err(e) ==> e is InvalidProject,
{
    let mut i: usize = 0;
    while i < entries.len()
        invariant
            i <= entries@.len(),
            forall|k: int| 0 <= k < i ==> (#[trigger] entries@[k]).archive_path@ != archive_path@,
        decreases entries@.len() - i,
    {
        if str_eq(entries[i].archive_path.as_str(), archive_path) {
            proof {
                assert(entries_model(entries@)[i as int].0 == archive_path@);
            }
            return Ok(());
        }
        i += 1;
    }
    proof {
        if has_path(entries_model(entries@), archive_path@) {
            let k = choose|k: int| 0 <= k < entries_model(entries@).len() && (#[trigger] entries_model(entries@)[k]).0 == archive_path@;
            assert(entries@[k].archive_path@ == archive_path@);
        }
    }
    let m1 = concat(label, " is missing from scene inventory: ");
    Err(Error::InvalidProject { reason: concat(m1.as_str(), archive_path) })
}

} // verus!

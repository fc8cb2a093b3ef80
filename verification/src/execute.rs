//! The decisions of executing an export plan: which plans can run, what a
//! re-inspected source must still match, how converted textures are named
//! and in what order package entries are laid out.

use indexmap::IndexMap;
use vstd::prelude::*;
use crate::backend::HelperRequirement;
use crate::collections::{key_position, property_entries, property_map_get_index, property_map_index_of,
    property_map_len};
use crate::error::{Error, Result};
use crate::export::{sanitized_properties, spec_plan_properties, ExportMode, ExportPlan};
use crate::json::{json_equal, spec_str_member, str_eq, JsonModel, JsonValue};
use crate::json_order::{bytes_lt, insert_pos, lemma_insert_pos, sort_pairs};
use crate::profile::{Compression, Reduction};
use crate::project::kind::{kind_name, text_bytes, WallpaperKind};
use crate::project::source::SourceProject;
use crate::scene::package_input::{package_entry_is_raw_scene_pkg, raw_pkg, ScenePackageUnpackLimits};
use crate::scene::source_tree::{SceneSourceEntry, SceneSourceLimits};
use crate::text::{concat, decimal, has_ascii_extension, spec_decimal, spec_has_extension};

verus! {

/// Inventory bounds of a SceneDynamic export: 100 000 files of at most
/// 512 MiB, 3 GiB in all.
pub fn default_scene_limits() -> (l: SceneSourceLimits)
    ensures
        l == (SceneSourceLimits { max_files: 100_000, max_file_bytes: 536_870_912, max_total_bytes: 3_221_225_472 }),
{
    SceneSourceLimits { max_files: 100_000, max_file_bytes: 536_870_912, max_total_bytes: 3_221_225_472 }
}

/// Unpack bounds for a packaged Scene: MPKG-aligned entry and path limits,
/// files of at most 512 MiB, 3 GiB in all.
pub fn default_unpack_limits() -> (l: ScenePackageUnpackLimits)
    ensures
        l == (ScenePackageUnpackLimits {
            max_entries: 1_000_000,
            max_path_length: 16_384,
            max_file_bytes: 536_870_912,
            max_total_bytes: 3_221_225_472,
        }),
{
    ScenePackageUnpackLimits {
        max_entries: 1_000_000,
        max_path_length: 16_384,
        max_file_bytes: 536_870_912,
        max_total_bytes: 3_221_225_472,
    }
}

/// The name a helper requirement is reported under.
pub open spec fn spec_helper_name(r: HelperRequirement) -> Seq<char> {
    match r {
        HelperRequirement::ResourceTranscode => "resource_transcode"@,
        HelperRequirement::SceneCapture => "scene_capture"@,
        HelperRequirement::H264Encode => "h264_encode"@,
    }
}

pub fn helper_name(requirement: HelperRequirement) -> (s: &'static str)
    ensures
        s@ == spec_helper_name(requirement),
{
    match requirement {
        HelperRequirement::ResourceTranscode => "resource_transcode",
        HelperRequirement::SceneCapture => "scene_capture",
        HelperRequirement::H264Encode => "h264_encode",
    }
}

/// A `.tex` archive path, in any case.
pub open spec fn tex_path(path: Seq<char>) -> bool {
    spec_has_extension(text_bytes(path), text_bytes("tex"@))
}

pub fn is_tex_archive_path(path: &str) -> (r: bool)
    ensures
        r == tex_path(path@),
{
    has_ascii_extension(path.as_bytes(), "tex".as_bytes())
}

/// A raw `.pkg` entry needs the unpack backend.
pub fn reject_raw_scene_pkg_entry(entry: &str) -> (r: Result<()>)
    ensures
        r is Ok <==> !raw_pkg(text_bytes(entry@)),
        r matches Err(e) ==> e is BackendUnavailable && e->BackendUnavailable_backend@ == "scene_pkg_unpack"@,
{
    if package_entry_is_raw_scene_pkg(entry) {
        return Err(Error::BackendUnavailable { backend: "scene_pkg_unpack".to_owned() });
    }
    Ok(())
}

/// A source whose manifest entry is a raw `.pkg` needs the unpack backend.
pub fn reject_raw_scene_pkg(source: &SourceProject) -> (r: Result<()>)
    ensures
        r is Ok <==> !(spec_str_member(source.manifest.spec_raw(), "file"@) matches Some(e) && raw_pkg(text_bytes(e))),
        r matches Err(e) ==> e is BackendUnavailable,
{
    match source.manifest.entry() {
        Some(entry) => reject_raw_scene_pkg_entry(entry.as_str()),
        None => Ok(()),
    }
}

/// An output that could overwrite the Scene's own files.
pub fn output_safety_error(reason: &str, source_root: &str, output: &str) -> (e: Error)
    ensures
        e matches Error::InvalidArguments { reason: r } && r@ == reason@ + ": output "@ + output@
            + " would overlap Scene source "@ + source_root@,
{
    let m1 = concat(reason, ": output ");
    let m2 = concat(m1.as_str(), output);
    let m3 = concat(m2.as_str(), " would overlap Scene source ");
    Error::InvalidArguments { reason: concat(m3.as_str(), source_root) }
}

/// Which plans run: Web and Application sources are unsupported, a
/// pre-rendered Scene and a Video have no backend yet, and a dynamic Scene
/// runs with its compression and reduction.
pub open spec fn spec_dispatch(kind: WallpaperKind, mode: ExportMode) -> core::result::Result<(Compression, Reduction), Seq<char>> {
    if kind is Web || kind is Application {
        Err(kind_name(kind))
    } else {
        match mode {
            ExportMode::SceneDynamic { compression, reduction } => Ok((compression, reduction)),
            ExportMode::ScenePreRenderedVideo => Err("scene_capture+h264_encode"@),
            ExportMode::Video { .. } => Err("video_export"@),
        }
    }
}

pub fn dispatch_export(kind: WallpaperKind, mode: ExportMode) -> (r: Result<(Compression, Reduction)>)
    ensures
        match spec_dispatch(kind, mode) {
            Ok(cr) => r == Ok::<(Compression, Reduction), Error>(cr),
            Err(name) => if kind is Web || kind is Application {
                r matches Err(e) && e is UnsupportedWallpaperType && e->UnsupportedWallpaperType_kind@ == name
            } else {
                r matches Err(e) && e is BackendUnavailable && e->BackendUnavailable_backend@ == name
            },
        },
{
    match kind {
        WallpaperKind::Web | WallpaperKind::Application => {
            return Err(Error::unsupported_type(kind.as_str().to_owned()));
        },
        _ => {},
    }
    match mode {
        ExportMode::SceneDynamic { compression, reduction } => Ok((compression, reduction)),
        ExportMode::ScenePreRenderedVideo => Err(Error::BackendUnavailable { backend: "scene_capture+h264_encode".to_owned() }),
        ExportMode::Video { .. } => Err(Error::BackendUnavailable { backend: "video_export".to_owned() }),
    }
}

/// A dynamic Scene export needs a Scene source and plan, a transcoding
/// backend, and a plan that asks for it.
#[verifier::loop_isolation(false)]
pub fn check_dynamic_scene(source_kind: WallpaperKind, plan: &ExportPlan, has_backend: bool) -> (r: Result<()>)
    ensures
        r is Ok <==> (source_kind is Scene && plan.kind is Scene && has_backend && plan.helpers@.contains(
            HelperRequirement::ResourceTranscode,
        )),
        r matches Err(e) ==> ((source_kind is Scene && plan.kind is Scene) ==> e is BackendUnavailable)
            && (!(source_kind is Scene && plan.kind is Scene) ==> e is InvalidArguments),
        r matches Err(Error::BackendUnavailable { backend }) ==> backend@ == spec_helper_name(
            HelperRequirement::ResourceTranscode,
        ),
{
    let scene = match (source_kind, plan.kind) {
        (WallpaperKind::Scene, WallpaperKind::Scene) => true,
        _ => false,
    };
    if !scene {
        let m1 = concat("SceneDynamic export requires Scene source and plan, got source=", source_kind.as_str());
        let m2 = concat(m1.as_str(), " plan=");
        return Err(Error::InvalidArguments { reason: concat(m2.as_str(), plan.kind.as_str()) });
    }
    if !has_backend {
        return Err(Error::BackendUnavailable { backend: helper_name(HelperRequirement::ResourceTranscode).to_owned() });
    }
    let mut i: usize = 0;
    while i < plan.helpers.len()
        invariant
            i <= plan.helpers@.len(),
            forall|j: int| 0 <= j < i ==> plan.helpers@[j] != HelperRequirement::ResourceTranscode,
        decreases plan.helpers@.len() - i,
    {
        if plan.helpers[i] == HelperRequirement::ResourceTranscode {
            assert(plan.helpers@[i as int] == HelperRequirement::ResourceTranscode);
            return Ok(());
        }
        i += 1;
    }
    Err(Error::BackendUnavailable { backend: helper_name(HelperRequirement::ResourceTranscode).to_owned() })
}

/// The name of the `ordinal`-th converted texture: six or more decimal
/// digits, zero-padded, and `.tex`.
pub open spec fn spec_texture_name(ordinal: nat) -> Seq<char> {
    let d = spec_decimal(ordinal);
    let pad = if d.len() < 6 { Seq::new((6 - d.len()) as nat, |i: int| '0') } else { Seq::empty() };
    pad + d + ".tex"@
}

pub fn converted_texture_name(ordinal: u32) -> (s: String)
    ensures
        s@ == spec_texture_name(ordinal as nat),
{
    let digits = decimal(ordinal as u64);
    let mut out = String::new();
    let n = digits.as_str().unicode_len();
    let ghost d = spec_decimal(ordinal as nat);
    let mut k: usize = n;
    proof {
        assert(out@ =~= Seq::new(0, |i: int| '0'));
    }
    while k < 6
        invariant
            n == d.len(),
            n <= k <= 6 || (n > 6 && k == n),
            out@ == Seq::new((k - n) as nat, |i: int| '0'),
        decreases 6 - k,
    {
        let longer = concat(out.as_str(), "0");
        out = longer;
        k += 1;
        proof {
            reveal_strlit("0");
            assert(out@ =~= Seq::new((k - n) as nat, |i: int| '0'));
        }
    }
    let with_digits = concat(out.as_str(), digits.as_str());
    proof {
        if n < 6 {
            assert(k == 6);
        } else {
            assert(out@ =~= Seq::<char>::empty());
        }
    }
    concat(with_digits.as_str(), ".tex")
}

/// A snapshot copy must have the size the inventory recorded.
pub fn check_snapshot_size(archive_path: &str, expected: u64, copied: u64) -> (r: Result<()>)
    ensures
        r is Ok <==> copied == expected,
        r matches Err(e) ==> e is ConversionFailed,
{
    if copied != expected {
        return Err(Error::ConversionFailed { reason: concat("snapshot size mismatch for ", archive_path) });
    }
    Ok(())
}

/// A converted texture on disk must have the size its backend reported.
pub fn check_converted_size(on_disk: u64, reported: u64) -> (r: Result<()>)
    ensures
        r is Ok <==> on_disk == reported,
        r matches Err(e) ==> e is ConversionFailed,
{
    if on_disk != reported {
        return Err(Error::ConversionFailed {
            reason: "converted TEX size does not match the backend report".to_owned(),
        });
    }
    Ok(())
}

/// Where a package entry's bytes come from.
#[derive(Debug, Clone, Copy, PartialEq, Eq, Structural)]
pub enum PackedSource {
    /// The constructed mobile `project.json`.
    ProjectJson,
    /// The converted texture of this snapshot file.
    ConvertedTexture,
    /// The snapshot file itself.
    Snapshot,
}

/// Entries in the order they are added: `project.json` first, then each
/// snapshot file other than `project.json`, textures marked as converted.
pub open spec fn pending_entries(paths: Seq<Seq<char>>) -> Seq<(Seq<char>, PackedSource)>
    decreases paths.len(),
{
    if paths.len() == 0 {
        seq![("project.json"@, PackedSource::ProjectJson)]
    } else {
        let p = pending_entries(paths.drop_last());
        let last = paths.last();
        if last == "project.json"@ {
            p
        } else if tex_path(last) {
            p.push((last, PackedSource::ConvertedTexture))
        } else {
            p.push((last, PackedSource::Snapshot))
        }
    }
}

pub open spec fn texts(v: Seq<String>) -> Seq<Seq<char>> {
    Seq::new(v.len(), |k: int| v[k]@)
}

pub open spec fn entry_texts(v: Seq<(String, PackedSource)>) -> Seq<(Seq<char>, PackedSource)> {
    Seq::new(v.len(), |k: int| (v[k].0@, v[k].1))
}

fn find_pos(out: &Vec<(String, PackedSource)>, key: &str) -> (p: usize)
    ensures
        p as int == insert_pos(entry_texts(out@), key@),
{
    let ghost ms = entry_texts(out@);
    proof {
        assert(ms.skip(0) =~= ms);
    }
    let mut i: usize = 0;
    while i < out.len()
        invariant
            i <= out@.len(),
            ms == entry_texts(out@),
            insert_pos(ms, key@) == i + insert_pos(ms.skip(i as int), key@),
        decreases out@.len() - i,
    {
        let ghost rest = ms.skip(i as int);
        assert(rest[0] == ms[i as int]);
        if bytes_lt(key.as_bytes(), out[i].0.as_str().as_bytes()) {
            return i;
        }
        assert(rest.drop_first() =~= ms.skip(i + 1));
        i += 1;
    }
    i
}

fn insert_sorted(out: &mut Vec<(String, PackedSource)>, key: String, source: PackedSource)
    ensures
        entry_texts(final(out)@) == entry_texts(old(out)@).insert(
            insert_pos(entry_texts(old(out)@), key@),
            (key@, source),
        ),
{
    let p = find_pos(out, key.as_str());
    let ghost before = out@;
    let ghost k = key@;
    proof {
        lemma_insert_pos(entry_texts(before), k);
    }
    out.insert(p, (key, source));
    assert(entry_texts(out@) =~= entry_texts(before).insert(p as int, (k, source)));
}

/// The package's entries in byte order of their paths (equal paths keep
/// the order in which they were added).
pub fn package_entry_plan(paths: &Vec<String>) -> (r: Vec<(String, PackedSource)>)
    ensures
        entry_texts(r@) == sort_pairs(pending_entries(texts(paths@))),
{
    let ghost ts = texts(paths@);
    let mut out: Vec<(String, PackedSource)> = Vec::new();
    proof {
        assert(entry_texts(out@) =~= Seq::<(Seq<char>, PackedSource)>::empty());
        let one = seq![("project.json"@, PackedSource::ProjectJson)];
        assert(one.drop_last() =~= Seq::<(Seq<char>, PackedSource)>::empty());
        assert(insert_pos(Seq::<(Seq<char>, PackedSource)>::empty(), "project.json"@) == 0);
        assert(Seq::<(Seq<char>, PackedSource)>::empty().insert(0, one.last()) =~= one);
        assert(ts.take(0) =~= Seq::<Seq<char>>::empty());
    }
    insert_sorted(&mut out, "project.json".to_owned(), PackedSource::ProjectJson);
    proof {
        let one = seq![("project.json"@, PackedSource::ProjectJson)];
        assert(pending_entries(ts.take(0)) == one);
        let e = Seq::<(Seq<char>, PackedSource)>::empty();
        assert(one.drop_last() =~= e);
        assert(sort_pairs(e) == e);
        assert(insert_pos(e, one.last().0) == 0);
        assert(sort_pairs(one) == e.insert(0, one.last()));
    }
    let mut i: usize = 0;
    while i < paths.len()
        invariant
            i <= paths@.len(),
            ts == texts(paths@),
            entry_texts(out@) == sort_pairs(pending_entries(ts.take(i as int))),
        decreases paths@.len() - i,
    {
        let path = paths[i].as_str();
        proof {
            assert(ts.take(i + 1).drop_last() =~= ts.take(i as int));
            assert(ts.take(i + 1).last() == path@);
        }
        if !str_eq(path, "project.json") {
            let source = if is_tex_archive_path(path) { PackedSource::ConvertedTexture } else { PackedSource::Snapshot };
            insert_sorted(&mut out, paths[i].clone(), source);
            proof {
                let pe = pending_entries(ts.take(i + 1));
                assert(pe.drop_last() =~= pending_entries(ts.take(i as int)));
            }
        }
        i += 1;
    }
    proof {
        assert(ts.take(paths@.len() as int) =~= ts);
    }
    out
}

/// Two property maps equal as maps: the same number of keys, each key of
/// the first holding an equal value in the second.
pub open spec fn maps_equal(a: Seq<(Seq<char>, JsonModel)>, b: Seq<(Seq<char>, JsonModel)>) -> bool {
    &&& a.len() == b.len()
    &&& forall|i: int| 0 <= i < a.len() ==> key_position(b, (#[trigger] a[i]).0) >= 0 && b[key_position(b, a[i].0)].1 == a[i].1
}

pub fn property_maps_equal(a: &IndexMap<String, JsonValue>, b: &IndexMap<String, JsonValue>) -> (r: bool)
    ensures
        r == maps_equal(property_entries(*a), property_entries(*b)),
{
    let n = property_map_len(a);
    if n != property_map_len(b) {
        return false;
    }
    let mut i: usize = 0;
    while i < n
        invariant
            i <= n,
            n == property_entries(*a).len(),
            n == property_entries(*b).len(),
            forall|j: int| 0 <= j < i ==> key_position(property_entries(*b), (#[trigger] property_entries(*a)[j]).0) >= 0
                && property_entries(*b)[key_position(property_entries(*b), property_entries(*a)[j].0)].1 == property_entries(*a)[j].1,
        decreases n - i,
    {
        let (key, value) = property_map_get_index(a, i);
        match property_map_index_of(b, key.as_str()) {
            None => {
                return false;
            },
            Some(k) => {
                proof {
                    crate::collections::lemma_key_position(property_entries(*b), key@);
                }
                let (_, other) = property_map_get_index(b, k);
                if !json_equal(value, other) {
                    return false;
                }
            },
        }
        i += 1;
    }
    true
}

/// What a re-inspected source must still match of the inspected source and
/// its plan: the kind, the title, the manifest entry and the sanitized
/// properties.
pub open spec fn spec_reinspect_ok(source: SourceProject, live: SourceProject, plan_kind: WallpaperKind, plan_title: Seq<char>, plan_properties: Seq<(Seq<char>, JsonModel)>) -> bool {
    let entry_of = |s: SourceProject| match spec_str_member(s.manifest.spec_raw(), "file"@) {
        Some(e) => e,
        None => Seq::empty(),
    };
    &&& live.kind == plan_kind && source.kind == plan_kind
    &&& live.title@ == plan_title && source.title@ == plan_title
    &&& entry_of(live) == entry_of(source)
    &&& maps_equal(spec_plan_properties(live.manifest.spec_raw()), plan_properties)
}

fn entry_or_empty(source: &SourceProject) -> (r: &str)
    ensures
        r@ == match spec_str_member(source.manifest.spec_raw(), "file"@) {
            Some(e) => e,
            None => Seq::<char>::empty(),
        },
{
    proof {
        reveal_strlit("");
    }
    match source.manifest.entry() {
        Some(e) => e.as_str(),
        None => "",
    }
}

/// Checks a re-inspected source against the inspected one and the plan.
pub fn match_reinspected(source: &SourceProject, live: &SourceProject, plan: &ExportPlan) -> (r: Result<()>)
    ensures
        r is Ok <==> spec_reinspect_ok(*source, *live, plan.kind, plan.title@, property_entries(plan.properties)),
        r matches Err(e) ==> e is InvalidArguments,
{
    if live.kind != plan.kind || source.kind != plan.kind {
        let m1 = concat("source/plan kind mismatch: live=", live.kind.as_str());
        let m2 = concat(m1.as_str(), ", plan=");
        return Err(Error::InvalidArguments { reason: concat(m2.as_str(), plan.kind.as_str()) });
    }
    if !str_eq(live.title.as_str(), plan.title.as_str()) || !str_eq(source.title.as_str(), plan.title.as_str()) {
        return Err(Error::InvalidArguments { reason: "source/plan title mismatch".to_owned() });
    }
    if !str_eq(entry_or_empty(live), entry_or_empty(source)) {
        return Err(Error::InvalidArguments { reason: "source entry changed since inspect".to_owned() });
    }
    let expected = sanitized_properties(live.manifest.raw());
    if !property_maps_equal(&expected, &plan.properties) {
        return Err(Error::InvalidArguments { reason: "source/plan sanitized properties mismatch".to_owned() });
    }
    Ok(())
}

/// `a + b`, or `u64::MAX` where the sum does not fit.
pub open spec fn saturating_sum(a: u64, b: u64) -> u64 {
    if a + b > u64::MAX { u64::MAX } else { (a + b) as u64 }
}

/// How many textures were converted and their input and output bytes, each
/// byte total held at `u64::MAX` once it would pass it.
#[derive(Debug, Clone, Copy, PartialEq, Eq, Structural)]
pub struct TextureTally {
    pub count: usize,
    pub input_bytes: u64,
    pub output_bytes: u64,
}

impl TextureTally {
    pub fn new() -> (t: TextureTally)
        ensures
            t == (TextureTally { count: 0, input_bytes: 0, output_bytes: 0 }),
    {
        TextureTally { count: 0, input_bytes: 0, output_bytes: 0 }
    }

    /// The tally with one more converted texture of the given sizes.
    pub fn record(self, input_bytes: u64, output_bytes: u64) -> (t: TextureTally)
        requires
            self.count < usize::MAX,
        ensures
            t == (TextureTally {
                count: (self.count + 1) as usize,
                input_bytes: saturating_sum(self.input_bytes, input_bytes),
                output_bytes: saturating_sum(self.output_bytes, output_bytes),
            }),
    {
        let i = if self.input_bytes > u64::MAX - input_bytes { u64::MAX } else { self.input_bytes + input_bytes };
        let o = if self.output_bytes > u64::MAX - output_bytes { u64::MAX } else { self.output_bytes + output_bytes };
        TextureTally { count: self.count + 1, input_bytes: i, output_bytes: o }
    }
}

/// The first inventory entry that is a raw desktop package (`.pkg`, in any
/// case), which must not enter an Android package; `None` when there is
/// none.
pub fn first_raw_pkg_entry(entries: &Vec<SceneSourceEntry>) -> (r: Option<usize>)
    ensures
        r is None <==> forall|k: int| 0 <= k < entries@.len() ==> !raw_pkg(text_bytes(#[trigger] entries@[k].archive_path@)),
        r matches Some(i) ==> i < entries@.len() && raw_pkg(text_bytes(entries@[i as int].archive_path@)) && forall|k: int|
            0 <= k < i ==> !raw_pkg(text_bytes(#[trigger] entries@[k].archive_path@)),
{
    let mut i: usize = 0;
    while i < entries.len()
        invariant
            i <= entries@.len(),
            forall|k: int| 0 <= k < i ==> !raw_pkg(text_bytes(#[trigger] entries@[k].archive_path@)),
        decreases entries@.len() - i,
    {
        if package_entry_is_raw_scene_pkg(entries[i].archive_path.as_str()) {
            return Some(i);
        }
        i += 1;
    }
    None
}

} // verus!

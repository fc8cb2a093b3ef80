//! Export plans: which mode, transformations and helper programs an export
//! of a Scene or a Video needs, and the sanitized properties it carries.

use indexmap::IndexMap;
use vstd::prelude::*;
use crate::backend::HelperRequirement;
use crate::collections::{entries_insert, key_position, lemma_entries_insert_present, lemma_key_position, property_entries,
    property_map_insert, property_map_new};
use crate::error::{Error, Result};
use crate::json::{model_pairs, JsonModel, JsonValue};
use crate::json_order::{lemma_model_pairs_index, lemma_sort_pairs_permutes, sort_members, sort_pairs};
use crate::mpkg::version::ContainerVersion;
use crate::profile::{resolve_scene_profile, spec_scene_mode, Compression, ContentClass, Reduction, SceneMode, SceneProfile};
use crate::project::kind::{kind_name, WallpaperKind};
use crate::project::source::SourceProject;
use crate::property::{keep_allowed, lemma_desktop_only_names_removed, sanitize_mobile_properties};
use crate::text::concat;

verus! {

#[derive(Debug, Clone, Copy, PartialEq, Eq, Structural)]
pub enum CompatibilityTarget {
    WeAndroid { major: u8, minor: u8 },
}

#[derive(Debug, Clone, Copy, PartialEq, Eq, Structural)]
pub enum VideoInputCompatibility {
    Unknown,
    AndroidH264Mp4,
}

#[derive(Debug, Clone, Copy, PartialEq, Eq, Structural)]
pub enum RequestedExportMode {
    Scene { profile: SceneProfile, content_class: ContentClass },
    Video { input: VideoInputCompatibility },
}

/// What the user asked for: the output path (as text) and the mode.
#[derive(Debug, Clone, PartialEq, Eq)]
pub struct ExportRequest {
    pub output: String,
    pub mode: RequestedExportMode,
}

impl ExportRequest {
    pub fn scene(output: String, profile: SceneProfile, content_class: ContentClass) -> (r: ExportRequest)
        ensures
            r == (ExportRequest { output, mode: RequestedExportMode::Scene { profile, content_class } }),
    {
        ExportRequest { output, mode: RequestedExportMode::Scene { profile, content_class } }
    }

    pub fn video(output: String, input: VideoInputCompatibility) -> (r: ExportRequest)
        ensures
            r == (ExportRequest { output, mode: RequestedExportMode::Video { input } }),
    {
        ExportRequest { output, mode: RequestedExportMode::Video { input } }
    }
}

#[derive(Debug, Clone, Copy, PartialEq, Eq, Structural)]
pub enum ExportMode {
    SceneDynamic { compression: Compression, reduction: Reduction },
    ScenePreRenderedVideo,
    Video { passthrough: bool },
}

#[derive(Debug, Clone, Copy, PartialEq, Eq)]
pub enum Transformation {
    SanitizeProperties,
    TranscodeSceneResources { compression: Compression, reduction: Reduction },
    CaptureScene,
    EncodeH264,
    CopyVideo,
    PackageMpkg { version: ContainerVersion },
}

/// The plan of an export.
#[derive(Debug)]
pub struct ExportPlan {
    pub source: String,
    pub title: String,
    pub kind: WallpaperKind,
    pub mode: ExportMode,
    pub compatibility: CompatibilityTarget,
    pub properties: IndexMap<String, JsonValue>,
    pub transformations: Vec<Transformation>,
    pub helpers: Vec<HelperRequirement>,
    pub estimated_size: Option<u64>,
    pub output: String,
}

/// Mode, transformations and helpers of a Scene export.
pub open spec fn spec_scene_plan(profile: SceneProfile, class: ContentClass) -> (ExportMode, Seq<Transformation>, Seq<HelperRequirement>) {
    match spec_scene_mode(profile, class) {
        SceneMode::Dynamic { compression, reduction } => (
            ExportMode::SceneDynamic { compression, reduction },
            seq![
                Transformation::SanitizeProperties,
                Transformation::TranscodeSceneResources { compression, reduction },
                Transformation::PackageMpkg { version: ContainerVersion::Pkgm0020 },
            ],
            seq![HelperRequirement::ResourceTranscode],
        ),
        SceneMode::PreRendered => (
            ExportMode::ScenePreRenderedVideo,
            seq![
                Transformation::SanitizeProperties,
                Transformation::CaptureScene,
                Transformation::EncodeH264,
                Transformation::PackageMpkg { version: ContainerVersion::Pkgm0020 },
            ],
            seq![HelperRequirement::SceneCapture, HelperRequirement::H264Encode],
        ),
    }
}

/// Mode, transformations and helpers of a Video export: an input known to
/// play on Android is copied, any other is encoded to H.264.
pub open spec fn spec_video_plan(input: VideoInputCompatibility) -> (ExportMode, Seq<Transformation>, Seq<HelperRequirement>) {
    match input {
        VideoInputCompatibility::Unknown => (
            ExportMode::Video { passthrough: false },
            seq![
                Transformation::SanitizeProperties,
                Transformation::EncodeH264,
                Transformation::PackageMpkg { version: ContainerVersion::Pkgm0020 },
            ],
            seq![HelperRequirement::H264Encode],
        ),
        VideoInputCompatibility::AndroidH264Mp4 => (
            ExportMode::Video { passthrough: true },
            seq![
                Transformation::SanitizeProperties,
                Transformation::CopyVideo,
                Transformation::PackageMpkg { version: ContainerVersion::Pkgm0020 },
            ],
            Seq::empty(),
        ),
    }
}

pub fn scene_plan(profile: SceneProfile, content_class: ContentClass) -> (r: (ExportMode, Vec<Transformation>, Vec<HelperRequirement>))
    ensures
        (r.0, r.1@, r.2@) == spec_scene_plan(profile, content_class),
{
    match resolve_scene_profile(profile, content_class) {
        SceneMode::Dynamic { compression, reduction } => {
            let t = vec![
                Transformation::SanitizeProperties,
                Transformation::TranscodeSceneResources { compression, reduction },
                Transformation::PackageMpkg { version: ContainerVersion::Pkgm0020 },
            ];
            let h = vec![HelperRequirement::ResourceTranscode];
            assert(t@ =~= seq![
                Transformation::SanitizeProperties,
                Transformation::TranscodeSceneResources { compression, reduction },
                Transformation::PackageMpkg { version: ContainerVersion::Pkgm0020 },
            ]);
            assert(h@ =~= seq![HelperRequirement::ResourceTranscode]);
            (ExportMode::SceneDynamic { compression, reduction }, t, h)
        },
        SceneMode::PreRendered => {
            let t = vec![
                Transformation::SanitizeProperties,
                Transformation::CaptureScene,
                Transformation::EncodeH264,
                Transformation::PackageMpkg { version: ContainerVersion::Pkgm0020 },
            ];
            let h = vec![HelperRequirement::SceneCapture, HelperRequirement::H264Encode];
            assert(t@ =~= seq![
                Transformation::SanitizeProperties,
                Transformation::CaptureScene,
                Transformation::EncodeH264,
                Transformation::PackageMpkg { version: ContainerVersion::Pkgm0020 },
            ]);
            assert(h@ =~= seq![HelperRequirement::SceneCapture, HelperRequirement::H264Encode]);
            (ExportMode::ScenePreRenderedVideo, t, h)
        },
    }
}

pub fn video_plan(input: VideoInputCompatibility) -> (r: (ExportMode, Vec<Transformation>, Vec<HelperRequirement>))
    ensures
        (r.0, r.1@, r.2@) == spec_video_plan(input),
{
    match input {
        VideoInputCompatibility::Unknown => {
            let t = vec![
                Transformation::SanitizeProperties,
                Transformation::EncodeH264,
                Transformation::PackageMpkg { version: ContainerVersion::Pkgm0020 },
            ];
            let h = vec![HelperRequirement::H264Encode];
            assert(t@ =~= seq![
                Transformation::SanitizeProperties,
                Transformation::EncodeH264,
                Transformation::PackageMpkg { version: ContainerVersion::Pkgm0020 },
            ]);
            assert(h@ =~= seq![HelperRequirement::H264Encode]);
            (ExportMode::Video { passthrough: false }, t, h)
        },
        VideoInputCompatibility::AndroidH264Mp4 => {
            let t = vec![
                Transformation::SanitizeProperties,
                Transformation::CopyVideo,
                Transformation::PackageMpkg { version: ContainerVersion::Pkgm0020 },
            ];
            let h: Vec<HelperRequirement> = Vec::new();
            assert(t@ =~= seq![
                Transformation::SanitizeProperties,
                Transformation::CopyVideo,
                Transformation::PackageMpkg { version: ContainerVersion::Pkgm0020 },
            ]);
            (ExportMode::Video { passthrough: true }, t, h)
        },
    }
}

/// The user properties of a manifest: the `/general/properties` object,
/// else a top-level `properties` object, else none.
pub open spec fn spec_property_members(raw: JsonValue) -> Seq<(Seq<char>, JsonModel)> {
    let nested = match raw.spec_get("general"@) {
        Some(g) => g.spec_get("properties"@),
        None => None,
    };
    match nested {
        Some(JsonValue::Object(ps)) => model_pairs(ps@),
        _ => match raw.spec_get("properties"@) {
            Some(JsonValue::Object(ps)) => model_pairs(ps@),
            _ => Seq::empty(),
        },
    }
}

/// Entries of a map built by inserting the members in order.
pub open spec fn entries_from(ps: Seq<(Seq<char>, JsonModel)>) -> Seq<(Seq<char>, JsonModel)>
    decreases ps.len(),
{
    if ps.len() == 0 {
        Seq::empty()
    } else {
        entries_insert(entries_from(ps.drop_last()), ps.last().0, ps.last().1)
    }
}

/// The properties a plan carries: the manifest's user properties without
/// the blacklisted ones, in key order.
pub open spec fn spec_plan_properties(raw: JsonValue) -> Seq<(Seq<char>, JsonModel)> {
    entries_from(sort_pairs(keep_allowed(spec_property_members(raw))))
}

/// A key is among the map built from `ps` exactly when a member of `ps`
/// has it.
proof fn lemma_entries_from_keys(ps: Seq<(Seq<char>, JsonModel)>, key: Seq<char>)
    ensures
        (key_position(entries_from(ps), key) >= 0) <==> exists|j: int| 0 <= j < ps.len() && (#[trigger] ps[j]).0 == key,
    decreases ps.len(),
{
    if ps.len() > 0 {
        let init = ps.drop_last();
        lemma_entries_from_keys(init, key);
        lemma_entries_insert_present(entries_from(init), ps.last().0, ps.last().1, key);
        if exists|j: int| 0 <= j < init.len() && (#[trigger] init[j]).0 == key {
            let j = choose|j: int| 0 <= j < init.len() && (#[trigger] init[j]).0 == key;
            assert(ps[j] == init[j]);
        }
        if exists|j: int| 0 <= j < ps.len() && (#[trigger] ps[j]).0 == key {
            let j = choose|j: int| 0 <= j < ps.len() && (#[trigger] ps[j]).0 == key;
            if j < init.len() {
                assert(init[j] == ps[j]);
            }
        }
    } else {
        lemma_key_position(entries_from(ps), key);
    }
}

/// Law: the user properties of a plan are those of the manifest (its
/// `general.properties`, else its `properties`) without the thirteen
/// desktop-only names (alignment, alignmentx, alignmenty, alignmentz,
/// alignmentposition, alignmentfliph, pluginledextensionsenableleds, wec_e,
/// wec_brs, wec_con, wec_sat, wec_hue, rate): a key is in the plan exactly
/// when the manifest has it and it is none of those names.
pub proof fn lemma_plan_properties_keys(raw: JsonValue, key: Seq<char>)
    ensures
        (key_position(spec_plan_properties(raw), key) >= 0) <==> ({
            &&& exists|j: int| 0 <= j < spec_property_members(raw).len() && (#[trigger] spec_property_members(raw)[j]).0 == key
            &&& !({
                ||| key == "alignment"@
                ||| key == "alignmentx"@
                ||| key == "alignmenty"@
                ||| key == "alignmentz"@
                ||| key == "alignmentposition"@
                ||| key == "alignmentfliph"@
                ||| key == "pluginledextensionsenableleds"@
                ||| key == "wec_e"@
                ||| key == "wec_brs"@
                ||| key == "wec_con"@
                ||| key == "wec_sat"@
                ||| key == "wec_hue"@
                ||| key == "rate"@
            })
        }),
{
    let ms = spec_property_members(raw);
    let kept = keep_allowed(ms);
    let sorted = sort_pairs(kept);
    lemma_entries_from_keys(sorted, key);
    lemma_sort_pairs_permutes(kept);
    lemma_desktop_only_names_removed(ms);
    broadcast use vstd::seq_lib::group_to_multiset_ensures;
    if exists|j: int| 0 <= j < sorted.len() && (#[trigger] sorted[j]).0 == key {
        let j = choose|j: int| 0 <= j < sorted.len() && (#[trigger] sorted[j]).0 == key;
        assert(sorted.contains(sorted[j]));
        assert(sorted.to_multiset().count(sorted[j]) > 0);
        assert(kept.contains(sorted[j]));
        let i = choose|i: int| 0 <= i < kept.len() && kept[i] == sorted[j];
        assert(ms.contains(kept[i]));
        let m = choose|m: int| 0 <= m < ms.len() && ms[m] == kept[i];
        assert(ms[m].0 == key);
    }
    if exists|j: int| 0 <= j < ms.len() && (#[trigger] ms[j]).0 == key && !({
                ||| key == "alignment"@
                ||| key == "alignmentx"@
                ||| key == "alignmenty"@
                ||| key == "alignmentz"@
                ||| key == "alignmentposition"@
                ||| key == "alignmentfliph"@
                ||| key == "pluginledextensionsenableleds"@
                ||| key == "wec_e"@
                ||| key == "wec_brs"@
                ||| key == "wec_con"@
                ||| key == "wec_sat"@
                ||| key == "wec_hue"@
                ||| key == "rate"@
    }) {
        let j = choose|j: int| 0 <= j < ms.len() && (#[trigger] ms[j]).0 == key && !({
                ||| key == "alignment"@
                ||| key == "alignmentx"@
                ||| key == "alignmenty"@
                ||| key == "alignmentz"@
                ||| key == "alignmentposition"@
                ||| key == "alignmentfliph"@
                ||| key == "pluginledextensionsenableleds"@
                ||| key == "wec_e"@
                ||| key == "wec_brs"@
                ||| key == "wec_con"@
                ||| key == "wec_sat"@
                ||| key == "wec_hue"@
                ||| key == "rate"@
        });
        assert(kept.contains(ms[j]));
        assert(kept.to_multiset().count(ms[j]) > 0);
        assert(sorted.contains(ms[j]));
        let i = choose|i: int| 0 <= i < sorted.len() && sorted[i] == ms[j];
        assert(sorted[i].0 == key);
    }
}

fn property_members(raw: &JsonValue) -> (r: Option<&Vec<(String, JsonValue)>>)
    ensures
        match r {
            Some(ps) => model_pairs(ps@) == spec_property_members(*raw),
            None => spec_property_members(*raw) == Seq::<(Seq<char>, JsonModel)>::empty(),
        },
{
    let nested = match raw.get("general") {
        Some(g) => g.get("properties"),
        None => None,
    };
    match nested {
        Some(JsonValue::Object(ps)) => Some(ps),
        _ => match raw.get("properties") {
            Some(JsonValue::Object(ps)) => Some(ps),
            _ => None,
        },
    }
}

/// The plan's properties, built from the source manifest.
pub fn sanitized_properties(raw: &JsonValue) -> (r: IndexMap<String, JsonValue>)
    ensures
        property_entries(r) == spec_plan_properties(*raw),
{
    let mut map = property_map_new();
    let members = match property_members(raw) {
        Some(ps) => ps,
        None => {
            proof {
                assert(keep_allowed(Seq::<(Seq<char>, JsonModel)>::empty()) =~= Seq::<(Seq<char>, JsonModel)>::empty());
                assert(sort_pairs(Seq::<(Seq<char>, JsonModel)>::empty()) =~= Seq::<(Seq<char>, JsonModel)>::empty());
            }
            return map;
        },
    };
    let kept = sanitize_mobile_properties(members);
    let sorted = sort_members(&kept);
    let ghost ms = model_pairs(sorted@);
    proof {
        lemma_model_pairs_index(sorted@);
        assert(ms.take(0) =~= Seq::<(Seq<char>, JsonModel)>::empty());
    }
    let mut i: usize = 0;
    while i < sorted.len()
        invariant
            i <= sorted@.len(),
            ms == model_pairs(sorted@),
            ms.len() == sorted@.len(),
            forall|j: int| 0 <= j < sorted@.len() ==> #[trigger] ms[j] == (sorted@[j].0@, sorted@[j].1.model()),
            property_entries(map) == entries_from(ms.take(i as int)),
        decreases sorted@.len() - i,
    {
        proof {
            assert(ms.take(i + 1).drop_last() =~= ms.take(i as int));
            assert(ms.take(i + 1).last() == ms[i as int]);
        }
        let key = sorted[i].0.clone();
        let value = sorted[i].1.deep_clone();
        property_map_insert(&mut map, key, value);
        i += 1;
    }
    proof {
        assert(ms.take(sorted@.len() as int) =~= ms);
    }
    map
}

/// The name of a requested mode.
pub fn request_name(mode: &RequestedExportMode) -> (s: &'static str)
    ensures
        s@ == (match *mode {
            RequestedExportMode::Scene { .. } => "scene"@,
            RequestedExportMode::Video { .. } => "video"@,
        }),
{
    match mode {
        RequestedExportMode::Scene { .. } => "scene",
        RequestedExportMode::Video { .. } => "video",
    }
}

/// The plan's mode, transformations and helpers, or `None` where the
/// requested mode does not fit the source's kind.
pub open spec fn spec_plan_parts(kind: WallpaperKind, mode: RequestedExportMode) -> Option<(ExportMode, Seq<Transformation>, Seq<HelperRequirement>)> {
    match (kind, mode) {
        (WallpaperKind::Scene, RequestedExportMode::Scene { profile, content_class }) => Some(spec_scene_plan(profile, content_class)),
        (WallpaperKind::Video, RequestedExportMode::Video { input }) => Some(spec_video_plan(input)),
        _ => None,
    }
}

/// A plan for exporting `source` as `request` asks. Web and Application
/// sources are refused as unsupported; an empty output or a mode that does
/// not fit the source's kind is an argument error.
pub fn build_export_plan(source: &SourceProject, request: ExportRequest) -> (r: Result<ExportPlan>)
    ensures
        (source.kind is Web || source.kind is Application) ==> (r matches Err(e) && e is UnsupportedWallpaperType
            && e->UnsupportedWallpaperType_kind@ == kind_name(source.kind)),
        (source.kind is Scene || source.kind is Video) ==> {
            &&& r is Ok <==> (request.output@.len() > 0 && spec_plan_parts(source.kind, request.mode) is Some)
            &&& r matches Err(e) ==> e is InvalidArguments
        },
        r matches Ok(plan) ==> {
            let parts = spec_plan_parts(source.kind, request.mode)->0;
            &&& plan.source@ == (if source.kind is Scene { source.root@ } else { source.entry_file@ })
            &&& plan.title@ == source.title@
            &&& plan.kind == source.kind
            &&& plan.mode == parts.0
            &&& plan.transformations@ == parts.1
            &&& plan.helpers@ == parts.2
            &&& plan.compatibility == (CompatibilityTarget::WeAndroid { major: 2, minor: 8 })
            &&& property_entries(plan.properties) == spec_plan_properties(source.manifest.spec_raw())
            &&& plan.estimated_size is None
            &&& plan.output@ == request.output@
        },
{
    match source.kind {
        WallpaperKind::Web | WallpaperKind::Application => {
            return Err(Error::unsupported_type(source.kind.as_str().to_owned()));
        },
        WallpaperKind::Scene | WallpaperKind::Video => {},
    }
    if request.output.as_str().is_empty() {
        return Err(Error::InvalidArguments { reason: "output path must not be empty".to_owned() });
    }
    let (mode, transformations, helpers) = match (source.kind, request.mode) {
        (WallpaperKind::Scene, RequestedExportMode::Scene { profile, content_class }) => scene_plan(profile, content_class),
        (WallpaperKind::Video, RequestedExportMode::Video { input }) => video_plan(input),
        (kind, requested) => {
            let m1 = concat("request mode ", request_name(&requested));
            let m2 = concat(m1.as_str(), " does not match ");
            let m3 = concat(m2.as_str(), kind.as_str());
            return Err(Error::InvalidArguments { reason: concat(m3.as_str(), " source") });
        },
    };
    let plan_source = match source.kind {
        WallpaperKind::Scene => source.root.clone(),
        _ => source.entry_file.clone(),
    };
    Ok(ExportPlan {
        source: plan_source,
        title: source.title.clone(),
        kind: source.kind,
        mode,
        compatibility: CompatibilityTarget::WeAndroid { major: 2, minor: 8 },
        properties: sanitized_properties(source.manifest.raw()),
        transformations,
        helpers,
        estimated_size: None,
        output: request.output,
    })
}

} // verus!

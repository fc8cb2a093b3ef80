//! Scene profiles: how a High, Balanced, Performance or custom profile
//! becomes a texture mode for a content class, and how the content class is
//! told from resolution tags and the Scene's projection size.

use vstd::prelude::*;
use crate::error::{Error, Result};
use crate::json::JsonValue;
use crate::mpkg::format::copy_range;
use crate::project::kind::{text_bytes, WallpaperKind};
use crate::text::{concat, contains_byte, is_digit, string_from_utf8};

verus! {

pub const PIXEL_ART_AREA_THRESHOLD: u64 = 307_200;
pub const UHD_AREA_THRESHOLD: u64 = 2_075_520;
pub const MAX_SCENE_DOCUMENT_BYTES: u64 = 67_108_864;

#[derive(Debug, Clone, Copy, PartialEq, Eq, Structural)]
pub enum Compression {
    HighQuality,
    HighPerformance,
}

#[derive(Debug, Clone, Copy, PartialEq, Eq, Structural)]
pub enum Reduction {
    Original,
    X2,
    X4,
}

#[derive(Debug, Clone, Copy, PartialEq, Eq, Structural)]
pub enum ContentClass {
    PixelArt,
    Normal,
    Uhd,
}

#[derive(Debug, Clone, Copy, PartialEq, Eq, Structural)]
pub enum SceneProfile {
    High,
    Balanced,
    Performance,
    Custom { compression: Compression, reduction: Reduction },
}

#[derive(Debug, Clone, Copy, PartialEq, Eq, Structural)]
pub enum SceneMode {
    Dynamic { compression: Compression, reduction: Reduction },
    PreRendered,
}

/// The profile matrix: a custom profile is taken as it is, Performance is
/// pre-rendered, High and Balanced pick compression and reduction by class.
pub open spec fn spec_scene_mode(profile: SceneProfile, class: ContentClass) -> SceneMode {
    match profile {
        SceneProfile::Custom { compression, reduction } => SceneMode::Dynamic { compression, reduction },
        SceneProfile::Performance => SceneMode::PreRendered,
        SceneProfile::High => match class {
            ContentClass::PixelArt => SceneMode::Dynamic {
                compression: Compression::HighQuality,
                reduction: Reduction::Original,
            },
            ContentClass::Normal => SceneMode::Dynamic {
                compression: Compression::HighPerformance,
                reduction: Reduction::Original,
            },
            ContentClass::Uhd => SceneMode::Dynamic {
                compression: Compression::HighPerformance,
                reduction: Reduction::X2,
            },
        },
        SceneProfile::Balanced => match class {
            ContentClass::PixelArt => SceneMode::Dynamic {
                compression: Compression::HighPerformance,
                reduction: Reduction::Original,
            },
            ContentClass::Normal => SceneMode::Dynamic {
                compression: Compression::HighPerformance,
                reduction: Reduction::X2,
            },
            ContentClass::Uhd => SceneMode::Dynamic {
                compression: Compression::HighPerformance,
                reduction: Reduction::X4,
            },
        },
    }
}

/// How many times a reduction shrinks each side.
pub open spec fn shrink(r: Reduction) -> int {
    match r {
        Reduction::Original => 1,
        Reduction::X2 => 2,
        Reduction::X4 => 4,
    }
}

/// Law of the profile matrix, for every content class:
/// - Performance is always pre-rendered;
/// - a custom profile gives dynamic textures with exactly its own
///   compression and reduction;
/// - High and Balanced are always dynamic; pixel art keeps its full size
///   under both; otherwise Balanced shrinks twice as much as High, which
///   keeps normal content at full size and halves UHD content;
/// - only pixel art under High keeps high-quality compression; every other
///   High or Balanced texture uses high-performance compression.
pub proof fn lemma_profile_matrix(class: ContentClass, compression: Compression, reduction: Reduction)
    ensures
        spec_scene_mode(SceneProfile::Performance, class) == SceneMode::PreRendered,
        spec_scene_mode(SceneProfile::Custom { compression, reduction }, class) == (SceneMode::Dynamic { compression, reduction }),
        spec_scene_mode(SceneProfile::High, class) is Dynamic,
        spec_scene_mode(SceneProfile::Balanced, class) is Dynamic,
        shrink(spec_scene_mode(SceneProfile::Balanced, class)->reduction) == if class == ContentClass::PixelArt {
            1int
        } else {
            2 * shrink(spec_scene_mode(SceneProfile::High, class)->reduction)
        },
        shrink(spec_scene_mode(SceneProfile::High, class)->reduction) == if class == ContentClass::Uhd { 2int } else { 1int },
        spec_scene_mode(SceneProfile::High, class)->compression == if class == ContentClass::PixelArt {
            Compression::HighQuality
        } else {
            Compression::HighPerformance
        },
        spec_scene_mode(SceneProfile::Balanced, class)->compression == Compression::HighPerformance,
{
}

pub fn resolve_scene_profile(profile: SceneProfile, class: ContentClass) -> (mode: SceneMode)
    ensures
        mode == spec_scene_mode(profile, class),
{
    match profile {
        SceneProfile::Custom { compression, reduction } => SceneMode::Dynamic { compression, reduction },
        SceneProfile::Performance => SceneMode::PreRendered,
        SceneProfile::High => match class {
            ContentClass::PixelArt => SceneMode::Dynamic {
                compression: Compression::HighQuality,
                reduction: Reduction::Original,
            },
            ContentClass::Normal => SceneMode::Dynamic {
                compression: Compression::HighPerformance,
                reduction: Reduction::Original,
            },
            ContentClass::Uhd => SceneMode::Dynamic {
                compression: Compression::HighPerformance,
                reduction: Reduction::X2,
            },
        },
        SceneProfile::Balanced => match class {
            ContentClass::PixelArt => SceneMode::Dynamic {
                compression: Compression::HighPerformance,
                reduction: Reduction::Original,
            },
            ContentClass::Normal => SceneMode::Dynamic {
                compression: Compression::HighPerformance,
                reduction: Reduction::X2,
            },
            ContentClass::Uhd => SceneMode::Dynamic {
                compression: Compression::HighPerformance,
                reduction: Reduction::X4,
            },
        },
    }
}

// ---------------------------------------------------------------------------
// Resolution tags

/// The maximal runs of ASCII digits in `b`, in order.
pub open spec fn digit_runs(b: Seq<u8>) -> Seq<Seq<u8>>
    decreases b.len(),
{
    if b.len() == 0 {
        Seq::empty()
    } else {
        let p = digit_runs(b.drop_last());
        let c = b.last();
        if !is_digit(c) {
            p
        } else if b.len() >= 2 && is_digit(b[b.len() - 2]) {
            p.update(p.len() - 1, p.last().push(c))
        } else {
            p.push(seq![c])
        }
    }
}

/// Decimal value of a run of digits.
pub open spec fn digits_value(s: Seq<u8>) -> nat
    decreases s.len(),
{
    if s.len() == 0 {
        0
    } else {
        digits_value(s.drop_last()) * 10 + (s.last() - 48) as nat
    }
}

pub open spec fn run_too_large(r: Seq<Seq<u8>>) -> bool {
    exists|j: int| 0 <= j < r.len() && digits_value(#[trigger] r[j]) > u64::MAX
}

/// A tag such as `1920x1080`: exactly two numbers, each within `u64`, and
/// an `x` in either case somewhere in the tag.
pub open spec fn spec_parse_resolution_tag(b: Seq<u8>) -> Option<(u64, u64)> {
    let r = digit_runs(b);
    if run_too_large(r) {
        None
    } else if r.len() == 2 && (b.contains(120u8) || b.contains(88u8)) {
        Some((digits_value(r[0]) as u64, digits_value(r[1]) as u64))
    } else {
        None
    }
}

pub fn parse_resolution_tag(tag: &[u8]) -> (r: Option<(u64, u64)>)
    ensures
        r == spec_parse_resolution_tag(tag@),
{
    let n = tag.len();
    let mut count: usize = 0;
    let mut in_run = false;
    let mut cur: u64 = 0;
    let mut cur_over = false;
    let mut overflow = false;
    let mut first: u64 = 0;
    let mut second: u64 = 0;
    let mut i: usize = 0;
    proof {
        assert(tag@.subrange(0, 0) =~= Seq::<u8>::empty());
    }
    while i < n
        invariant
            n == tag@.len(),
            i <= n,
            ({
                let r = digit_runs(tag@.subrange(0, i as int));
                &&& count == r.len()
                &&& count <= i
                &&& in_run == (i > 0 && is_digit(tag@[i - 1]))
                &&& in_run ==> r.len() > 0
                &&& in_run ==> (cur_over <==> digits_value(r.last()) > u64::MAX)
                &&& (in_run && !cur_over) ==> cur == digits_value(r.last())
                &&& overflow == run_too_large(r)
                &&& (r.len() >= 1 && digits_value(r[0]) <= u64::MAX) ==> first == digits_value(r[0])
                &&& (r.len() >= 2 && digits_value(r[1]) <= u64::MAX) ==> second == digits_value(r[1])
            }),
        decreases n - i,
    {
        let ghost r = digit_runs(tag@.subrange(0, i as int));
        let ghost t = tag@.subrange(0, i + 1);
        proof {
            assert(t.drop_last() =~= tag@.subrange(0, i as int));
            assert(t.last() == tag@[i as int]);
            if i > 0 {
                assert(t[t.len() - 2] == tag@[i - 1]);
            }
        }
        let c = tag[i];
        if !(48 <= c && c <= 57) {
            in_run = false;
            proof {
                assert(digit_runs(t) == r);
            }
        } else if in_run {
            let ghost r2 = r.update(r.len() - 1, r.last().push(c));
            proof {
                assert(digit_runs(t) == r2);
                assert(r.last().push(c).drop_last() =~= r.last());
                assert(digits_value(r2.last()) == digits_value(r.last()) * 10 + (c - 48));
            }
            if !cur_over {
                let d = (c - 48) as u64;
                if cur > (u64::MAX - d) / 10 {
                    cur_over = true;
                    overflow = true;
                    proof {
                        assert(digits_value(r2[r2.len() - 1]) > u64::MAX);
                    }
                } else {
                    cur = cur * 10 + d;
                    if count == 1 {
                        first = cur;
                    } else if count == 2 {
                        second = cur;
                    }
                }
            }
            proof {
                assert forall|j: int| 0 <= j < r2.len() - 1 implies r2[j] == r[j] by {}
                if run_too_large(r) {
                    let j = choose|j: int| 0 <= j < r.len() && digits_value(#[trigger] r[j]) > u64::MAX;
                    if j == r.len() - 1 {
                        assert(digits_value(r2[j]) > u64::MAX);
                    } else {
                        assert(r2[j] == r[j]);
                    }
                }
                if run_too_large(r2) {
                    let j = choose|j: int| 0 <= j < r2.len() && digits_value(#[trigger] r2[j]) > u64::MAX;
                    if j < r.len() - 1 {
                        assert(r2[j] == r[j]);
                    }
                }
            }
        } else {
            let ghost r2 = r.push(seq![c]);
            proof {
                assert(digit_runs(t) == r2);
                assert(seq![c].drop_last() =~= Seq::<u8>::empty());
                assert(digits_value(Seq::<u8>::empty()) == 0);
                assert(seq![c].last() == c);
                assert(digits_value(seq![c]) == c - 48);
                assert forall|j: int| 0 <= j < r.len() implies r2[j] == r[j] by {}
                if run_too_large(r) {
                    let j = choose|j: int| 0 <= j < r.len() && digits_value(#[trigger] r[j]) > u64::MAX;
                    assert(r2[j] == r[j]);
                }
                if run_too_large(r2) {
                    let j = choose|j: int| 0 <= j < r2.len() && digits_value(#[trigger] r2[j]) > u64::MAX;
                    if j < r.len() {
                        assert(r2[j] == r[j]);
                    }
                }
            }
            in_run = true;
            cur_over = false;
            cur = (c - 48) as u64;
            count = count + 1;
            if count == 1 {
                first = cur;
            } else if count == 2 {
                second = cur;
            }
        }
        i += 1;
    }
    proof {
        assert(tag@.subrange(0, n as int) =~= tag@);
    }
    if overflow || count != 2 {
        return None;
    }
    if contains_byte(tag, 120) || contains_byte(tag, 88) {
        Some((first, second))
    } else {
        None
    }
}

/// The resolution tags of a manifest, as UTF-8 bytes: the string items of a
/// `tags` array, or the comma-separated parts of a `tags` string.
pub open spec fn spec_manifest_tags(raw: JsonValue) -> Seq<Seq<u8>> {
    match raw.spec_get("tags"@) {
        Some(JsonValue::Array(items)) => string_items(items@),
        Some(JsonValue::String(s)) => split_bytes(text_bytes(s@), 44),
        _ => Seq::empty(),
    }
}

/// Law: when a manifest's `tags` member is an array, the tags read are its
/// string items in order, each as its UTF-8 bytes, and its other items are
/// skipped: every tag read is the text of some string item, there are as
/// many tags as string items, and an array of strings gives one tag per
/// item, in the array's order.
pub proof fn lemma_array_tags(raw: JsonValue, tags: Vec<JsonValue>)
    requires
        raw.spec_get("tags"@) == Some(JsonValue::Array(tags)),
    ensures
        spec_manifest_tags(raw) == tags@.filter_map(|v: JsonValue| text_of(v)),
        spec_manifest_tags(raw).len() == tags@.filter(|v: JsonValue| v is String).len(),
        forall|k: int| 0 <= k < spec_manifest_tags(raw).len() ==> item_text(tags@, #[trigger] spec_manifest_tags(raw)[k]),
        (forall|j: int| 0 <= j < tags@.len() ==> #[trigger] tags@[j] is String) ==> (spec_manifest_tags(raw).len()
            == tags@.len() && forall|j: int| 0 <= j < tags@.len() ==> text_of(#[trigger] tags@[j]) == Some(
            spec_manifest_tags(raw)[j],
        )),
{
    lemma_string_items(tags@);
}

/// The parts joined again with `sep` between them.
pub open spec fn join_bytes(parts: Seq<Seq<u8>>, sep: u8) -> Seq<u8>
    decreases parts.len(),
{
    if parts.len() == 0 {
        Seq::empty()
    } else if parts.len() == 1 {
        parts[0]
    } else {
        join_bytes(parts.drop_last(), sep).push(sep) + parts.last()
    }
}

/// Law: when a manifest's `tags` member is a string, the tags read are its
/// comma-separated parts: there is at least one, none holds a comma, and
/// joined again with commas they give the string's bytes.
pub proof fn lemma_string_tags(raw: JsonValue, tags: String)
    requires
        raw.spec_get("tags"@) == Some(JsonValue::String(tags)),
    ensures
        spec_manifest_tags(raw).len() > 0,
        forall|k: int| 0 <= k < spec_manifest_tags(raw).len() ==> !(#[trigger] spec_manifest_tags(raw)[k]).contains(44u8),
        join_bytes(spec_manifest_tags(raw), 44u8) == text_bytes(tags@),
{
    lemma_split_parts(text_bytes(tags@), 44u8);
}

proof fn lemma_split_parts(b: Seq<u8>, sep: u8)
    ensures
        split_bytes(b, sep).len() > 0,
        forall|k: int| 0 <= k < split_bytes(b, sep).len() ==> !(#[trigger] split_bytes(b, sep)[k]).contains(sep),
        join_bytes(split_bytes(b, sep), sep) == b,
    decreases b.len(),
{
    if b.len() == 0 {
        assert(split_bytes(b, sep) =~= seq![Seq::<u8>::empty()]);
        assert(join_bytes(seq![Seq::<u8>::empty()], sep) == Seq::<u8>::empty());
        assert(b =~= Seq::<u8>::empty());
    } else {
        let init = b.drop_last();
        lemma_split_parts(init, sep);
        let p = split_bytes(init, sep);
        let r = split_bytes(b, sep);
        if b.last() == sep {
            assert(r == p.push(Seq::empty()));
            assert(r.drop_last() =~= p);
            assert forall|k: int| 0 <= k < r.len() implies !(#[trigger] r[k]).contains(sep) by {
                if k < p.len() {
                    assert(r[k] == p[k]);
                }
            }
            assert(join_bytes(r, sep) == join_bytes(p, sep).push(sep) + Seq::<u8>::empty());
            assert(b =~= init.push(sep));
            assert(join_bytes(r, sep) =~= b);
        } else {
            let last = p.last().push(b.last());
            assert(r == p.update(p.len() - 1, last));
            assert forall|k: int| 0 <= k < r.len() implies !(#[trigger] r[k]).contains(sep) by {
                if k < p.len() - 1 {
                    assert(r[k] == p[k]);
                } else {
                    assert(!p[k].contains(sep));
                    if last.contains(sep) {
                        let i = choose|i: int| 0 <= i < last.len() && last[i] == sep;
                        if i < p.last().len() {
                            assert(p[k][i] == sep);
                        }
                    }
                }
            }
            if p.len() == 1 {
                assert(join_bytes(p, sep) == p[0]);
                assert(join_bytes(r, sep) == r[0]);
                assert(b =~= init.push(b.last()));
            } else {
                assert(r.drop_last() =~= p.drop_last());
                assert(join_bytes(p, sep) == join_bytes(p.drop_last(), sep).push(sep) + p.last());
                assert(join_bytes(r, sep) == join_bytes(p.drop_last(), sep).push(sep) + last);
                assert(join_bytes(r, sep) =~= join_bytes(p, sep).push(b.last()));
                assert(b =~= init.push(b.last()));
            }
        }
    }
}

/// `t` is the text of one of the items.
pub open spec fn item_text(items: Seq<JsonValue>, t: Seq<u8>) -> bool {
    exists|j: int| 0 <= j < items.len() && text_of(#[trigger] items[j]) == Some(t)
}

/// The UTF-8 bytes of a string value.
pub open spec fn text_of(v: JsonValue) -> Option<Seq<u8>> {
    match v {
        JsonValue::String(s) => Some(text_bytes(s@)),
        _ => None,
    }
}

proof fn lemma_string_items(items: Seq<JsonValue>)
    ensures
        string_items(items) == items.filter_map(|v: JsonValue| text_of(v)),
        string_items(items).len() == items.filter(|v: JsonValue| v is String).len(),
        forall|k: int| 0 <= k < string_items(items).len() ==> item_text(items, #[trigger] string_items(items)[k]),
        (forall|j: int| 0 <= j < items.len() ==> #[trigger] items[j] is String) ==> (string_items(items).len()
            == items.len() && forall|j: int| 0 <= j < items.len() ==> text_of(#[trigger] items[j]) == Some(
            string_items(items)[j],
        )),
    decreases items.len(),
{
    reveal_with_fuel(Seq::filter, 1);
    if items.len() > 0 {
        let init = items.drop_last();
        lemma_string_items(init);
        assert(items.filter(|v: JsonValue| v is String) == {
            let f = init.filter(|v: JsonValue| v is String);
            if items.last() is String { f.push(items.last()) } else { f }
        }) by {
            assert(items.drop_last() =~= init);
        }
        let p = string_items(init);
        assert(string_items(items) =~= items.filter_map(|v: JsonValue| text_of(v)));
        assert forall|k: int| 0 <= k < string_items(items).len() implies item_text(items, #[trigger] string_items(items)[k]) by {
            if k < p.len() {
                assert(item_text(init, p[k]));
                let j = choose|j: int| 0 <= j < init.len() && text_of(#[trigger] init[j]) == Some(p[k]);
                assert(items[j] == init[j]);
                assert(string_items(items)[k] == p[k]);
            } else {
                assert(text_of(items[items.len() - 1]) == Some(string_items(items)[k]));
            }
        }
        if forall|j: int| 0 <= j < items.len() ==> #[trigger] items[j] is String {
            assert forall|j: int| 0 <= j < init.len() implies #[trigger] init[j] is String by {
                assert(init[j] == items[j]);
            }
            assert forall|j: int| 0 <= j < items.len() implies text_of(#[trigger] items[j]) == Some(string_items(items)[j]) by {
                if j < init.len() {
                    assert(init[j] == items[j]);
                }
            }
        }
    }
}

/// Bytes of the string items, in order.
pub open spec fn string_items(items: Seq<JsonValue>) -> Seq<Seq<u8>>
    decreases items.len(),
{
    if items.len() == 0 {
        Seq::empty()
    } else {
        let p = string_items(items.drop_last());
        match items.last() {
            JsonValue::String(s) => p.push(text_bytes(s@)),
            _ => p,
        }
    }
}

/// The parts of `b` between separators `sep` (`str::split`).
pub open spec fn split_bytes(b: Seq<u8>, sep: u8) -> Seq<Seq<u8>>
    decreases b.len(),
{
    if b.len() == 0 {
        seq![Seq::empty()]
    } else {
        let p = split_bytes(b.drop_last(), sep);
        if b.last() == sep {
            p.push(Seq::empty())
        } else {
            p.update(p.len() - 1, p.last().push(b.last()))
        }
    }
}

proof fn lemma_split_nonempty(b: Seq<u8>, sep: u8)
    ensures
        split_bytes(b, sep).len() > 0,
    decreases b.len(),
{
    if b.len() > 0 {
        lemma_split_nonempty(b.drop_last(), sep);
    }
}

fn split_on(b: &[u8], sep: u8) -> (r: Vec<Vec<u8>>)
    ensures
        r@.len() == split_bytes(b@, sep).len(),
        forall|k: int| 0 <= k < r@.len() ==> (#[trigger] r@[k])@ == split_bytes(b@, sep)[k],
{
    let mut out: Vec<Vec<u8>> = Vec::new();
    let mut start: usize = 0;
    let mut i: usize = 0;
    proof {
        assert(b@.subrange(0, 0) =~= Seq::<u8>::empty());
        assert(b@.subrange(0, 0) =~= Seq::<u8>::empty());
    }
    while i < b.len()
        invariant
            start <= i <= b@.len(),
            ({
                let p = split_bytes(b@.subrange(0, i as int), sep);
                &&& out@.len() + 1 == p.len()
                &&& forall|k: int| 0 <= k < out@.len() ==> (#[trigger] out@[k])@ == p[k]
                &&& p.last() == b@.subrange(start as int, i as int)
            }),
        decreases b@.len() - i,
    {
        let ghost p = split_bytes(b@.subrange(0, i as int), sep);
        let ghost t = b@.subrange(0, i + 1);
        proof {
            assert(t.drop_last() =~= b@.subrange(0, i as int));
            assert(t.last() == b@[i as int]);
            lemma_split_nonempty(b@.subrange(0, i as int), sep);
        }
        if b[i] == sep {
            let piece = copy_range(b, start, i);
            out.push(piece);
            start = i + 1;
            proof {
                assert(b@.subrange(start as int, i + 1) =~= Seq::<u8>::empty());
            }
        } else {
            proof {
                assert(b@.subrange(start as int, i + 1) =~= b@.subrange(start as int, i as int).push(b@[i as int]));
            }
        }
        i += 1;
    }
    let last = copy_range(b, start, b.len());
    out.push(last);
    proof {
        assert(b@.subrange(0, b@.len() as int) =~= b@);
    }
    out
}

/// The manifest's resolution tags as bytes.
pub fn manifest_tags(raw: &JsonValue) -> (r: Vec<Vec<u8>>)
    ensures
        r@.len() == spec_manifest_tags(*raw).len(),
        forall|k: int| 0 <= k < r@.len() ==> (#[trigger] r@[k])@ == spec_manifest_tags(*raw)[k],
{
    match raw.get("tags") {
        Some(JsonValue::Array(items)) => {
            let mut out: Vec<Vec<u8>> = Vec::new();
            let mut i: usize = 0;
            proof {
                assert(items@.subrange(0, 0) =~= Seq::<JsonValue>::empty());
            }
            while i < items.len()
                invariant
                    i <= items@.len(),
                    out@.len() == string_items(items@.subrange(0, i as int)).len(),
                    forall|k: int| 0 <= k < out@.len() ==> (#[trigger] out@[k])@ == string_items(
                        items@.subrange(0, i as int),
                    )[k],
                decreases items@.len() - i,
            {
                proof {
                    assert(items@.subrange(0, i + 1).drop_last() =~= items@.subrange(0, i as int));
                }
                match &items[i] {
                    JsonValue::String(s) => {
                        let bytes = s.as_str().as_bytes();
                        out.push(copy_range(bytes, 0, bytes.len()));
                        proof {
                            assert(bytes@.subrange(0, bytes@.len() as int) =~= bytes@);
                        }
                    },
                    _ => {},
                }
                i += 1;
            }
            proof {
                assert(items@.subrange(0, items@.len() as int) =~= items@);
            }
            out
        },
        Some(JsonValue::String(s)) => split_on(s.as_str().as_bytes(), 44),
        _ => Vec::new(),
    }
}

// ---------------------------------------------------------------------------
// Content class

/// Where the tags alone decide the class, or the area found so far when the
/// Scene document's projection must be read to decide.
#[derive(Debug, Clone, Copy, PartialEq, Eq, Structural)]
pub enum ContentClassStep {
    Decided(ContentClass),
    NeedsScene { maximum_area: u64 },
}

pub open spec fn tag_area(tag: Seq<u8>) -> int {
    match spec_parse_resolution_tag(tag) {
        Some((w, h)) => w * h,
        None => 0,
    }
}

/// Largest resolution-tag area among the tags (0 when none parses).
pub open spec fn max_tag_area(tags: Seq<Seq<u8>>) -> int
    decreases tags.len(),
{
    if tags.len() == 0 {
        0
    } else {
        let m = max_tag_area(tags.drop_last());
        let a = tag_area(tags.last());
        if a > m { a } else { m }
    }
}

/// Some tag's area is larger than `u64` holds.
pub open spec fn tag_area_overflows(tags: Seq<Seq<u8>>) -> bool {
    exists|j: int| 0 <= j < tags.len() && tag_area(#[trigger] tags[j]) > u64::MAX
}

/// Some tag's area is above the UHD threshold.
pub open spec fn has_uhd_tag(tags: Seq<Seq<u8>>) -> bool {
    exists|j: int| 0 <= j < tags.len() && tag_area(#[trigger] tags[j]) > UHD_AREA_THRESHOLD
}

/// What the tags decide: any kind but Scene is Normal; a Scene with a tag
/// whose area overflows is refused; a UHD tag makes it Uhd; otherwise the
/// Scene's projection must be read, with the largest tag area so far.
pub open spec fn spec_classify_from_tags(kind: WallpaperKind, tags: Seq<Seq<u8>>) -> Option<ContentClassStep> {
    if kind != WallpaperKind::Scene {
        Some(ContentClassStep::Decided(ContentClass::Normal))
    } else if tag_area_overflows(tags) {
        None
    } else if has_uhd_tag(tags) {
        Some(ContentClassStep::Decided(ContentClass::Uhd))
    } else {
        Some(ContentClassStep::NeedsScene { maximum_area: max_tag_area(tags) as u64 })
    }
}

fn overflow_error(tag: &Vec<u8>) -> (e: Error)
    ensures
        e matches Error::InvalidProject { reason } && reason@ == "resolution tag area overflows: "@ + (if vstd::utf8::valid_utf8(
            tag@,
        ) {
            vstd::utf8::decode_utf8(tag@)
        } else {
            Seq::<char>::empty()
        }),
{
    let bytes = copy_range(tag.as_slice(), 0, tag.len());
    assert(bytes@ =~= tag@);
    let text = match string_from_utf8(bytes) {
        Some(s) => s,
        None => {
            let empty = String::new();
            assert(empty@ =~= Seq::<char>::empty());
            empty
        },
    };
    Error::InvalidProject { reason: concat("resolution tag area overflows: ", text.as_str()) }
}

/// The class decision that resolution tags make on their own.
pub fn classify_from_tags(kind: WallpaperKind, tags: &Vec<Vec<u8>>) -> (r: Result<ContentClassStep>)
    ensures
        r is Ok <==> spec_classify_from_tags(kind, deep_bytes(tags@)) is Some,
        r matches Ok(s) ==> spec_classify_from_tags(kind, deep_bytes(tags@)) == Some(s),
        r matches Err(e) ==> e is InvalidProject,
{
    let ghost all = deep_bytes(tags@);
    match kind {
        WallpaperKind::Scene => {},
        _ => {
            return Ok(ContentClassStep::Decided(ContentClass::Normal));
        },
    }
    let mut maximum_area: u64 = 0;
    let mut has_uhd = false;
    let mut i: usize = 0;
    proof {
        assert(all.subrange(0, 0) =~= Seq::<Seq<u8>>::empty());
    }
    while i < tags.len()
        invariant
            i <= tags@.len(),
            kind == WallpaperKind::Scene,
            all == deep_bytes(tags@),
            all.len() == tags@.len(),
            maximum_area == max_tag_area(all.subrange(0, i as int)),
            has_uhd == has_uhd_tag(all.subrange(0, i as int)),
            !tag_area_overflows(all.subrange(0, i as int)),
        decreases tags@.len() - i,
    {
        let ghost pre = all.subrange(0, i as int);
        let ghost next = all.subrange(0, i + 1);
        proof {
            assert(next.drop_last() =~= pre);
            assert(next.last() == tags@[i as int]@);
            assert forall|j: int| 0 <= j < i implies next[j] == pre[j] by {}
        }
        match parse_resolution_tag(tags[i].as_slice()) {
            Some((width, height)) => {
                match width.checked_mul(height) {
                    Some(area) => {
                        if area > maximum_area {
                            maximum_area = area;
                        }
                        if area > UHD_AREA_THRESHOLD {
                            has_uhd = true;
                        }
                        proof {
                            if has_uhd_tag(next) && !has_uhd_tag(pre) {
                                let j = choose|j: int| 0 <= j < next.len() && tag_area(#[trigger] next[j]) > UHD_AREA_THRESHOLD;
                                assert(j == i);
                            }
                            if has_uhd_tag(pre) {
                                let j = choose|j: int| 0 <= j < pre.len() && tag_area(#[trigger] pre[j]) > UHD_AREA_THRESHOLD;
                                assert(next[j] == pre[j]);
                            }
                            if tag_area_overflows(next) {
                                let j = choose|j: int| 0 <= j < next.len() && tag_area(#[trigger] next[j]) > u64::MAX;
                                assert(j != i);
                            }
                        }
                    },
                    None => {
                        proof {
                            assert(tag_area(all[i as int]) > u64::MAX);
                            assert(tag_area_overflows(all));
                        }
                        return Err(overflow_error(&tags[i]));
                    },
                }
            },
            None => {
                proof {
                    if has_uhd_tag(next) {
                        let j = choose|j: int| 0 <= j < next.len() && tag_area(#[trigger] next[j]) > UHD_AREA_THRESHOLD;
                        assert(j != i);
                    }
                    if has_uhd_tag(pre) {
                        let j = choose|j: int| 0 <= j < pre.len() && tag_area(#[trigger] pre[j]) > UHD_AREA_THRESHOLD;
                        assert(next[j] == pre[j]);
                    }
                    if tag_area_overflows(next) {
                        let j = choose|j: int| 0 <= j < next.len() && tag_area(#[trigger] next[j]) > u64::MAX;
                        assert(j != i);
                    }
                }
            },
        }
        i += 1;
    }
    proof {
        assert(all.subrange(0, tags@.len() as int) =~= all);
    }
    if has_uhd {
        Ok(ContentClassStep::Decided(ContentClass::Uhd))
    } else {
        Ok(ContentClassStep::NeedsScene { maximum_area })
    }
}

/// Bytes of each tag.
pub open spec fn deep_bytes(tags: Seq<Vec<u8>>) -> Seq<Seq<u8>> {
    Seq::new(tags.len(), |k: int| tags[k]@)
}

/// The class once the Scene's projection is known: the largest of the tag
/// area and the projection area decides Pixel Art below the threshold.
pub open spec fn spec_classify_with_scene(maximum_area: int, scene_dimensions: Option<(u64, u64)>) -> Option<ContentClass> {
    let area = match scene_dimensions {
        Some((w, h)) => if w * h > maximum_area { w * h } else { maximum_area },
        None => maximum_area,
    };
    match scene_dimensions {
        Some((w, h)) if w * h > u64::MAX => None,
        _ => if area != 0 && area < PIXEL_ART_AREA_THRESHOLD {
            Some(ContentClass::PixelArt)
        } else {
            Some(ContentClass::Normal)
        },
    }
}

pub fn classify_with_scene(maximum_area: u64, scene_dimensions: Option<(u64, u64)>) -> (r: Result<ContentClass>)
    ensures
        r is Ok <==> spec_classify_with_scene(maximum_area as int, scene_dimensions) is Some,
        r matches Ok(c) ==> spec_classify_with_scene(maximum_area as int, scene_dimensions) == Some(c),
        r matches Err(e) ==> e is InvalidProject,
{
    let mut area = maximum_area;
    if let Some((width, height)) = scene_dimensions {
        match width.checked_mul(height) {
            Some(a) => {
                if a > area {
                    area = a;
                }
            },
            None => {
                return Err(Error::InvalidProject { reason: "Scene projection area overflows".to_owned() });
            },
        }
    }
    if area != 0 && area < PIXEL_ART_AREA_THRESHOLD {
        Ok(ContentClass::PixelArt)
    } else {
        Ok(ContentClass::Normal)
    }
}

} // verus!

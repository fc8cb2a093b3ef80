//! The four kinds of Wallpaper Engine wallpaper.

use vstd::prelude::*;
use crate::error::{Error, Result};
use crate::text::{bytes_eq_ignore_case, concat, eq_ignore_case, has_ascii_extension, lemma_extension_of, lemma_no_extension, lower,
    no_separator, plain_piece, spec_has_extension};

verus! {

#[derive(Debug, Clone, Copy, PartialEq, Eq, Structural)]
pub enum WallpaperKind {
    Scene,
    Video,
    Web,
    Application,
}

/// UTF-8 bytes of a text.
pub open spec fn text_bytes(s: Seq<char>) -> Seq<u8> {
    vstd::utf8::encode_utf8(s)
}

/// Lower-case name of each kind.
pub open spec fn kind_name(k: WallpaperKind) -> Seq<char> {
    match k {
        WallpaperKind::Scene => "scene"@,
        WallpaperKind::Video => "video"@,
        WallpaperKind::Web => "web"@,
        WallpaperKind::Application => "application"@,
    }
}

/// The kind a `type` field names, compared without regard to ASCII case.
pub open spec fn spec_parse_declared(v: Seq<char>) -> Option<WallpaperKind> {
    let b = text_bytes(v);
    if eq_ignore_case(b, text_bytes("scene"@)) {
        Some(WallpaperKind::Scene)
    } else if eq_ignore_case(b, text_bytes("video"@)) {
        Some(WallpaperKind::Video)
    } else if eq_ignore_case(b, text_bytes("web"@)) {
        Some(WallpaperKind::Web)
    } else if eq_ignore_case(b, text_bytes("application"@)) {
        Some(WallpaperKind::Application)
    } else {
        None
    }
}

/// The kind an entry file's extension stands for.
pub open spec fn spec_infer_from_entry(entry: Seq<char>) -> Option<WallpaperKind> {
    let b = text_bytes(entry);
    if spec_has_extension(b, text_bytes("html"@)) || spec_has_extension(b, text_bytes("htm"@)) {
        Some(WallpaperKind::Web)
    } else if spec_has_extension(b, text_bytes("exe"@)) {
        Some(WallpaperKind::Application)
    } else if spec_has_extension(b, text_bytes("mp4"@)) || spec_has_extension(b, text_bytes("webm"@)) {
        Some(WallpaperKind::Video)
    } else if spec_has_extension(b, text_bytes("pkg"@)) {
        Some(WallpaperKind::Scene)
    } else {
        None
    }
}

impl WallpaperKind {
    pub fn as_str(self) -> (s: &'static str)
        ensures
            s@ == kind_name(self),
    {
        match self {
            WallpaperKind::Scene => "scene",
            WallpaperKind::Video => "video",
            WallpaperKind::Web => "web",
            WallpaperKind::Application => "application",
        }
    }

    /// The kind of a declared `type` value; an unknown name is an invalid
    /// project.
    pub fn parse_declared(value: &str) -> (r: Result<WallpaperKind>)
        ensures
            r is Ok <==> spec_parse_declared(value@) is Some,
            r matches Ok(k) ==> spec_parse_declared(value@) == Some(k),
            r matches Err(e) ==> e is InvalidProject,
    {
        let b = value.as_bytes();
        if bytes_eq_ignore_case(b, "scene".as_bytes()) {
            Ok(WallpaperKind::Scene)
        } else if bytes_eq_ignore_case(b, "video".as_bytes()) {
            Ok(WallpaperKind::Video)
        } else if bytes_eq_ignore_case(b, "web".as_bytes()) {
            Ok(WallpaperKind::Web)
        } else if bytes_eq_ignore_case(b, "application".as_bytes()) {
            Ok(WallpaperKind::Application)
        } else {
            Err(Error::InvalidProject { reason: concat("unknown wallpaper type: ", value) })
        }
    }

    /// The kind an entry file's extension implies, if any.
    pub fn infer_from_entry(entry: &str) -> (r: Option<WallpaperKind>)
        ensures
            r == spec_infer_from_entry(entry@),
    {
        let b = entry.as_bytes();
        if has_ascii_extension(b, "html".as_bytes()) || has_ascii_extension(b, "htm".as_bytes()) {
            Some(WallpaperKind::Web)
        } else if has_ascii_extension(b, "exe".as_bytes()) {
            Some(WallpaperKind::Application)
        } else if has_ascii_extension(b, "mp4".as_bytes()) || has_ascii_extension(b, "webm".as_bytes()) {
            Some(WallpaperKind::Video)
        } else if has_ascii_extension(b, "pkg".as_bytes()) {
            Some(WallpaperKind::Scene)
        } else {
            None
        }
    }
}

/// The text with each ASCII lower-case letter made upper case.
pub open spec fn ascii_upper(s: Seq<char>) -> Seq<char> {
    Seq::new(s.len(), |i: int| if 'a' <= s[i] && s[i] <= 'z' { ((s[i] as u32) - 32) as char } else { s[i] })
}

/// The UTF-8 bytes of an ASCII text are its characters' numbers.
proof fn lemma_ascii_text_bytes(s: Seq<char>)
    requires
        vstd::utf8::is_ascii_chars(s),
    ensures
        text_bytes(s) == Seq::new(s.len(), |i: int| s[i] as u8),
{
    vstd::utf8::is_ascii_chars_encode_utf8(s);
    assert(text_bytes(s) =~= Seq::new(s.len(), |i: int| s[i] as u8));
}

/// The four names, byte by byte.
proof fn lemma_kind_name_literals()
    ensures
        text_bytes("scene"@) == seq![115u8, 99u8, 101u8, 110u8, 101u8],
        text_bytes("video"@) == seq![118u8, 105u8, 100u8, 101u8, 111u8],
        text_bytes("web"@) == seq![119u8, 101u8, 98u8],
        text_bytes("application"@) == seq![97u8, 112u8, 112u8, 108u8, 105u8, 99u8, 97u8, 116u8, 105u8, 111u8, 110u8],
{
    reveal_strlit("scene");
    reveal_strlit("video");
    reveal_strlit("web");
    reveal_strlit("application");
    lemma_ascii_text_bytes("scene"@);
    lemma_ascii_text_bytes("video"@);
    lemma_ascii_text_bytes("web"@);
    lemma_ascii_text_bytes("application"@);
    assert(text_bytes("scene"@) =~= seq![115u8, 99u8, 101u8, 110u8, 101u8]);
    assert(text_bytes("video"@) =~= seq![118u8, 105u8, 100u8, 101u8, 111u8]);
    assert(text_bytes("web"@) =~= seq![119u8, 101u8, 98u8]);
    assert(text_bytes("application"@) =~= seq![97u8, 112u8, 112u8, 108u8, 105u8, 99u8, 97u8, 116u8, 105u8, 111u8,
        110u8]);
}

/// A declared `type` is read without regard to ASCII case: any text that
/// matches a kind's name, letter case aside, names that kind.
pub proof fn lemma_parse_declared_ignores_case(k: WallpaperKind, v: Seq<char>)
    requires
        eq_ignore_case(text_bytes(v), text_bytes(kind_name(k))),
    ensures
        spec_parse_declared(v) == Some(k),
{
    lemma_kind_name_literals();
    let b = text_bytes(v);
    assert(lower(b[0]) == lower(text_bytes(kind_name(k))[0]));
    match k {
        WallpaperKind::Video => {
            assert(!eq_ignore_case(b, text_bytes("scene"@)));
        },
        _ => {},
    }
}

/// Each kind's name parses back to the kind, in lower and in upper case,
/// and no two kinds share a name.
pub proof fn lemma_kind_name_round_trip(k: WallpaperKind, other: WallpaperKind)
    ensures
        spec_parse_declared(kind_name(k)) == Some(k),
        spec_parse_declared(ascii_upper(kind_name(k))) == Some(k),
        kind_name(k) == kind_name(other) ==> k == other,
{
    lemma_kind_name_literals();
    let n = kind_name(k);
    let b = text_bytes(n);
    assert(eq_ignore_case(b, b));
    lemma_parse_declared_ignores_case(k, n);
    reveal_strlit("scene");
    reveal_strlit("video");
    reveal_strlit("web");
    reveal_strlit("application");
    let u = ascii_upper(n);
    assert(vstd::utf8::is_ascii_chars(n));
    assert(vstd::utf8::is_ascii_chars(u));
    lemma_ascii_text_bytes(n);
    lemma_ascii_text_bytes(u);
    assert forall|i: int| 0 <= i < b.len() implies #[trigger] lower(text_bytes(u)[i]) == lower(b[i]) by {
        assert(text_bytes(u)[i] == u[i] as u8);
        assert(b[i] == n[i] as u8);
    }
    lemma_parse_declared_ignores_case(k, u);
    if kind_name(k) == kind_name(other) {
        assert(text_bytes(kind_name(k)) == text_bytes(kind_name(other)));
        assert(text_bytes(kind_name(k))[0] == text_bytes(kind_name(other))[0]);
    }
}

/// The extensions that name a kind, byte by byte.
pub proof fn lemma_extension_literals()
    ensures
        text_bytes("html"@) == seq![104u8, 116u8, 109u8, 108u8],
        text_bytes("htm"@) == seq![104u8, 116u8, 109u8],
        text_bytes("exe"@) == seq![101u8, 120u8, 101u8],
        text_bytes("mp4"@) == seq![109u8, 112u8, 52u8],
        text_bytes("webm"@) == seq![119u8, 101u8, 98u8, 109u8],
        text_bytes("pkg"@) == seq![112u8, 107u8, 103u8],
{
    reveal_strlit("html");
    reveal_strlit("htm");
    reveal_strlit("exe");
    reveal_strlit("mp4");
    reveal_strlit("webm");
    reveal_strlit("pkg");
    lemma_ascii_text_bytes("html"@);
    lemma_ascii_text_bytes("htm"@);
    lemma_ascii_text_bytes("exe"@);
    lemma_ascii_text_bytes("mp4"@);
    lemma_ascii_text_bytes("webm"@);
    lemma_ascii_text_bytes("pkg"@);
    assert(text_bytes("html"@) =~= seq![104u8, 116u8, 109u8, 108u8]);
    assert(text_bytes("htm"@) =~= seq![104u8, 116u8, 109u8]);
    assert(text_bytes("exe"@) =~= seq![101u8, 120u8, 101u8]);
    assert(text_bytes("mp4"@) =~= seq![109u8, 112u8, 52u8]);
    assert(text_bytes("webm"@) =~= seq![119u8, 101u8, 98u8, 109u8]);
    assert(text_bytes("pkg"@) =~= seq![112u8, 107u8, 103u8]);
}

/// The kind an entry file implies goes by its last extension, in any ASCII
/// case: `html` or `htm` is a web page, `exe` an application, `mp4` or
/// `webm` a video, `pkg` a Scene, and any other extension implies nothing.
/// Stated for an entry `prefix + stem + "." + ext`, where `prefix` is empty
/// or ends in `/`, `stem` is non-empty without `/` and `ext` is non-empty
/// without dots or `/`.
pub proof fn lemma_infer_from_extension(entry: Seq<char>, prefix: Seq<u8>, stem: Seq<u8>, ext: Seq<u8>)
    requires
        text_bytes(entry) == prefix + stem + seq![46u8] + ext,
        prefix.len() == 0 || prefix.last() == 47u8,
        stem.len() > 0,
        ext.len() > 0,
        no_separator(stem),
        plain_piece(ext),
    ensures
        eq_ignore_case(ext, seq![104u8, 116u8, 109u8, 108u8]) || eq_ignore_case(ext, seq![104u8, 116u8, 109u8])
            ==> spec_infer_from_entry(entry) == Some(WallpaperKind::Web),
        eq_ignore_case(ext, seq![101u8, 120u8, 101u8]) ==> spec_infer_from_entry(entry) == Some(WallpaperKind::Application),
        eq_ignore_case(ext, seq![109u8, 112u8, 52u8]) || eq_ignore_case(ext, seq![119u8, 101u8, 98u8, 109u8])
            ==> spec_infer_from_entry(entry) == Some(WallpaperKind::Video),
        eq_ignore_case(ext, seq![112u8, 107u8, 103u8]) ==> spec_infer_from_entry(entry) == Some(WallpaperKind::Scene),
        !eq_ignore_case(ext, seq![104u8, 116u8, 109u8, 108u8]) && !eq_ignore_case(ext, seq![104u8, 116u8, 109u8])
            && !eq_ignore_case(ext, seq![101u8, 120u8, 101u8]) && !eq_ignore_case(ext, seq![109u8, 112u8, 52u8])
            && !eq_ignore_case(ext, seq![119u8, 101u8, 98u8, 109u8]) && !eq_ignore_case(ext, seq![112u8, 107u8, 103u8])
            ==> spec_infer_from_entry(entry) is None,
{
    lemma_extension_literals();
    lemma_extension_of(prefix, stem, ext);
    let b = text_bytes(entry);
    assert(spec_has_extension(b, text_bytes("html"@)) == eq_ignore_case(ext, text_bytes("html"@)));
    assert(spec_has_extension(b, text_bytes("htm"@)) == eq_ignore_case(ext, text_bytes("htm"@)));
    assert(spec_has_extension(b, text_bytes("exe"@)) == eq_ignore_case(ext, text_bytes("exe"@)));
    assert(spec_has_extension(b, text_bytes("mp4"@)) == eq_ignore_case(ext, text_bytes("mp4"@)));
    assert(spec_has_extension(b, text_bytes("webm"@)) == eq_ignore_case(ext, text_bytes("webm"@)));
    assert(spec_has_extension(b, text_bytes("pkg"@)) == eq_ignore_case(ext, text_bytes("pkg"@)));
    if ext.len() > 0 {
        assert(lower(ext[0]) == lower(ext[0]));
    }
    if eq_ignore_case(ext, seq![109u8, 112u8, 52u8]) || eq_ignore_case(ext, seq![112u8, 107u8, 103u8])
        || eq_ignore_case(ext, seq![119u8, 101u8, 98u8, 109u8]) || eq_ignore_case(ext, seq![101u8, 120u8, 101u8]) {
        assert(lower(ext[0]) != 104u8);
        assert(!eq_ignore_case(ext, seq![104u8, 116u8, 109u8, 108u8]));
        assert(!eq_ignore_case(ext, seq![104u8, 116u8, 109u8]));
    }
    if eq_ignore_case(ext, seq![109u8, 112u8, 52u8]) || eq_ignore_case(ext, seq![112u8, 107u8, 103u8])
        || eq_ignore_case(ext, seq![119u8, 101u8, 98u8, 109u8]) {
        assert(lower(ext[0]) != 101u8);
        assert(!eq_ignore_case(ext, seq![101u8, 120u8, 101u8]));
    }
    if eq_ignore_case(ext, seq![112u8, 107u8, 103u8]) {
        assert(lower(ext[0]) != 109u8);
        assert(!eq_ignore_case(ext, seq![109u8, 112u8, 52u8]));
    }
}

/// An entry file name without a dot implies no kind.
pub proof fn lemma_infer_without_extension(entry: Seq<char>, prefix: Seq<u8>, stem: Seq<u8>)
    requires
        text_bytes(entry) == prefix + stem,
        prefix.len() == 0 || prefix.last() == 47u8,
        stem.len() > 0,
        plain_piece(stem),
    ensures
        spec_infer_from_entry(entry) is None,
{
    lemma_no_extension(prefix, stem);
    let b = text_bytes(entry);
    assert(!spec_has_extension(b, text_bytes("html"@)));
    assert(!spec_has_extension(b, text_bytes("htm"@)));
    assert(!spec_has_extension(b, text_bytes("exe"@)));
    assert(!spec_has_extension(b, text_bytes("mp4"@)));
    assert(!spec_has_extension(b, text_bytes("webm"@)));
    assert(!spec_has_extension(b, text_bytes("pkg"@)));
}

} // verus!

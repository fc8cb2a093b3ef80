//! The resource compiler helper: the arguments it is launched with, the
//! bounded capture of its output, how a launch failure is reported, and the
//! checks on what `winepath` and the compiler produce.

use vstd::prelude::*;
use crate::backend::TextureTranscodeRequest;
use crate::error::{Error, Result};
use crate::profile::{Compression, Reduction};
use crate::scene::package::{is_tex_v5, tex_v5_magic};
use crate::text::{concat, contains_byte, string_from_utf8};

verus! {

/// Bytes of helper output kept for a diagnostic.
pub const DIAGNOSTIC_LIMIT: usize = 8192;

/// Output of a helper stream, cut at the diagnostic limit.
#[derive(Debug)]
pub struct CapturedStream {
    bytes: Vec<u8>,
    truncated: bool,
}

impl CapturedStream {
    pub closed spec fn spec_bytes(&self) -> Seq<u8> {
        self.bytes@
    }

    pub closed spec fn spec_truncated(&self) -> bool {
        self.truncated
    }

    pub fn new() -> (r: CapturedStream)
        ensures
            r.spec_bytes() == Seq::<u8>::empty(),
            !r.spec_truncated(),
    {
        CapturedStream { bytes: Vec::new(), truncated: false }
    }

    /// Keeps what of `chunk` fits below the limit and notes what was cut.
    pub fn retain(&mut self, chunk: &[u8])
        requires
            old(self).spec_bytes().len() <= DIAGNOSTIC_LIMIT,
        ensures
            ({
                let room = DIAGNOSTIC_LIMIT - old(self).spec_bytes().len();
                let kept = if chunk@.len() <= room { chunk@.len() as int } else { room };
                &&& final(self).spec_bytes() == old(self).spec_bytes() + chunk@.subrange(0, kept)
                &&& final(self).spec_truncated() == (old(self).spec_truncated() || kept < chunk@.len())
            }),
            final(self).spec_bytes().len() <= DIAGNOSTIC_LIMIT,
    {
        let room = DIAGNOSTIC_LIMIT - self.bytes.len();
        let kept = if chunk.len() <= room { chunk.len() } else { room };
        let mut i: usize = 0;
        let ghost start = self.bytes@;
        let ghost t0 = self.truncated;
        while i < kept
            invariant
                self.truncated == t0,
                kept <= chunk@.len(),
                i <= kept,
                self.bytes@ == start + chunk@.subrange(0, i as int),
            decreases kept - i,
        {
            self.bytes.push(chunk[i]);
            i += 1;
            assert(self.bytes@ =~= start + chunk@.subrange(0, i as int));
        }
        if kept < chunk.len() {
            self.truncated = true;
        }
    }

    pub fn bytes(&self) -> (r: &[u8])
        ensures
            r@ == self.spec_bytes(),
    {
        self.bytes.as_slice()
    }

    pub fn truncated(&self) -> (r: bool)
        ensures
            r == self.spec_truncated(),
    {
        self.truncated
    }

    /// The captured text without surrounding white space, `<empty>` when
    /// nothing is left, and ` [truncated]` after it when output was cut.
    pub fn diagnostic(&self) -> (r: String)
        ensures
            r@ == diagnostic_text(spec_trim(lossy_text(self.spec_bytes())), self.spec_truncated()),
            vstd::utf8::valid_utf8(self.spec_bytes()) ==> r@ == diagnostic_text(
                spec_trim(vstd::utf8::decode_utf8(self.spec_bytes())),
                self.spec_truncated(),
            ),
    {
        let text = utf8_lossy(self.bytes.as_slice());
        let trimmed = trim_text(text.as_str());
        let base = if trimmed.is_empty() { "<empty>".to_owned() } else { trimmed.to_owned() };
        if self.truncated {
            concat(base.as_str(), " [truncated]")
        } else {
            base
        }
    }
}

pub open spec fn diagnostic_text(trimmed: Seq<char>, truncated: bool) -> Seq<char> {
    let base = if trimmed.len() == 0 { "<empty>"@ } else { trimmed };
    if truncated { base + " [truncated]"@ } else { base }
}

/// Unicode `White_Space` characters.
pub open spec fn is_white_space(c: char) -> bool {
    let v = c as u32;
    (0x9 <= v && v <= 0xd) || v == 0x20 || v == 0x85 || v == 0xa0 || v == 0x1680 || (0x2000 <= v && v <= 0x200a)
        || v == 0x2028 || v == 0x2029 || v == 0x202f || v == 0x205f || v == 0x3000
}

pub open spec fn trim_start(s: Seq<char>) -> Seq<char>
    decreases s.len(),
{
    if s.len() > 0 && is_white_space(s[0]) {
        trim_start(s.drop_first())
    } else {
        s
    }
}

pub open spec fn trim_end(s: Seq<char>) -> Seq<char>
    decreases s.len(),
{
    if s.len() > 0 && is_white_space(s.last()) {
        trim_end(s.drop_last())
    } else {
        s
    }
}

/// The text without leading and trailing white space.
pub open spec fn spec_trim(s: Seq<char>) -> Seq<char> {
    trim_end(trim_start(s))
}

/// What `String::from_utf8_lossy` makes of `bytes`: the decoded text, with
/// U+FFFD in place of each invalid sequence.
pub uninterp spec fn lossy_text(bytes: Seq<u8>) -> Seq<char>;

/// `String::from_utf8_lossy`: the text named by [`lossy_text`], which on
/// valid UTF-8 is the decoded text.
#[verifier::external_body]
fn utf8_lossy(bytes: &[u8]) -> (r: String)
    ensures
        r@ == lossy_text(bytes@),
        vstd::utf8::valid_utf8(bytes@) ==> r@ == vstd::utf8::decode_utf8(bytes@),
{
    String::from_utf8_lossy(bytes).into_owned()
}

/// `str::trim`: the text without leading and trailing Unicode white space.
#[verifier::external_body]
pub(crate) fn trim_text(s: &str) -> (r: &str)
    ensures
        r@ == spec_trim(s@),
{
    s.trim()
}

/// How running a helper failed before it could report a status.
#[derive(Debug, Clone, PartialEq, Eq)]
pub enum ProcessFailure {
    /// The program was not found.
    SpawnNotFound { message: String },
    Spawn { message: String },
    Wait { message: String },
    Capture { stream: String, message: String },
    CapturePanicked { stream: String },
}

impl ProcessFailure {
    /// A missing program means the backend is unavailable; every other
    /// failure is a conversion failure.
    pub fn into_error(self, name: &str, path: &str) -> (e: Error)
        ensures
            self is SpawnNotFound ==> e is BackendUnavailable,
            !(self is SpawnNotFound) ==> e is ConversionFailed,
    {
        match self {
            ProcessFailure::SpawnNotFound { message } => {
                let m1 = concat(name, " could not be launched at ");
                let m2 = concat(m1.as_str(), path);
                let m3 = concat(m2.as_str(), ": ");
                Error::BackendUnavailable { backend: concat(m3.as_str(), message.as_str()) }
            },
            ProcessFailure::Spawn { message } => {
                let m1 = concat("could not launch ", name);
                let m2 = concat(m1.as_str(), " at ");
                let m3 = concat(m2.as_str(), path);
                let m4 = concat(m3.as_str(), ": ");
                Error::ConversionFailed { reason: concat(m4.as_str(), message.as_str()) }
            },
            ProcessFailure::Wait { message } => {
                let m1 = concat("failed while waiting for ", name);
                let m2 = concat(m1.as_str(), " at ");
                let m3 = concat(m2.as_str(), path);
                let m4 = concat(m3.as_str(), ": ");
                Error::ConversionFailed { reason: concat(m4.as_str(), message.as_str()) }
            },
            ProcessFailure::Capture { stream, message } => {
                let m1 = concat("failed while reading ", name);
                let m2 = concat(m1.as_str(), " ");
                let m3 = concat(m2.as_str(), stream.as_str());
                let m4 = concat(m3.as_str(), " at ");
                let m5 = concat(m4.as_str(), path);
                let m6 = concat(m5.as_str(), ": ");
                Error::ConversionFailed { reason: concat(m6.as_str(), message.as_str()) }
            },
            ProcessFailure::CapturePanicked { stream } => {
                let m1 = concat("failed while reading ", name);
                let m2 = concat(m1.as_str(), " ");
                let m3 = concat(m2.as_str(), stream.as_str());
                let m4 = concat(m3.as_str(), " at ");
                Error::ConversionFailed { reason: concat(m4.as_str(), path) }
            },
        }
    }
}

/// `{name} exited with {status}; stdout: ...; stderr: ...`.
pub fn describe_process_failure(name: &str, status: &str, stdout: &CapturedStream, stderr: &CapturedStream) -> (s: String)
    ensures
        s@ == name@ + " exited with "@ + status@ + "; stdout: "@ + diagnostic_text(
            spec_trim(lossy_text(stdout.spec_bytes())),
            stdout.spec_truncated(),
        ) + "; stderr: "@ + diagnostic_text(spec_trim(lossy_text(stderr.spec_bytes())), stderr.spec_truncated()),
        vstd::utf8::valid_utf8(stdout.spec_bytes()) && vstd::utf8::valid_utf8(stderr.spec_bytes()) ==> s@ == name@
            + " exited with "@ + status@ + "; stdout: "@ + diagnostic_text(
            spec_trim(vstd::utf8::decode_utf8(stdout.spec_bytes())),
            stdout.spec_truncated(),
        ) + "; stderr: "@ + diagnostic_text(
            spec_trim(vstd::utf8::decode_utf8(stderr.spec_bytes())),
            stderr.spec_truncated(),
        ),
{
    let out = stdout.diagnostic();
    let err = stderr.diagnostic();
    let m1 = concat(name, " exited with ");
    let m2 = concat(m1.as_str(), status);
    let m3 = concat(m2.as_str(), "; stdout: ");
    let m4 = concat(m3.as_str(), out.as_str());
    let m5 = concat(m4.as_str(), "; stderr: ");
    concat(m5.as_str(), err.as_str())
}

/// The bytes without trailing line feeds and carriage returns.
pub open spec fn trim_line_ends(b: Seq<u8>) -> Seq<u8>
    decreases b.len(),
{
    if b.len() > 0 && (b.last() == 10 || b.last() == 13) {
        trim_line_ends(b.drop_last())
    } else {
        b
    }
}

/// What `winepath -w` printed, as the translated path: not cut at the
/// limit, one non-empty line after trailing line ends are dropped, and
/// valid UTF-8.
pub open spec fn spec_winepath_output(bytes: Seq<u8>, truncated: bool) -> Option<Seq<u8>> {
    let t = trim_line_ends(bytes);
    if truncated || t.len() == 0 || t.contains(10u8) || t.contains(13u8) || !vstd::utf8::valid_utf8(t) {
        None
    } else {
        Some(t)
    }
}

pub fn winepath_output(stdout: &CapturedStream, label: &str, path: &str) -> (r: Result<String>)
    ensures
        r is Ok <==> spec_winepath_output(stdout.spec_bytes(), stdout.spec_truncated()) is Some,
        r matches Ok(s) ==> spec_winepath_output(stdout.spec_bytes(), stdout.spec_truncated()) == Some(
            vstd::utf8::encode_utf8(s@),
        ),
        r matches Err(e) ==> e is ConversionFailed,
{
    let m1 = concat(label, " ");
    let subject = concat(m1.as_str(), path);
    if stdout.truncated() {
        return Err(Error::ConversionFailed { reason: concat("winepath returned an overlong Windows path for ", subject.as_str()) });
    }
    let bytes = stdout.bytes();
    let mut end = bytes.len();
    proof {
        assert(bytes@.subrange(0, end as int) =~= bytes@);
    }
    while end > 0 && (bytes[end - 1] == 10 || bytes[end - 1] == 13)
        invariant
            end <= bytes@.len(),
            trim_line_ends(bytes@.subrange(0, end as int)) == trim_line_ends(bytes@),
        decreases end,
    {
        assert(bytes@.subrange(0, end as int).drop_last() =~= bytes@.subrange(0, end - 1));
        end -= 1;
    }
    let mut kept: Vec<u8> = Vec::new();
    let mut i: usize = 0;
    while i < end
        invariant
            end <= bytes@.len(),
            i <= end,
            kept@ == bytes@.subrange(0, i as int),
        decreases end - i,
    {
        kept.push(bytes[i]);
        i += 1;
        assert(kept@ =~= bytes@.subrange(0, i as int));
    }
    proof {
        let t = bytes@.subrange(0, end as int);
        assert(trim_line_ends(t) == t);
    }
    if kept.len() == 0 || contains_byte(kept.as_slice(), 10) || contains_byte(kept.as_slice(), 13) {
        return Err(Error::ConversionFailed { reason: concat("winepath returned a suspicious Windows path for ", subject.as_str()) });
    }
    let ghost t = kept@;
    match string_from_utf8(kept) {
        Some(s) => {
            proof {
                vstd::utf8::decode_utf8_encode_utf8(t);
            }
            Ok(s)
        },
        None => Err(Error::ConversionFailed { reason: concat("winepath returned a non-UTF-8 Windows path for ", subject.as_str()) }),
    }
}

/// The texts of the arguments.
pub open spec fn texts(v: Seq<String>) -> Seq<Seq<char>> {
    Seq::new(v.len(), |k: int| v[k]@)
}

pub open spec fn shrink_factor(r: Reduction) -> Seq<char> {
    match r {
        Reduction::Original => "1"@,
        Reduction::X2 => "2"@,
        Reduction::X4 => "4"@,
    }
}

/// The compiler's arguments for a texture: transcode `input` into `output`
/// as ETC2, forcing compression for high performance, shrunk by the
/// reduction factor, with one mipmap.
pub open spec fn spec_compiler_arguments(input: Seq<char>, output: Seq<char>, compression: Compression, reduction: Reduction) -> Seq<Seq<char>> {
    seq!["-transcode"@, "-i"@, input, "-o"@, output, "-f"@, "ETC2"@]
        + (if compression == Compression::HighPerformance { seq!["-c"@, "force"@] } else { Seq::empty() })
        + seq!["-shrink"@, shrink_factor(reduction), "-maxmipmaps"@, "1"@]
}

fn push_text(args: &mut Vec<String>, s: &str)
    ensures
        texts(final(args)@) == texts(old(args)@).push(s@),
{
    let ghost before = texts(args@);
    args.push(s.to_owned());
    assert(texts(args@) =~= before.push(s@));
}

pub fn compiler_arguments(input: &str, output: &str, request: &TextureTranscodeRequest) -> (r: Vec<String>)
    ensures
        texts(r@) == spec_compiler_arguments(input@, output@, request.compression, request.reduction),
{
    let mut args: Vec<String> = Vec::new();
    assert(texts(args@) =~= Seq::<Seq<char>>::empty());
    push_text(&mut args, "-transcode");
    push_text(&mut args, "-i");
    push_text(&mut args, input);
    push_text(&mut args, "-o");
    push_text(&mut args, output);
    push_text(&mut args, "-f");
    push_text(&mut args, "ETC2");
    let ghost head = texts(args@);
    assert(head =~= seq!["-transcode"@, "-i"@, input@, "-o"@, output@, "-f"@, "ETC2"@]);
    let force = match request.compression {
        Compression::HighPerformance => true,
        Compression::HighQuality => false,
    };
    if force {
        push_text(&mut args, "-c");
        push_text(&mut args, "force");
    }
    let ghost mid = texts(args@);
    assert(mid =~= head + (if request.compression == Compression::HighPerformance { seq!["-c"@, "force"@] } else { Seq::<Seq<char>>::empty() }));
    push_text(&mut args, "-shrink");
    let factor = match request.reduction {
        Reduction::Original => "1",
        Reduction::X2 => "2",
        Reduction::X4 => "4",
    };
    push_text(&mut args, factor);
    push_text(&mut args, "-maxmipmaps");
    push_text(&mut args, "1");
    assert(texts(args@) =~= mid + seq!["-shrink"@, shrink_factor(request.reduction), "-maxmipmaps"@, "1"@]);
    args
}

/// How the compiler is launched: natively, or through Wine with its
/// `winepath` helper.
#[derive(Debug, Clone, PartialEq, Eq)]
pub enum LaunchMode {
    Native,
    Wine { wine: String, winepath: String },
}

/// The resource compiler and how it is launched; paths are held as text.
#[derive(Debug, Clone, PartialEq, Eq)]
pub struct ResourceCompilerBackend {
    pub compiler: String,
    pub launch_mode: LaunchMode,
}

impl ResourceCompilerBackend {
    pub fn native(compiler: String) -> (b: ResourceCompilerBackend)
        ensures
            b == (ResourceCompilerBackend { compiler, launch_mode: LaunchMode::Native }),
    {
        ResourceCompilerBackend { compiler, launch_mode: LaunchMode::Native }
    }

    pub fn wine(compiler: String, wine: String, winepath: String) -> (b: ResourceCompilerBackend)
        ensures
            b == (ResourceCompilerBackend { compiler, launch_mode: LaunchMode::Wine { wine, winepath } }),
    {
        ResourceCompilerBackend { compiler, launch_mode: LaunchMode::Wine { wine, winepath } }
    }

    /// The compiler makes exactly one mipmap.
    pub fn validate_request(&self, request: &TextureTranscodeRequest) -> (r: Result<()>)
        ensures
            r is Ok <==> request.max_mipmaps == 1,
            r matches Err(e) ==> e is InvalidArguments,
    {
        if request.max_mipmaps != 1 {
            return Err(Error::InvalidArguments {
                reason: concat("resource compiler requires max_mipmaps 1, got ", crate::text::decimal(request.max_mipmaps as u64).as_str()),
            });
        }
        Ok(())
    }

    /// The name and path of the program that is launched.
    pub fn process_name(&self) -> (r: (&'static str, &String))
        ensures
            match self.launch_mode {
                LaunchMode::Native => r.0@ == "resource compiler"@ && *r.1 == self.compiler,
                LaunchMode::Wine { wine, .. } => r.0@ == "Wine runtime"@ && *r.1 == wine,
            },
    {
        match &self.launch_mode {
            LaunchMode::Native => ("resource compiler", &self.compiler),
            LaunchMode::Wine { wine, .. } => ("Wine runtime", wine),
        }
    }
}

/// The compiler's output must be a non-empty regular file that starts with
/// the TEXV0005 magic (`header` holds its first bytes, or fewer when the
/// file is shorter or unreadable).
pub fn check_created_output(is_file: bool, len: u64, header: &[u8]) -> (r: Result<()>)
    ensures
        r is Ok <==> (is_file && len > 0 && header@.len() >= 9 && header@.subrange(0, 9) == tex_v5_magic()),
        r matches Err(e) ==> e is ConversionFailed,
{
    if !is_file {
        return Err(Error::ConversionFailed { reason: "resource compiler output is not a regular file".to_owned() });
    }
    if len == 0 {
        return Err(Error::ConversionFailed { reason: "resource compiler created an empty output".to_owned() });
    }
    if !is_tex_v5(header) {
        return Err(Error::ConversionFailed { reason: "resource compiler output does not begin with TEXV0005\\0".to_owned() });
    }
    Ok(())
}

} // verus!

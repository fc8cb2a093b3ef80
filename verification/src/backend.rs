//! Helper programs: the capabilities an export needs and the texture
//! transcoding contract a resource backend must honour.

use vstd::prelude::*;
use crate::error::{Error, Result};
use crate::profile::{Compression, Reduction};
use crate::text::concat;
use crate::os_path::{paths_equal, same_path};

verus! {

#[derive(Debug, Clone, Copy, PartialEq, Eq, Hash, Structural)]
pub enum HelperRequirement {
    ResourceTranscode,
    SceneCapture,
    H264Encode,
}

#[derive(Debug, Clone, PartialEq, Eq)]
pub struct BackendCapabilities {
    pub protocol_version: u32,
    pub requirements: Vec<HelperRequirement>,
}

/// The requirements of `required` that `have` lacks, in their order.
pub open spec fn spec_missing(have: Seq<HelperRequirement>, required: Seq<HelperRequirement>) -> Seq<HelperRequirement>
    decreases required.len(),
{
    if required.len() == 0 {
        Seq::empty()
    } else {
        let p = spec_missing(have, required.drop_last());
        if have.contains(required.last()) {
            p
        } else {
            p.push(required.last())
        }
    }
}

impl BackendCapabilities {
    pub fn satisfies(&self, requirement: &HelperRequirement) -> (r: bool)
        ensures
            r == self.requirements@.contains(*requirement),
    {
        let mut i: usize = 0;
        while i < self.requirements.len()
            invariant
                i <= self.requirements@.len(),
                forall|j: int| 0 <= j < i ==> self.requirements@[j] != *requirement,
            decreases self.requirements@.len() - i,
        {
            if self.requirements[i] == *requirement {
                assert(self.requirements@[i as int] == *requirement);
                return true;
            }
            i += 1;
        }
        false
    }

    pub fn missing_requirements(&self, required: &[HelperRequirement]) -> (r: Vec<HelperRequirement>)
        ensures
            r@ == spec_missing(self.requirements@, required@),
    {
        let mut out: Vec<HelperRequirement> = Vec::new();
        let mut i: usize = 0;
        while i < required.len()
            invariant
                i <= required@.len(),
                out@ == spec_missing(self.requirements@, required@.subrange(0, i as int)),
            decreases required@.len() - i,
        {
            proof {
                assert(required@.subrange(0, i + 1).drop_last() =~= required@.subrange(0, i as int));
            }
            let requirement = required[i];
            if !self.satisfies(&requirement) {
                out.push(requirement);
            }
            i += 1;
        }
        proof {
            assert(required@.subrange(0, required@.len() as int) =~= required@);
        }
        out
    }
}

/// A texture to transcode: input and output paths (as text), the
/// compression and reduction, and the mipmap count, which is always 1.
#[derive(Debug, Clone, PartialEq, Eq)]
pub struct TextureTranscodeRequest {
    pub input: String,
    pub output: String,
    pub compression: Compression,
    pub reduction: Reduction,
    pub max_mipmaps: u32,
}

impl TextureTranscodeRequest {
    /// A request with one mipmap; the paths must be non-empty and differ.
    pub fn new(input: String, output: String, compression: Compression, reduction: Reduction) -> (r: Result<TextureTranscodeRequest>)
        ensures
            r is Ok <==> (input@.len() > 0 && output@.len() > 0 && !same_path(input@, output@)),
            r matches Ok(q) ==> q == (TextureTranscodeRequest { input, output, compression, reduction, max_mipmaps: 1 }),
            r matches Err(e) ==> e is InvalidArguments,
    {
        if input.as_str().is_empty() || output.as_str().is_empty() {
            return Err(Error::InvalidArguments { reason: "texture input and output paths must not be empty".to_owned() });
        }
        if paths_equal(input.as_str(), output.as_str()) {
            return Err(Error::InvalidArguments { reason: concat("texture input and output must differ: ", input.as_str()) });
        }
        Ok(TextureTranscodeRequest { input, output, compression, reduction, max_mipmaps: 1 })
    }
}

#[derive(Debug, Clone, PartialEq, Eq)]
pub struct TextureTranscodeReport {
    pub output: String,
    pub input_bytes: u64,
    pub output_bytes: u64,
    pub compression: Compression,
    pub reduction: Reduction,
}

/// A program that transcodes one texture as a request says.
pub trait ResourceTranscodeBackend {
    fn transcode_texture(&self, request: &TextureTranscodeRequest) -> Result<TextureTranscodeReport>;
}

/// A report that names the requested output and settings.
pub open spec fn report_matches(request: TextureTranscodeRequest, report: TextureTranscodeReport) -> bool {
    same_path(report.output@, request.output@) && report.compression == request.compression
        && report.reduction == request.reduction
}

/// What a backend's answer becomes: its error passes through; a report
/// that names another output or other settings is a conversion failure.
pub fn check_transcode_report(request: &TextureTranscodeRequest, answer: Result<TextureTranscodeReport>) -> (r: Result<TextureTranscodeReport>)
    ensures
        match answer {
            Err(e) => r == Err::<TextureTranscodeReport, Error>(e),
            Ok(report) => if report_matches(*request, report) {
                r == Ok::<TextureTranscodeReport, Error>(report)
            } else {
                r matches Err(e) && e is ConversionFailed
            },
        },
{
    let report = match answer {
        Err(e) => {
            return Err(e);
        },
        Ok(report) => report,
    };
    if !paths_equal(report.output.as_str(), request.output.as_str()) {
        let m1 = concat("texture backend reported output ", report.output.as_str());
        let m2 = concat(m1.as_str(), " instead of ");
        return Err(Error::ConversionFailed { reason: concat(m2.as_str(), request.output.as_str()) });
    }
    if report.compression != request.compression || report.reduction != request.reduction {
        return Err(Error::ConversionFailed {
            reason: "texture backend reported settings that differ from the request".to_owned(),
        });
    }
    Ok(report)
}

/// Runs the backend on the request and accepts only a report for the
/// requested output and settings.
pub fn transcode_texture_checked<B: ResourceTranscodeBackend + ?Sized>(backend: &B, request: &TextureTranscodeRequest) -> (r: Result<TextureTranscodeReport>)
    ensures
        r matches Ok(report) ==> report_matches(*request, report),
{
    let answer = backend.transcode_texture(request);
    check_transcode_report(request, answer)
}

} // verus!

//! Command-line choices as plain values: the commands, the profile flags
//! and how they combine into a Scene profile, and which runtime flags may
//! be given together.

use vstd::prelude::*;
use crate::error::{Error, Result};
use crate::profile::{Compression, Reduction, SceneProfile};
use crate::project::kind::{kind_name, WallpaperKind};
use crate::text::concat;

verus! {

/// A command with its options; paths are held as text.
#[derive(Debug, Clone, PartialEq, Eq)]
pub enum Command {
    Inspect { input: String, json: bool },
    Verify { input: String, json: bool },
    Export {
        input: String,
        output: String,
        profile: Option<ProfileArg>,
        compression: Option<CompressionArg>,
        reduction: Option<ReductionArg>,
        we_runtime: Option<String>,
        wine: Option<String>,
        winepath: Option<String>,
        replace: bool,
        dry_run: bool,
        json: bool,
    },
}

impl Command {
    /// Whether the command's output is JSON.
    pub fn json(&self) -> (r: bool)
        ensures
            r == match *self {
                Command::Inspect { json, .. } => json,
                Command::Verify { json, .. } => json,
                Command::Export { json, .. } => json,
            },
    {
        match self {
            Command::Inspect { json, .. } => *json,
            Command::Verify { json, .. } => *json,
            Command::Export { json, .. } => *json,
        }
    }
}

#[derive(Debug, Clone, Copy, PartialEq, Eq, Structural)]
pub enum ProfileArg {
    High,
    Balanced,
    Performance,
    Custom,
}

#[derive(Debug, Clone, Copy, PartialEq, Eq, Structural)]
pub enum CompressionArg {
    HighQuality,
    HighPerformance,
}

#[derive(Debug, Clone, Copy, PartialEq, Eq, Structural)]
pub enum ReductionArg {
    HighQuality,
    ReductionX2,
    ReductionX4,
}

pub open spec fn compression_of(v: CompressionArg) -> Compression {
    match v {
        CompressionArg::HighQuality => Compression::HighQuality,
        CompressionArg::HighPerformance => Compression::HighPerformance,
    }
}

pub open spec fn reduction_of(v: ReductionArg) -> Reduction {
    match v {
        ReductionArg::HighQuality => Reduction::Original,
        ReductionArg::ReductionX2 => Reduction::X2,
        ReductionArg::ReductionX4 => Reduction::X4,
    }
}

impl From<CompressionArg> for Compression {
    fn from(value: CompressionArg) -> (r: Compression) {
        match value {
            CompressionArg::HighQuality => Compression::HighQuality,
            CompressionArg::HighPerformance => Compression::HighPerformance,
        }
    }
}

impl vstd::std_specs::convert::FromSpecImpl<CompressionArg> for Compression {
    open spec fn obeys_from_spec() -> bool {
        true
    }

    open spec fn from_spec(v: CompressionArg) -> Compression {
        compression_of(v)
    }
}

impl From<ReductionArg> for Reduction {
    fn from(value: ReductionArg) -> (r: Reduction) {
        match value {
            ReductionArg::HighQuality => Reduction::Original,
            ReductionArg::ReductionX2 => Reduction::X2,
            ReductionArg::ReductionX4 => Reduction::X4,
        }
    }
}

impl vstd::std_specs::convert::FromSpecImpl<ReductionArg> for Reduction {
    open spec fn obeys_from_spec() -> bool {
        true
    }

    open spec fn from_spec(v: ReductionArg) -> Reduction {
        reduction_of(v)
    }
}

/// The refusal of custom flags beside the named profile `profile`.
pub open spec fn spec_custom_only_message(profile: Seq<char>) -> Seq<char> {
    "--compression and --reduction are only valid with --profile custom (not "@ + profile + ")"@
}

/// Compression and reduction belong to the custom profile only.
pub fn reject_custom_only_flags(compression: Option<CompressionArg>, reduction: Option<ReductionArg>, profile: &str) -> (r: core::result::Result<(), String>)
    ensures
        r is Ok <==> (compression is None && reduction is None),
        r matches Err(m) ==> m@ == spec_custom_only_message(profile@),
{
    if compression.is_some() || reduction.is_some() {
        let m1 = concat("--compression and --reduction are only valid with --profile custom (not ", profile);
        return Err(concat(m1.as_str(), ")"));
    }
    Ok(())
}

/// The Scene profile the flags select: a named profile takes no custom
/// flags; the custom profile needs both.
pub open spec fn spec_profile_arg(profile: ProfileArg, compression: Option<CompressionArg>, reduction: Option<ReductionArg>) -> Option<SceneProfile> {
    match profile {
        ProfileArg::High => if compression is None && reduction is None { Some(SceneProfile::High) } else { None },
        ProfileArg::Balanced => if compression is None && reduction is None { Some(SceneProfile::Balanced) } else { None },
        ProfileArg::Performance => if compression is None && reduction is None { Some(SceneProfile::Performance) } else { None },
        ProfileArg::Custom => match (compression, reduction) {
            (Some(c), Some(r)) => Some(SceneProfile::Custom { compression: compression_of(c), reduction: reduction_of(r) }),
            _ => None,
        },
    }
}

/// The message of a refused profile selection.
pub open spec fn spec_profile_arg_message(profile: ProfileArg) -> Seq<char> {
    match profile {
        ProfileArg::High => spec_custom_only_message("high"@),
        ProfileArg::Balanced => spec_custom_only_message("balanced"@),
        ProfileArg::Performance => spec_custom_only_message("performance"@),
        ProfileArg::Custom => "custom profile requires both --compression and --reduction"@,
    }
}

pub fn resolve_scene_profile_arg(profile: ProfileArg, compression: Option<CompressionArg>, reduction: Option<ReductionArg>) -> (r: core::result::Result<SceneProfile, String>)
    ensures
        r is Ok <==> spec_profile_arg(profile, compression, reduction) is Some,
        r matches Ok(p) ==> spec_profile_arg(profile, compression, reduction) == Some(p),
        r matches Err(m) ==> m@ == spec_profile_arg_message(profile),
{
    let named = match profile {
        ProfileArg::High => "high",
        ProfileArg::Balanced => "balanced",
        ProfileArg::Performance => "performance",
        ProfileArg::Custom => {
            return match (compression, reduction) {
                (Some(c), Some(r)) => Ok(SceneProfile::Custom { compression: Compression::from(c), reduction: Reduction::from(r) }),
                _ => Err("custom profile requires both --compression and --reduction".to_owned()),
            };
        },
    };
    match reject_custom_only_flags(compression, reduction, named) {
        Err(m) => Err(m),
        Ok(()) => Ok(match profile {
            ProfileArg::High => SceneProfile::High,
            ProfileArg::Balanced => SceneProfile::Balanced,
            _ => SceneProfile::Performance,
        }),
    }
}

/// `--winepath` needs `--wine`, `--wine` needs `--we-runtime`, and where
/// helpers launch natively neither Wine flag is accepted.
pub open spec fn spec_flags_ok(we_runtime: bool, wine: bool, winepath: bool, native_launch: bool) -> bool {
    !(winepath && !wine) && !(wine && !we_runtime) && !(native_launch && (wine || winepath))
}

pub fn validate_export_flag_combinations(we_runtime: bool, wine: bool, winepath: bool, native_launch: bool) -> (r: Result<()>)
    ensures
        r is Ok <==> spec_flags_ok(we_runtime, wine, winepath, native_launch),
        r matches Err(e) ==> e is InvalidArguments,
{
    if winepath && !wine {
        return Err(Error::InvalidArguments { reason: "--winepath requires --wine".to_owned() });
    }
    if wine && !we_runtime {
        return Err(Error::InvalidArguments { reason: "--wine requires --we-runtime".to_owned() });
    }
    if native_launch && (wine || winepath) {
        return Err(Error::InvalidArguments {
            reason: "--wine and --winepath are not supported on Windows (native launch only)".to_owned(),
        });
    }
    Ok(())
}

/// Options of an export as given on the command line.
#[derive(Debug, Clone, PartialEq, Eq)]
pub struct ExportOptions {
    pub output: String,
    pub profile: Option<ProfileArg>,
    pub compression: Option<CompressionArg>,
    pub reduction: Option<ReductionArg>,
    pub we_runtime: Option<String>,
    pub wine: Option<String>,
    pub winepath: Option<String>,
    pub replace: bool,
    pub dry_run: bool,
    pub json: bool,
}

/// What the profile flags mean for a source kind: a Scene needs a profile
/// (`Some` of its Scene profile); a Video takes none of the Scene flags
/// (`None`); Web and Application are unsupported.
pub open spec fn spec_export_profile(kind: WallpaperKind, profile: Option<ProfileArg>, compression: Option<CompressionArg>, reduction: Option<ReductionArg>) -> Option<Option<SceneProfile>> {
    match kind {
        WallpaperKind::Scene => match profile {
            None => None,
            Some(p) => match spec_profile_arg(p, compression, reduction) {
                Some(sp) => Some(Some(sp)),
                None => None,
            },
        },
        WallpaperKind::Video => if profile is None && compression is None && reduction is None {
            Some(None)
        } else {
            None
        },
        _ => None,
    }
}

pub fn export_profile(kind: WallpaperKind, options: &ExportOptions) -> (r: Result<Option<SceneProfile>>)
    ensures
        r is Ok <==> spec_export_profile(kind, options.profile, options.compression, options.reduction) is Some,
        r matches Ok(p) ==> spec_export_profile(kind, options.profile, options.compression, options.reduction) == Some(p),
        r matches Err(e) ==> ((kind is Web || kind is Application) ==> e is UnsupportedWallpaperType
            && e->UnsupportedWallpaperType_kind@ == kind_name(kind)) && ((kind is Scene || kind is Video) ==> e is InvalidArguments),
{
    match kind {
        WallpaperKind::Scene => {
            let profile = match options.profile {
                Some(p) => p,
                None => {
                    return Err(Error::InvalidArguments {
                        reason: "Scene export requires --profile <high|balanced|performance|custom>".to_owned(),
                    });
                },
            };
            match resolve_scene_profile_arg(profile, options.compression, options.reduction) {
                Ok(p) => Ok(Some(p)),
                Err(reason) => Err(Error::InvalidArguments { reason }),
            }
        },
        WallpaperKind::Video => {
            if options.profile.is_some() {
                return Err(Error::InvalidArguments { reason: "--profile is only valid for Scene export".to_owned() });
            }
            if options.compression.is_some() || options.reduction.is_some() {
                return Err(Error::InvalidArguments {
                    reason: "--compression and --reduction are only valid for Scene custom profile".to_owned(),
                });
            }
            Ok(None)
        },
        _ => Err(Error::unsupported_type(kind.as_str().to_owned())),
    }
}

} // verus!

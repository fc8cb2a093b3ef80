use vstd::prelude::*;
use crate::text::{concat, decimal, spec_decimal};

verus! {

/// Pipeline stage at which an error was raised.
#[derive(Debug, Clone, Copy, PartialEq, Eq, Structural)]
pub enum Stage {
    Arguments,
    Inspect,
    Plan,
    Unpack,
    Convert,
    Pack,
    Verify,
    Device,
}

/// Stable machine-readable error code.
#[derive(Debug, Clone, Copy, PartialEq, Eq, Structural)]
pub enum ErrorCode {
    InvalidArguments,
    UnsupportedWallpaperType,
    InvalidProject,
    InvalidMpkg,
    BackendUnavailable,
    ConversionFailed,
    OutputIo,
    PackageTooLarge,
    VerificationFailed,
    DeviceFailed,
    Cancelled,
}

/// Process exit status that the command line reports for each code.
pub open spec fn spec_exit_code(code: ErrorCode) -> u8 {
    match code {
        ErrorCode::InvalidArguments => 2,
        ErrorCode::UnsupportedWallpaperType => 3,
        ErrorCode::InvalidProject => 4,
        ErrorCode::InvalidMpkg => 4,
        ErrorCode::BackendUnavailable => 5,
        ErrorCode::ConversionFailed => 6,
        ErrorCode::OutputIo => 7,
        ErrorCode::PackageTooLarge => 7,
        ErrorCode::VerificationFailed => 8,
        ErrorCode::DeviceFailed => 9,
        ErrorCode::Cancelled => 130,
    }
}

impl ErrorCode {
    pub fn exit_code(self) -> (code: u8)
        ensures
            code == spec_exit_code(self),
    {
        match self {
            ErrorCode::InvalidArguments => 2,
            ErrorCode::UnsupportedWallpaperType => 3,
            ErrorCode::InvalidProject | ErrorCode::InvalidMpkg => 4,
            ErrorCode::BackendUnavailable => 5,
            ErrorCode::ConversionFailed => 6,
            ErrorCode::OutputIo | ErrorCode::PackageTooLarge => 7,
            ErrorCode::VerificationFailed => 8,
            ErrorCode::DeviceFailed => 9,
            ErrorCode::Cancelled => 130,
        }
    }
}

/// Library error. I/O failures carry the stage, the path text and the
/// operating-system message of the failed operation.
#[derive(Debug, Clone, PartialEq, Eq)]
pub enum Error {
    InvalidArguments { reason: String },
    UnsupportedWallpaperType { kind: String },
    InvalidProject { reason: String },
    InvalidMpkg { reason: String },
    Io { stage: Stage, path: String, source: String },
    BackendUnavailable { backend: String },
    ConversionFailed { reason: String },
    PackageTooLarge { size: u64 },
    VerificationFailed { reason: String },
    DeviceFailed { reason: String },
    Cancelled,
}

pub type Result<T> = core::result::Result<T, Error>;

/// Error code of each error; an I/O error takes its code from its stage.
pub open spec fn spec_error_code(error: Error) -> ErrorCode {
    match error {
        Error::InvalidArguments { .. } => ErrorCode::InvalidArguments,
        Error::UnsupportedWallpaperType { .. } => ErrorCode::UnsupportedWallpaperType,
        Error::InvalidProject { .. } => ErrorCode::InvalidProject,
        Error::InvalidMpkg { .. } => ErrorCode::InvalidMpkg,
        Error::Io { stage, .. } => match stage {
            Stage::Arguments | Stage::Plan => ErrorCode::InvalidArguments,
            Stage::Inspect | Stage::Unpack => ErrorCode::InvalidProject,
            Stage::Convert => ErrorCode::ConversionFailed,
            Stage::Pack => ErrorCode::OutputIo,
            Stage::Verify => ErrorCode::InvalidMpkg,
            Stage::Device => ErrorCode::DeviceFailed,
        },
        Error::BackendUnavailable { .. } => ErrorCode::BackendUnavailable,
        Error::ConversionFailed { .. } => ErrorCode::ConversionFailed,
        Error::PackageTooLarge { .. } => ErrorCode::PackageTooLarge,
        Error::VerificationFailed { .. } => ErrorCode::VerificationFailed,
        Error::DeviceFailed { .. } => ErrorCode::DeviceFailed,
        Error::Cancelled => ErrorCode::Cancelled,
    }
}

/// Stage reported for each error.
pub open spec fn spec_error_stage(error: Error) -> Stage {
    match error {
        Error::InvalidArguments { .. } => Stage::Arguments,
        Error::UnsupportedWallpaperType { .. } => Stage::Inspect,
        Error::InvalidProject { .. } => Stage::Inspect,
        Error::BackendUnavailable { .. } => Stage::Plan,
        Error::Cancelled => Stage::Plan,
        Error::ConversionFailed { .. } => Stage::Convert,
        Error::Io { stage, .. } => stage,
        Error::PackageTooLarge { .. } => Stage::Pack,
        Error::InvalidMpkg { .. } => Stage::Verify,
        Error::VerificationFailed { .. } => Stage::Verify,
        Error::DeviceFailed { .. } => Stage::Device,
    }
}

impl Error {
    pub fn unsupported_type(kind: String) -> (error: Error)
        ensures
            error == (Error::UnsupportedWallpaperType { kind }),
    {
        Error::UnsupportedWallpaperType { kind }
    }

    pub fn invalid_mpkg(reason: String) -> (error: Error)
        ensures
            error == (Error::InvalidMpkg { reason }),
    {
        Error::InvalidMpkg { reason }
    }

    pub fn code(&self) -> (code: ErrorCode)
        ensures
            code == spec_error_code(*self),
    {
        match self {
            Error::InvalidArguments { .. } => ErrorCode::InvalidArguments,
            Error::UnsupportedWallpaperType { .. } => ErrorCode::UnsupportedWallpaperType,
            Error::InvalidProject { .. } => ErrorCode::InvalidProject,
            Error::InvalidMpkg { .. } => ErrorCode::InvalidMpkg,
            Error::Io { stage, .. } => match stage {
                Stage::Arguments | Stage::Plan => ErrorCode::InvalidArguments,
                Stage::Inspect | Stage::Unpack => ErrorCode::InvalidProject,
                Stage::Convert => ErrorCode::ConversionFailed,
                Stage::Pack => ErrorCode::OutputIo,
                Stage::Verify => ErrorCode::InvalidMpkg,
                Stage::Device => ErrorCode::DeviceFailed,
            },
            Error::BackendUnavailable { .. } => ErrorCode::BackendUnavailable,
            Error::ConversionFailed { .. } => ErrorCode::ConversionFailed,
            Error::PackageTooLarge { .. } => ErrorCode::PackageTooLarge,
            Error::VerificationFailed { .. } => ErrorCode::VerificationFailed,
            Error::DeviceFailed { .. } => ErrorCode::DeviceFailed,
            Error::Cancelled => ErrorCode::Cancelled,
        }
    }

    pub fn stage(&self) -> (stage: Stage)
        ensures
            stage == spec_error_stage(*self),
    {
        match self {
            Error::InvalidArguments { .. } => Stage::Arguments,
            Error::UnsupportedWallpaperType { .. } | Error::InvalidProject { .. } => Stage::Inspect,
            Error::BackendUnavailable { .. } | Error::Cancelled => Stage::Plan,
            Error::ConversionFailed { .. } => Stage::Convert,
            Error::Io { stage, .. } => *stage,
            Error::PackageTooLarge { .. } => Stage::Pack,
            Error::InvalidMpkg { .. } | Error::VerificationFailed { .. } => Stage::Verify,
            Error::DeviceFailed { .. } => Stage::Device,
        }
    }
}

/// The name a stage is printed under.
pub open spec fn spec_stage_name(stage: Stage) -> Seq<char> {
    match stage {
        Stage::Arguments => "Arguments"@,
        Stage::Inspect => "Inspect"@,
        Stage::Plan => "Plan"@,
        Stage::Unpack => "Unpack"@,
        Stage::Convert => "Convert"@,
        Stage::Pack => "Pack"@,
        Stage::Verify => "Verify"@,
        Stage::Device => "Device"@,
    }
}

/// The message the command line prints for each error.
pub open spec fn spec_error_message(error: Error) -> Seq<char> {
    match error {
        Error::InvalidArguments { reason } => "invalid arguments: "@ + reason@,
        Error::UnsupportedWallpaperType { kind } => "unsupported wallpaper type: "@ + kind@,
        Error::InvalidProject { reason } => "invalid project: "@ + reason@,
        Error::InvalidMpkg { reason } => "invalid MPKG: "@ + reason@,
        Error::Io { stage, path, source } => "I/O failure during "@ + spec_stage_name(stage) + " at "@ + path@
            + ": "@ + source@,
        Error::BackendUnavailable { backend } => "backend unavailable: "@ + backend@,
        Error::ConversionFailed { reason } => "conversion failed: "@ + reason@,
        Error::PackageTooLarge { size } => "package size "@ + spec_decimal(size as nat)
            + " exceeds the 4 GiB limit"@,
        Error::VerificationFailed { reason } => "verification failed: "@ + reason@,
        Error::DeviceFailed { reason } => "device operation failed: "@ + reason@,
        Error::Cancelled => "operation cancelled"@,
    }
}

impl Stage {
    pub fn name(self) -> (s: &'static str)
        ensures
            s@ == spec_stage_name(self),
    {
        match self {
            Stage::Arguments => "Arguments",
            Stage::Inspect => "Inspect",
            Stage::Plan => "Plan",
            Stage::Unpack => "Unpack",
            Stage::Convert => "Convert",
            Stage::Pack => "Pack",
            Stage::Verify => "Verify",
            Stage::Device => "Device",
        }
    }
}

impl Error {
    /// The text of the error as the command line prints it.
    pub fn message(&self) -> (m: String)
        ensures
            m@ == spec_error_message(*self),
    {
        match self {
            Error::InvalidArguments { reason } => concat("invalid arguments: ", reason.as_str()),
            Error::UnsupportedWallpaperType { kind } => concat("unsupported wallpaper type: ", kind.as_str()),
            Error::InvalidProject { reason } => concat("invalid project: ", reason.as_str()),
            Error::InvalidMpkg { reason } => concat("invalid MPKG: ", reason.as_str()),
            Error::Io { stage, path, source } => {
                let m1 = concat("I/O failure during ", stage.name());
                let m2 = concat(m1.as_str(), " at ");
                let m3 = concat(m2.as_str(), path.as_str());
                let m4 = concat(m3.as_str(), ": ");
                concat(m4.as_str(), source.as_str())
            },
            Error::BackendUnavailable { backend } => concat("backend unavailable: ", backend.as_str()),
            Error::ConversionFailed { reason } => concat("conversion failed: ", reason.as_str()),
            Error::PackageTooLarge { size } => {
                let digits = decimal(*size);
                let m1 = concat("package size ", digits.as_str());
                concat(m1.as_str(), " exceeds the 4 GiB limit")
            },
            Error::VerificationFailed { reason } => concat("verification failed: ", reason.as_str()),
            Error::DeviceFailed { reason } => concat("device operation failed: ", reason.as_str()),
            Error::Cancelled => "operation cancelled".to_owned(),
        }
    }
}

} // verus!

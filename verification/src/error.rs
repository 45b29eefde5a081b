//! The closed set of failure conditions the library reports.

use vstd::prelude::*;

verus! {

/// One variant per failure kind; `InsufficientSpace` carries the figures the
/// caller needs to explain the refusal.
#[derive(Debug, Clone, PartialEq)]
pub enum AppError {
    /// An external media tool was missing or exited unsuccessfully.
    ExternalToolError(String),
    /// The probing tool's structured output was malformed or incomplete.
    ProbeParseError(String),
    /// A filesystem operation failed, or an expected output file is missing.
    FilesystemError(String),
    /// The target volume holds less free space than the estimate plus its
    /// safety margin demands.
    InsufficientSpace { needed_bytes: u128, available_bytes: u64, path: String },
    /// An input value was rejected (bad time range, unparsable version token).
    ValidationError(String),
    /// A path was missing, of the wrong kind, or could not be decomposed.
    PathError(String),
}

pub fn ffmpeg_error(msg: String) -> (e: AppError)
    ensures
        e == AppError::ExternalToolError(msg),
{
    AppError::ExternalToolError(msg)
}

pub fn ffprobe_error(msg: String) -> (e: AppError)
    ensures
        e == AppError::ProbeParseError(msg),
{
    AppError::ProbeParseError(msg)
}

pub fn filesystem_error(msg: String) -> (e: AppError)
    ensures
        e == AppError::FilesystemError(msg),
{
    AppError::FilesystemError(msg)
}

pub fn validation_error(msg: String) -> (e: AppError)
    ensures
        e == AppError::ValidationError(msg),
{
    AppError::ValidationError(msg)
}

pub fn path_error(msg: String) -> (e: AppError)
    ensures
        e == AppError::PathError(msg),
{
    AppError::PathError(msg)
}

} // verus!

//! Input validation and tool-outcome checks.
//!
//! The filesystem and subprocess observations these decisions rest on
//! (whether a path exists, whether a tool exited cleanly) are made by the
//! caller and handed in as plain values; every decision taken on them is
//! verified here.

use vstd::prelude::*;
use vstd::string::StringExecFns;

use crate::error::AppError;

verus! {

/// The time range `[start, end]` is acceptable against a total duration:
/// non-negative start, positive extent, both ends within the duration.
pub open spec fn time_range_ok(start_ms: int, end_ms: int, duration_ms: int) -> bool {
    0 <= start_ms && start_ms < end_ms && start_ms <= duration_ms && end_ms <= duration_ms
}

/// Accepts exactly the ranges `0 <= start < end <= duration` (milliseconds);
/// the error names the first violated bound, checked in this order: negative
/// start, empty or inverted extent, start beyond the duration, end beyond
/// the duration.
pub fn validate_time_range(start_ms: i64, end_ms: i64, duration_ms: i64) -> (r: Result<
    (),
    AppError,
>)
    ensures
        r is Ok <==> time_range_ok(start_ms as int, end_ms as int, duration_ms as int),
        start_ms < 0 ==> (r matches Err(AppError::ValidationError(m))
            && m@ == "start time cannot be negative"@),
        start_ms >= 0 && end_ms <= start_ms ==> (r matches Err(AppError::ValidationError(m))
            && m@ == "end time must be greater than start time"@),
        start_ms >= 0 && end_ms > start_ms && start_ms > duration_ms ==> (r matches Err(
            AppError::ValidationError(m),
        ) && m@ == "start time is beyond the video duration"@),
        start_ms >= 0 && end_ms > start_ms && start_ms <= duration_ms && end_ms > duration_ms ==> (
        r matches Err(AppError::ValidationError(m))
            && m@ == "end time is beyond the video duration"@),
{
    if start_ms < 0 {
        return Err(AppError::ValidationError(String::from_str("start time cannot be negative")));
    }
    if end_ms <= start_ms {
        return Err(
            AppError::ValidationError(
                String::from_str("end time must be greater than start time"),
            ),
        );
    }
    if start_ms > duration_ms {
        return Err(
            AppError::ValidationError(String::from_str("start time is beyond the video duration")),
        );
    }
    if end_ms > duration_ms {
        return Err(
            AppError::ValidationError(String::from_str("end time is beyond the video duration")),
        );
    }
    Ok(())
}

/// Accepts a source path exactly when the caller observed it to exist and to
/// be a regular file, and hands it back unchanged; the error says which of
/// the two failed.
pub fn validate_input_path(path: &str, exists: bool, is_file: bool) -> (r: Result<
    String,
    AppError,
>)
    ensures
        r is Ok <==> exists && is_file,
        r matches Ok(p) ==> p@ == path@,
        !exists ==> (r matches Err(AppError::PathError(m)) && m@ == "the file does not exist: "@
            + path@),
        exists && !is_file ==> (r matches Err(AppError::PathError(m))
            && m@ == "the path is not a file: "@ + path@),
{
    if !exists {
        let mut m = String::from_str("the file does not exist: ");
        m.append(path);
        return Err(AppError::PathError(m));
    }
    if !is_file {
        let mut m = String::from_str("the path is not a file: ");
        m.append(path);
        return Err(AppError::PathError(m));
    }
    Ok(path.to_owned())
}

/// Both external tools must have answered a version query for the toolchain
/// to count as installed; one silent tool fails the whole check.
pub fn check_ffmpeg_installed(ffmpeg_responded: bool, ffprobe_responded: bool) -> (r: Result<
    bool,
    AppError,
>)
    ensures
        r is Ok <==> ffmpeg_responded && ffprobe_responded,
        r matches Ok(b) ==> b,
        !(ffmpeg_responded && ffprobe_responded) ==> (r matches Err(
            AppError::ExternalToolError(m),
        ) && m@ == "ffmpeg or ffprobe is not installed"@),
{
    if ffmpeg_responded && ffprobe_responded {
        Ok(true)
    } else {
        Err(AppError::ExternalToolError(String::from_str("ffmpeg or ffprobe is not installed")))
    }
}

/// Turns a tool's exit status into the operation's outcome: a clean exit
/// passes, anything else fails with the tool's name and its error output.
pub fn check_command_success(success: bool, stderr: &str, command_name: &str) -> (r: Result<
    (),
    AppError,
>)
    ensures
        r is Ok <==> success,
        !success ==> (r matches Err(AppError::ExternalToolError(m)) && m@ == command_name@
            + " failed: "@ + stderr@),
{
    if success {
        Ok(())
    } else {
        let mut m = command_name.to_owned();
        m.append(" failed: ");
        m.append(stderr);
        Err(AppError::ExternalToolError(m))
    }
}

} // verus!

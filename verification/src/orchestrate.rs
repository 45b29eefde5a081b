//! The cut orchestration's decisions: the preflight plan for one trim, the
//! exact argument list for the cutting tool, and the judgement on what the
//! tool left behind.
//!
//! The caller performs the outside work between the decisions — probing the
//! duration, enumerating volumes, running the tool, checking that the
//! output file exists — and hands each observation back as a plain value.

use vstd::prelude::*;
use vstd::string::StringExecFns;

use crate::error::AppError;
use crate::naming::{
    base_of, chain_of, chain_ok, chain_prefix, ext_of, file_name_of, generate_next_filename,
    generated_name, names_of, scan_max, stem_of,
};
use crate::space::{estimate_output_size, estimate_spec};
use crate::strops::{digit_char_exec, format_u64, string_of_chars};
use crate::text::{dec_string, digit_char};
use crate::validate::{check_command_success, time_range_ok, validate_time_range};

verus! {

/// Everything the caller needs to invoke the cutting tool: where to write,
/// where to start, how long to copy, and the advisory size estimate that
/// feeds the space guard.
#[derive(Debug, Clone)]
pub struct CutPlan {
    pub output_path: String,
    pub start_ms: u64,
    pub cut_duration_ms: u64,
    pub estimated_bytes: u64,
}

/// A millisecond count rendered as decimal seconds: the whole seconds, then
/// a three-digit fraction when one is needed.
pub open spec fn seconds_string(ms: nat) -> Seq<char> {
    if ms % 1000 == 0 {
        dec_string(ms / 1000)
    } else {
        dec_string(ms / 1000) + seq!['.'] + seq![
            digit_char(ms % 1000 / 100),
            digit_char(ms % 1000 / 10 % 10),
            digit_char(ms % 1000 % 10),
        ]
    }
}

/// Renders milliseconds as the seconds figure the cutting tool takes.
pub fn format_ms_as_seconds(ms: u64) -> (r: String)
    ensures
        r@ == seconds_string(ms as nat),
{
    let mut v = format_u64(ms / 1000);
    let rem: u64 = ms % 1000;
    if rem != 0 {
        v.push('.');
        v.push(digit_char_exec((rem / 100) as u32));
        v.push(digit_char_exec((rem / 10 % 10) as u32));
        v.push(digit_char_exec((rem % 10) as u32));
        proof {
            assert(v@ =~= seconds_string(ms as nat));
        }
    }
    string_of_chars(&v)
}

/// The exact argument list for the cutting tool: seek to the start, read
/// the source, copy for the selected extent without re-encoding, shift
/// negative timestamps, and overwrite at the freshly generated target —
/// overwriting is defensive there, not expected to trigger.
pub fn build_cut_args(input_path: &str, plan: &CutPlan) -> (r: Vec<String>)
    ensures
        r@.len() == 12,
        r@[0]@ == "-ss"@,
        r@[1]@ == seconds_string(plan.start_ms as nat),
        r@[2]@ == "-i"@,
        r@[3]@ == input_path@,
        r@[4]@ == "-t"@,
        r@[5]@ == seconds_string(plan.cut_duration_ms as nat),
        r@[6]@ == "-c"@,
        r@[7]@ == "copy"@,
        r@[8]@ == "-avoid_negative_ts"@,
        r@[9]@ == "1"@,
        r@[10]@ == "-y"@,
        r@[11]@ == plan.output_path@,
{
    let mut r: Vec<String> = Vec::new();
    r.push(String::from_str("-ss"));
    r.push(format_ms_as_seconds(plan.start_ms));
    r.push(String::from_str("-i"));
    r.push(input_path.to_owned());
    r.push(String::from_str("-t"));
    r.push(format_ms_as_seconds(plan.cut_duration_ms));
    r.push(String::from_str("-c"));
    r.push(String::from_str("copy"));
    r.push(String::from_str("-avoid_negative_ts"));
    r.push(String::from_str("1"));
    r.push(String::from_str("-y"));
    r.push(plan.output_path.clone());
    r
}

/// Sequences the preflight decisions of one trim: the time range first,
/// then the output name against the sibling listing, then the advisory
/// size estimate. Each step is a strict precondition for the next, and the
/// first failure aborts the run with no retry — nothing has been written
/// yet at any of these steps.
///
/// The space guard runs separately, through
/// `crate::space::check_disk_space_for_output`, once the caller has
/// resolved the plan's output directory to an absolute form and enumerated
/// the mounted volumes.
pub fn plan_cut(
    input_path: &str,
    start_ms: i64,
    end_ms: i64,
    duration_ms: i64,
    notes: Option<&str>,
    input_size: u64,
    entries: &Vec<String>,
) -> (r: Result<CutPlan, AppError>)
    ensures
        !time_range_ok(start_ms as int, end_ms as int, duration_ms as int) ==> (r matches Err(
            AppError::ValidationError(_),
        )),
        time_range_ok(start_ms as int, end_ms as int, duration_ms as int) ==> {
            let name = file_name_of(input_path@);
            &&& name.len() == 0 ==> (r matches Err(AppError::PathError(_)))
            &&& name.len() > 0 ==> {
                let stem = stem_of(name);
                let maxv = scan_max(
                    names_of(entries@),
                    base_of(stem),
                    ext_of(name),
                    chain_prefix(chain_of(stem)),
                );
                &&& (r is Ok <==> chain_ok(stem) && maxv < u32::MAX)
                &&& r matches Ok(p) ==> {
                    &&& p.output_path@ == generated_name(
                        input_path@,
                        match notes {
                            Some(n) => Some(n@),
                            None => None,
                        },
                        names_of(entries@),
                    )
                    &&& p.start_ms == start_ms as u64
                    &&& p.cut_duration_ms == (end_ms - start_ms) as u64
                    &&& p.estimated_bytes as nat == estimate_spec(
                        input_size as nat,
                        start_ms as nat,
                        end_ms as nat,
                        duration_ms as nat,
                    )
                }
            }
        },
{
    match validate_time_range(start_ms, end_ms, duration_ms) {
        Ok(_) => {},
        Err(e) => {
            return Err(e);
        },
    }
    let output_path = match generate_next_filename(input_path, notes, entries) {
        Ok(p) => p,
        Err(e) => {
            return Err(e);
        },
    };
    let start: u64 = start_ms as u64;
    let end: u64 = end_ms as u64;
    let dur: u64 = duration_ms as u64;
    let est = estimate_output_size(input_size, start, end, dur);
    Ok(
        CutPlan {
            output_path,
            start_ms: start,
            cut_duration_ms: end - start,
            estimated_bytes: est,
        },
    )
}

/// The judgement after the cutting tool ran: a clean exit with the output
/// file in place passes; a failed exit is the tool's own error; and a clean
/// exit without the output file is a distinct condition, because exit
/// status alone is no proof of a usable artifact.
pub fn assess_cut_result(exit_success: bool, stderr: &str, output_exists: bool) -> (r: Result<
    (),
    AppError,
>)
    ensures
        r is Ok <==> exit_success && output_exists,
        !exit_success ==> (r matches Err(AppError::ExternalToolError(m)) && m@ == "ffmpeg"@
            + " failed: "@ + stderr@),
        exit_success && !output_exists ==> (r matches Err(AppError::FilesystemError(m)) && m@
            == "the cut completed but the output file is missing"@),
{
    match check_command_success(exit_success, stderr, "ffmpeg") {
        Ok(_) => {},
        Err(e) => {
            return Err(e);
        },
    }
    if !output_exists {
        return Err(
            AppError::FilesystemError(
                String::from_str("the cut completed but the output file is missing"),
            ),
        );
    }
    Ok(())
}

} // verus!

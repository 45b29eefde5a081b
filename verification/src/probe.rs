//! Reading the probing tool's structured report: frame-rate rationals,
//! string-encoded durations, and the metadata snapshot assembled from the
//! report's fields.
//!
//! The report itself is a JSON document; the walk over it goes through
//! `serde_json` behind trusted declarations, and everything decided about
//! the extracted values is verified.

use vstd::prelude::*;
use vstd::string::StringExecFns;

use crate::error::AppError;
use crate::strops::{
    chars_all_digits, parse_u64_digits, split_chars, str_eq, subrange_chars, to_chars, views_of,
};
use crate::text::{all_digits, digits_val, is_digit, is_numeric_token, lemma_split_nonempty, split_on};

verus! {

/// A frame rate as the probe reports it: a rational number of frames per
/// second. The zero rate is `0/1`.
#[derive(Debug, Clone, Copy, PartialEq, Eq, Structural)]
pub struct FrameRate {
    pub num: u64,
    pub den: u64,
}

/// A well-formed rate never divides by zero.
pub open spec fn frame_rate_wf(r: FrameRate) -> bool {
    r.den >= 1
}

/// The rate a frame-rate string denotes: `numerator/denominator` with both
/// sides non-empty digit runs and a non-zero denominator; any other shape,
/// an overflowing side, or a zero denominator denotes the zero rate.
pub open spec fn frame_rate_spec(s: Seq<char>) -> FrameRate {
    let parts = split_on(s, '/');
    if parts.len() == 2 && is_numeric_token(parts[0]) && digits_val(parts[0]) <= u64::MAX
        && is_numeric_token(parts[1]) && digits_val(parts[1]) <= u64::MAX && digits_val(parts[1])
        > 0 {
        FrameRate { num: digits_val(parts[0]) as u64, den: digits_val(parts[1]) as u64 }
    } else {
        FrameRate { num: 0, den: 1 }
    }
}

/// Reads a frame-rate string such as `30000/1001`; anything unparsable, and
/// a zero denominator in particular, yields the zero rate.
pub fn parse_frame_rate(fps_str: &str) -> (r: FrameRate)
    ensures
        r == frame_rate_spec(fps_str@),
        frame_rate_wf(r),
{
    let cs = to_chars(fps_str);
    let parts = split_chars(&cs, '/');
    proof {
        lemma_split_nonempty(cs@, '/');
    }
    if parts.len() == 2 {
        proof {
            assert(views_of(parts@)[0] == split_on(cs@, '/')[0]);
            assert(views_of(parts@)[1] == split_on(cs@, '/')[1]);
        }
        match (parse_u64_digits(&parts[0]), parse_u64_digits(&parts[1])) {
            (Some(n), Some(d)) => {
                if d > 0 {
                    return FrameRate { num: n, den: d };
                }
            },
            _ => {},
        }
    }
    FrameRate { num: 0, den: 1 }
}

/// Short digit runs stay small: three digits never exceed `999`.
proof fn lemma_digits_val_le3(s: Seq<char>)
    requires
        all_digits(s),
        s.len() <= 3,
    ensures
        digits_val(s) <= 999,
        s.len() <= 2 ==> digits_val(s) <= 99,
        s.len() <= 1 ==> digits_val(s) <= 9,
    decreases s.len(),
{
    if s.len() > 0 {
        lemma_digits_val_le3(s.drop_last());
        assert(is_digit(s.last()));
    }
}

/// The milliseconds a fractional-seconds digit run denotes: the first three
/// digits count, the rest lie beyond millisecond precision.
pub open spec fn frac_ms(fs: Seq<char>) -> nat {
    if fs.len() == 0 {
        0
    } else if fs.len() == 1 {
        digits_val(fs) * 100
    } else if fs.len() == 2 {
        digits_val(fs) * 10
    } else {
        digits_val(fs.take(3))
    }
}

/// The milliseconds a decimal-seconds string denotes: a non-empty digit run,
/// optionally followed by `.` and further digits; any other shape, or a
/// value beyond the representable range, denotes nothing.
pub open spec fn duration_ms_spec(s: Seq<char>) -> Option<nat> {
    let parts = split_on(s, '.');
    if parts.len() == 1 && is_numeric_token(parts[0]) {
        if digits_val(parts[0]) * 1000 <= u64::MAX {
            Some(digits_val(parts[0]) * 1000)
        } else {
            None
        }
    } else if parts.len() == 2 && is_numeric_token(parts[0]) && all_digits(parts[1]) {
        if digits_val(parts[0]) * 1000 + frac_ms(parts[1]) <= u64::MAX {
            Some(digits_val(parts[0]) * 1000 + frac_ms(parts[1]))
        } else {
            None
        }
    } else {
        None
    }
}

/// Reads a duration such as `100`, `100.5` or `123.456000` into
/// milliseconds, truncating beyond millisecond precision.
#[verifier::loop_isolation(false)]
pub fn parse_duration_ms(s: &str) -> (r: Option<u64>)
    ensures
        match r {
            Some(v) => duration_ms_spec(s@) == Some(v as nat),
            None => duration_ms_spec(s@) is None,
        },
{
    let cs = to_chars(s);
    let parts = split_chars(&cs, '.');
    proof {
        lemma_split_nonempty(cs@, '.');
    }
    if parts.len() == 1 {
        proof {
            assert(views_of(parts@)[0] == split_on(cs@, '.')[0]);
        }
        match parse_u64_digits(&parts[0]) {
            Some(v) => {
                if v <= u64::MAX / 1000 {
                    Some(v * 1000)
                } else {
                    None
                }
            },
            None => None,
        }
    } else if parts.len() == 2 {
        proof {
            assert(views_of(parts@)[0] == split_on(cs@, '.')[0]);
            assert(views_of(parts@)[1] == split_on(cs@, '.')[1]);
        }
        let whole = match parse_u64_digits(&parts[0]) {
            Some(v) => v,
            None => {
                return None;
            },
        };
        let f = &parts[1];
        if !chars_all_digits(f) {
            return None;
        }
        proof {
            lemma_digits_val_le3(if f@.len() <= 3 {
                f@
            } else {
                f@.take(3)
            });
        }
        let frac: u64 = if f.len() == 0 {
            0
        } else if f.len() == 1 {
            match parse_u64_digits(f) {
                Some(d) => d * 100,
                None => 0,
            }
        } else if f.len() == 2 {
            match parse_u64_digits(f) {
                Some(d) => d * 10,
                None => 0,
            }
        } else {
            let three = subrange_chars(f, 0, 3);
            proof {
                if f@.len() == 3 {
                    assert(f@.take(3) =~= f@);
                }
            }
            match parse_u64_digits(&three) {
                Some(d) => d,
                None => 0,
            }
        };
        proof {
            assert(frac as nat == frac_ms(f@));
        }
        if whole <= (u64::MAX - frac) / 1000 {
            Some(whole * 1000 + frac)
        } else {
            None
        }
    } else {
        None
    }
}

/// An immutable metadata snapshot of a video file, produced fresh per query.
#[derive(Debug, Clone)]
pub struct VideoInfo {
    /// Total duration in milliseconds.
    pub duration_ms: u64,
    pub width: u32,
    pub height: u32,
    pub fps: FrameRate,
    pub codec: String,
    pub format: String,
}

impl VideoInfo {
    pub fn new(
        duration_ms: u64,
        width: u32,
        height: u32,
        fps: FrameRate,
        codec: String,
        format: String,
    ) -> (r: Self)
        ensures
            r.duration_ms == duration_ms,
            r.width == width,
            r.height == height,
            r.fps == fps,
            r.codec == codec,
            r.format == format,
    {
        Self { duration_ms, width, height, fps, codec, format }
    }
}

/// Assembles the snapshot from what the probe's report offered, with the
/// documented defaults: absent dimensions are zero, an absent codec or
/// container name is `unknown`, an absent frame-rate string is the zero
/// rate, an absent or unparsable duration is zero. Dimensions are truncated
/// to 32 bits, as the snapshot stores them.
pub fn video_info_from_fields(
    duration_str: Option<String>,
    width: Option<u64>,
    height: Option<u64>,
    fps_str: Option<String>,
    codec: Option<String>,
    format: Option<String>,
) -> (r: VideoInfo)
    ensures
        r.duration_ms as nat == (match duration_str {
            Some(d) => match duration_ms_spec(d@) {
                Some(v) => v,
                None => 0,
            },
            None => 0,
        }),
        r.width == (match width {
            Some(w) => w as u32,
            None => 0u32,
        }),
        r.height == (match height {
            Some(h) => h as u32,
            None => 0u32,
        }),
        r.fps == (match fps_str {
            Some(f) => frame_rate_spec(f@),
            None => FrameRate { num: 0, den: 1 },
        }),
        frame_rate_wf(r.fps),
        r.codec@ == (match codec {
            Some(c) => c@,
            None => "unknown"@,
        }),
        r.format@ == (match format {
            Some(f) => f@,
            None => "unknown"@,
        }),
{
    let duration_ms: u64 = match duration_str {
        Some(d) => match parse_duration_ms(d.as_str()) {
            Some(v) => v,
            None => 0,
        },
        None => 0,
    };
    let w: u32 = match width {
        Some(v) => #[verifier::truncate] (v as u32),
        None => 0,
    };
    let h: u32 = match height {
        Some(v) => #[verifier::truncate] (v as u32),
        None => 0,
    };
    let fps = match fps_str {
        Some(f) => parse_frame_rate(f.as_str()),
        None => FrameRate { num: 0, den: 1 },
    };
    let codec_s = match codec {
        Some(c) => c,
        None => String::from_str("unknown"),
    };
    let format_s = match format {
        Some(f) => f,
        None => String::from_str("unknown"),
    };
    VideoInfo::new(duration_ms, w, h, fps, codec_s, format_s)
}

// ---------------------------------------------------------------------------
// The JSON walk, through serde_json behind trusted declarations.
// ---------------------------------------------------------------------------

/// Relies on `serde_json::Value`: the node type of a parsed JSON document,
/// declared so it can stand in signatures; the verifier sees nothing inside
/// a value of it.
#[verifier::external_type_specification]
#[verifier::external_body]
pub struct ExValue(serde_json::Value);

/// Relies on `serde_json::from_str::<Value>`: parses a JSON document, or
/// reports in text why it cannot.
#[verifier::external_body]
fn json_parse(s: &str) -> (r: Result<serde_json::Value, String>) {
    match serde_json::from_str::<serde_json::Value>(s) {
        Ok(v) => Ok(v),
        Err(e) => Err(e.to_string()),
    }
}

/// Relies on `Value::get` with a string index: the value under a key of a
/// JSON object, `None` on every other node.
#[verifier::external_body]
fn value_get<'a>(v: &'a serde_json::Value, key: &str) -> (r: Option<&'a serde_json::Value>) {
    v.get(key)
}

/// Relies on `Value::as_str`: the text of a JSON string node, `None` on
/// every other node.
#[verifier::external_body]
fn value_as_str<'a>(v: &'a serde_json::Value) -> (r: Option<&'a str>) {
    v.as_str()
}

/// Relies on `Value::as_u64`: the value of an unsigned JSON integer node,
/// `None` on every other node.
#[verifier::external_body]
fn value_as_u64(v: &serde_json::Value) -> (r: Option<u64>) {
    v.as_u64()
}

/// Relies on `Value::as_array`: the elements of a JSON array node, `None`
/// on every other node.
#[verifier::external_body]
fn value_as_array<'a>(v: &'a serde_json::Value) -> (r: Option<&'a Vec<serde_json::Value>>) {
    v.as_array()
}

/// The string under `key`, owned, if the node holds one.
fn get_string_field(v: &serde_json::Value, key: &str) -> (r: Option<String>) {
    match value_get(v, key) {
        Some(f) => match value_as_str(f) {
            Some(s) => Some(s.to_owned()),
            None => None,
        },
        None => None,
    }
}

/// The unsigned integer under `key`, if the node holds one.
fn get_u64_field(v: &serde_json::Value, key: &str) -> (r: Option<u64>) {
    match value_get(v, key) {
        Some(f) => value_as_u64(f),
        None => None,
    }
}

/// Reads the probe's JSON report into a metadata snapshot.
///
/// The walk finds the first stream whose `codec_type` is `video` and takes
/// its dimensions, codec name and frame rate, together with the container's
/// duration and format name; each absent field falls back to the default
/// that `video_info_from_fields` states. A report without a parsable JSON
/// body, a `streams` array or a video stream is rejected.
pub fn parse_video_info(probe_json: &str) -> (r: Result<VideoInfo, AppError>)
    ensures
        r matches Err(e) ==> e is ProbeParseError,
        r matches Ok(info) ==> frame_rate_wf(info.fps),
{
    let data = match json_parse(probe_json) {
        Ok(v) => v,
        Err(e) => {
            let mut m = String::from_str("cannot parse the probe report: ");
            m.append(e.as_str());
            return Err(AppError::ProbeParseError(m));
        },
    };
    let streams = match value_get(&data, "streams") {
        Some(s) => s,
        None => {
            return Err(
                AppError::ProbeParseError(String::from_str("no stream information in the report")),
            );
        },
    };
    let arr = match value_as_array(streams) {
        Some(a) => a,
        None => {
            return Err(
                AppError::ProbeParseError(String::from_str("no stream information in the report")),
            );
        },
    };
    let mut video_idx: Option<usize> = None;
    let mut i: usize = 0;
    while i < arr.len()
        invariant
            i <= arr@.len(),
            match video_idx {
                Some(b) => b < i,
                None => true,
            },
        decreases arr.len() - i,
    {
        if video_idx.is_none() {
            let is_video = match value_get(&arr[i], "codec_type") {
                Some(ct) => match value_as_str(ct) {
                    Some(s) => str_eq(s, "video"),
                    None => false,
                },
                None => false,
            };
            if is_video {
                video_idx = Some(i);
            }
        }
        i = i + 1;
    }
    let stream = match video_idx {
        Some(b) => &arr[b],
        None => {
            return Err(AppError::ProbeParseError(String::from_str("no video stream found")));
        },
    };
    let width = get_u64_field(stream, "width");
    let height = get_u64_field(stream, "height");
    let codec = get_string_field(stream, "codec_name");
    let fps_str = get_string_field(stream, "r_frame_rate");
    let (duration_str, format_name) = match value_get(&data, "format") {
        Some(fmt) => (get_string_field(fmt, "duration"), get_string_field(fmt, "format_name")),
        None => (None, None),
    };
    Ok(video_info_from_fields(duration_str, width, height, fps_str, codec, format_name))
}

/// Reads just the container duration from the probe's JSON report, in
/// milliseconds; a report without a parsable duration is rejected.
pub fn parse_video_duration_ms(probe_json: &str) -> (r: Result<u64, AppError>)
    ensures
        r matches Err(e) ==> e is ProbeParseError,
{
    let data = match json_parse(probe_json) {
        Ok(v) => v,
        Err(e) => {
            let mut m = String::from_str("cannot parse the probe report: ");
            m.append(e.as_str());
            return Err(AppError::ProbeParseError(m));
        },
    };
    let duration_str = match value_get(&data, "format") {
        Some(fmt) => get_string_field(fmt, "duration"),
        None => None,
    };
    match duration_str {
        Some(d) => match parse_duration_ms(d.as_str()) {
            Some(v) => Ok(v),
            None => Err(
                AppError::ProbeParseError(String::from_str("cannot read the video duration")),
            ),
        },
        None => Err(AppError::ProbeParseError(String::from_str("cannot read the video duration"))),
    }
}

} // verus!

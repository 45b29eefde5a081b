use video_trim::error::AppError;
use video_trim::orchestrate::{assess_cut_result, build_cut_args, format_ms_as_seconds, plan_cut};
use video_trim::validate::{
    check_command_success, check_ffmpeg_installed, validate_input_path, validate_time_range,
};

#[test]
fn test_validate_time_range() {
    // An ordinary range within the duration passes.
    assert!(validate_time_range(0, 10_000, 15_000).is_ok());

    // A negative start, an inverted range, and a range beyond the duration
    // are each rejected.
    assert!(validate_time_range(-1_000, 10_000, 15_000).is_err());
    assert!(validate_time_range(10_000, 5_000, 15_000).is_err());
    assert!(validate_time_range(20_000, 30_000, 15_000).is_err());
}

#[test]
fn test_validate_time_range_bounds() {
    // The bounds themselves: start may touch neither end nor exceed the
    // duration, and the whole duration is selectable.
    assert!(validate_time_range(0, 15_000, 15_000).is_ok());
    assert!(validate_time_range(5_000, 5_000, 15_000).is_err());
    assert!(validate_time_range(0, 15_001, 15_000).is_err());
    let err = validate_time_range(-1, 10, 100).unwrap_err();
    assert!(matches!(err, AppError::ValidationError(_)));
}

#[test]
fn test_validate_input_path() {
    assert_eq!(validate_input_path("/a/b.mp4", true, true).unwrap(), "/a/b.mp4");
    let missing = validate_input_path("/a/b.mp4", false, false).unwrap_err();
    assert!(matches!(missing, AppError::PathError(_)));
    let not_a_file = validate_input_path("/a", true, false).unwrap_err();
    assert!(matches!(not_a_file, AppError::PathError(_)));
}

#[test]
fn test_check_ffmpeg_installed() {
    assert_eq!(check_ffmpeg_installed(true, true).unwrap(), true);
    assert!(matches!(
        check_ffmpeg_installed(false, true).unwrap_err(),
        AppError::ExternalToolError(_)
    ));
    assert!(matches!(
        check_ffmpeg_installed(true, false).unwrap_err(),
        AppError::ExternalToolError(_)
    ));
}

#[test]
fn test_check_command_success() {
    assert!(check_command_success(true, "", "ffprobe").is_ok());
    match check_command_success(false, "boom", "ffprobe").unwrap_err() {
        AppError::ExternalToolError(m) => assert_eq!(m, "ffprobe failed: boom"),
        other => panic!("expected a tool error, got {:?}", other),
    }
}

#[test]
fn test_format_ms_as_seconds() {
    assert_eq!(format_ms_as_seconds(10_000), "10");
    assert_eq!(format_ms_as_seconds(12_345), "12.345");
    assert_eq!(format_ms_as_seconds(5), "0.005");
    assert_eq!(format_ms_as_seconds(0), "0");
}

#[test]
fn test_plan_cut_end_to_end() {
    // Source movie.mp4 of 100 seconds beside movie_1.mp4 and movie_2.mp4:
    // cutting ten seconds out of it goes to movie_3.mp4.
    let entries = vec!["movie_1.mp4".to_string(), "movie_2.mp4".to_string()];
    let plan = plan_cut("movie.mp4", 10_000, 20_000, 100_000, None, 1_000_000, &entries).unwrap();
    assert_eq!(plan.output_path, "movie_3.mp4");
    assert_eq!(plan.start_ms, 10_000);
    assert_eq!(plan.cut_duration_ms, 10_000);
    // A tenth of the source, plus the ten percent overhead.
    assert_eq!(plan.estimated_bytes, 110_000);

    // Cutting the result again with a note opens the next lineage depth.
    let entries2 = vec![
        "movie_1.mp4".to_string(),
        "movie_2.mp4".to_string(),
        "movie_3.mp4".to_string(),
    ];
    let plan2 =
        plan_cut("movie_3.mp4", 0, 5_000, 10_000, Some("b-roll"), 500_000, &entries2).unwrap();
    assert_eq!(plan2.output_path, "movie_3_1_b-roll.mp4");
}

#[test]
fn test_plan_cut_rejects_bad_range_before_naming() {
    let entries: Vec<String> = vec![];
    let err = plan_cut("movie.mp4", 20_000, 10_000, 100_000, None, 1_000, &entries).unwrap_err();
    assert!(matches!(err, AppError::ValidationError(_)));
}

#[test]
fn test_build_cut_args() {
    let entries: Vec<String> = vec![];
    let plan = plan_cut("in.mp4", 1_500, 11_500, 60_000, None, 100, &entries).unwrap();
    let args = build_cut_args("in.mp4", &plan);
    let expected: Vec<&str> = vec![
        "-ss", "1.500", "-i", "in.mp4", "-t", "10", "-c", "copy", "-avoid_negative_ts", "1",
        "-y", "in_1.mp4",
    ];
    assert_eq!(args.len(), expected.len());
    for (got, want) in args.iter().zip(expected.iter()) {
        assert_eq!(got, want);
    }
}

#[test]
fn test_assess_cut_result() {
    assert!(assess_cut_result(true, "", true).is_ok());
    match assess_cut_result(false, "exploded", true).unwrap_err() {
        AppError::ExternalToolError(m) => assert_eq!(m, "ffmpeg failed: exploded"),
        other => panic!("expected a tool error, got {:?}", other),
    }
    // A clean exit without the output file is its own condition.
    match assess_cut_result(true, "", false).unwrap_err() {
        AppError::FilesystemError(m) => {
            assert_eq!(m, "the cut completed but the output file is missing")
        }
        other => panic!("expected a filesystem error, got {:?}", other),
    }
}

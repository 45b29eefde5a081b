use video_trim::error::AppError;
use video_trim::naming::{
    find_max_version_number, generate_next_filename, parse_filename_pattern, sanitize_filename,
};

#[test]
fn test_parse_filename_pattern() {
    let result = parse_filename_pattern("1.mp4").unwrap();
    assert_eq!(result, ("1".to_string(), "mp4".to_string(), vec![]));

    let result = parse_filename_pattern("1_2.mp4").unwrap();
    assert_eq!(result, ("1_2".to_string(), "mp4".to_string(), vec![]));

    let result = parse_filename_pattern("video.mp4").unwrap();
    assert_eq!(result, ("video".to_string(), "mp4".to_string(), vec![]));

    let result = parse_filename_pattern("video_1.mp4").unwrap();
    assert_eq!(result, ("video".to_string(), "mp4".to_string(), vec![1]));

    let result = parse_filename_pattern("video_1_2.mp4").unwrap();
    assert_eq!(result, ("video".to_string(), "mp4".to_string(), vec![1, 2]));
}

#[test]
fn test_parse_keeps_inner_numeric_tokens_in_base() {
    // The chain scan stops for good at the first non-numeric token: digits
    // further left belong to the base.
    let result = parse_filename_pattern("7_clip_3.mp4").unwrap();
    assert_eq!(result, ("7_clip".to_string(), "mp4".to_string(), vec![3]));
}

#[test]
fn test_parse_path_and_extension_handling() {
    let result = parse_filename_pattern("/videos/take_2.mkv").unwrap();
    assert_eq!(result, ("take".to_string(), "mkv".to_string(), vec![2]));

    // No extension: defaults to mp4.
    let result = parse_filename_pattern("clip_5").unwrap();
    assert_eq!(result, ("clip".to_string(), "mp4".to_string(), vec![5]));
}

#[test]
fn test_parse_dot_edge_cases() {
    // A leading-dot name has no extension of its own.
    let result = parse_filename_pattern(".bashrc").unwrap();
    assert_eq!(result, (".bashrc".to_string(), "mp4".to_string(), vec![]));

    // Only the last dot separates the extension.
    let result = parse_filename_pattern("archive.tar.gz").unwrap();
    assert_eq!(result, ("archive.tar".to_string(), "gz".to_string(), vec![]));
}

#[test]
fn test_parse_rejects_bad_version_tokens() {
    // A chain token beyond the 32-bit range is a validation error.
    let overflow = parse_filename_pattern("video_99999999999.mp4").unwrap_err();
    assert!(matches!(overflow, AppError::ValidationError(_)));

    // An empty token slated for the chain is one too.
    let empty = parse_filename_pattern("video__1.mp4").unwrap_err();
    assert!(matches!(empty, AppError::ValidationError(_)));
}

#[test]
fn test_parse_rejects_missing_file_name() {
    let err = parse_filename_pattern("videos/").unwrap_err();
    assert!(matches!(err, AppError::PathError(_)));
}

#[test]
fn test_sanitize_filename() {
    assert_eq!(sanitize_filename("test<file>name"), "test_file_name");
    assert_eq!(sanitize_filename("normal filename"), "normal filename");
    assert_eq!(sanitize_filename("path/to\\file"), "path_to_file");
    // The colon passes through.
    assert_eq!(sanitize_filename("video:part1"), "video:part1");
    // Control characters are filtered.
    assert_eq!(sanitize_filename("test\u{0001}control"), "test_control");
    // Reserved punctuation is filtered.
    assert_eq!(sanitize_filename("file|name"), "file_name");
}

#[test]
fn test_sanitize_trims_surrounding_whitespace() {
    assert_eq!(sanitize_filename("  note  "), "note");
    assert_eq!(sanitize_filename("   "), "");
}

#[test]
fn test_find_max_version_number_root_depth() {
    let entries: Vec<String> = vec![
        "video_1.mp4".to_string(),
        "video_7_note.mp4".to_string(),
        "video_3.mp4".to_string(),
        "video_x.mp4".to_string(),
        "other_9.mp4".to_string(),
        "video_5.mkv".to_string(),
    ];
    assert_eq!(find_max_version_number("video", "mp4", "", &entries), 7);
}

#[test]
fn test_find_max_version_number_nested_depth() {
    let entries: Vec<String> = vec![
        "video_1_2.mp4".to_string(),
        "video_1_4_b-roll.mp4".to_string(),
        "video_2_9.mp4".to_string(),
    ];
    assert_eq!(find_max_version_number("video", "mp4", "1", &entries), 4);
    assert_eq!(find_max_version_number("video", "mp4", "2", &entries), 9);
    assert_eq!(find_max_version_number("video", "mp4", "3", &entries), 0);
}

#[test]
fn test_generate_first_version() {
    let entries: Vec<String> = vec![];
    let name = generate_next_filename("movie.mp4", None, &entries).unwrap();
    assert_eq!(name, "movie_1.mp4");
}

#[test]
fn test_generate_keeps_directory_prefix() {
    let entries: Vec<String> = vec!["movie_1.mp4".to_string()];
    let name = generate_next_filename("/data/movie.mp4", None, &entries).unwrap();
    assert_eq!(name, "/data/movie_2.mp4");
}

#[test]
fn test_generate_defaults_missing_extension() {
    let entries: Vec<String> = vec![];
    let name = generate_next_filename("clip", None, &entries).unwrap();
    assert_eq!(name, "clip_1.mp4");
}

#[test]
fn test_generate_with_note() {
    let entries: Vec<String> = vec![];
    let name = generate_next_filename("movie.mp4", Some("my_note<1>"), &entries).unwrap();
    // Sanitizing maps the brackets to `_`, then every `_` becomes `-`.
    assert_eq!(name, "movie_1_my-note-1-.mp4");
}

#[test]
fn test_generate_drops_empty_note() {
    let entries: Vec<String> = vec![];
    let name = generate_next_filename("movie.mp4", Some("   "), &entries).unwrap();
    assert_eq!(name, "movie_1.mp4");
}

#[test]
fn test_generate_parse_round_trip() {
    // Formatting a new version and parsing it back extends the chain by
    // exactly that version.
    let entries: Vec<String> = vec![];
    let name = generate_next_filename("video_1.mp4", None, &entries).unwrap();
    assert_eq!(name, "video_1_1.mp4");
    let reparsed = parse_filename_pattern(&name).unwrap();
    assert_eq!(reparsed, ("video".to_string(), "mp4".to_string(), vec![1, 1]));
}

#[test]
fn test_second_run_version_increases() {
    // Once the first run's output stands in the directory, the second run
    // picks a strictly larger version at the same depth.
    let entries: Vec<String> = vec![];
    let first = generate_next_filename("movie.mp4", None, &entries).unwrap();
    assert_eq!(first, "movie_1.mp4");
    let entries2: Vec<String> = vec![first];
    let second = generate_next_filename("movie.mp4", None, &entries2).unwrap();
    assert_eq!(second, "movie_2.mp4");
}

#[test]
fn test_generate_scans_only_same_lineage_depth() {
    // Versions of the source's own depth govern the new number; deeper
    // lineages do not.
    let entries: Vec<String> = vec![
        "movie_1.mp4".to_string(),
        "movie_1_5.mp4".to_string(),
        "movie_2.mp4".to_string(),
    ];
    let name = generate_next_filename("movie.mp4", None, &entries).unwrap();
    assert_eq!(name, "movie_3.mp4");

    let nested = generate_next_filename("movie_1.mp4", None, &entries).unwrap();
    assert_eq!(nested, "movie_1_6.mp4");
}

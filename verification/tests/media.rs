use video_trim::error::AppError;
use video_trim::probe::{parse_duration_ms, parse_frame_rate, parse_video_duration_ms,
    parse_video_info};
use video_trim::space::{check_disk_space_for_output, estimate_output_size,
    resolve_available_space, VolumeInfo, FALLBACK_AVAILABLE_BYTES};

fn rate_as_f64(num: u64, den: u64) -> f64 {
    num as f64 / den as f64
}

#[test]
fn test_parse_frame_rate() {
    let r = parse_frame_rate("30000/1001");
    assert_eq!(rate_as_f64(r.num, r.den), 29.97002997002997);
    let r = parse_frame_rate("25/1");
    assert_eq!(rate_as_f64(r.num, r.den), 25.0);
    let r = parse_frame_rate("30/1");
    assert_eq!(rate_as_f64(r.num, r.den), 30.0);
    let r = parse_frame_rate("invalid");
    assert_eq!(rate_as_f64(r.num, r.den), 0.0);
    let r = parse_frame_rate("10/0");
    assert_eq!(rate_as_f64(r.num, r.den), 0.0);
}

#[test]
fn test_parse_duration_ms() {
    assert_eq!(parse_duration_ms("100"), Some(100_000));
    assert_eq!(parse_duration_ms("100.5"), Some(100_500));
    assert_eq!(parse_duration_ms("123.456000"), Some(123_456));
    assert_eq!(parse_duration_ms("0.07"), Some(70));
    assert_eq!(parse_duration_ms(""), None);
    assert_eq!(parse_duration_ms("abc"), None);
    assert_eq!(parse_duration_ms("-1"), None);
    assert_eq!(parse_duration_ms("1.2.3"), None);
}

#[test]
fn test_parse_video_info_from_probe_report() {
    let json = "{\"streams\":[{\"codec_type\":\"audio\",\"codec_name\":\"aac\"},{\"codec_type\":\"video\",\"width\":1920,\"height\":1080,\"codec_name\":\"h264\",\"r_frame_rate\":\"30000/1001\"}],\"format\":{\"duration\":\"100.500000\",\"format_name\":\"mov,mp4\"}}";
    let info = parse_video_info(json).unwrap();
    assert_eq!(info.width, 1920);
    assert_eq!(info.height, 1080);
    assert_eq!(info.codec, "h264");
    assert_eq!(info.fps.num, 30000);
    assert_eq!(info.fps.den, 1001);
    assert_eq!(info.duration_ms, 100_500);
    assert_eq!(info.format, "mov,mp4");
}

#[test]
fn test_parse_video_info_defaults() {
    let json = "{\"streams\":[{\"codec_type\":\"video\"}]}";
    let info = parse_video_info(json).unwrap();
    assert_eq!(info.width, 0);
    assert_eq!(info.height, 0);
    assert_eq!(info.codec, "unknown");
    assert_eq!(info.format, "unknown");
    assert_eq!(info.fps.num, 0);
    assert_eq!(info.fps.den, 1);
    assert_eq!(info.duration_ms, 0);
}

#[test]
fn test_parse_video_info_rejects_bad_reports() {
    let err = parse_video_info("not json at all").unwrap_err();
    assert!(matches!(err, AppError::ProbeParseError(_)));

    let err = parse_video_info("{\"streams\":[{\"codec_type\":\"audio\"}]}").unwrap_err();
    assert!(matches!(err, AppError::ProbeParseError(_)));

    let err = parse_video_info("{}").unwrap_err();
    assert!(matches!(err, AppError::ProbeParseError(_)));
}

#[test]
fn test_parse_video_duration() {
    let json = "{\"format\":{\"duration\":\"42.250000\"}}";
    assert_eq!(parse_video_duration_ms(json).unwrap(), 42_250);

    let err = parse_video_duration_ms("{\"format\":{}}").unwrap_err();
    assert!(matches!(err, AppError::ProbeParseError(_)));
}

#[test]
fn test_estimate_output_size() {
    // Half of the duration selected: half the size, plus a tenth.
    assert_eq!(estimate_output_size(1000, 0, 50_000, 100_000), 550);
    // The whole duration: the full size plus a tenth.
    assert_eq!(estimate_output_size(1000, 0, 100_000, 100_000), 1100);
    // A tenth of the duration.
    assert_eq!(estimate_output_size(10_000, 10_000, 20_000, 100_000), 1100);
}

#[test]
fn test_resolve_available_space_prefers_longest_mount_prefix() {
    let volumes = vec![
        VolumeInfo { mount_point: "/".to_string(), available_bytes: 100 },
        VolumeInfo { mount_point: "/data".to_string(), available_bytes: 200 },
        VolumeInfo { mount_point: "/data/ext".to_string(), available_bytes: 300 },
    ];
    assert_eq!(resolve_available_space("/data/ext/videos", &volumes), 300);
    assert_eq!(resolve_available_space("/data/videos", &volumes), 200);
    assert_eq!(resolve_available_space("/home", &volumes), 100);
}

#[test]
fn test_resolve_available_space_tie_takes_first() {
    // Two equally long matching mount points: the first enumerated governs.
    let volumes = vec![
        VolumeInfo { mount_point: "/a".to_string(), available_bytes: 1 },
        VolumeInfo { mount_point: "/a".to_string(), available_bytes: 2 },
    ];
    assert_eq!(resolve_available_space("/a/videos", &volumes), 1);
}

#[test]
fn test_resolve_available_space_fallbacks() {
    // No mount point is a prefix: the first enumerable volume governs.
    let volumes = vec![
        VolumeInfo { mount_point: "C:\\".to_string(), available_bytes: 111 },
        VolumeInfo { mount_point: "D:\\".to_string(), available_bytes: 222 },
    ];
    assert_eq!(resolve_available_space("/elsewhere", &volumes), 111);

    // No volumes at all: the fixed conservative figure.
    let none: Vec<VolumeInfo> = vec![];
    assert_eq!(resolve_available_space("/anywhere", &none), FALLBACK_AVAILABLE_BYTES);
    assert_eq!(FALLBACK_AVAILABLE_BYTES, 5 * 1024 * 1024 * 1024);
}

#[test]
fn test_disk_guard_margin() {
    const GIB: u64 = 1024 * 1024 * 1024;
    let four = vec![VolumeInfo { mount_point: "/".to_string(), available_bytes: 4 * GIB }];
    // Four gibibytes estimated against four available: the twenty percent
    // margin pushes the requirement to 4.8 and the guard refuses.
    let err = check_disk_space_for_output("/out", 4 * GIB, &four).unwrap_err();
    match err {
        AppError::InsufficientSpace { needed_bytes, available_bytes, path } => {
            assert_eq!(needed_bytes, (4 * GIB + (4 * GIB) / 5) as u128);
            assert_eq!(available_bytes, 4 * GIB);
            assert_eq!(path, "/out");
        }
        other => panic!("expected an insufficient-space refusal, got {:?}", other),
    }

    // Ten gibibytes available: the same estimate passes.
    let ten = vec![VolumeInfo { mount_point: "/".to_string(), available_bytes: 10 * GIB }];
    assert!(check_disk_space_for_output("/out", 4 * GIB, &ten).is_ok());
}

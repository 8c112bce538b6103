//! The decision heuristics, the probe normalization, the version check
//! and the size gate.

use av1janitor::heuristics::{
    choose_quality, choose_surface, is_already_av1, is_webrip_like, should_skip_for_size,
};
use av1janitor::metadata::{FileMetadata, VideoStreamInfo};
use av1janitor::probe::{convert_probe_output, parse_bit_depth, RawProbeFormat, RawProbeStream};
use av1janitor::sizegate::{check_size_gate, SizeGateResult};
use av1janitor::version::{extract_version, is_version_valid};
use av1janitor::constants::GIB;

fn stream(codec: &str, width: u32, height: u32, avg: &str, real: &str) -> VideoStreamInfo {
    VideoStreamInfo {
        codec: codec.to_string(),
        width,
        height,
        bit_depth: 8,
        is_default: true,
        avg_frame_rate: avg.to_string(),
        r_frame_rate: real.to_string(),
    }
}

fn metadata(format_name: &str, streams: Vec<VideoStreamInfo>) -> FileMetadata {
    FileMetadata {
        video_streams: streams,
        format_name: format_name.to_string(),
        tags_muxing_app: None,
        tags_major_brand: None,
        tags_compatible_brands: None,
        size: None,
    }
}

#[test]
fn test_choose_quality() {
    assert_eq!(choose_quality(720), 25);
    assert_eq!(choose_quality(1079), 25);
    assert_eq!(choose_quality(1080), 24);
    assert_eq!(choose_quality(1440), 23);
    assert_eq!(choose_quality(2160), 23);
}

#[test]
fn test_quality_boundary_gap_resolves_high() {
    assert_eq!(choose_quality(1081), 23);
    assert_eq!(choose_quality(1200), 23);
    assert_eq!(choose_quality(1439), 23);
}

#[test]
fn test_choose_surface() {
    assert_eq!(choose_surface(8), "nv12");
    assert_eq!(choose_surface(9), "nv12");
    assert_eq!(choose_surface(10), "p010");
    assert_eq!(choose_surface(12), "p010");
}

#[test]
fn test_surface_over_whole_depth_range() {
    for depth in 0u8..=16u8 {
        let surface = choose_surface(depth);
        if depth >= 10 {
            assert_eq!(surface, "p010");
        } else {
            assert_eq!(surface, "nv12");
        }
    }
}

#[test]
fn test_should_skip_for_size() {
    let two_gib = 2 * GIB;
    assert!(should_skip_for_size(1000, two_gib));
    assert!(should_skip_for_size(two_gib - 1, two_gib));
    assert!(!should_skip_for_size(two_gib, two_gib));
    assert!(!should_skip_for_size(two_gib + 1, two_gib));
}

#[test]
fn test_is_already_av1() {
    let mut meta = metadata("matroska", vec![]);
    assert!(!is_already_av1(&meta));

    meta.video_streams.push(stream("h264", 1920, 1080, "24/1", "24/1"));
    assert!(!is_already_av1(&meta));

    meta.video_streams[0].codec = "av1".to_string();
    assert!(is_already_av1(&meta));

    meta.video_streams[0].codec = "AV1".to_string();
    assert!(is_already_av1(&meta));
}

#[test]
fn test_is_webrip_like_format() {
    let meta = metadata(
        "mov,mp4,m4a,3gp,3g2,mj2",
        vec![stream("h264", 1920, 1080, "24/1", "24/1")],
    );
    assert!(is_webrip_like(&meta));
}

#[test]
fn test_is_webrip_like_vfr() {
    let meta = metadata("matroska", vec![stream("h264", 1920, 1080, "23/1", "24/1")]);
    assert!(is_webrip_like(&meta));
}

#[test]
fn test_is_webrip_like_odd_dimensions() {
    let meta = metadata("matroska", vec![stream("h264", 1921, 1080, "24/1", "24/1")]);
    assert!(is_webrip_like(&meta));
}

#[test]
fn test_is_not_webrip_like() {
    let meta = metadata("matroska", vec![stream("h264", 1920, 1080, "24/1", "24/1")]);
    assert!(!is_webrip_like(&meta));
}

#[test]
fn test_parse_bit_depth_resolution_order() {
    // Explicit numeric raw-sample count wins.
    assert_eq!(parse_bit_depth(&Some("yuv420p".to_string()), &Some("12".to_string())), 12);
    // Non-numeric raw-sample count falls back to the format name.
    assert_eq!(
        parse_bit_depth(&Some("yuv420p10le".to_string()), &Some("N/A".to_string())),
        10,
    );
    assert_eq!(parse_bit_depth(&Some("yuv420p12be".to_string()), &None), 12);
    assert_eq!(parse_bit_depth(&Some("yuv444p16".to_string()), &None), 16);
    // Nothing known: eight.
    assert_eq!(parse_bit_depth(&Some("yuv420p".to_string()), &None), 8);
    assert_eq!(parse_bit_depth(&None, &None), 8);
}

#[test]
fn test_convert_probe_output_filters_and_normalizes() {
    let streams = vec![
        RawProbeStream {
            codec_type: "audio".to_string(),
            codec_name: "aac".to_string(),
            width: None,
            height: None,
            pix_fmt: None,
            bits_per_raw_sample: None,
            avg_frame_rate: "0/0".to_string(),
            r_frame_rate: "0/0".to_string(),
            disposition_default: Some(1),
        },
        RawProbeStream {
            codec_type: "video".to_string(),
            codec_name: "h264".to_string(),
            width: Some(1920),
            height: Some(1080),
            pix_fmt: Some("yuv420p".to_string()),
            bits_per_raw_sample: Some("8".to_string()),
            avg_frame_rate: "24/1".to_string(),
            r_frame_rate: "24/1".to_string(),
            disposition_default: Some(1),
        },
    ];
    let format = RawProbeFormat {
        format_name: "matroska,webm".to_string(),
        size: None,
        muxing_app_upper: None,
        muxing_app_lower: Some("muxtool".to_string()),
        major_brand: None,
        compatible_brands: None,
    };
    let meta = convert_probe_output(streams, format, Some(777));
    assert_eq!(meta.video_streams.len(), 1);
    assert_eq!(meta.video_streams[0].codec.as_str(), "h264");
    assert_eq!(meta.video_streams[0].bit_depth, 8);
    assert!(meta.video_streams[0].is_default);
    assert_eq!(meta.size, Some(777));
    assert_eq!(meta.tags_muxing_app.as_deref(), Some("muxtool"));
}

#[test]
fn test_convert_probe_output_prefers_reported_size() {
    let format = RawProbeFormat {
        format_name: "matroska".to_string(),
        size: Some("123456".to_string()),
        muxing_app_upper: Some("UpperTool".to_string()),
        muxing_app_lower: Some("lowertool".to_string()),
        major_brand: None,
        compatible_brands: None,
    };
    let meta = convert_probe_output(vec![], format, Some(777));
    assert_eq!(meta.size, Some(123456));
    assert_eq!(meta.tags_muxing_app.as_deref(), Some("UpperTool"));
}

#[test]
fn test_muxing_app_first_non_empty_wins() {
    let format = RawProbeFormat {
        format_name: "matroska".to_string(),
        size: None,
        muxing_app_upper: Some(String::new()),
        muxing_app_lower: Some("lowertool".to_string()),
        major_brand: None,
        compatible_brands: None,
    };
    let meta = convert_probe_output(vec![], format, None);
    assert_eq!(
        meta.tags_muxing_app.as_deref(),
        Some("lowertool"),
        "an empty upper-case tag never shadows a non-empty lower-case one",
    );

    let both_empty = RawProbeFormat {
        format_name: "matroska".to_string(),
        size: None,
        muxing_app_upper: Some(String::new()),
        muxing_app_lower: Some(String::new()),
        major_brand: None,
        compatible_brands: None,
    };
    let meta2 = convert_probe_output(vec![], both_empty, None);
    assert_eq!(meta2.tags_muxing_app, None);
}

#[test]
fn test_version_validation() {
    assert!(is_version_valid("8.0"));
    assert!(is_version_valid("n8.0"));
    assert!(is_version_valid("8.1"));
    assert!(is_version_valid("9.0"));
    assert!(is_version_valid("n9.0"));

    assert!(!is_version_valid("7.0"));
    assert!(!is_version_valid("n7.0"));
    assert!(!is_version_valid("6.1"));
}

#[test]
fn test_extract_version() {
    let output = "ffmpeg version n8.0 Copyright (c) 2000-2025";
    let version = extract_version(output).unwrap();
    assert_eq!(version.as_str(), "n8.0");

    let output2 = "ffmpeg version 8.0.1-static https://johnvansickle.com/ffmpeg/";
    let version2 = extract_version(output2).unwrap();
    assert!(version2.starts_with("8."));
}

#[test]
fn test_extract_version_rejects_bannerless_output() {
    assert!(extract_version("").is_err());
    assert!(extract_version("no marker here").is_err());
}

#[test]
fn test_size_gate_pass() {
    let result = check_size_gate(1000, 800, 900);
    match result {
        SizeGateResult::Passed { original_bytes, new_bytes, savings_permille } => {
            assert_eq!(original_bytes, 1000);
            assert_eq!(new_bytes, 800);
            assert_eq!(savings_permille, 200);
        }
        _ => panic!("Expected passed"),
    }
}

#[test]
fn test_size_gate_fail() {
    let result = check_size_gate(1000, 950, 900);
    match result {
        SizeGateResult::Failed { ratio_permille, threshold_permille, .. } => {
            assert_eq!(ratio_permille, 950);
            assert_eq!(threshold_permille, 900);
        }
        _ => panic!("Expected failed"),
    }
}

#[test]
fn test_size_gate_boundary_inclusive() {
    match check_size_gate(1000, 900, 900) {
        SizeGateResult::Passed { savings_permille, .. } => {
            assert_eq!(savings_permille, 100);
        }
        _ => panic!("Expected passed at the exact boundary"),
    }
}

#[test]
fn test_size_gate_empty_original_fails() {
    assert!(matches!(check_size_gate(0, 0, 900), SizeGateResult::Failed { .. }));
}

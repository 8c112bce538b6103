//! Verified core of a batch media re-encoding engine.
//!
//! The library holds the decision heuristics, the deterministic encoder
//! command builder, progress-telemetry parsing, the size gate, the atomic
//! replacement protocol, crash-safe job-record persistence and the
//! bounded-concurrency scheduler.  All file, process and terminal I/O lives
//! outside the library and hands plain values in and out.
//!
//! Job records persist one per job as `<id>.job`, in the library's own
//! self-describing named-field text format (see [`record`]), whose
//! encoder and parser are verified to round-trip every record.

pub mod command;
pub mod config;
pub mod constants;
pub mod error;
mod external;
pub mod fsops;
pub mod heuristics;
pub mod job;
pub mod metadata;
pub mod paths;
pub mod probe;
pub mod record;
pub mod scheduler;
pub mod sizegate;
pub mod supervise;
pub mod utils;
pub mod version;
pub mod workflow;
mod text;

pub use command::{build_ffmpeg_command, TranscodeParams};
pub use config::{PathsConfig, QsvQualitySettings, TranscodeConfig};
pub use error::CoreError;
pub use fsops::{
    cleanup_failed_transcode, replace_file_atomic, write_skip_marker, write_why_file, FsModel,
};
pub use heuristics::{
    choose_quality, choose_surface, is_already_av1, is_webrip_like, should_skip_for_size,
};
pub use job::{JobReason, JobStatus, TranscodeJob};
pub use metadata::{FileMetadata, VideoStreamInfo};
pub use paths::{
    get_final_output_path, get_skip_marker_path, get_temp_output_path, get_why_file_path,
    is_media_file,
};
pub use probe::{convert_probe_output, parse_bit_depth, RawProbeFormat, RawProbeStream};
pub use record::{encode_job, job_file_name, load_all_jobs, parse_job, JobStore};
pub use scheduler::{
    request_shutdown, should_shutdown, AdmitDecision, CancelToken, Scheduler, WorkOutcome,
};
pub use sizegate::{check_size_gate, SizeGateResult};
pub use supervise::{
    parse_ffmpeg_progress, supervision_outcome, DiagnosticBuffer, ExecuteOptions,
    TranscodeProgress, TranscodeResult,
};
pub use utils::{format_bytes, parse_size_with_unit, parse_time_to_centiseconds};
pub use version::{extract_version, is_version_valid, FFmpegInstallation};
pub use workflow::{Workflow, WorkflowState};

//! Configuration values the engine consumes.  Loading and saving the
//! configuration file is an external collaborator's job; the value
//! checks live here.

use vstd::prelude::*;
use crate::constants::{MIN_FILE_SIZE_BYTES, QSV_QUALITY_AT_1080P, QSV_QUALITY_AT_1440P_PLUS,
    QSV_QUALITY_BELOW_1080P, SCAN_INTERVAL_SECONDS, SIZE_GATE_PERMILLE};
use crate::error::CoreError;

verus! {

/// Encoder quality per resolution tier.
pub struct QsvQualitySettings {
    /// Quality below 1080p.
    pub below_1080p: u8,
    /// Quality at exactly 1080p.
    pub at_1080p: u8,
    /// Quality at 1440p and above.
    pub at_1440p_and_above: u8,
}

impl Default for QsvQualitySettings {
    /// The standard per-tier quality table.
    fn default() -> (r: Self)
        ensures
            r.below_1080p == QSV_QUALITY_BELOW_1080P,
            r.at_1080p == QSV_QUALITY_AT_1080P,
            r.at_1440p_and_above == QSV_QUALITY_AT_1440P_PLUS,
    {
        QsvQualitySettings {
            below_1080p: QSV_QUALITY_BELOW_1080P,
            at_1080p: QSV_QUALITY_AT_1080P,
            at_1440p_and_above: QSV_QUALITY_AT_1440P_PLUS,
        }
    }
}

/// How the engine operates: watched directories, thresholds, the size
/// gate and the quality table.
pub struct TranscodeConfig {
    /// Path of the encoder binary, once detected.
    pub ffmpeg_path: Option<String>,
    /// Directories scanned for media files.
    pub watched_directories: Vec<String>,
    /// Files below this size are skipped.
    pub min_file_size_bytes: u64,
    /// Size-gate factor in permille: the output must be at most this
    /// fraction of the original.
    pub size_gate_permille: u32,
    /// Encoder quality per resolution tier.
    pub qsv_quality: QsvQualitySettings,
    /// File extensions considered media.
    pub media_extensions: Vec<String>,
    /// Seconds between directory scans.
    pub scan_interval_seconds: u64,
}

impl TranscodeConfig {
    /// The configuration value checks, as one predicate: the size gate
    /// lies in (0, 1], the minimum size is positive, at least one
    /// directory is watched, at least one extension is listed, and the
    /// below-1080p quality lies in [1, 51].
    pub open spec fn spec_valid(self) -> bool {
        &&& 0 < self.size_gate_permille <= 1000
        &&& self.min_file_size_bytes > 0
        &&& self.watched_directories@.len() > 0
        &&& self.media_extensions@.len() > 0
        &&& 1 <= self.qsv_quality.below_1080p <= 51
    }

    /// Check the configuration values; whether each watched directory
    /// exists is for the I/O layer to check.
    pub fn validate(&self) -> (r: Result<(), CoreError>)
        ensures
            r is Ok <==> self.spec_valid(),
    {
        if self.size_gate_permille == 0 || self.size_gate_permille > 1000 {
            return Err(
                CoreError::ConfigError(
                    "the size-gate factor must lie between 0 and 1".to_owned(),
                ),
            );
        }
        if self.min_file_size_bytes == 0 {
            return Err(
                CoreError::ConfigError("the minimum file size cannot be zero".to_owned()),
            );
        }
        if self.watched_directories.len() == 0 {
            return Err(
                CoreError::ConfigError("at least one watched directory is required".to_owned()),
            );
        }
        if self.media_extensions.len() == 0 {
            return Err(
                CoreError::ConfigError("at least one media extension is required".to_owned()),
            );
        }
        if self.qsv_quality.below_1080p == 0 || self.qsv_quality.below_1080p > 51 {
            return Err(
                CoreError::ConfigError("encoder quality must lie between 1 and 51".to_owned()),
            );
        }
        Ok(())
    }
}

impl Default for TranscodeConfig {
    /// The standard configuration: no encoder path yet, no directories,
    /// the default thresholds and the usual media extensions.
    fn default() -> (r: Self)
        ensures
            r.ffmpeg_path is None,
            r.watched_directories@.len() == 0,
            r.min_file_size_bytes == MIN_FILE_SIZE_BYTES,
            r.size_gate_permille == SIZE_GATE_PERMILLE,
            r.qsv_quality.below_1080p == QSV_QUALITY_BELOW_1080P,
            r.qsv_quality.at_1080p == QSV_QUALITY_AT_1080P,
            r.qsv_quality.at_1440p_and_above == QSV_QUALITY_AT_1440P_PLUS,
            r.media_extensions@.len() == 3,
            r.media_extensions@[0]@ == "mkv"@,
            r.media_extensions@[1]@ == "mp4"@,
            r.media_extensions@[2]@ == "avi"@,
            r.scan_interval_seconds == SCAN_INTERVAL_SECONDS,
    {
        let mut extensions: Vec<String> = Vec::new();
        extensions.push("mkv".to_owned());
        extensions.push("mp4".to_owned());
        extensions.push("avi".to_owned());
        TranscodeConfig {
            ffmpeg_path: None,
            watched_directories: Vec::new(),
            min_file_size_bytes: MIN_FILE_SIZE_BYTES,
            size_gate_permille: SIZE_GATE_PERMILLE,
            qsv_quality: QsvQualitySettings {
                below_1080p: QSV_QUALITY_BELOW_1080P,
                at_1080p: QSV_QUALITY_AT_1080P,
                at_1440p_and_above: QSV_QUALITY_AT_1440P_PLUS,
            },
            media_extensions: extensions,
            scan_interval_seconds: SCAN_INTERVAL_SECONDS,
        }
    }
}

/// Where logs and job records live.
pub struct PathsConfig {
    /// Directory for log files.
    pub logs_dir: String,
    /// Directory for job record files.
    pub jobs_dir: String,
}

impl PathsConfig {
    /// Derive the log and record directories from a base directory.
    pub fn from_base(base: &str) -> (r: Self)
        ensures
            r.logs_dir@ == base@ + "/logs"@,
            r.jobs_dir@ == base@ + "/jobs"@,
    {
        let mut logs = base.to_owned();
        logs.append("/logs");
        let mut jobs = base.to_owned();
        jobs.append("/jobs");
        PathsConfig { logs_dir: logs, jobs_dir: jobs }
    }
}

} // verus!

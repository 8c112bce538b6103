//! Named constants shared across the library.

use vstd::prelude::*;

verus! {

/// Kibibyte.
pub const KIB: u64 = 1024;

/// Mebibyte.
pub const MIB: u64 = 1024 * 1024;

/// Gibibyte.
pub const GIB: u64 = 1024 * 1024 * 1024;

/// Tebibyte.
pub const TIB: u64 = 1024 * 1024 * 1024 * 1024;

/// Default minimum file size considered for re-encoding (2 GiB).
pub const MIN_FILE_SIZE_BYTES: u64 = 2 * 1024 * 1024 * 1024;

/// Default size-gate factor in permille: the output must be at most this
/// fraction of the original (900 = 90%).
pub const SIZE_GATE_PERMILLE: u32 = 900;

/// Default scan interval in seconds.
pub const SCAN_INTERVAL_SECONDS: u64 = 60;

/// Encoder quality for resolutions below 1080p.
pub const QSV_QUALITY_BELOW_1080P: u8 = 25;

/// Encoder quality for 1080p.
pub const QSV_QUALITY_AT_1080P: u8 = 24;

/// Encoder quality for 1440p and above.
pub const QSV_QUALITY_AT_1440P_PLUS: u8 = 23;

/// Height of 1080p video.
pub const HEIGHT_1080P: u32 = 1080;

/// Bit depths at or above this threshold use the 10-bit pixel surface.
pub const USE_10BIT_THRESHOLD: u8 = 10;

/// Default timeout for an encode, in seconds (4 hours).
pub const DEFAULT_TIMEOUT_SECONDS: u64 = 3600 * 4;

/// Maximum diagnostic lines retained from the encoder before truncation.
pub const MAX_STDERR_LINES: usize = 1000;

/// Number of size samples taken when checking that a file is stable.
pub const STABILITY_SAMPLE_COUNT: usize = 3;

/// Delay between stability samples, in milliseconds.
pub const STABILITY_SAMPLE_DELAY_MS: u64 = 500;

} // verus!

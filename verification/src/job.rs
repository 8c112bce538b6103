//! The durable job model: one record per file, tracking the re-encode
//! attempt through its whole lifecycle.

use vstd::prelude::*;
use crate::external::{new_unique_id, now_timestamp, valid_timestamp};
use crate::text::dec_str;
use crate::text::u64_to_string;
use crate::utils::{format_bytes, spec_format_bytes};

verus! {

/// Lifecycle state of a job.  `Pending` is initial; `Success`, `Failed`
/// and `Skipped` are terminal.
#[derive(Clone, Copy, Debug, PartialEq, Eq, Structural)]
pub enum JobStatus {
    /// Created, not yet started.
    Pending,
    /// The encode subprocess is running.
    Running,
    /// Finished and the original was replaced.
    Success,
    /// Finished with an error.
    Failed,
    /// Deliberately not processed (too small, already converted, rejected
    /// by the size gate, ...).
    Skipped,
}

impl JobStatus {
    /// Whether this status ends the lifecycle.
    pub open spec fn spec_is_terminal(self) -> bool {
        self == JobStatus::Success || self == JobStatus::Failed || self == JobStatus::Skipped
    }

    /// Whether this status ends the lifecycle.
    pub fn is_terminal(&self) -> (r: bool)
        ensures
            r == self.spec_is_terminal(),
    {
        match self {
            JobStatus::Success | JobStatus::Failed | JobStatus::Skipped => true,
            _ => false,
        }
    }

    /// Upper-case display word for the status.
    pub fn status_label(&self) -> (r: &'static str)
        ensures
            *self == JobStatus::Pending ==> r@ == "PENDING"@,
            *self == JobStatus::Running ==> r@ == "RUNNING"@,
            *self == JobStatus::Success ==> r@ == "SUCCESS"@,
            *self == JobStatus::Failed ==> r@ == "FAILED"@,
            *self == JobStatus::Skipped ==> r@ == "SKIPPED"@,
    {
        match self {
            JobStatus::Pending => "PENDING",
            JobStatus::Running => "RUNNING",
            JobStatus::Success => "SUCCESS",
            JobStatus::Failed => "FAILED",
            JobStatus::Skipped => "SKIPPED",
        }
    }
}

/// Human-readable explanation of a failure or skip.
#[derive(Clone)]
pub struct JobReason(pub String);

impl JobReason {
    /// Wrap a reason text.
    pub fn new(reason: &str) -> (r: Self)
        ensures
            r.0@ == reason@,
    {
        JobReason(reason.to_owned())
    }
}

/// One file's re-encode operation and everything needed to track it.
#[derive(Clone)]
pub struct TranscodeJob {
    /// Unique identifier of the job.
    pub id: String,
    /// Path of the original source file.
    pub source_path: String,
    /// Path of the in-progress output, once the encode has started.
    pub output_path: Option<String>,
    /// Unix timestamp of creation.
    pub created_at: i64,
    /// Unix timestamp when the encode started.
    pub started_at: Option<i64>,
    /// Unix timestamp when the job reached a terminal state.
    pub finished_at: Option<i64>,
    /// Current lifecycle state.
    pub status: JobStatus,
    /// Why the job failed or was skipped, when it was.
    pub reason: Option<JobReason>,
    /// Size of the original file in bytes.
    pub original_bytes: Option<u64>,
    /// Size of the accepted output in bytes.
    pub new_bytes: Option<u64>,
    /// Whether the file was classified as needing special handling.
    pub is_webrip_like: bool,
}

impl TranscodeJob {
    /// Well-formedness: every timestamp the record carries came from the
    /// bounded clock.
    pub open spec fn wf(self) -> bool {
        &&& valid_timestamp(self.created_at)
        &&& (self.started_at matches Some(t) ==> valid_timestamp(t))
        &&& (self.finished_at matches Some(t) ==> valid_timestamp(t))
    }

    /// Create a fresh `Pending` job for a source file, with a new unique
    /// id and the current time.
    pub fn new(source_path: String) -> (r: Self)
        ensures
            r.source_path == source_path,
            r.status == JobStatus::Pending,
            r.output_path is None,
            r.started_at is None,
            r.finished_at is None,
            r.reason is None,
            r.original_bytes is None,
            r.new_bytes is None,
            !r.is_webrip_like,
            r.id@.len() == 36,
            r.wf(),
    {
        TranscodeJob {
            id: new_unique_id(),
            source_path,
            output_path: None,
            created_at: now_timestamp(),
            started_at: None,
            finished_at: None,
            status: JobStatus::Pending,
            reason: None,
            original_bytes: None,
            new_bytes: None,
            is_webrip_like: false,
        }
    }

    /// Elapsed seconds between the start of the job and its end — or, for
    /// a job still running, the given current time.  `None` when the job
    /// has not started.
    pub fn duration(&self, now: i64) -> (r: Option<i64>)
        requires
            self.wf(),
            valid_timestamp(now),
        ensures
            r is Some <==> self.started_at is Some,
            self.started_at matches Some(s) ==> r is Some && r->0 == (match self.finished_at {
                Some(f) => f as int,
                None => now as int,
            }) - s,
    {
        match self.started_at {
            Some(s) => {
                let end = match self.finished_at {
                    Some(f) => f,
                    None => now,
                };
                Some(end - s)
            },
            None => None,
        }
    }

    /// Absolute size saving in bytes (negative when the output grew),
    /// saturated to the 64-bit signed range.
    pub fn size_savings_bytes(&self) -> (r: Option<i64>)
        ensures
            r is Some <==> self.original_bytes is Some && self.new_bytes is Some,
            self.original_bytes is Some && self.new_bytes is Some ==> r is Some && r->0
                == spec_clamp_i64(self.original_bytes->0 - self.new_bytes->0),
    {
        match (self.original_bytes, self.new_bytes) {
            (Some(o), Some(n)) => {
                let diff: i128 = o as i128 - n as i128;
                if diff > i64::MAX as i128 {
                    Some(i64::MAX)
                } else if diff < i64::MIN as i128 {
                    Some(i64::MIN)
                } else {
                    Some(diff as i64)
                }
            },
            _ => None,
        }
    }

    /// Fraction of the original size that was saved, in permille and
    /// rounded toward zero (negative when the output grew), saturated to
    /// the 64-bit signed range.  `None` without both sizes or with an
    /// empty original.
    pub fn size_savings_ratio(&self) -> (r: Option<i64>)
        ensures
            r is Some <==> self.original_bytes is Some && self.new_bytes is Some
                && self.original_bytes->0 > 0,
            r is Some ==> r->0 == spec_clamp_i64(
                spec_trunc_div(
                    (self.original_bytes->0 - self.new_bytes->0) * 1000,
                    self.original_bytes->0 as int,
                ),
            ),
    {
        match (self.original_bytes, self.new_bytes) {
            (Some(o), Some(n)) => {
                if o == 0 {
                    return None;
                }
                if o >= n {
                    let num: u128 = ((o - n) as u128) * 1000;
                    let q: u128 = num / (o as u128);
                    if q > i64::MAX as u128 {
                        Some(i64::MAX)
                    } else {
                        Some(q as i64)
                    }
                } else {
                    let num: u128 = ((n - o) as u128) * 1000;
                    let q: u128 = num / (o as u128);
                    if q >= 9223372036854775808u128 {
                        Some(i64::MIN)
                    } else {
                        Some(-(q as i64))
                    }
                }
            },
            _ => None,
        }
    }
}

/// Signed division rounding toward zero, as the machine divides.
pub open spec fn spec_trunc_div(a: int, b: int) -> int {
    if a >= 0 {
        a / b
    } else {
        -((-a) / b)
    }
}

/// Clamp to the 64-bit signed range.
pub open spec fn spec_clamp_i64(v: int) -> int {
    if v > i64::MAX {
        i64::MAX as int
    } else if v < i64::MIN {
        i64::MIN as int
    } else {
        v
    }
}

/// Duration in seconds rendered as "Hh Mm Ss", omitting leading zero
/// fields; a negative duration reads as zero.
pub open spec fn spec_duration_string(d: int) -> Seq<char> {
    let t = if d < 0 {
        0
    } else {
        d
    };
    let h = t / 3600;
    let m = (t % 3600) / 60;
    let s = t % 60;
    if h > 0 {
        dec_str(h as nat) + "h "@ + dec_str(m as nat) + "m "@ + dec_str(s as nat) + "s"@
    } else if m > 0 {
        dec_str(m as nat) + "m "@ + dec_str(s as nat) + "s"@
    } else {
        dec_str(s as nat) + "s"@
    }
}

impl TranscodeJob {
    /// Render the job's elapsed time, or "N/A" for a job not yet started.
    pub fn duration_string(&self, now: i64) -> (r: String)
        requires
            self.wf(),
            valid_timestamp(now),
        ensures
            self.started_at is None ==> r@ == "N/A"@,
            self.started_at matches Some(s) ==> r@ == spec_duration_string(
                (match self.finished_at {
                    Some(f) => f,
                    None => now,
                }) - s,
            ),
    {
        match self.duration(now) {
            None => "N/A".to_owned(),
            Some(d) => {
                let t: i64 = if d < 0 {
                    0
                } else {
                    d
                };
                let t = t as u64;
                let h = t / 3600;
                let m = (t % 3600) / 60;
                let s = t % 60;
                if h > 0 {
                    let mut out = u64_to_string(h);
                    out.append("h ");
                    let ms = u64_to_string(m);
                    out.append(ms.as_str());
                    out.append("m ");
                    let ss = u64_to_string(s);
                    out.append(ss.as_str());
                    out.append("s");
                    proof {
                        assert(out@ =~= spec_duration_string(d as int));
                    }
                    out
                } else if m > 0 {
                    let mut out = u64_to_string(m);
                    out.append("m ");
                    let ss = u64_to_string(s);
                    out.append(ss.as_str());
                    out.append("s");
                    proof {
                        assert(out@ =~= spec_duration_string(d as int));
                    }
                    out
                } else {
                    let mut out = u64_to_string(s);
                    out.append("s");
                    proof {
                        assert(out@ =~= spec_duration_string(d as int));
                    }
                    out
                }
            },
        }
    }

    /// Render the size saving as "<bytes> (<percent>%)", with a leading
    /// minus when the output grew; "N/A" without both sizes.
    pub fn size_savings_string(&self) -> (r: String)
        ensures
            (match (self.original_bytes, self.new_bytes) {
                (Some(o), Some(n)) => o > 0,
                _ => false,
            }) ==> r@ == spec_size_savings_string(
                self.original_bytes->0,
                self.new_bytes->0,
            ),
            !(match (self.original_bytes, self.new_bytes) {
                (Some(o), Some(n)) => o > 0,
                _ => false,
            }) ==> r@ == "N/A"@,
    {
        let bytes_opt = self.size_savings_bytes();
        let ratio_opt = self.size_savings_ratio();
        match (bytes_opt, ratio_opt) {
            (Some(bytes), Some(permille)) => {
                let magnitude: u64 = if bytes >= 0 {
                    bytes as u64
                } else if bytes == i64::MIN {
                    9223372036854775808u64
                } else {
                    (-bytes) as u64
                };
                let formatted = format_bytes(magnitude);
                let percent: i64 = round_permille_to_percent(permille);
                let mut out = String::new();
                if bytes < 0 {
                    out.append("-");
                }
                out.append(formatted.as_str());
                out.append(" (");
                if percent < 0 {
                    out.append("-");
                    let p = u64_to_string((-(percent as i128)) as u64);
                    out.append(p.as_str());
                } else {
                    let p = u64_to_string(percent as u64);
                    out.append(p.as_str());
                }
                out.append("%)");
                proof {
                    assert(out@ =~= spec_size_savings_string(
                        self.original_bytes->0,
                        self.new_bytes->0,
                    ));
                }
                out
            },
            _ => "N/A".to_owned(),
        }
    }
}

/// Permille rounded to whole percent, half away from zero.
pub open spec fn spec_round_permille_to_percent(p: int) -> int {
    if p >= 0 {
        (p + 5) / 10
    } else {
        -(((-p) + 5) / 10)
    }
}

/// Round a permille value to whole percent, half away from zero.
fn round_permille_to_percent(p: i64) -> (r: i64)
    ensures
        r == spec_round_permille_to_percent(p as int),
{
    if p >= 0 {
        let m: u64 = p as u64;
        ((m + 5) / 10) as i64
    } else {
        let m: u64 = if p == i64::MIN {
            9223372036854775808u64
        } else {
            (-p) as u64
        };
        let q: u64 = (m + 5) / 10;
        -(q as i64)
    }
}

/// The rendered size saving: magnitude of the byte difference in
/// human-readable form, then the rounded percentage.
pub open spec fn spec_size_savings_string(original: u64, new: u64) -> Seq<char> {
    let diff = spec_clamp_i64(original - new);
    let permille = spec_clamp_i64(spec_trunc_div((original - new) * 1000, original as int));
    let percent = spec_round_permille_to_percent(permille);
    let magnitude = if diff >= 0 {
        diff
    } else if diff == i64::MIN {
        9223372036854775808
    } else {
        -diff
    };
    let sign = if diff < 0 {
        "-"@
    } else {
        Seq::<char>::empty()
    };
    let psign = if percent < 0 {
        "-"@
    } else {
        Seq::<char>::empty()
    };
    let pmag = if percent < 0 {
        -percent
    } else {
        percent
    };
    sign + spec_format_bytes(magnitude as u64) + " ("@ + psign + dec_str(pmag as nat) + "%)"@
}

} // verus!

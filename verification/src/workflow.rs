//! The per-file workflow: every decision of one file's journey from
//! discovery to a terminal state, as a state machine.  The I/O layer
//! drives it: it performs each step's outside work (sampling sizes,
//! probing, encoding, measuring, renaming) and feeds the result back in;
//! every decision between those steps is made and verified here.

use vstd::prelude::*;
use crate::command::TranscodeParams;
use crate::heuristics::{spec_quality_for_height, spec_surface_for_depth};
use crate::paths::spec_stem_end;
use crate::external::valid_timestamp;
use crate::heuristics::{is_already_av1, is_webrip_like, spec_is_already_av1, spec_is_webrip_like};
use crate::job::{JobStatus, JobReason, TranscodeJob};
use crate::metadata::FileMetadata;
use crate::scheduler::WorkOutcome;
use crate::sizegate::{check_size_gate, spec_gate_passes, SizeGateResult};

verus! {

/// Where a workflow stands between two interactions with the outside.
#[derive(PartialEq, Eq, Structural, Clone, Copy, Debug)]
pub enum WorkflowState {
    /// Created; the preflight facts are still to come.
    Start,
    /// Waiting for the file-stability samples.
    CheckingStability,
    /// Waiting for the media inspector's output.
    Probing,
    /// The job record exists, pending; waiting for the encode to start.
    ReadyToExecute,
    /// The encode subprocess runs; the job record says running.
    Executing,
    /// The encode succeeded; waiting for the candidate's size.
    GateChecking,
    /// The size gate accepted the output; waiting for the replacement's result.
    Replacing,
    /// A terminal outcome was reached.
    Finished,
}

/// One file's workflow: its configuration excerpt, its state, and the
/// job record once one exists.
pub struct Workflow {
    /// Current position in the lifecycle.
    pub state: WorkflowState,
    /// Path of the source file.
    pub source_path: String,
    /// Files below this size are skipped before any probe or record.
    pub min_file_size_bytes: u64,
    /// Size-gate factor in permille.
    pub size_gate_permille: u32,
    /// Whether this is a dry run: decide, but never encode.
    pub dry_run: bool,
    /// The durable job record, once created.
    pub job: Option<TranscodeJob>,
    /// The encode parameters, once derived.
    pub params: Option<TranscodeParams>,
    /// The terminal outcome, once reached.
    pub outcome: Option<WorkOutcome>,
}

impl Workflow {
    /// The lifecycle invariant: a job record exists from the moment the
    /// decision to encode falls, its status always matches the state,
    /// and a finished workflow with a record holds exactly one terminal
    /// status with its finish time set.
    pub open spec fn wf(self) -> bool {
        &&& 0 < self.size_gate_permille <= 1000
        &&& (self.job matches Some(j) ==> j.wf() && j.source_path == self.source_path
            && j.original_bytes is Some)
        &&& (self.state == WorkflowState::Start || self.state == WorkflowState::CheckingStability
            || self.state == WorkflowState::Probing ==> self.job is None && self.params is None)
        &&& (self.state == WorkflowState::ReadyToExecute ==> (self.job matches Some(j)
            && j.status == JobStatus::Pending) && self.params is Some)
        &&& (self.state == WorkflowState::Executing || self.state == WorkflowState::GateChecking
            || self.state == WorkflowState::Replacing ==> (self.job matches Some(j) && j.status
            == JobStatus::Running && j.started_at is Some) && self.params is Some)
        &&& (self.state == WorkflowState::Finished ==> self.outcome is Some)
        &&& (self.state != WorkflowState::Finished ==> self.outcome is None)
        &&& (self.state == WorkflowState::Finished ==> (self.job matches Some(j) ==> {
            &&& j.status.spec_is_terminal()
            &&& j.finished_at is Some
            &&& (self.outcome == Some(WorkOutcome::Succeeded) <==> j.status
                == JobStatus::Success)
            &&& (self.outcome == Some(WorkOutcome::Skipped) <==> j.status == JobStatus::Skipped)
            &&& (self.outcome == Some(WorkOutcome::Failed) <==> j.status == JobStatus::Failed)
        }))
    }

    /// A fresh workflow for one discovered path.
    pub fn new(source_path: String, min_file_size_bytes: u64, size_gate_permille: u32, dry_run: bool) -> (r:
        Self)
        requires
            0 < size_gate_permille <= 1000,
        ensures
            r.wf(),
            r.state == WorkflowState::Start,
            r.source_path == source_path,
            r.min_file_size_bytes == min_file_size_bytes,
            r.size_gate_permille == size_gate_permille,
            r.dry_run == dry_run,
            r.job is None,
    {
        Workflow {
            state: WorkflowState::Start,
            source_path,
            min_file_size_bytes,
            size_gate_permille,
            dry_run,
            job: None,
            params: None,
            outcome: None,
        }
    }

    /// Preflight: a file carrying the skip marker, or smaller than the
    /// configured minimum, is skipped before any probe runs or any job
    /// record is created; otherwise the stability check is next.
    pub fn on_preflight(&mut self, has_skip_marker: bool, file_size: u64)
        requires
            old(self).wf(),
            old(self).state == WorkflowState::Start,
        ensures
            final(self).wf(),
            final(self).job is None,
            final(self).params is None,
            has_skip_marker ==> final(self).state == WorkflowState::Finished && final(self).outcome == Some(WorkOutcome::Skipped),
            !has_skip_marker && file_size < old(self).min_file_size_bytes ==> final(self).state
                == WorkflowState::Finished && final(self).outcome == Some(WorkOutcome::Skipped),
            !has_skip_marker && file_size >= old(self).min_file_size_bytes ==> final(self).state
                == WorkflowState::CheckingStability && final(self).outcome is None,
            spec_config_kept(*old(self), *final(self)),
    {
        if has_skip_marker {
            self.state = WorkflowState::Finished;
            self.outcome = Some(WorkOutcome::Skipped);
        } else if file_size < self.min_file_size_bytes {
            self.state = WorkflowState::Finished;
            self.outcome = Some(WorkOutcome::Skipped);
        } else {
            self.state = WorkflowState::CheckingStability;
        }
    }

    /// Stability: a file whose size samples still change is skipped (it
    /// is still being copied); a stable file goes on to the probe.
    pub fn on_stability(&mut self, stable: bool)
        requires
            old(self).wf(),
            old(self).state == WorkflowState::CheckingStability,
        ensures
            final(self).wf(),
            final(self).job is None,
            !stable ==> final(self).state == WorkflowState::Finished && final(self).outcome
                == Some(WorkOutcome::Skipped),
            stable ==> final(self).state == WorkflowState::Probing && final(self).outcome
                is None,
            spec_config_kept(*old(self), *final(self)),
    {
        if stable {
            self.state = WorkflowState::Probing;
        } else {
            self.state = WorkflowState::Finished;
            self.outcome = Some(WorkOutcome::Skipped);
        }
    }

    /// The probe itself failed: the workflow fails, before any record
    /// exists.
    pub fn on_probe_failed(&mut self)
        requires
            old(self).wf(),
            old(self).state == WorkflowState::Probing,
        ensures
            final(self).wf(),
            final(self).job is None,
            final(self).state == WorkflowState::Finished,
            final(self).outcome == Some(WorkOutcome::Failed),
            spec_config_kept(*old(self), *final(self)),
    {
        self.state = WorkflowState::Finished;
        self.outcome = Some(WorkOutcome::Failed);
    }

    /// The probe's answer decides: a file without video, or already in the
    /// target codec, or seen during a dry run, is skipped with no
    /// record.  Otherwise the pending job record is created, carrying
    /// the special-handling classification and the file size, and the
    /// encode parameters are derived.  The caller must persist the
    /// record before starting the encode.
    pub fn on_probe(&mut self, metadata: &FileMetadata, file_size: u64)
        requires
            old(self).wf(),
            old(self).state == WorkflowState::Probing,
        ensures
            final(self).wf(),
            metadata.video_streams@.len() == 0 ==> final(self).state == WorkflowState::Finished
                && final(self).outcome == Some(WorkOutcome::Skipped) && final(self).job is None,
            metadata.video_streams@.len() > 0 && spec_is_already_av1(*metadata) ==> final(self).state == WorkflowState::Finished && final(self).outcome == Some(
                WorkOutcome::Skipped,
            ) && final(self).job is None,
            metadata.video_streams@.len() > 0 && !spec_is_already_av1(*metadata) && old(self).dry_run ==> final(self).state == WorkflowState::Finished && final(self).outcome
                == Some(WorkOutcome::Skipped) && final(self).job is None,
            metadata.video_streams@.len() > 0 && !spec_is_already_av1(*metadata) && !old(self).dry_run ==> {
                let i = metadata.spec_default_video_stream_index()->0;
                &&& final(self).state == WorkflowState::ReadyToExecute
                &&& final(self).job matches Some(j) && j.status == JobStatus::Pending
                    && j.original_bytes == Some(file_size) && j.is_webrip_like
                    == spec_is_webrip_like(*metadata) && j.source_path == old(self).source_path
                    && (j.output_path matches Some(op) && op@ == old(self).source_path@.take(
                    spec_stem_end(old(self).source_path@),
                ) + ".av1-tmp.mkv"@)
                &&& metadata.spec_default_video_stream_index() is Some
                &&& final(self).params matches Some(p) && {
                    &&& p.input_path == old(self).source_path
                    &&& p.output_path@ == old(self).source_path@.take(
                        spec_stem_end(old(self).source_path@),
                    ) + ".av1-tmp.mkv"@
                    &&& p.video_stream_index == i
                    &&& p.quality as int == spec_quality_for_height(
                        metadata.video_streams@[i].height as int,
                    )
                    &&& p.surface@ == spec_surface_for_depth(
                        metadata.video_streams@[i].bit_depth as int,
                    )
                    &&& p.is_webrip == spec_is_webrip_like(*metadata)
                }
            },
            spec_config_kept(*old(self), *final(self)),
    {
        let has_video = metadata.video_streams.len() > 0;
        if !has_video {
            self.state = WorkflowState::Finished;
            self.outcome = Some(WorkOutcome::Skipped);
            return ;
        }
        if is_already_av1(metadata) {
            self.state = WorkflowState::Finished;
            self.outcome = Some(WorkOutcome::Skipped);
            return ;
        }
        if self.dry_run {
            self.state = WorkflowState::Finished;
            self.outcome = Some(WorkOutcome::Skipped);
            return ;
        }
        let webrip = is_webrip_like(metadata);
        let mut job = TranscodeJob::new(self.source_path.clone());
        job.original_bytes = Some(file_size);
        job.is_webrip_like = webrip;
        let params = TranscodeParams::from_metadata(self.source_path.clone(), metadata, webrip);
        match params {
            Some(p) => {
                job.output_path = Some(p.output_path.clone());
                self.job = Some(job);
                self.params = Some(p);
                self.state = WorkflowState::ReadyToExecute;
            },
            None => {
                // Unreachable: the file was just checked to have video.
                proof {
                    assert(false);
                }
                self.state = WorkflowState::Finished;
                self.outcome = Some(WorkOutcome::Failed);
            },
        }
    }

    /// The encode starts: the record turns running with its start time.
    /// The caller persists the record, builds the argument vector from
    /// the parameters and spawns the encoder.
    pub fn on_execute_start(&mut self, now: i64)
        requires
            old(self).wf(),
            old(self).state == WorkflowState::ReadyToExecute,
            valid_timestamp(now),
        ensures
            final(self).wf(),
            final(self).state == WorkflowState::Executing,
            final(self).job == Some(
                TranscodeJob {
                    status: JobStatus::Running,
                    started_at: Some(now),
                    ..old(self).job->0
                },
            ),
            final(self).params == old(self).params,
            spec_config_kept(*old(self), *final(self)),
    {
        let job = match core_take_job(&mut self.job) {
            Some(j) => j,
            None => {
                proof {
                    assert(false);
                }
                return ;
            },
        };
        let updated = TranscodeJob {
            status: JobStatus::Running,
            started_at: Some(now),
            ..job
        };
        self.job = Some(updated);
        self.state = WorkflowState::Executing;
    }

    /// The encode ended: a watchdog timeout or an encoder failure ends
    /// the workflow failed, with the record terminal and the reason
    /// recorded (the caller persists it and removes the partial
    /// output); a successful exit goes on to the size gate.
    pub fn on_execution(&mut self, success: bool, timed_out: bool, now: i64)
        requires
            old(self).wf(),
            old(self).state == WorkflowState::Executing,
            valid_timestamp(now),
        ensures
            final(self).wf(),
            timed_out || !success ==> final(self).state == WorkflowState::Finished && final(self).outcome == Some(WorkOutcome::Failed) && (final(self).job matches Some(j)
                && j.status == JobStatus::Failed && j.finished_at == Some(now) && j.reason
                is Some && spec_job_core_kept(j, old(self).job->0) && j.started_at == old(self).job->0.started_at && j.new_bytes == old(self).job->0.new_bytes),
            !timed_out && success ==> final(self).state == WorkflowState::GateChecking && final(self).job == old(self).job,
            final(self).params == old(self).params,
            spec_config_kept(*old(self), *final(self)),
    {
        if !timed_out && success {
            self.state = WorkflowState::GateChecking;
            return ;
        }
        let job = match core_take_job(&mut self.job) {
            Some(j) => j,
            None => {
                proof {
                    assert(false);
                }
                return ;
            },
        };
        let reason = if timed_out {
            JobReason::new("encode timed out")
        } else {
            JobReason::new("encoder failed")
        };
        let updated = TranscodeJob {
            status: JobStatus::Failed,
            finished_at: Some(now),
            reason: Some(reason),
            ..job
        };
        self.job = Some(updated);
        self.state = WorkflowState::Finished;
        self.outcome = Some(WorkOutcome::Failed);
    }

    /// The candidate's size arrived: the size gate decides.  On a pass
    /// the record carries the new size and the replacement is next; on
    /// a failure the record ends skipped (the caller writes the two
    /// sidecars, removes the candidate and persists the record).
    pub fn on_candidate_size(&mut self, new_bytes: u64, now: i64) -> (r: SizeGateResult)
        requires
            old(self).wf(),
            old(self).state == WorkflowState::GateChecking,
            valid_timestamp(now),
        ensures
            final(self).wf(),
            r is Passed <==> spec_gate_passes(
                old(self).job->0.original_bytes->0,
                new_bytes,
                old(self).size_gate_permille,
            ),
            r is Passed ==> final(self).state == WorkflowState::Replacing && final(self).job
                == Some(TranscodeJob { new_bytes: Some(new_bytes), ..old(self).job->0 }),
            r is Failed ==> final(self).state == WorkflowState::Finished && final(self).outcome
                == Some(WorkOutcome::Skipped) && (final(self).job matches Some(j) && j.status
                == JobStatus::Skipped && j.finished_at == Some(now) && j.new_bytes == Some(
                new_bytes,
            ) && j.reason is Some && spec_job_core_kept(j, old(self).job->0) && j.started_at
                == old(self).job->0.started_at),
            final(self).params == old(self).params,
            spec_config_kept(*old(self), *final(self)),
    {
        let job = match core_take_job(&mut self.job) {
            Some(j) => j,
            None => {
                proof {
                    assert(false);
                }
                return SizeGateResult::Failed {
                    original_bytes: 0,
                    new_bytes,
                    ratio_permille: 0,
                    threshold_permille: 0,
                };
            },
        };
        let original_bytes = match job.original_bytes {
            Some(b) => b,
            None => {
                proof {
                    assert(false);
                }
                0
            },
        };
        let decision = check_size_gate(original_bytes, new_bytes, self.size_gate_permille);
        match decision {
            SizeGateResult::Passed { .. } => {
                let updated = TranscodeJob { new_bytes: Some(new_bytes), ..job };
                self.job = Some(updated);
                self.state = WorkflowState::Replacing;
            },
            SizeGateResult::Failed { .. } => {
                let updated = TranscodeJob {
                    status: JobStatus::Skipped,
                    finished_at: Some(now),
                    new_bytes: Some(new_bytes),
                    reason: Some(JobReason::new("size gate failed")),
                    ..job
                };
                self.job = Some(updated);
                self.state = WorkflowState::Finished;
                self.outcome = Some(WorkOutcome::Skipped);
            },
        }
        decision
    }

    /// The replacement's result: on success the record ends successful;
    /// on a failed swap (the backup restored by the replacement
    /// protocol) it ends failed.  Either way the caller persists the
    /// terminal record before the workflow exits.
    pub fn on_replace(&mut self, replaced: bool, now: i64)
        requires
            old(self).wf(),
            old(self).state == WorkflowState::Replacing,
            valid_timestamp(now),
        ensures
            final(self).wf(),
            final(self).state == WorkflowState::Finished,
            replaced ==> final(self).outcome == Some(WorkOutcome::Succeeded) && final(self).job
                == Some(
                TranscodeJob {
                    status: JobStatus::Success,
                    finished_at: Some(now),
                    ..old(self).job->0
                },
            ),
            !replaced ==> final(self).outcome == Some(WorkOutcome::Failed) && (final(self).job matches Some(j) && j.status == JobStatus::Failed && j.finished_at == Some(
                now,
            ) && j.reason is Some && spec_job_core_kept(j, old(self).job->0) && j.started_at
                == old(self).job->0.started_at && j.new_bytes == old(self).job->0.new_bytes),
            spec_config_kept(*old(self), *final(self)),
    {
        let job = match core_take_job(&mut self.job) {
            Some(j) => j,
            None => {
                proof {
                    assert(false);
                }
                return ;
            },
        };
        if replaced {
            let updated = TranscodeJob {
                status: JobStatus::Success,
                finished_at: Some(now),
                ..job
            };
            self.job = Some(updated);
            self.outcome = Some(WorkOutcome::Succeeded);
        } else {
            let updated = TranscodeJob {
                status: JobStatus::Failed,
                finished_at: Some(now),
                reason: Some(JobReason::new("replacement failed")),
                ..job
            };
            self.job = Some(updated);
            self.outcome = Some(WorkOutcome::Failed);
        }
        self.state = WorkflowState::Finished;
    }
}

/// The record fields no lifecycle transition may touch: identity, paths,
/// creation time, the measured original size and the special-handling
/// classification.
pub open spec fn spec_job_core_kept(a: TranscodeJob, b: TranscodeJob) -> bool {
    &&& a.id == b.id
    &&& a.source_path == b.source_path
    &&& a.output_path == b.output_path
    &&& a.created_at == b.created_at
    &&& a.original_bytes == b.original_bytes
    &&& a.is_webrip_like == b.is_webrip_like
}

/// The workflow's configuration excerpt never changes underway.
pub open spec fn spec_config_kept(a: Workflow, b: Workflow) -> bool {
    &&& a.source_path == b.source_path
    &&& a.min_file_size_bytes == b.min_file_size_bytes
    &&& a.size_gate_permille == b.size_gate_permille
    &&& a.dry_run == b.dry_run
}

/// Take the job record out of its slot.
fn core_take_job(slot: &mut Option<TranscodeJob>) -> (r: Option<TranscodeJob>)
    ensures
        r == *old(slot),
        *final(slot) is None,
{
    let mut taken: Option<TranscodeJob> = None;
    core::mem::swap(slot, &mut taken);
    taken
}

} // verus!

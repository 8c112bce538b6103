//! The bounded-concurrency scheduler: an in-flight path set with atomic
//! test-and-insert admission, cooperative cancellation polled only at
//! admission, and terminal-outcome counters for batch reporting.

use vstd::prelude::*;
use crate::text::str_eq;

verus! {

/// Explicit cancellation token: replaces a process-global flag, polled by
/// the scheduler at admission points only.
pub struct CancelToken {
    /// Whether a shutdown has been requested.
    pub requested: bool,
}

impl CancelToken {
    /// A fresh token with no shutdown requested.
    pub fn new() -> (r: Self)
        ensures
            !r.requested,
    {
        CancelToken { requested: false }
    }
}

/// Whether a shutdown has been requested on the token.
pub fn should_shutdown(token: &CancelToken) -> (r: bool)
    ensures
        r == token.requested,
{
    token.requested
}

/// Request a shutdown: new work is no longer admitted, while in-flight
/// workflows run to their natural end.
pub fn request_shutdown(token: &mut CancelToken)
    ensures
        final(token).requested,
{
    token.requested = true;
}

/// Decision for one discovery event at an admission point.
#[derive(PartialEq, Eq, Structural, Clone, Copy, Debug)]
pub enum AdmitDecision {
    /// The path was inserted into the in-flight set; run its workflow.
    Admitted,
    /// The path is already in flight; ignore this event.
    Duplicate,
    /// Every concurrency slot is taken; retry when one frees.
    Busy,
    /// Shutdown was requested; admit nothing more.
    ShuttingDown,
}

/// Scheduler state: the in-flight path set, the concurrency bound and the
/// per-outcome counters of a discovery batch.
pub struct Scheduler {
    /// Paths whose workflows are currently running; free of duplicates.
    pub in_flight: Vec<String>,
    /// Maximum number of concurrently running workflows.
    pub max_concurrent: usize,
    /// Workflows that ended in success.
    pub success_count: u64,
    /// Workflows that ended skipped.
    pub skipped_count: u64,
    /// Workflows that ended failed.
    pub failed_count: u64,
}

impl Scheduler {
    /// The in-flight set holds no path twice.
    pub open spec fn wf(self) -> bool {
        forall|a: int, b: int|
            0 <= a < b < self.in_flight@.len() ==> (#[trigger] self.in_flight@[a])@ != (
            #[trigger] self.in_flight@[b])@
    }

    /// Whether a path is in the in-flight set.
    pub open spec fn spec_in_flight(self, path: Seq<char>) -> bool {
        exists|i: int| 0 <= i < self.in_flight@.len() && (#[trigger] self.in_flight@[i])@ == path
    }

    /// A fresh scheduler with the given concurrency bound.
    pub fn new(max_concurrent: usize) -> (r: Self)
        ensures
            r.wf(),
            r.in_flight@.len() == 0,
            r.max_concurrent == max_concurrent,
            r.success_count == 0 && r.skipped_count == 0 && r.failed_count == 0,
    {
        Scheduler {
            in_flight: Vec::new(),
            max_concurrent,
            success_count: 0,
            skipped_count: 0,
            failed_count: 0,
        }
    }

    /// Index of a path in the in-flight set, if present.
    fn find(&self, path: &str) -> (r: Option<usize>)
        ensures
            match r {
                Some(i) => (i as int) < self.in_flight@.len() && self.in_flight@[i as int]@
                    == path@,
                None => !self.spec_in_flight(path@),
            },
    {
        let n = self.in_flight.len();
        let mut i: usize = 0;
        while i < n
            invariant
                n == self.in_flight@.len(),
                i <= n,
                forall|x: int| 0 <= x < i ==> (#[trigger] self.in_flight@[x])@ != path@,
            decreases n - i,
        {
            if str_eq(self.in_flight[i].as_str(), path) {
                return Some(i);
            }
            i = i + 1;
        }
        None
    }

    /// Atomic test-and-insert admission for one discovery event.  The
    /// cancellation token is polled here and nowhere else; a path already
    /// in flight is never admitted a second time, so two concurrent
    /// discovery events for one path start at most one workflow.
    pub fn try_admit(&mut self, path: &str, token: &CancelToken) -> (r: AdmitDecision)
        requires
            old(self).wf(),
        ensures
            final(self).wf(),
            final(self).max_concurrent == old(self).max_concurrent,
            final(self).success_count == old(self).success_count,
            final(self).skipped_count == old(self).skipped_count,
            final(self).failed_count == old(self).failed_count,
            r == AdmitDecision::ShuttingDown <==> token.requested,
            r == AdmitDecision::Duplicate ==> old(self).spec_in_flight(path@) && *final(self)
                == *old(self),
            r == AdmitDecision::Busy ==> old(self).in_flight@.len()
                >= old(self).max_concurrent && *final(self) == *old(self),
            r == AdmitDecision::Admitted ==> {
                &&& !old(self).spec_in_flight(path@)
                &&& old(self).in_flight@.len() < old(self).max_concurrent
                &&& final(self).in_flight@.len() == old(self).in_flight@.len() + 1
                &&& final(self).in_flight@.last()@ == path@
                &&& forall|x: int|
                    0 <= x < old(self).in_flight@.len() ==> final(self).in_flight@[x] == old(self).in_flight@[x]
                &&& final(self).spec_in_flight(path@)
            },
            r == AdmitDecision::ShuttingDown ==> *final(self) == *old(self),
            !token.requested && old(self).spec_in_flight(path@) ==> r
                == AdmitDecision::Duplicate,
            !token.requested && !old(self).spec_in_flight(path@) && old(self).in_flight@.len()
                < old(self).max_concurrent ==> r == AdmitDecision::Admitted,
    {
        if token.requested {
            return AdmitDecision::ShuttingDown;
        }
        match self.find(path) {
            Some(i) => {
                proof {
                    assert(self.spec_in_flight(path@));
                }
                AdmitDecision::Duplicate
            },
            None => {
                if self.in_flight.len() >= self.max_concurrent {
                    AdmitDecision::Busy
                } else {
                    let owned = path.to_owned();
                    self.in_flight.push(owned);
                    proof {
                        assert(self.in_flight@.last()@ == path@);
                        assert(self.spec_in_flight(path@));
                        assert forall|a: int, b: int|
                            0 <= a < b < self.in_flight@.len() implies (
                        #[trigger] self.in_flight@[a])@ != (#[trigger] self.in_flight@[b])@ by {
                            if b == self.in_flight@.len() - 1 {
                                assert(old(self).in_flight@[a]@ != path@);
                            }
                        }
                    }
                    AdmitDecision::Admitted
                }
            },
        }
    }

    /// Release a path from the in-flight set and count its outcome.  The
    /// release happens on every exit path of a workflow, whatever its
    /// outcome, so a path can never be stranded in the set.
    pub fn complete(&mut self, path: &str, outcome: WorkOutcome)
        requires
            old(self).wf(),
        ensures
            final(self).wf(),
            !final(self).spec_in_flight(path@),
            final(self).max_concurrent == old(self).max_concurrent,
            outcome == WorkOutcome::Succeeded ==> final(self).success_count == spec_inc_u64(
                old(self).success_count,
            ) && final(self).skipped_count == old(self).skipped_count && final(self).failed_count
                == old(self).failed_count,
            outcome == WorkOutcome::Skipped ==> final(self).skipped_count == spec_inc_u64(
                old(self).skipped_count,
            ) && final(self).success_count == old(self).success_count && final(self).failed_count
                == old(self).failed_count,
            outcome == WorkOutcome::Failed ==> final(self).failed_count == spec_inc_u64(
                old(self).failed_count,
            ) && final(self).success_count == old(self).success_count && final(self).skipped_count == old(self).skipped_count,
    {
        let found = self.find(path);
        match found {
            Some(i) => {
                let ghost pre = self.in_flight@;
                self.in_flight.remove(i);
                proof {
                    assert forall|a: int, b: int|
                        0 <= a < b < self.in_flight@.len() implies (
                    #[trigger] self.in_flight@[a])@ != (#[trigger] self.in_flight@[b])@ by {
                        let pa = if a < i {
                            a
                        } else {
                            a + 1
                        };
                        let pb = if b < i {
                            b
                        } else {
                            b + 1
                        };
                        assert(self.in_flight@[a] == pre[pa]);
                        assert(self.in_flight@[b] == pre[pb]);
                    }
                    assert forall|x: int|
                        0 <= x < self.in_flight@.len() implies (#[trigger] self.in_flight@[x])@
                        != path@ by {
                        let px = if x < i {
                            x
                        } else {
                            x + 1
                        };
                        assert(self.in_flight@[x] == pre[px]);
                        if px != i {
                            assert(pre[px]@ != pre[i as int]@);
                        }
                    }
                }
            },
            None => {},
        }
        match outcome {
            WorkOutcome::Succeeded => {
                if self.success_count < u64::MAX {
                    self.success_count = self.success_count + 1;
                }
            },
            WorkOutcome::Skipped => {
                if self.skipped_count < u64::MAX {
                    self.skipped_count = self.skipped_count + 1;
                }
            },
            WorkOutcome::Failed => {
                if self.failed_count < u64::MAX {
                    self.failed_count = self.failed_count + 1;
                }
            },
        }
    }
}

/// Terminal outcome of one workflow, for batch aggregation.
#[derive(PartialEq, Eq, Structural, Clone, Copy, Debug)]
pub enum WorkOutcome {
    /// The original was replaced.
    Succeeded,
    /// The file was deliberately not processed.
    Skipped,
    /// The workflow failed.
    Failed,
}

/// Saturating increment used by the outcome counters.
pub open spec fn spec_inc_u64(v: u64) -> int {
    if v < u64::MAX {
        v + 1
    } else {
        v as int
    }
}

/// Two discovery events for one path start at most one workflow: after an
/// admission, any further admission of the same path (before the workflow
/// completes and releases it) is reported as a duplicate, never admitted.
pub proof fn lemma_admission_dedup(s: Scheduler, path: Seq<char>)
    requires
        s.wf(),
        s.spec_in_flight(path),
    ensures
        forall|i: int, j: int|
            (0 <= i < s.in_flight@.len() && 0 <= j < s.in_flight@.len() && (
            #[trigger] s.in_flight@[i])@ == path && (#[trigger] s.in_flight@[j])@ == path) ==> i
                == j,
{
    assert forall|i: int, j: int|
        (0 <= i < s.in_flight@.len() && 0 <= j < s.in_flight@.len() && (
        #[trigger] s.in_flight@[i])@ == path && (#[trigger] s.in_flight@[j])@ == path) implies i
        == j by {
        if i < j {
            assert(s.in_flight@[i]@ != s.in_flight@[j]@);
        } else if j < i {
            assert(s.in_flight@[j]@ != s.in_flight@[i]@);
        }
    }
}

} // verus!

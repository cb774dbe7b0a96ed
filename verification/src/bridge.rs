//! The blocking bridge: a blocking operation runs on a dedicated worker
//! thread while the calling task suspends; the worker's report is then
//! classified into the caller's result. The thread itself lives outside the
//! verified core; what is verified here is the classification of every
//! possible report and the single-delivery lifecycle of a job.

use vstd::prelude::*;

verus! {

/// Why a bridged operation did not produce a value.
#[derive(Clone, Copy, Debug, PartialEq, Eq)]
pub enum BridgeError<E> {
    /// The worker crashed while running the operation.
    WorkerPanicked,
    /// The operation ran to completion and returned its own error.
    OperationFailed(E),
    /// The operation exceeded its configured deadline. The worker is
    /// abandoned, not killed: there is no safe preemption for a native call.
    Timeout,
}

/// Everything a worker thread can report back about one operation.
#[derive(Clone, Copy, Debug, PartialEq, Eq)]
pub enum WorkerReport<T, E> {
    /// The operation finished and produced a value.
    Finished(T),
    /// The operation finished and returned its own error.
    Failed(E),
    /// Joining the worker found that it had panicked.
    Panicked,
    /// The deadline passed before the worker finished.
    DeadlineExceeded,
}

/// How a worker report is surfaced to the awaiting task.
pub open spec fn resolved<T, E>(report: WorkerReport<T, E>) -> Result<T, BridgeError<E>> {
    match report {
        WorkerReport::Finished(v) => Ok(v),
        WorkerReport::Failed(e) => Err(BridgeError::OperationFailed(e)),
        WorkerReport::Panicked => Err(BridgeError::WorkerPanicked),
        WorkerReport::DeadlineExceeded => Err(BridgeError::Timeout),
    }
}

/// Classify a worker's report: a panic surfaces as `WorkerPanicked`, a missed
/// deadline as `Timeout`, the operation's own error as `OperationFailed`.
pub fn resolve_report<T, E>(report: WorkerReport<T, E>) -> (r: Result<T, BridgeError<E>>)
    ensures
        r == resolved(report),
{
    match report {
        WorkerReport::Finished(v) => Ok(v),
        WorkerReport::Failed(e) => Err(BridgeError::OperationFailed(e)),
        WorkerReport::Panicked => Err(BridgeError::WorkerPanicked),
        WorkerReport::DeadlineExceeded => Err(BridgeError::Timeout),
    }
}

/// The deadline rule: a wait of `elapsed_ms` has timed out exactly when it
/// reaches the configured `timeout_ms`.
pub fn deadline_exceeded(elapsed_ms: u64, timeout_ms: u64) -> (r: bool)
    ensures
        r == (elapsed_ms >= timeout_ms),
{
    elapsed_ms >= timeout_ms
}

/// One bridged unit of work: created per invocation, resolved exactly once,
/// consumed exactly once.
pub struct BlockingJob<T, E> {
    timeout_ms: u64,
    outcome: Option<Result<T, BridgeError<E>>>,
}

impl<T, E> BlockingJob<T, E> {
    /// The deadline this job was created with.
    pub closed spec fn timeout_ms(&self) -> u64 {
        self.timeout_ms
    }

    /// A job that has not yet received its worker's report.
    pub closed spec fn is_pending(&self) -> bool {
        self.outcome is None
    }

    /// The result waiting to be taken, once the report has been delivered.
    pub closed spec fn delivered(&self) -> Option<Result<T, BridgeError<E>>> {
        self.outcome
    }

    /// A fresh job with the given deadline, awaiting its worker.
    pub fn new(timeout_ms: u64) -> (job: BlockingJob<T, E>)
        ensures
            job.is_pending(),
            job.timeout_ms() == timeout_ms,
    {
        BlockingJob { timeout_ms, outcome: None }
    }

    /// Deliver the worker's report. Only a pending job accepts one, so a
    /// job's outcome is decided exactly once.
    pub fn deliver(&mut self, report: WorkerReport<T, E>)
        requires
            old(self).is_pending(),
        ensures
            !final(self).is_pending(),
            final(self).delivered() == Some(resolved(report)),
            final(self).timeout_ms() == old(self).timeout_ms(),
    {
        self.outcome = Some(resolve_report(report));
    }

    /// Consume the job, yielding the resolved outcome. The job is gone
    /// afterwards: the result is delivered to the awaiting task exactly once.
    pub fn take(self) -> (r: Result<T, BridgeError<E>>)
        requires
            !self.is_pending(),
        ensures
            Some(r) == self.delivered(),
    {
        match self.outcome {
            Some(r) => r,
            None => unreached(),
        }
    }
}

} // verus!

//! A background job runtime: jobs are recorded durably, dispatched to worker
//! executors according to per-queue concurrency, retry and backoff policies,
//! and retried or discarded according to the outcome of each attempt.
//!
//! The coordination core lives here: the job lifecycle state machine, the
//! in-memory storage backend with its runner bookkeeping invariants, the
//! dispatch server that matches ready jobs against parked workers, and the
//! processor registry. Asynchronous plumbing (timers, actors, persistence
//! engines) stays outside; it drives this core through plain values.

use vstd::prelude::*;

pub mod args;
pub mod clock;
pub mod job_info;
pub mod registry;
pub mod server;
pub mod stats;
pub mod storage;
pub mod table;
pub mod worker;

verus! {

/// The outcome a worker reports for one attempt at a job.
#[derive(Clone, Copy, Debug, PartialEq, Eq, Structural)]
pub enum JobResult {
    Success,
    Failure,
    MissingProcessor,
}

impl JobResult {
    pub fn success() -> (r: Self)
        ensures
            r == JobResult::Success,
    {
        JobResult::Success
    }

    pub fn failure() -> (r: Self)
        ensures
            r == JobResult::Failure,
    {
        JobResult::Failure
    }

    pub fn missing_processor() -> (r: Self)
        ensures
            r == JobResult::MissingProcessor,
    {
        JobResult::MissingProcessor
    }

    pub fn is_failure(&self) -> (r: bool)
        ensures
            r == (*self == JobResult::Failure),
    {
        *self == JobResult::Failure
    }

    pub fn is_success(&self) -> (r: bool)
        ensures
            r == (*self == JobResult::Success),
    {
        *self == JobResult::Success
    }

    pub fn is_missing_processor(&self) -> (r: bool)
        ensures
            r == (*self == JobResult::MissingProcessor),
    {
        *self == JobResult::MissingProcessor
    }
}

/// The status of a stored job. Terminal outcomes delete the record, so only
/// the two live states are represented.
#[derive(Clone, Copy, Debug, PartialEq, Eq, Structural)]
pub enum JobStatus {
    /// Job should be queued
    Pending,
    /// Job is running
    Running,
}

impl JobStatus {
    pub fn pending() -> (r: Self)
        ensures
            r == JobStatus::Pending,
    {
        JobStatus::Pending
    }

    pub fn running() -> (r: Self)
        ensures
            r == JobStatus::Running,
    {
        JobStatus::Running
    }

    pub fn is_pending(&self) -> (r: bool)
        ensures
            r == (*self == JobStatus::Pending),
    {
        *self == JobStatus::Pending
    }

    pub fn is_running(&self) -> (r: bool)
        ensures
            r == (*self == JobStatus::Running),
    {
        *self == JobStatus::Running
    }
}

/// The delay policy applied before a failed job's next attempt.
#[derive(Clone, Copy, Debug, PartialEq, Eq, Structural)]
pub enum Backoff {
    /// Seconds between execution
    Linear(usize),
    /// Base for seconds between execution; the delay is the base raised to
    /// the current retry count
    Exponential(usize),
}

/// The retry policy of a job: retry forever, or up to a fixed count.
#[derive(Clone, Copy, Debug, PartialEq, Eq, Structural)]
pub enum MaxRetries {
    /// Keep retrying forever
    Infinite,
    /// Put a limit on the number of retries
    Count(usize),
}

impl MaxRetries {
    /// Whether a job whose retry counter has reached `retry_count` may be
    /// queued again: always under `Infinite`, and while the counter has not
    /// passed the configured count otherwise.
    pub fn compare(&self, retry_count: u32) -> (r: ShouldStop)
        ensures
            r == ShouldStop::Requeue <==> self.allows_retry(retry_count),
    {
        match *self {
            MaxRetries::Infinite => ShouldStop::Requeue,
            MaxRetries::Count(count) => {
                if (retry_count as usize) <= count {
                    ShouldStop::Requeue
                } else {
                    ShouldStop::LimitReached
                }
            },
        }
    }

    /// A retry is allowed while the counter is at most the configured count.
    pub open spec fn allows_retry(self, retry_count: u32) -> bool {
        match self {
            MaxRetries::Infinite => true,
            MaxRetries::Count(count) => retry_count as int <= count as int,
        }
    }
}

/// Whether a job that just failed should be placed back in its queue.
#[derive(Clone, Copy, Debug, PartialEq, Eq, Structural)]
pub enum ShouldStop {
    /// The job has hit the maximum allowed number of retries, and should be
    /// failed permanently
    LimitReached,
    /// The job is allowed to be put back into the job queue
    Requeue,
}

impl ShouldStop {
    /// A boolean representation of this state
    pub fn should_requeue(&self) -> (r: bool)
        ensures
            r == (*self == ShouldStop::Requeue),
    {
        *self == ShouldStop::Requeue
    }
}

/// The classification of a failed attempt, as the processor registry reports
/// it to the worker.
#[derive(Clone, Copy, Debug, PartialEq, Eq, Structural)]
pub enum JobError {
    /// Some error occurred while processing the job
    Processing,
    /// The job's arguments could not be decoded for its processor
    Json,
    /// No processor was present to handle the job
    MissingProcessor,
}

} // verus!

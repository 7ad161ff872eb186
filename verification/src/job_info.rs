//! Job records.
//!
//! A [`NewJobInfo`] is the pre-id form of a job, produced when a job is
//! queued; storage turns it into a [`JobInfo`] by assigning a fresh id. A
//! [`ReturnJobInfo`] reports the outcome of one attempt. The retry counter,
//! the retry policy and the backoff policy live here, together with the
//! readiness predicate that gates dispatch.

use vstd::prelude::*;

use crate::Backoff;
use crate::JobResult;
use crate::JobStatus;
use crate::MaxRetries;
use crate::ShouldStop;

use crate::clock::MAX_TIMESTAMP;
use crate::clock::valid_ts;

verus! {

/// The outcome of one attempt at the job with the given id.
#[derive(Clone, Debug)]
pub struct ReturnJobInfo {
    pub id: u64,
    pub result: JobResult,
}

impl ReturnJobInfo {
    pub fn fail(id: u64) -> (r: Self)
        ensures
            r.id == id,
            r.result == JobResult::Failure,
    {
        ReturnJobInfo { id, result: JobResult::Failure }
    }

    pub fn pass(id: u64) -> (r: Self)
        ensures
            r.id == id,
            r.result == JobResult::Success,
    {
        ReturnJobInfo { id, result: JobResult::Success }
    }

    pub fn missing_processor(id: u64) -> (r: Self)
        ensures
            r.id == id,
            r.result == JobResult::MissingProcessor,
    {
        ReturnJobInfo { id, result: JobResult::MissingProcessor }
    }
}

/// `base` raised to `exp`.
pub open spec fn pow_nat(base: nat, exp: nat) -> nat
    decreases exp,
{
    if exp == 0 {
        1
    } else {
        base * pow_nat(base, (exp - 1) as nat)
    }
}

/// `base` raised to `exp`, clamped to what a `u64` can hold.
pub open spec fn pow_clamped(base: nat, exp: nat) -> nat {
    if pow_nat(base, exp) <= u64::MAX {
        pow_nat(base, exp)
    } else {
        u64::MAX as nat
    }
}

/// The delay in seconds that a backoff policy prescribes before the attempt
/// after the one that brought the retry counter to `retry_count`.
pub open spec fn backoff_secs(strategy: Backoff, retry_count: u32) -> nat {
    match strategy {
        Backoff::Linear(secs) => secs as nat,
        Backoff::Exponential(base) => pow_nat(base as nat, retry_count as nat),
    }
}

/// `now` advanced by `secs`, clamped to the largest timestamp the core
/// works with.
pub open spec fn next_time(now: i64, secs: nat) -> i64 {
    if now + secs > MAX_TIMESTAMP {
        MAX_TIMESTAMP
    } else {
        (now + secs) as i64
    }
}

/// The retry counter after one more failure; it sticks at the top of its
/// range rather than wrap.
pub open spec fn inc32(retry_count: u32) -> u32 {
    if retry_count < u32::MAX {
        (retry_count + 1) as u32
    } else {
        u32::MAX
    }
}

proof fn lemma_pow_base_ge_two(base: nat, exp: nat)
    requires
        pow_nat(base, exp) > 1,
    ensures
        base >= 2,
    decreases exp,
{
    if base <= 1 {
        if exp > 0 {
            lemma_pow_one_or_less(base, exp);
        }
    }
}

proof fn lemma_pow_one_or_less(base: nat, exp: nat)
    requires
        base <= 1,
    ensures
        pow_nat(base, exp) <= 1,
    decreases exp,
{
    if exp > 0 {
        lemma_pow_one_or_less(base, (exp - 1) as nat);
        assert(base * pow_nat(base, (exp - 1) as nat) <= 1) by (nonlinear_arith)
            requires
                base <= 1,
                pow_nat(base, (exp - 1) as nat) <= 1,
        ;
    }
}

/// `base` raised to `exp`, saturating at `u64::MAX` instead of overflowing.
fn pow_saturating(base: u64, exp: u32) -> (r: u64)
    ensures
        r as nat == pow_clamped(base as nat, exp as nat),
{
    let mut result: u64 = 1;
    let mut i: u32 = 0;
    while i < exp
        invariant
            i <= exp,
            result as nat == pow_clamped(base as nat, i as nat),
        decreases exp - i,
    {
        let ghost pow_i = pow_nat(base as nat, i as nat);
        let ghost pow_next = pow_nat(base as nat, (i + 1) as nat);
        proof {
            assert(pow_next == pow_i * base) by {
                assert(pow_nat(base as nat, (i + 1) as nat) == base * pow_nat(
                    base as nat,
                    i as nat,
                ));
            }
            if pow_i > u64::MAX {
                lemma_pow_base_ge_two(base as nat, i as nat);
                assert(pow_next >= pow_i * 2) by (nonlinear_arith)
                    requires
                        pow_next == pow_i * base,
                        base >= 2,
                        pow_i >= 0,
                ;
            }
        }
        result = match result.checked_mul(base) {
            Some(v) => v,
            None => u64::MAX,
        };
        i = i + 1;
    }
    result
}

/// A job as the application hands it in, before storage assigns an id.
#[derive(Clone, Debug)]
pub struct NewJobInfo {
    /// Name of the processor that should handle this job
    processor: String,
    /// Name of the queue that this job is a part of
    queue: String,
    /// Arguments for a given job
    args: serde_json::Value,
    /// The initial MaxRetries value, for comparing to the current retry count
    max_retries: MaxRetries,
    /// How often retries should be scheduled
    backoff_strategy: Backoff,
    /// The time this job should be dequeued
    next_queue: Option<i64>,
}

/// The mathematical content of a [`NewJobInfo`].
pub ghost struct NewJobView {
    pub processor: Seq<char>,
    pub queue: Seq<char>,
    pub args: serde_json::Value,
    pub max_retries: MaxRetries,
    pub backoff_strategy: Backoff,
    pub next_queue: Option<i64>,
}

impl View for NewJobInfo {
    type V = NewJobView;

    closed spec fn view(&self) -> NewJobView {
        NewJobView {
            processor: self.processor@,
            queue: self.queue@,
            args: self.args,
            max_retries: self.max_retries,
            backoff_strategy: self.backoff_strategy,
            next_queue: self.next_queue,
        }
    }
}

impl NewJobView {
    /// The record this job is stored as, once storage assigns it `id` at
    /// time `now`: pending, with a retry counter of zero, carrying the
    /// processor, queue, arguments and policies the application chose.
    pub open spec fn stored_as(self, id: u64, now: i64) -> JobView {
        JobView {
            id: id,
            processor: self.processor,
            queue: self.queue,
            args: self.args,
            status: JobStatus::Pending,
            retry_count: 0,
            max_retries: self.max_retries,
            backoff_strategy: self.backoff_strategy,
            next_queue: self.next_queue,
            updated_at: now,
        }
    }
}

impl NewJobInfo {
    pub fn new(
        processor: String,
        queue: String,
        args: serde_json::Value,
        max_retries: MaxRetries,
        backoff_strategy: Backoff,
    ) -> (r: Self)
        ensures
            r@ == (NewJobView {
                processor: processor@,
                queue: queue@,
                args: args,
                max_retries: max_retries,
                backoff_strategy: backoff_strategy,
                next_queue: None,
            }),
    {
        NewJobInfo { processor, queue, args, max_retries, next_queue: None, backoff_strategy }
    }

    /// Ask for the job to be dequeued no earlier than `time`.
    pub fn schedule(&mut self, time: i64)
        ensures
            final(self)@ == (NewJobView { next_queue: Some(time), ..old(self)@ }),
    {
        self.next_queue = Some(time);
    }

    pub fn queue(&self) -> (r: &str)
        ensures
            r@ == self@.queue,
    {
        self.queue.as_str()
    }

    /// A new job is ready for immediate dispatch when it carries no
    /// scheduled dequeue time.
    pub fn is_ready(&self) -> (r: bool)
        ensures
            r == self@.next_queue is None,
    {
        self.next_queue.is_none()
    }

    /// The stored form of this job under the given id, created at `now`:
    /// pending, with a retry counter of zero.
    pub fn with_id(self, id: u64, now: i64) -> (r: JobInfo)
        ensures
            r@ == self@.stored_as(id, now),
    {
        JobInfo {
            id,
            processor: self.processor,
            queue: self.queue,
            status: JobStatus::Pending,
            args: self.args,
            retry_count: 0,
            max_retries: self.max_retries,
            next_queue: self.next_queue,
            backoff_strategy: self.backoff_strategy,
            updated_at: now,
        }
    }
}

/// Metadata pertaining to a job that exists within the background jobs
/// system. Created from a [`NewJobInfo`] by the storage backend; the core
/// mutates it only through the lifecycle methods below.
#[derive(Clone, Debug)]
pub struct JobInfo {
    /// ID of the job
    id: u64,
    /// Name of the processor that should handle this job
    processor: String,
    /// Name of the queue that this job is a part of
    queue: String,
    /// Arguments for a given job
    args: serde_json::Value,
    /// Status of the job
    status: JobStatus,
    /// How many failed attempts the job has seen
    retry_count: u32,
    /// The initial MaxRetries value, for comparing to the current retry count
    max_retries: MaxRetries,
    /// How often retries should be scheduled
    backoff_strategy: Backoff,
    /// The time this job should be dequeued
    next_queue: Option<i64>,
    /// The time this job was last updated
    updated_at: i64,
}

/// The mathematical content of a [`JobInfo`].
pub ghost struct JobView {
    pub id: u64,
    pub processor: Seq<char>,
    pub queue: Seq<char>,
    pub args: serde_json::Value,
    pub status: JobStatus,
    pub retry_count: u32,
    pub max_retries: MaxRetries,
    pub backoff_strategy: Backoff,
    pub next_queue: Option<i64>,
    pub updated_at: i64,
}

impl JobView {
    /// A job is ready at `now` when it has no scheduled dequeue time, or
    /// that time has passed.
    pub open spec fn ready_at(self, now: i64) -> bool {
        match self.next_queue {
            Some(time) => now > time,
            None => true,
        }
    }

    /// The record after a failed attempt that the retry policy lets run
    /// again: the counter grows by one, the job is pending again, and its
    /// next attempt is scheduled by the backoff policy.
    pub open spec fn after_retry(self, now: i64) -> JobView {
        JobView {
            retry_count: inc32(self.retry_count),
            status: JobStatus::Pending,
            next_queue: Some(
                next_time(now, backoff_secs(self.backoff_strategy, inc32(self.retry_count))),
            ),
            updated_at: now,
            ..self
        }
    }

    /// The record reset to pending after no processor was found for it: the
    /// retry counter is untouched.
    pub open spec fn after_missing(self, now: i64) -> JobView {
        JobView { status: JobStatus::Pending, updated_at: now, ..self }
    }

    /// The record as it is handed to a worker.
    pub open spec fn after_start(self, now: i64) -> JobView {
        JobView { status: JobStatus::Running, updated_at: now, ..self }
    }

}

impl View for JobInfo {
    type V = JobView;

    closed spec fn view(&self) -> JobView {
        JobView {
            id: self.id,
            processor: self.processor@,
            queue: self.queue@,
            args: self.args,
            status: self.status,
            retry_count: self.retry_count,
            max_retries: self.max_retries,
            backoff_strategy: self.backoff_strategy,
            next_queue: self.next_queue,
            updated_at: self.updated_at,
        }
    }
}

impl JobInfo {
    pub fn queue(&self) -> (r: &str)
        ensures
            r@ == self@.queue,
    {
        self.queue.as_str()
    }

    pub fn processor(&self) -> (r: &str)
        ensures
            r@ == self@.processor,
    {
        self.processor.as_str()
    }

    pub fn args(&self) -> (r: serde_json::Value)
        ensures
            r == self@.args,
    {
        self.args.clone()
    }

    pub fn id(&self) -> (r: u64)
        ensures
            r == self@.id,
    {
        self.id
    }

    pub fn retry_count(&self) -> (r: u32)
        ensures
            r == self@.retry_count,
    {
        self.retry_count
    }

    pub fn next_queue_time(&self) -> (r: Option<i64>)
        ensures
            r == self@.next_queue,
    {
        self.next_queue
    }

    pub fn max_retries(&self) -> (r: MaxRetries)
        ensures
            r == self@.max_retries,
    {
        self.max_retries
    }

    pub fn backoff_strategy(&self) -> (r: Backoff)
        ensures
            r == self@.backoff_strategy,
    {
        self.backoff_strategy
    }

    pub fn updated_at(&self) -> (r: i64)
        ensures
            r == self@.updated_at,
    {
        self.updated_at
    }

    /// Rebuild a record from its plain parts, as a persistence backend does
    /// when it decodes a stored job.
    pub fn from_parts(
        id: u64,
        processor: String,
        queue: String,
        args: serde_json::Value,
        status: JobStatus,
        retry_count: u32,
        max_retries: MaxRetries,
        backoff_strategy: Backoff,
        next_queue: Option<i64>,
        updated_at: i64,
    ) -> (r: JobInfo)
        ensures
            r@ == (JobView {
                id,
                processor: processor@,
                queue: queue@,
                args,
                status,
                retry_count,
                max_retries,
                backoff_strategy,
                next_queue,
                updated_at,
            }),
    {
        JobInfo {
            id,
            processor,
            queue,
            args,
            status,
            retry_count,
            max_retries,
            backoff_strategy,
            next_queue,
            updated_at,
        }
    }

    /// An exact copy of this record.
    pub fn duplicate(&self) -> (r: JobInfo)
        ensures
            r@ == self@,
    {
        JobInfo {
            id: self.id,
            processor: self.processor.clone(),
            queue: self.queue.clone(),
            args: self.args.clone(),
            status: self.status,
            retry_count: self.retry_count,
            max_retries: self.max_retries,
            backoff_strategy: self.backoff_strategy,
            next_queue: self.next_queue,
            updated_at: self.updated_at,
        }
    }

    fn updated(&mut self, now: i64)
        ensures
            final(self)@ == (JobView { updated_at: now, ..old(self)@ }),
    {
        self.updated_at = now;
    }

    /// Count one more failed attempt and report whether the retry policy
    /// still allows the job to be queued again.
    pub fn increment(&mut self, now: i64) -> (r: ShouldStop)
        ensures
            final(self)@ == (JobView {
                retry_count: inc32(old(self)@.retry_count),
                updated_at: now,
                ..old(self)@
            }),
            r == ShouldStop::Requeue <==> old(self)@.max_retries.allows_retry(
                inc32(old(self)@.retry_count),
            ),
    {
        self.updated(now);
        self.retry_count = if self.retry_count < u32::MAX {
            self.retry_count + 1
        } else {
            u32::MAX
        };
        self.max_retries.compare(self.retry_count)
    }

    /// Schedule the next attempt: the backoff policy's delay for the current
    /// retry counter, counted from `now`.
    fn next_queue(&mut self, now: i64)
        requires
            valid_ts(now),
        ensures
            final(self)@ == (JobView {
                next_queue: Some(
                    next_time(
                        now,
                        backoff_secs(old(self)@.backoff_strategy, old(self)@.retry_count),
                    ),
                ),
                ..old(self)@
            }),
    {
        let secs: u64 = match self.backoff_strategy {
            Backoff::Linear(secs) => secs as u64,
            Backoff::Exponential(base) => pow_saturating(base as u64, self.retry_count),
        };
        let room: u64 = (MAX_TIMESTAMP - now) as u64;
        let when: i64 = if secs > room {
            MAX_TIMESTAMP
        } else {
            now + (secs as i64)
        };
        self.next_queue = Some(when);
    }

    pub fn is_ready(&self, now: i64) -> (r: bool)
        ensures
            r == self@.ready_at(now),
    {
        match self.next_queue {
            Some(time) => now > time,
            None => true,
        }
    }

    /// Record a failed attempt. If the retry policy still allows it, the job
    /// goes back to pending with its next attempt scheduled by the backoff
    /// policy, and the call returns true; otherwise the job is left as it
    /// was (but for the counter and the update time) and the call returns
    /// false, meaning the job should be discarded.
    pub fn needs_retry(&mut self, now: i64) -> (r: bool)
        requires
            valid_ts(now),
        ensures
            r == old(self)@.max_retries.allows_retry(inc32(old(self)@.retry_count)),
            r ==> final(self)@ == old(self)@.after_retry(now),
            !r ==> final(self)@ == (JobView {
                retry_count: inc32(old(self)@.retry_count),
                updated_at: now,
                ..old(self)@
            }),
    {
        let should_retry = self.increment(now).should_requeue();

        if should_retry {
            self.pending(now);
            self.next_queue(now);
        }

        should_retry
    }

    pub fn is_pending(&self) -> (r: bool)
        ensures
            r == (self@.status == JobStatus::Pending),
    {
        self.status.is_pending()
    }

    pub fn is_in_queue(&self, queue: &String) -> (r: bool)
        ensures
            r == (self@.queue == queue@),
    {
        self.queue == *queue
    }

    /// Mark the job as running.
    pub fn run(&mut self, now: i64)
        ensures
            final(self)@ == old(self)@.after_start(now),
    {
        self.updated(now);
        self.status = JobStatus::Running;
    }

    /// Mark the job as pending.
    pub fn pending(&mut self, now: i64)
        ensures
            final(self)@ == (JobView {
                status: JobStatus::Pending,
                updated_at: now,
                ..old(self)@
            }),
    {
        self.updated(now);
        self.status = JobStatus::Pending;
    }
}

} // verus!

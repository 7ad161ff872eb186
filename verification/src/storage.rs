//! The in-memory storage backend.
//!
//! Storage owns the stored jobs, the queue membership of pending jobs, the
//! runner bindings of running jobs, and the aggregate statistics. Its
//! consistency invariant makes dispatch exactly-once-per-attempt: every
//! stored job is either queued or bound to exactly one runner according to
//! its status, a runner is bound to at most one job, and queue membership
//! and runner bindings never overlap.
//!
//! The primitive operations (`save_job`, `queue_job`, `run_job`,
//! `delete_job`, ...) state exactly how they change the storage contents.
//! The derived operations (`new_job`, `request_job`, `return_job`) drive the
//! job lifecycle and preserve the consistency invariant.

use vstd::prelude::*;

use crate::JobResult;
use crate::MaxRetries;
use crate::JobStatus;
use crate::job_info::JobInfo;
use crate::job_info::JobView;
use crate::job_info::NewJobInfo;
use crate::job_info::ReturnJobInfo;
use crate::job_info::inc32;
use crate::clock::valid_ts;
use crate::stats::Stats;
use crate::stats::StatsView;
use crate::table::Table;
use crate::table::injective_values;

verus! {

/// Returned when a storage's id space is exhausted and no fresh id can be
/// generated.
#[derive(Clone, Copy, Debug)]
pub struct TooManyStoragesError;

/// The mathematical content of a [`Storage`].
#[verifier::ext_equal]
pub ghost struct StorageView {
    /// The next id the allocator will hand out
    pub next_id: u64,
    /// Every stored job, by id
    pub jobs: Map<u64, JobView>,
    /// The queue each queued job waits in, by job id
    pub queues: Map<u64, Seq<char>>,
    /// The runner bound to each running job, by job id
    pub running: Map<u64, u64>,
    /// The aggregate statistics
    pub stats: StatsView,
}

/// `running` with any binding of the given runner dropped.
pub open spec fn runner_cleared(running: Map<u64, u64>, runner_id: u64) -> Map<u64, u64> {
    Map::new(|id: u64| running.dom().contains(id) && running[id] != runner_id, |id: u64| running[id])
}

/// The retry counter of every job stored in both states has not decreased.
pub open spec fn retry_monotone(pre: Map<u64, JobView>, post: Map<u64, JobView>) -> bool {
    forall|id: u64|
        #![auto]
        pre.dom().contains(id) && post.dom().contains(id) ==> pre[id].retry_count
            <= post[id].retry_count
}

/// No job waiting in the given queue is ready at `now`.
pub open spec fn no_ready_job(sv: StorageView, queue: Seq<char>, now: i64) -> bool {
    forall|id: u64|
        #[trigger] sv.queued(id) && sv.queues[id] == queue ==> !sv.jobs[id].ready_at(now)
}

/// Dispatching a job takes it out of its queue and touches no other queued
/// job, so a queue with nothing ready stays that way.
pub proof fn lemma_dispatch_preserves_no_ready(
    pre: StorageView,
    id: u64,
    runner_id: u64,
    now: i64,
    queue: Seq<char>,
    at: i64,
)
    requires
        no_ready_job(pre, queue, at),
    ensures
        no_ready_job(after_dispatch(pre, id, runner_id, now), queue, at),
{
    let post = after_dispatch(pre, id, runner_id, now);
    assert forall|x: u64| #[trigger]
        post.queued(x) && post.queues[x] == queue implies !post.jobs[x].ready_at(at) by {
        assert(pre.queued(x));
        assert(x != id);
    }
}

/// The storage contents after a new job is persisted at time `now`: the
/// record is stored pending under the next fresh id with a retry counter of
/// zero, placed in its queue, and the pending gauge grows by one.
pub open spec fn after_new_job(pre: StorageView, job: crate::job_info::NewJobView, now: i64) -> StorageView {
    StorageView {
        jobs: pre.jobs.insert(pre.next_id, job.stored_as(pre.next_id, now)),
        queues: pre.queues.insert(pre.next_id, job.queue),
        stats: pre.stats.job_queued(),
        next_id: (pre.next_id + 1) as u64,
        ..pre
    }
}

/// The storage contents after the queued job `id` is handed to `runner_id`
/// at time `now`: the job flips to running, leaves its queue, is bound to
/// the runner, and the gauges move one job from pending to running.
pub open spec fn after_dispatch(pre: StorageView, id: u64, runner_id: u64, now: i64) -> StorageView {
    StorageView {
        jobs: pre.jobs.insert(id, pre.jobs[id].after_start(now)),
        queues: pre.queues.remove(id),
        running: pre.running.insert(id, runner_id),
        stats: pre.stats.job_started(),
        ..pre
    }
}

/// The storage contents after the outcome `result` is returned for job `id`
/// at time `now`. A success deletes the record; a failure retries it or,
/// once its retry policy is exhausted, deletes it and counts it dead; a
/// missing processor puts it back in its queue with its retry counter
/// untouched. An id that is not stored leaves the storage unchanged.
pub open spec fn after_return(pre: StorageView, id: u64, result: JobResult, now: i64) -> StorageView {
    if !pre.stored(id) {
        pre
    } else {
        let j = pre.jobs[id];
        match result {
            JobResult::Failure => {
                if j.max_retries.allows_retry(inc32(j.retry_count)) {
                    StorageView {
                        jobs: pre.jobs.insert(id, j.after_retry(now)),
                        queues: pre.queues.insert(id, j.queue),
                        running: pre.running.remove(id),
                        stats: pre.stats.job_retried(),
                        ..pre
                    }
                } else {
                    StorageView {
                        jobs: pre.jobs.remove(id),
                        queues: pre.queues.remove(id),
                        running: pre.running.remove(id),
                        stats: pre.stats.job_dead(now),
                        ..pre
                    }
                }
            },
            JobResult::MissingProcessor => {
                StorageView {
                    jobs: pre.jobs.insert(id, j.after_missing(now)),
                    queues: pre.queues.insert(id, j.queue),
                    running: pre.running.remove(id),
                    stats: pre.stats.job_retried(),
                    ..pre
                }
            },
            JobResult::Success => {
                StorageView {
                    jobs: pre.jobs.remove(id),
                    queues: pre.queues.remove(id),
                    running: pre.running.remove(id),
                    stats: pre.stats.job_completed(now),
                    ..pre
                }
            },
        }
    }
}

impl StorageView {
    /// The job is waiting in some queue.
    pub open spec fn queued(self, id: u64) -> bool {
        self.queues.dom().contains(id)
    }

    /// The job is bound to a runner.
    pub open spec fn running_bound(self, id: u64) -> bool {
        self.running.dom().contains(id)
    }

    /// The job record exists.
    pub open spec fn stored(self, id: u64) -> bool {
        self.jobs.dom().contains(id)
    }

    /// No two running jobs share a runner.
    pub open spec fn runners_injective(self) -> bool {
        injective_values(self.running)
    }

    /// The runner is bound to no job.
    pub open spec fn runner_idle(self, runner_id: u64) -> bool {
        forall|id: u64| #[trigger] self.running.dom().contains(id) ==> self.running[id] != runner_id
    }

    /// The consistency invariant of a storage: runner bindings form a
    /// bijection with the running jobs, queue membership and runner bindings
    /// never overlap, each reflects the status of a stored job, stored ids
    /// are self-describing and below the allocator, and the statistics are
    /// well-formed.
    pub open spec fn consistent(self) -> bool {
        &&& self.runners_injective()
        &&& forall|id: u64| !(#[trigger] self.queued(id) && self.running_bound(id))
        &&& forall|id: u64|
            #[trigger] self.running_bound(id) ==> self.stored(id) && self.jobs[id].status
                == JobStatus::Running
        &&& forall|id: u64|
            #[trigger] self.queued(id) ==> self.stored(id) && self.jobs[id].status
                == JobStatus::Pending && self.queues[id] == self.jobs[id].queue
        &&& forall|id: u64|
            #[trigger] self.stored(id) ==> {
                &&& self.jobs[id].id == id
                &&& id < self.next_id
                &&& (self.jobs[id].status == JobStatus::Running ==> self.running_bound(id))
                &&& (self.jobs[id].status == JobStatus::Pending ==> self.queued(id))
            }
        &&& self.stats.wf()
    }
}

/// An in-memory storage backend: ids are assigned by counting, and the
/// contents live in association tables.
pub struct Storage {
    count: u64,
    jobs: Table<JobInfo>,
    queues: Table<String>,
    running: Table<u64>,
    stats: Stats,
}

impl View for Storage {
    type V = StorageView;

    closed spec fn view(&self) -> StorageView {
        StorageView {
            next_id: self.count,
            jobs: self.jobs@.map_values(|j: JobInfo| j@),
            queues: self.queues@.map_values(|q: String| q@),
            running: self.running@,
            stats: self.stats@,
        }
    }
}

impl Storage {
    /// The backing tables have pairwise-distinct keys, so their contents
    /// agree with the maps of the view.
    pub closed spec fn wf(self) -> bool {
        self.jobs.wf() && self.queues.wf() && self.running.wf()
    }

    pub fn new() -> (r: Self)
        ensures
            r.wf(),
            r@.consistent(),
            r@.next_id == 0,
            r@.jobs == Map::<u64, JobView>::empty(),
            r@.queues == Map::<u64, Seq<char>>::empty(),
            r@.running == Map::<u64, u64>::empty(),
            r@.stats.pending == 0,
            r@.stats.running == 0,
            r@.stats.dead.is_zero(),
            r@.stats.complete.is_zero(),
    {
        let r = Storage {
            count: 0,
            jobs: Table::new(),
            queues: Table::new(),
            running: Table::new(),
            stats: Stats::new(),
        };
        proof {
            assert(r@.jobs =~= Map::<u64, JobView>::empty());
            assert(r@.queues =~= Map::<u64, Seq<char>>::empty());
        }
        r
    }

    /// Hand out a fresh id. Ids count up from zero; the id space must not
    /// be exhausted, so that ids stay collision-free.
    pub fn generate_id(&mut self) -> (id: u64)
        requires
            old(self).wf(),
            old(self)@.next_id < u64::MAX,
        ensures
            final(self).wf(),
            id == old(self)@.next_id,
            final(self)@ == (StorageView { next_id: (old(self)@.next_id + 1) as u64, ..old(self)@ }),
    {
        let id = self.count;
        self.count = self.count + 1;
        id
    }

    /// Insert or overwrite the job record under its own id.
    pub fn save_job(&mut self, job: JobInfo)
        requires
            old(self).wf(),
        ensures
            final(self).wf(),
            final(self)@ == (StorageView {
                jobs: old(self)@.jobs.insert(job@.id, job@),
                ..old(self)@
            }),
    {
        let id = job.id();
        self.jobs.insert(id, job);
        proof {
            assert(self@.jobs =~= old(self)@.jobs.insert(job@.id, job@));
            assert(self@ =~= (StorageView { jobs: old(self)@.jobs.insert(job@.id, job@), ..old(
                self,
            )@ }));
        }
    }

    /// Read the job record under an id, whatever its state.
    pub fn fetch_job(&self, id: u64) -> (r: Option<JobInfo>)
        requires
            self.wf(),
        ensures
            match r {
                Some(job) => self@.stored(id) && job@ == self@.jobs[id],
                None => !self@.stored(id),
            },
    {
        match self.jobs.get(id) {
            Some(job) => Some(job.duplicate()),
            None => None,
        }
    }

    /// The index of a queue entry whose job is ready, if there is one.
    fn find_ready(&self, queue: &String, now: i64) -> (r: Option<u64>)
        requires
            self.wf(),
            self@.consistent(),
        ensures
            match r {
                Some(id) => self@.queued(id) && self@.queues[id] == queue@
                    && self@.jobs[id].ready_at(now),
                None => no_ready_job(self@, queue@, now),
            },
    {
        let n = self.queues.entry_count();
        let mut i: usize = 0;
        while i < n
            invariant
                i <= n,
                n == self.queues.entries@.len(),
                self.wf(),
                self@.consistent(),
                forall|j: int|
                    0 <= j < i ==> !(self.queues.entries@[j].1@ == queue@
                        && self@.jobs[self.queues.entries@[j].0].ready_at(now)),
            decreases n - i,
        {
            let entry = self.queues.entry_at(i);
            let id = entry.0;
            proof {
                self.queues.lemma_entry_in_map(i as int);
                assert(self@.queued(id));
                assert(self@.queues[id] == self.queues.entries@[i as int].1@);
            }
            if entry.1 == *queue {
                // a queued job is always stored and pending, so readiness is
                // the only question
                match self.jobs.get(id) {
                    Some(job) => {
                        if job.is_pending() && job.is_ready(now) {
                            return Some(id);
                        }
                    },
                    None => {},
                }
            }
            i = i + 1;
        }
        proof {
            assert forall|id: u64| #[trigger]
                self@.queued(id) && self@.queues[id] == queue@ implies !self@.jobs[id].ready_at(
                now,
            ) by {
                self.queues.lemma_key_in_entries(id);
                let j = choose|j: int|
                    0 <= j < self.queues.entries@.len() && self.queues.entries@[j].0 == id;
                self.queues.lemma_entry_in_map(j);
            }
        }
        None
    }

    /// Atomically remove and return one queued job of this queue that is
    /// ready at `now`, pending and stored; or return nothing when no queued
    /// job of the queue is ready.
    pub fn fetch_job_from_queue(&mut self, queue: &str, now: i64) -> (r: Option<JobInfo>)
        requires
            old(self).wf(),
            old(self)@.consistent(),
        ensures
            final(self).wf(),
            match r {
                Some(job) => {
                    &&& old(self)@.queued(job@.id)
                    &&& old(self)@.queues[job@.id] == queue@
                    &&& job@ == old(self)@.jobs[job@.id]
                    &&& job@.status == JobStatus::Pending
                    &&& job@.ready_at(now)
                    &&& final(self)@ == (StorageView {
                        queues: old(self)@.queues.remove(job@.id),
                        ..old(self)@
                    })
                },
                None => {
                    &&& final(self)@ == old(self)@
                    &&& no_ready_job(old(self)@, queue@, now)
                },
            },
    {
        let queue_name = queue.to_owned();
        match self.find_ready(&queue_name, now) {
            Some(id) => {
                let job = match self.jobs.get(id) {
                    Some(job) => job.duplicate(),
                    None => {
                        proof {
                            assert(false);
                        }
                        unreached()
                    },
                };
                self.queues.remove(id);
                proof {
                    assert(job@.id == id);
                    assert(self@.queues =~= old(self)@.queues.remove(id));
                    assert(self@ =~= (StorageView {
                        queues: old(self)@.queues.remove(job@.id),
                        ..old(self)@
                    }));
                }
                Some(job)
            },
            None => None,
        }
    }

    /// Place the job id into a queue; any runner binding it had is cleared
    /// first.
    pub fn queue_job(&mut self, queue: &str, id: u64)
        requires
            old(self).wf(),
        ensures
            final(self).wf(),
            final(self)@ == (StorageView {
                queues: old(self)@.queues.insert(id, queue@),
                running: old(self)@.running.remove(id),
                ..old(self)@
            }),
    {
        self.running.remove(id);
        self.queues.insert(id, queue.to_owned());
        proof {
            assert(self@.queues =~= old(self)@.queues.insert(id, queue@));
            assert(self@ =~= (StorageView {
                queues: old(self)@.queues.insert(id, queue@),
                running: old(self)@.running.remove(id),
                ..old(self)@
            }));
        }
    }

    /// Bind the job id to a runner, removing the job from any queue and the
    /// runner from any earlier binding.
    pub fn run_job(&mut self, id: u64, runner_id: u64)
        requires
            old(self).wf(),
            old(self)@.runners_injective(),
        ensures
            final(self).wf(),
            final(self)@ == (StorageView {
                queues: old(self)@.queues.remove(id),
                running: runner_cleared(old(self)@.running, runner_id).insert(id, runner_id),
                ..old(self)@
            }),
    {
        self.queues.remove(id);
        self.running.remove_value(runner_id);
        self.running.insert(id, runner_id);
        proof {
            assert(self@ =~= (StorageView {
                queues: old(self)@.queues.remove(id),
                running: runner_cleared(old(self)@.running, runner_id).insert(id, runner_id),
                ..old(self)@
            }));
        }
    }

    /// Remove the job record and every binding it has.
    pub fn delete_job(&mut self, id: u64)
        requires
            old(self).wf(),
        ensures
            final(self).wf(),
            final(self)@ == (StorageView {
                jobs: old(self)@.jobs.remove(id),
                queues: old(self)@.queues.remove(id),
                running: old(self)@.running.remove(id),
                ..old(self)@
            }),
    {
        self.jobs.remove(id);
        self.queues.remove(id);
        self.running.remove(id);
        proof {
            assert(self@.jobs =~= old(self)@.jobs.remove(id));
            assert(self@.queues =~= old(self)@.queues.remove(id));
            assert(self@ =~= (StorageView {
                jobs: old(self)@.jobs.remove(id),
                queues: old(self)@.queues.remove(id),
                running: old(self)@.running.remove(id),
                ..old(self)@
            }));
        }
    }

    /// Whether the id allocator can still hand out a fresh id.
    pub fn has_id_capacity(&self) -> (r: bool)
        ensures
            r == (self@.next_id < u64::MAX),
    {
        self.count < u64::MAX
    }

    /// The current statistics record.
    pub fn get_stats(&self) -> (r: Stats)
        ensures
            r@ == self@.stats,
    {
        self.stats.duplicate()
    }

    /// Whether the job id is waiting in some queue.
    pub fn is_queued(&self, id: u64) -> (r: bool)
        ensures
            r == self@.queued(id),
    {
        self.queues.contains(id)
    }

    /// Persist a new job: a fresh id is assigned, the record is stored
    /// pending with a retry counter of zero, the job is placed in its queue,
    /// and the pending gauge grows by one.
    pub fn new_job(&mut self, job: NewJobInfo, now: i64) -> (id: u64)
        requires
            old(self).wf(),
            old(self)@.consistent(),
            old(self)@.next_id < u64::MAX,
        ensures
            final(self).wf(),
            final(self)@.consistent(),
            id == old(self)@.next_id,
            !old(self)@.stored(id),
            final(self)@ == after_new_job(old(self)@, job@, now),
            retry_monotone(old(self)@.jobs, final(self)@.jobs),
    {
        let id = self.generate_id();
        let queue_name = job.queue().to_owned();
        let record = job.with_id(id, now);
        self.save_job(record);
        self.queue_job(queue_name.as_str(), id);
        self.stats.new_job();
        proof {
            assert(old(self)@.running_bound(id) ==> old(self)@.stored(id));
            assert(self@.running =~= old(self)@.running);
            assert(self@.consistent()) by {
                assert forall|x: u64| #[trigger] self@.queued(x) implies self@.stored(x)
                    && self@.jobs[x].status == JobStatus::Pending && self@.queues[x]
                    == self@.jobs[x].queue by {
                    if x != id {
                        assert(old(self)@.queued(x));
                    }
                }
                assert forall|x: u64| #[trigger] self@.running_bound(x) implies self@.stored(x)
                    && self@.jobs[x].status == JobStatus::Running by {
                    assert(old(self)@.running_bound(x));
                }
                assert forall|x: u64| #[trigger] self@.stored(x) implies {
                    &&& self@.jobs[x].id == x
                    &&& x < self@.next_id
                    &&& (self@.jobs[x].status == JobStatus::Running ==> self@.running_bound(x))
                    &&& (self@.jobs[x].status == JobStatus::Pending ==> self@.queued(x))
                } by {
                    if x != id {
                        assert(old(self)@.stored(x));
                    }
                }
            }
            assert(retry_monotone(old(self)@.jobs, self@.jobs)) by {
                assert forall|x: u64|
                    #![auto]
                    old(self)@.jobs.dom().contains(x) && self@.jobs.dom().contains(
                        x,
                    ) implies old(self)@.jobs[x].retry_count <= self@.jobs[x].retry_count by {
                    assert(old(self)@.stored(x));
                }
            }
        }
        id
    }

    /// Hand one ready job of the queue to the given runner: the job flips to
    /// running, leaves its queue, is bound to the runner, and the gauges
    /// move one job from pending to running. Returns nothing exactly when no
    /// queued job of the queue is ready at `now`. The runner must be idle,
    /// so that runner bindings stay one-to-one.
    pub fn request_job(&mut self, queue: &str, runner_id: u64, now: i64) -> (r: Option<JobInfo>)
        requires
            old(self).wf(),
            old(self)@.consistent(),
            old(self)@.runner_idle(runner_id),
        ensures
            final(self).wf(),
            final(self)@.consistent(),
            retry_monotone(old(self)@.jobs, final(self)@.jobs),
            match r {
                Some(job) => {
                    &&& old(self)@.queued(job@.id)
                    &&& old(self)@.queues[job@.id] == queue@
                    &&& job@ == old(self)@.jobs[job@.id].after_start(now)
                    &&& old(self)@.jobs[job@.id].ready_at(now)
                    &&& job@.ready_at(now)
                    &&& final(self)@ == after_dispatch(old(self)@, job@.id, runner_id, now)
                },
                None => {
                    &&& final(self)@ == old(self)@
                    &&& no_ready_job(old(self)@, queue@, now)
                },
            },
    {
        let queue_name = queue.to_owned();
        match self.fetch_job_from_queue(queue, now) {
            Some(mut job) => {
                if job.is_pending() && job.is_ready(now) && job.is_in_queue(&queue_name) {
                    let ghost mid = self@;
                    let ghost pre_job = job@;
                    job.run(now);
                    self.run_job(job.id(), runner_id);
                    self.save_job(job.duplicate());
                    self.stats.run_job();
                    proof {
                        let id = job@.id;
                        assert(runner_cleared(mid.running, runner_id) =~= mid.running);
                        assert(self@.running =~= old(self)@.running.insert(id, runner_id));
                        assert(self@ =~= (StorageView {
                            jobs: old(self)@.jobs.insert(id, job@),
                            queues: old(self)@.queues.remove(id),
                            running: old(self)@.running.insert(id, runner_id),
                            stats: old(self)@.stats.job_started(),
                            ..old(self)@
                        }));
                        assert(self@.consistent()) by {
                            assert forall|x: u64| #[trigger] self@.queued(x) implies self@.stored(x)
                                && self@.jobs[x].status == JobStatus::Pending && self@.queues[x]
                                == self@.jobs[x].queue by {
                                assert(old(self)@.queued(x));
                            }
                            assert forall|x: u64| #[trigger]
                                self@.running_bound(x) implies self@.stored(x)
                                && self@.jobs[x].status == JobStatus::Running by {
                                if x != id {
                                    assert(old(self)@.running_bound(x));
                                }
                            }
                            assert forall|x: u64| #[trigger] self@.stored(x) implies {
                                &&& self@.jobs[x].id == x
                                &&& x < self@.next_id
                                &&& (self@.jobs[x].status == JobStatus::Running
                                    ==> self@.running_bound(x))
                                &&& (self@.jobs[x].status == JobStatus::Pending ==> self@.queued(x))
                            } by {
                                assert(old(self)@.stored(x));
                            }
                            assert forall|a: u64, b: u64| #[trigger]
                                self@.running.dom().contains(a) && #[trigger]
                                self@.running.dom().contains(b) && a != b implies self@.running[a]
                                != self@.running[b] by {
                                if a != id && b != id {
                                    assert(old(self)@.running.dom().contains(a));
                                    assert(old(self)@.running.dom().contains(b));
                                }
                            }
                        }
                    }
                    Some(job)
                } else {
                    // unreachable: what the queue hands out is always
                    // pending, ready and of the requested queue
                    proof {
                        assert(false);
                    }
                    None
                }
            },
            None => None,
        }
    }

    /// Record the outcome of one attempt at the job with `ret.id`:
    /// a success deletes the record; a failure retries it under its backoff
    /// policy or, once the retry policy is exhausted, deletes it and counts
    /// it dead; a missing processor puts it back in its queue unchanged so a
    /// later registration can serve it. An id that is no longer stored makes
    /// the call a no-op, so returning a finished job twice changes nothing.
    pub fn return_job(&mut self, ret: ReturnJobInfo, now: i64)
        requires
            old(self).wf(),
            old(self)@.consistent(),
            valid_ts(now),
        ensures
            final(self).wf(),
            final(self)@.consistent(),
            final(self)@ == after_return(old(self)@, ret.id, ret.result, now),
            retry_monotone(old(self)@.jobs, final(self)@.jobs),
    {
        let id = ret.id;
        let result = ret.result;
        if result.is_failure() {
            match self.fetch_job(id) {
                Some(mut job) => {
                    if job.needs_retry(now) {
                        let queue_name = job.queue().to_owned();
                        self.queue_job(queue_name.as_str(), id);
                        self.save_job(job);
                        self.stats.retry_job();
                        proof {
                            self.lemma_after_requeue(old(self)@, id, now, true);
                        }
                    } else {
                        self.delete_job(id);
                        self.stats.fail_job(now);
                        proof {
                            self.lemma_after_delete(old(self)@, id);
                        }
                    }
                },
                None => {},
            }
        } else if result.is_missing_processor() {
            match self.fetch_job(id) {
                Some(mut job) => {
                    job.pending(now);
                    let queue_name = job.queue().to_owned();
                    self.queue_job(queue_name.as_str(), id);
                    self.save_job(job);
                    self.stats.retry_job();
                    proof {
                        self.lemma_after_requeue(old(self)@, id, now, false);
                    }
                },
                None => {},
            }
        } else {
            match self.fetch_job(id) {
                Some(_) => {
                    self.delete_job(id);
                    self.stats.complete_job(now);
                    proof {
                        self.lemma_after_delete(old(self)@, id);
                    }
                },
                None => {},
            }
        }
    }

    /// After a stored job was re-queued (by retry or by a missing
    /// processor), the storage is consistent again.
    proof fn lemma_after_requeue(&self, pre: StorageView, id: u64, now: i64, was_retry: bool)
        requires
            pre.consistent(),
            pre.stored(id),
            self@.jobs == pre.jobs.insert(
                id,
                if was_retry {
                    pre.jobs[id].after_retry(now)
                } else {
                    pre.jobs[id].after_missing(now)
                },
            ),
            self@.queues == pre.queues.insert(id, pre.jobs[id].queue),
            self@.running == pre.running.remove(id),
            self@.next_id == pre.next_id,
            self@.stats.wf(),
        ensures
            self@.consistent(),
    {
        assert forall|x: u64| #[trigger] self@.queued(x) implies self@.stored(x)
            && self@.jobs[x].status == JobStatus::Pending && self@.queues[x]
            == self@.jobs[x].queue by {
            if x != id {
                assert(pre.queued(x));
            }
        }
        assert forall|x: u64| #[trigger] self@.running_bound(x) implies self@.stored(x)
            && self@.jobs[x].status == JobStatus::Running by {
            assert(pre.running_bound(x));
        }
        assert forall|x: u64| #[trigger] self@.stored(x) implies {
            &&& self@.jobs[x].id == x
            &&& x < self@.next_id
            &&& (self@.jobs[x].status == JobStatus::Running ==> self@.running_bound(x))
            &&& (self@.jobs[x].status == JobStatus::Pending ==> self@.queued(x))
        } by {
            assert(pre.stored(x));
        }
        assert forall|a: u64, b: u64| #[trigger] self@.running.dom().contains(a) && #[trigger]
            self@.running.dom().contains(b) && a != b implies self@.running[a]
            != self@.running[b] by {
            assert(pre.running.dom().contains(a));
            assert(pre.running.dom().contains(b));
        }
    }

    /// After a stored job was deleted with all its bindings, the storage is
    /// consistent again.
    proof fn lemma_after_delete(&self, pre: StorageView, id: u64)
        requires
            pre.consistent(),
            self@.jobs == pre.jobs.remove(id),
            self@.queues == pre.queues.remove(id),
            self@.running == pre.running.remove(id),
            self@.next_id == pre.next_id,
            self@.stats.wf(),
        ensures
            self@.consistent(),
    {
        assert forall|x: u64| #[trigger] self@.queued(x) implies self@.stored(x)
            && self@.jobs[x].status == JobStatus::Pending && self@.queues[x]
            == self@.jobs[x].queue by {
            assert(pre.queued(x));
        }
        assert forall|x: u64| #[trigger] self@.running_bound(x) implies self@.stored(x)
            && self@.jobs[x].status == JobStatus::Running by {
            assert(pre.running_bound(x));
        }
        assert forall|x: u64| #[trigger] self@.stored(x) implies {
            &&& self@.jobs[x].id == x
            &&& x < self@.next_id
            &&& (self@.jobs[x].status == JobStatus::Running ==> self@.running_bound(x))
            &&& (self@.jobs[x].status == JobStatus::Pending ==> self@.queued(x))
        } by {
            assert(pre.stored(x));
        }
        assert forall|a: u64, b: u64| #[trigger] self@.running.dom().contains(a) && #[trigger]
            self@.running.dom().contains(b) && a != b implies self@.running[a]
            != self@.running[b] by {
            assert(pre.running.dom().contains(a));
            assert(pre.running.dom().contains(b));
        }
    }

    /// Law: in a consistent storage, every id is in exactly one logical
    /// bucket. A stored job is queued exactly when it is pending and bound
    /// to a runner exactly when it is running, never both; a deleted id is
    /// neither queued nor bound.
    pub proof fn lemma_exclusive_buckets(v: StorageView, id: u64)
        requires
            v.consistent(),
        ensures
            v.stored(id) ==> (v.queued(id) <==> v.jobs[id].status == JobStatus::Pending),
            v.stored(id) ==> (v.running_bound(id) <==> v.jobs[id].status == JobStatus::Running),
            v.stored(id) ==> (v.queued(id) <==> !v.running_bound(id)),
            !v.stored(id) ==> !v.queued(id) && !v.running_bound(id),
    {
        if v.stored(id) {
            match v.jobs[id].status {
                JobStatus::Pending => {},
                JobStatus::Running => {},
            }
        }
    }

    /// Law: in a consistent storage, a running job is bound to exactly one
    /// runner, and no other job shares that runner.
    pub proof fn lemma_unique_runner(v: StorageView, id: u64)
        requires
            v.consistent(),
            v.stored(id),
            v.jobs[id].status == JobStatus::Running,
        ensures
            v.running_bound(id),
            forall|other: u64|
                #[trigger] v.running_bound(other) && other != id ==> v.running[other]
                    != v.running[id],
    {
    }

    /// Law: the jobs delivered to two distinct runners at the same time are
    /// distinct — a job is never handed to two workers at once.
    pub proof fn lemma_handoffs_distinct(v: StorageView, id1: u64, id2: u64)
        requires
            v.consistent(),
            v.running_bound(id1),
            v.running_bound(id2),
            v.running[id1] != v.running[id2],
        ensures
            id1 != id2,
    {
    }

    /// Law: the record a new job is stored under — and that `fetch_job`
    /// then returns for its id — is pending, carries a retry counter of
    /// zero, and keeps the submitted processor, queue and arguments.
    pub proof fn lemma_new_then_fetch(
        pre: Map<u64, JobView>,
        job: crate::job_info::NewJobView,
        id: u64,
        now: i64,
    )
        ensures
            pre.insert(id, job.stored_as(id, now)).dom().contains(id),
            pre.insert(id, job.stored_as(id, now))[id].retry_count == 0,
            pre.insert(id, job.stored_as(id, now))[id].status == JobStatus::Pending,
            pre.insert(id, job.stored_as(id, now))[id].processor == job.processor,
            pre.insert(id, job.stored_as(id, now))[id].queue == job.queue,
            pre.insert(id, job.stored_as(id, now))[id].args == job.args,
    {
    }

    /// Law: returning a success for the same id twice is a no-op the second
    /// time — the first return already deleted the job.
    pub proof fn lemma_return_success_idempotent(pre: StorageView, id: u64, t1: i64, t2: i64)
        ensures
            after_return(after_return(pre, id, JobResult::Success, t1), id, JobResult::Success, t2)
                == after_return(pre, id, JobResult::Success, t1),
    {
        let mid = after_return(pre, id, JobResult::Success, t1);
        assert(!mid.stored(id));
    }

    /// Law: re-queueing an already-queued id is idempotent on queue
    /// membership — placing it again in the queue it waits in changes
    /// nothing.
    pub proof fn lemma_requeue_idempotent(v: StorageView, id: u64)
        requires
            v.queued(id),
        ensures
            v.queues.insert(id, v.queues[id]) == v.queues,
    {
        assert(v.queues.insert(id, v.queues[id]) =~= v.queues);
    }

    /// Law: under `MaxRetries::Count(n)` a failure keeps the job alive
    /// exactly while the failure count stays within `n` — so the job sees
    /// `n + 1` attempts in all, and the failure that would start attempt
    /// `n + 2` deletes it instead.
    pub proof fn lemma_retry_budget(pre: StorageView, id: u64, now: i64, n: usize)
        requires
            pre.stored(id),
            pre.jobs[id].max_retries == MaxRetries::Count(n),
            pre.jobs[id].retry_count < u32::MAX,
        ensures
            after_return(pre, id, JobResult::Failure, now).stored(id) <==> pre.jobs[id].retry_count
                + 1 <= n,
    {
        let post = after_return(pre, id, JobResult::Failure, now);
        if pre.jobs[id].retry_count + 1 <= n {
            assert(post.jobs == pre.jobs.insert(id, pre.jobs[id].after_retry(now)));
        } else {
            assert(post.jobs == pre.jobs.remove(id));
        }
    }

    /// Law: returning a missing-processor outcome re-queues the job as
    /// pending with its retry counter untouched.
    pub proof fn lemma_missing_processor_keeps_retry(pre: StorageView, id: u64, now: i64)
        requires
            pre.stored(id),
        ensures
            after_return(pre, id, JobResult::MissingProcessor, now).stored(id),
            after_return(pre, id, JobResult::MissingProcessor, now).jobs[id].retry_count
                == pre.jobs[id].retry_count,
            after_return(pre, id, JobResult::MissingProcessor, now).jobs[id].status
                == JobStatus::Pending,
            after_return(pre, id, JobResult::MissingProcessor, now).queued(id),
    {
    }

    /// Whether the runner is bound to no job, so a request on its behalf is
    /// in order.
    pub fn runner_is_idle(&self, runner_id: u64) -> (r: bool)
        requires
            self.wf(),
        ensures
            r == self@.runner_idle(runner_id),
    {
        let r = !self.running.contains_value(runner_id);
        proof {
            if r {
                assert forall|id: u64| #[trigger]
                    self@.running.dom().contains(id) implies self@.running[id] != runner_id by {
                    assert(self.running@.dom().contains(id));
                }
            } else {
                let k = choose|k: u64|
                    #[trigger] self.running@.dom().contains(k) && self.running@[k] == runner_id;
                assert(self@.running.dom().contains(k));
            }
        }
        r
    }

    /// The runner the job id is bound to, if any.
    pub fn runner_of(&self, id: u64) -> (r: Option<u64>)
        requires
            self.wf(),
        ensures
            match r {
                Some(runner_id) => self@.running_bound(id) && self@.running[id] == runner_id,
                None => !self@.running_bound(id),
            },
    {
        match self.running.get(id) {
            Some(runner_id) => Some(*runner_id),
            None => None,
        }
    }
}

} // verus!

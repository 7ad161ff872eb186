//! The dispatch server.
//!
//! One server instance owns a storage handle and a cache of parked workers,
//! one FIFO per queue. It answers five kinds of message: a new job to
//! persist (and hand off at once if a worker is parked for its queue), a
//! worker asking for a job (handed one, or parked), a worker returning an
//! outcome, a periodic prompt to re-scan the queues for jobs whose time has
//! come, and a statistics read. Delivering a job to a worker is expressed as
//! a [`Delivery`] value; the host performs the actual send.
//!
//! The server's invariant ties the cache to the storage: parked workers are
//! pairwise distinct and idle, so every handoff binds a distinct runner and
//! the storage bijection makes each handoff exactly-once.

use vstd::prelude::*;

use crate::JobStatus;
use crate::clock::valid_ts;
use crate::job_info::JobInfo;
use crate::job_info::NewJobInfo;
use crate::job_info::ReturnJobInfo;
use crate::stats::Stats;
use crate::storage::Storage;
use crate::storage::StorageView;
use crate::storage::after_dispatch;
use crate::storage::after_new_job;
use crate::storage::after_return;
use crate::storage::lemma_dispatch_preserves_no_ready;
use crate::storage::no_ready_job;

verus! {

/// A worker as the server sees it: a stable runner id and the queue it
/// serves. The host pairs the id with a channel to the worker.
#[derive(Clone, Debug)]
pub struct WorkerHandle {
    pub id: u64,
    pub queue: String,
}

/// Message: persist this job, and hand it off at once if possible.
pub struct NewJob(pub NewJobInfo);

/// Message: a worker finished an attempt with this outcome.
pub struct ReturningJob(pub ReturnJobInfo);

/// Message: this worker asks for a job.
pub struct RequestJob(pub WorkerHandle);

/// Message: re-scan the queues for jobs whose time has come.
pub struct CheckDb;

/// Message: read the statistics.
pub struct GetStats;

/// An instruction to hand `job` to the worker with `worker_id`.
pub struct Delivery {
    pub worker_id: u64,
    pub job: JobInfo,
}

/// How often the host should prompt each server instance to re-scan the
/// queues, in seconds. The periodic re-scan is the sole mechanism that
/// wakes parked workers for scheduled jobs whose time has arrived.
pub const PING_INTERVAL_SECS: u64 = 1;

/// Some delivery of the sequence goes to this worker.
pub open spec fn delivered_to(deliveries: Seq<Delivery>, w: u64) -> bool {
    exists|k: int| 0 <= k < deliveries.len() && deliveries[k].worker_id == w
}

/// The worker id appears somewhere in the cache.
pub open spec fn in_cache(cache: Seq<(String, Vec<u64>)>, w: u64) -> bool {
    exists|i: int, j: int|
        0 <= i < cache.len() && 0 <= j < cache[i].1@.len() && cache[i].1@[j] == w
}

/// Queue names label at most one bucket each, and no worker id appears
/// twice.
pub open spec fn cache_distinct(cache: Seq<(String, Vec<u64>)>) -> bool {
    &&& forall|i1: int, i2: int|
        0 <= i1 < i2 < cache.len() ==> (#[trigger] cache[i1].0)@ != (#[trigger] cache[i2].0)@
    &&& forall|i1: int, j1: int, i2: int, j2: int|
        0 <= i1 < cache.len() && 0 <= j1 < cache[i1].1@.len() && 0 <= i2 < cache.len() && 0 <= j2
            < cache[i2].1@.len() && (i1 != i2 || j1 != j2) ==> (#[trigger] cache[i1].1@[j1])
            != (#[trigger] cache[i2].1@[j2])
}

/// `s` with its first element moved to the back; an empty sequence stays
/// empty. Popping a worker and re-parking it at the tail rotates its FIFO.
pub open spec fn rotate1(s: Seq<u64>) -> Seq<u64> {
    if s.len() == 0 {
        s
    } else {
        s.subrange(1, s.len() as int).push(s[0])
    }
}

/// Every parked worker is idle: bound to no job in the storage.
pub open spec fn cache_idle(cache: Seq<(String, Vec<u64>)>, sv: StorageView) -> bool {
    forall|i: int, j: int|
        0 <= i < cache.len() && 0 <= j < cache[i].1@.len() ==> sv.runner_idle(
            #[trigger] cache[i].1@[j],
        )
}

/// Popping the front worker of bucket `i` keeps the cache distinct, removes
/// exactly that worker from the parked set, and leaves everyone else's
/// parked state as it was.
proof fn lemma_cache_pop_front(oldc: Seq<(String, Vec<u64>)>, newc: Seq<(String, Vec<u64>)>, i: int)
    requires
        cache_distinct(oldc),
        0 <= i < oldc.len(),
        newc.len() == oldc.len(),
        oldc[i].1@.len() > 0,
        forall|k: int| 0 <= k < newc.len() && k != i ==> newc[k] == oldc[k],
        newc[i].0 == oldc[i].0,
        newc[i].1@ == oldc[i].1@.subrange(1, oldc[i].1@.len() as int),
    ensures
        cache_distinct(newc),
        !in_cache(newc, oldc[i].1@[0]),
        forall|x: u64| x != oldc[i].1@[0] ==> in_cache(newc, x) == in_cache(oldc, x),
        forall|x: u64| in_cache(newc, x) ==> in_cache(oldc, x),
{
    let w = oldc[i].1@[0];
    assert forall|i1: int, j1: int, i2: int, j2: int|
        0 <= i1 < newc.len() && 0 <= j1 < newc[i1].1@.len() && 0 <= i2 < newc.len() && 0 <= j2
            < newc[i2].1@.len() && (i1 != i2 || j1 != j2) implies (#[trigger] newc[i1].1@[j1]) != (
    #[trigger] newc[i2].1@[j2]) by {
        let a1 = if i1 == i { j1 + 1 } else { j1 };
        let a2 = if i2 == i { j2 + 1 } else { j2 };
        assert(newc[i1].1@[j1] == oldc[i1].1@[a1]);
        assert(newc[i2].1@[j2] == oldc[i2].1@[a2]);
    }
    assert forall|x: u64| in_cache(newc, x) implies in_cache(oldc, x) by {
        let (i2, j2) = choose|i2: int, j2: int|
            0 <= i2 < newc.len() && 0 <= j2 < newc[i2].1@.len() && newc[i2].1@[j2] == x;
        let a2 = if i2 == i { j2 + 1 } else { j2 };
        assert(oldc[i2].1@[a2] == x);
    }
    assert(!in_cache(newc, w)) by {
        if in_cache(newc, w) {
            let (i2, j2) = choose|i2: int, j2: int|
                0 <= i2 < newc.len() && 0 <= j2 < newc[i2].1@.len() && newc[i2].1@[j2] == w;
            let a2 = if i2 == i { j2 + 1 } else { j2 };
            assert(oldc[i2].1@[a2] == w);
            assert(oldc[i].1@[0] == w);
            assert(false);
        }
    }
    assert forall|x: u64| x != w implies in_cache(newc, x) == in_cache(oldc, x) by {
        if in_cache(oldc, x) {
            let (i2, j2) = choose|i2: int, j2: int|
                0 <= i2 < oldc.len() && 0 <= j2 < oldc[i2].1@.len() && oldc[i2].1@[j2] == x;
            if i2 == i {
                assert(oldc[i].1@[0] == w);
                assert(j2 != 0);
                assert(newc[i2].1@[j2 - 1] == x);
            } else {
                assert(newc[i2].1@[j2] == x);
            }
            assert(in_cache(newc, x));
        }
    }
}

/// Rotating bucket `i` (front worker re-parked at the tail) keeps the cache
/// distinct and every worker's parked state as it was.
proof fn lemma_cache_rotate(oldc: Seq<(String, Vec<u64>)>, newc: Seq<(String, Vec<u64>)>, i: int)
    requires
        cache_distinct(oldc),
        0 <= i < oldc.len(),
        newc.len() == oldc.len(),
        oldc[i].1@.len() > 0,
        forall|k: int| 0 <= k < newc.len() && k != i ==> newc[k] == oldc[k],
        newc[i].0 == oldc[i].0,
        newc[i].1@ == rotate1(oldc[i].1@),
    ensures
        cache_distinct(newc),
        forall|x: u64| in_cache(newc, x) == in_cache(oldc, x),
{
    let oldb = oldc[i].1@;
    let newb = newc[i].1@;
    assert forall|i1: int, j1: int, i2: int, j2: int|
        0 <= i1 < newc.len() && 0 <= j1 < newc[i1].1@.len() && 0 <= i2 < newc.len() && 0 <= j2
            < newc[i2].1@.len() && (i1 != i2 || j1 != j2) implies (#[trigger] newc[i1].1@[j1]) != (
    #[trigger] newc[i2].1@[j2]) by {
        let a1 = if i1 == i {
            if j1 == newb.len() - 1 {
                0
            } else {
                j1 + 1
            }
        } else {
            j1
        };
        let a2 = if i2 == i {
            if j2 == newb.len() - 1 {
                0
            } else {
                j2 + 1
            }
        } else {
            j2
        };
        assert(newc[i1].1@[j1] == oldc[i1].1@[a1]);
        assert(newc[i2].1@[j2] == oldc[i2].1@[a2]);
    }
    assert forall|x: u64| in_cache(newc, x) == in_cache(oldc, x) by {
        if in_cache(newc, x) {
            let (i2, j2) = choose|i2: int, j2: int|
                0 <= i2 < newc.len() && 0 <= j2 < newc[i2].1@.len() && newc[i2].1@[j2] == x;
            let a2 = if i2 == i {
                if j2 == newb.len() - 1 {
                    0
                } else {
                    j2 + 1
                }
            } else {
                j2
            };
            assert(oldc[i2].1@[a2] == x);
            assert(in_cache(oldc, x));
        }
        if in_cache(oldc, x) {
            let (i2, j2) = choose|i2: int, j2: int|
                0 <= i2 < oldc.len() && 0 <= j2 < oldc[i2].1@.len() && oldc[i2].1@[j2] == x;
            let a2 = if i2 == i {
                if j2 == 0 {
                    newb.len() - 1
                } else {
                    j2 - 1
                }
            } else {
                j2
            };
            assert(newc[i2].1@[a2] == x);
            assert(in_cache(newc, x));
        }
    }
}

/// Parking a fresh worker at the tail of bucket `i` keeps the cache
/// distinct, adds exactly that worker to the parked set, and leaves everyone
/// else's parked state as it was.
proof fn lemma_cache_push_tail(
    oldc: Seq<(String, Vec<u64>)>,
    newc: Seq<(String, Vec<u64>)>,
    i: int,
    w: u64,
)
    requires
        cache_distinct(oldc),
        !in_cache(oldc, w),
        0 <= i < oldc.len(),
        newc.len() == oldc.len(),
        forall|k: int| 0 <= k < newc.len() && k != i ==> newc[k] == oldc[k],
        newc[i].0 == oldc[i].0,
        newc[i].1@ == oldc[i].1@.push(w),
    ensures
        cache_distinct(newc),
        in_cache(newc, w),
        forall|x: u64| x != w ==> in_cache(newc, x) == in_cache(oldc, x),
{
    let newb = newc[i].1@;
    assert(newc[i].1@[newb.len() - 1] == w);
    assert forall|i1: int, j1: int, i2: int, j2: int|
        0 <= i1 < newc.len() && 0 <= j1 < newc[i1].1@.len() && 0 <= i2 < newc.len() && 0 <= j2
            < newc[i2].1@.len() && (i1 != i2 || j1 != j2) implies (#[trigger] newc[i1].1@[j1]) != (
    #[trigger] newc[i2].1@[j2]) by {
        if i1 == i && j1 == newb.len() - 1 {
            assert(newc[i1].1@[j1] == w);
            assert(oldc[i2].1@[j2] == newc[i2].1@[j2]);
            assert(in_cache(oldc, oldc[i2].1@[j2]));
        } else if i2 == i && j2 == newb.len() - 1 {
            assert(newc[i2].1@[j2] == w);
            assert(oldc[i1].1@[j1] == newc[i1].1@[j1]);
            assert(in_cache(oldc, oldc[i1].1@[j1]));
        } else {
            assert(newc[i1].1@[j1] == oldc[i1].1@[j1]);
            assert(newc[i2].1@[j2] == oldc[i2].1@[j2]);
        }
    }
    assert forall|x: u64| x != w implies in_cache(newc, x) == in_cache(oldc, x) by {
        if in_cache(newc, x) {
            let (i2, j2) = choose|i2: int, j2: int|
                0 <= i2 < newc.len() && 0 <= j2 < newc[i2].1@.len() && newc[i2].1@[j2] == x;
            if i2 == i && j2 == newb.len() - 1 {
                assert(false);
            } else {
                assert(oldc[i2].1@[j2] == x);
            }
            assert(in_cache(oldc, x));
        }
        if in_cache(oldc, x) {
            let (i2, j2) = choose|i2: int, j2: int|
                0 <= i2 < oldc.len() && 0 <= j2 < oldc[i2].1@.len() && oldc[i2].1@[j2] == x;
            assert(newc[i2].1@[j2] == x);
            assert(in_cache(newc, x));
        }
    }
}

/// Every worker parked in a cache whose parked set shrank into another's is
/// still idle under a storage that kept those workers idle.
proof fn lemma_cache_idle_subset(
    oldc: Seq<(String, Vec<u64>)>,
    newc: Seq<(String, Vec<u64>)>,
    sv: StorageView,
)
    requires
        cache_idle(oldc, sv),
        forall|x: u64| in_cache(newc, x) ==> in_cache(oldc, x),
    ensures
        cache_idle(newc, sv),
{
    assert forall|i: int, j: int|
        0 <= i < newc.len() && 0 <= j < newc[i].1@.len() implies sv.runner_idle(
        #[trigger] newc[i].1@[j],
    ) by {
        let x = newc[i].1@[j];
        assert(in_cache(newc, x));
        assert(in_cache(oldc, x));
        let (i2, j2) = choose|i2: int, j2: int|
            0 <= i2 < oldc.len() && 0 <= j2 < oldc[i2].1@.len() && oldc[i2].1@[j2] == x;
        assert(sv.runner_idle(oldc[i2].1@[j2]));
    }
}

/// Binding one job to one runner keeps every other runner idle.
proof fn lemma_idle_after_dispatch(pre: StorageView, id: u64, w: u64, now: i64, x: u64)
    requires
        pre.runner_idle(x),
        x != w,
    ensures
        after_dispatch(pre, id, w, now).runner_idle(x),
{
    let post = after_dispatch(pre, id, w, now);
    assert forall|id2: u64| #[trigger]
        post.running.dom().contains(id2) implies post.running[id2] != x by {
        if id2 != id {
            assert(pre.running.dom().contains(id2));
        }
    }
}

/// A dispatch server: the storage handle it owns and its cache of parked
/// workers, one FIFO of runner ids per queue.
pub struct Server {
    storage: Storage,
    cache: Vec<(String, Vec<u64>)>,
}

impl Server {
    /// The storage contents as the server sees them.
    pub closed spec fn storage_view(self) -> StorageView {
        self.storage@
    }

    /// The worker is parked in the server's cache.
    pub closed spec fn parked(self, worker_id: u64) -> bool {
        in_cache(self.cache@, worker_id)
    }

    /// At least one worker is parked for this queue.
    pub closed spec fn parked_for(self, queue: Seq<char>) -> bool {
        exists|i: int|
            0 <= i < self.cache@.len() && self.cache@[i].0@ == queue && self.cache@[i].1@.len() > 0
    }

    /// The runner ids parked for this queue, front of the FIFO first; empty
    /// when no worker is parked for it. Workers park at the tail and are
    /// popped from the front.
    pub closed spec fn parked_queue(self, queue: Seq<char>) -> Seq<u64> {
        if exists|i: int| 0 <= i < self.cache@.len() && (#[trigger] self.cache@[i].0)@ == queue {
            let i = choose|i: int|
                0 <= i < self.cache@.len() && (#[trigger] self.cache@[i].0)@ == queue;
            self.cache@[i].1@
        } else {
            Seq::empty()
        }
    }

    /// With distinct bucket names, the FIFO of a queue is the sequence of
    /// its one bucket.
    proof fn lemma_parked_queue_at(self, queue: Seq<char>, i: int)
        requires
            cache_distinct(self.cache@),
            0 <= i < self.cache@.len(),
            (self.cache@[i].0)@ == queue,
        ensures
            self.parked_queue(queue) == self.cache@[i].1@,
    {
        let j = choose|j: int|
            0 <= j < self.cache@.len() && (#[trigger] self.cache@[j].0)@ == queue;
        if j != i {
            assert((self.cache@[i].0)@ != (self.cache@[j].0)@);
        }
    }

    /// A queue with no bucket has an empty FIFO.
    proof fn lemma_parked_queue_absent(self, queue: Seq<char>)
        requires
            forall|i: int|
                0 <= i < self.cache@.len() ==> (#[trigger] self.cache@[i].0)@ != queue,
        ensures
            self.parked_queue(queue) == Seq::<u64>::empty(),
    {
        if exists|i: int| 0 <= i < self.cache@.len() && (#[trigger] self.cache@[i].0)@ == queue {
            let i = choose|i: int|
                0 <= i < self.cache@.len() && (#[trigger] self.cache@[i].0)@ == queue;
            assert(false);
        }
    }

    /// Two servers with the same cache have the same FIFOs.
    proof fn lemma_parked_queue_equal_caches(pre: Server, post: Server)
        requires
            cache_distinct(pre.cache@),
            post.cache@ == pre.cache@,
        ensures
            forall|q: Seq<char>| post.parked_queue(q) == pre.parked_queue(q),
    {
        assert forall|q: Seq<char>| post.parked_queue(q) == pre.parked_queue(q) by {
            if exists|j: int| 0 <= j < pre.cache@.len() && (#[trigger] pre.cache@[j].0)@ == q {
                let j = choose|j: int|
                    0 <= j < pre.cache@.len() && (#[trigger] pre.cache@[j].0)@ == q;
                pre.lemma_parked_queue_at(q, j);
                post.lemma_parked_queue_at(q, j);
            } else {
                pre.lemma_parked_queue_absent(q);
                post.lemma_parked_queue_absent(q);
            }
        }
    }

    /// A change confined to one bucket leaves every other queue's FIFO as
    /// it was.
    proof fn lemma_parked_queue_same_buckets(pre: Server, post: Server, except: int, q: Seq<char>)
        requires
            cache_distinct(pre.cache@),
            cache_distinct(post.cache@),
            pre.cache@.len() == post.cache@.len(),
            0 <= except < pre.cache@.len(),
            forall|k: int|
                0 <= k < pre.cache@.len() && k != except ==> post.cache@[k] == pre.cache@[k],
            (post.cache@[except].0)@ == (pre.cache@[except].0)@,
            q != (pre.cache@[except].0)@,
        ensures
            post.parked_queue(q) == pre.parked_queue(q),
    {
        if exists|j: int| 0 <= j < pre.cache@.len() && (#[trigger] pre.cache@[j].0)@ == q {
            let j = choose|j: int|
                0 <= j < pre.cache@.len() && (#[trigger] pre.cache@[j].0)@ == q;
            pre.lemma_parked_queue_at(q, j);
            assert(j != except);
            assert((post.cache@[j].0)@ == q);
            post.lemma_parked_queue_at(q, j);
        } else {
            pre.lemma_parked_queue_absent(q);
            assert forall|k: int|
                0 <= k < post.cache@.len() implies (#[trigger] post.cache@[k].0)@ != q by {
                if k != except {
                    assert(post.cache@[k] == pre.cache@[k]);
                }
            }
            post.lemma_parked_queue_absent(q);
        }
    }

    /// Appending a bucket with a fresh name leaves every other queue's FIFO
    /// as it was.
    proof fn lemma_parked_queue_appended(pre: Server, post: Server, q: Seq<char>)
        requires
            cache_distinct(pre.cache@),
            cache_distinct(post.cache@),
            post.cache@.len() == pre.cache@.len() + 1,
            forall|k: int| 0 <= k < pre.cache@.len() ==> post.cache@[k] == pre.cache@[k],
            q != (post.cache@[pre.cache@.len() as int].0)@,
        ensures
            post.parked_queue(q) == pre.parked_queue(q),
    {
        if exists|j: int| 0 <= j < pre.cache@.len() && (#[trigger] pre.cache@[j].0)@ == q {
            let j = choose|j: int|
                0 <= j < pre.cache@.len() && (#[trigger] pre.cache@[j].0)@ == q;
            pre.lemma_parked_queue_at(q, j);
            assert((post.cache@[j].0)@ == q);
            post.lemma_parked_queue_at(q, j);
        } else {
            pre.lemma_parked_queue_absent(q);
            assert forall|k: int|
                0 <= k < post.cache@.len() implies (#[trigger] post.cache@[k].0)@ != q by {
                if k < pre.cache@.len() {
                    assert(post.cache@[k] == pre.cache@[k]);
                }
            }
            post.lemma_parked_queue_absent(q);
        }
    }

    /// The server invariant: the storage is consistent, parked workers are
    /// pairwise distinct, and every parked worker is idle.
    pub closed spec fn inv(self) -> bool {
        &&& self.storage.wf()
        &&& self.storage@.consistent()
        &&& cache_distinct(self.cache@)
        &&& cache_idle(self.cache@, self.storage@)
    }

    pub fn new(storage: Storage) -> (r: Server)
        requires
            storage.wf(),
            storage@.consistent(),
        ensures
            r.inv(),
            r.storage_view() == storage@,
            forall|w: u64| !r.parked(w),
    {
        Server { storage, cache: Vec::new() }
    }

    /// The index of the cache bucket for this queue, if one exists.
    fn find_bucket(&self, queue: &String) -> (r: Option<usize>)
        ensures
            match r {
                Some(i) => i < self.cache@.len() && self.cache@[i as int].0@ == queue@,
                None => forall|i: int| 0 <= i < self.cache@.len() ==> self.cache@[i].0@ != queue@,
            },
    {
        let n = self.cache.len();
        let mut i: usize = 0;
        while i < n
            invariant
                i <= n,
                n == self.cache@.len(),
                forall|k: int| 0 <= k < i ==> self.cache@[k].0@ != queue@,
            decreases n - i,
        {
            if self.cache[i].0 == *queue {
                return Some(i);
            }
            i = i + 1;
        }
        None
    }

    /// Pop the first parked worker of this queue and try to hand it a ready
    /// job. The worker is consumed on success and put back at the tail of
    /// its FIFO when the storage has nothing ready. If a worker is parked
    /// for the queue and a ready job waits in it, a delivery happens.
    fn try_dispatch(&mut self, queue: &String, now: i64) -> (r: Option<Delivery>)
        requires
            old(self).inv(),
        ensures
            final(self).inv(),
            match r {
                Some(d) => {
                    &&& old(self).parked(d.worker_id)
                    &&& !final(self).parked(d.worker_id)
                    &&& forall|x: u64|
                        x != d.worker_id ==> final(self).parked(x) == old(self).parked(x)
                    &&& old(self).parked_queue(queue@).len() > 0
                    &&& d.worker_id == old(self).parked_queue(queue@)[0]
                    &&& final(self).parked_queue(queue@) == old(self).parked_queue(
                        queue@,
                    ).subrange(1, old(self).parked_queue(queue@).len() as int)
                    &&& forall|q: Seq<char>|
                        q != queue@ ==> final(self).parked_queue(q) == old(self).parked_queue(q)
                    &&& old(self).storage_view().queued(d.job@.id)
                    &&& old(self).storage_view().queues[d.job@.id] == queue@
                    &&& d.job@ == old(self).storage_view().jobs[d.job@.id].after_start(now)
                    &&& d.job@.ready_at(now)
                    &&& final(self).storage_view() == after_dispatch(
                        old(self).storage_view(),
                        d.job@.id,
                        d.worker_id,
                        now,
                    )
                },
                None => {
                    &&& final(self).storage_view() == old(self).storage_view()
                    &&& forall|w: u64| final(self).parked(w) == old(self).parked(w)
                    &&& final(self).parked_queue(queue@) == rotate1(old(self).parked_queue(queue@))
                    &&& forall|q: Seq<char>|
                        q != queue@ ==> final(self).parked_queue(q) == old(self).parked_queue(q)
                },
            },
            r is None ==> !old(self).parked_for(queue@) || no_ready_job(
                old(self).storage_view(),
                queue@,
                now,
            ),
    {
        match self.find_bucket(queue) {
            Some(i) => {
                let bucket_len = self.cache[i].1.len();
                if bucket_len == 0 {
                    proof {
                        self.lemma_parked_queue_at(queue@, i as int);
                    }
                    return None;
                }
                let mut pair = self.cache.remove(i);
                let w = pair.1.remove(0);
                proof {
                    assert(old(self).cache@[i as int].1@[0] == w);
                    assert(old(self).storage_view().runner_idle(w));
                }
                match self.storage.request_job(pair.0.as_str(), w, now) {
                    Some(job) => {
                        self.cache.insert(i, pair);
                        proof {
                            let oldc = old(self).cache@;
                            assert(forall|k: int|
                                0 <= k < self.cache@.len() && k != i ==> self.cache@[k] == oldc[k]);
                            assert(self.cache@[i as int].1@ =~= oldc[i as int].1@.subrange(
                                1,
                                oldc[i as int].1@.len() as int,
                            ));
                            lemma_cache_pop_front(oldc, self.cache@, i as int);
                            assert forall|i2: int, j2: int|
                                0 <= i2 < self.cache@.len() && 0 <= j2
                                    < self.cache@[i2].1@.len() implies self.storage@.runner_idle(
                                #[trigger] self.cache@[i2].1@[j2],
                            ) by {
                                let x = self.cache@[i2].1@[j2];
                                assert(in_cache(self.cache@, x));
                                assert(in_cache(oldc, x));
                                let (a, b) = choose|a: int, b: int|
                                    0 <= a < oldc.len() && 0 <= b < oldc[a].1@.len()
                                        && oldc[a].1@[b] == x;
                                assert(old(self).storage_view().runner_idle(oldc[a].1@[b]));
                                lemma_idle_after_dispatch(
                                    old(self).storage_view(),
                                    job@.id,
                                    w,
                                    now,
                                    x,
                                );
                            }
                            assert(cache_idle(self.cache@, self.storage@));
                            old(self).lemma_parked_queue_at(queue@, i as int);
                            self.lemma_parked_queue_at(queue@, i as int);
                            assert forall|q: Seq<char>|
                                q != queue@ implies self.parked_queue(q) == old(
                                self,
                            ).parked_queue(q) by {
                                Server::lemma_parked_queue_same_buckets(
                                    *old(self),
                                    *self,
                                    i as int,
                                    q,
                                );
                            }
                        }
                        Some(Delivery { worker_id: w, job })
                    },
                    None => {
                        pair.1.push(w);
                        self.cache.insert(i, pair);
                        proof {
                            let oldc = old(self).cache@;
                            assert(forall|k: int|
                                0 <= k < self.cache@.len() && k != i ==> self.cache@[k] == oldc[k]);
                            assert(self.cache@[i as int].1@ =~= rotate1(oldc[i as int].1@));
                            lemma_cache_rotate(oldc, self.cache@, i as int);
                            lemma_cache_idle_subset(oldc, self.cache@, self.storage@);
                            old(self).lemma_parked_queue_at(queue@, i as int);
                            self.lemma_parked_queue_at(queue@, i as int);
                            assert forall|q: Seq<char>|
                                q != queue@ implies self.parked_queue(q) == old(
                                self,
                            ).parked_queue(q) by {
                                Server::lemma_parked_queue_same_buckets(
                                    *old(self),
                                    *self,
                                    i as int,
                                    q,
                                );
                            }
                        }
                        None
                    },
                }
            },
            None => {
                proof {
                    self.lemma_parked_queue_absent(queue@);
                }
                None
            },
        }
    }

    /// Persist a new job and, if it is ready and a worker is parked for its
    /// queue, hand off a ready job of that queue at once (it may be this
    /// job or one queued earlier).
    pub fn handle_new_job(&mut self, msg: NewJob, now: i64) -> (r: (u64, Option<Delivery>))
        requires
            old(self).inv(),
            old(self).storage_view().next_id < u64::MAX,
        ensures
            final(self).inv(),
            r.0 == old(self).storage_view().next_id,
            ({
                let mid = after_new_job(old(self).storage_view(), msg.0@, now);
                match r.1 {
                    None => {
                        &&& final(self).storage_view() == mid
                        &&& forall|x: u64| final(self).parked(x) == old(self).parked(x)
                        &&& msg.0@.next_queue is None ==> final(self).parked_queue(msg.0@.queue)
                            == rotate1(old(self).parked_queue(msg.0@.queue))
                        &&& msg.0@.next_queue is Some ==> final(self).parked_queue(msg.0@.queue)
                            == old(self).parked_queue(msg.0@.queue)
                        &&& forall|q: Seq<char>|
                            q != msg.0@.queue ==> final(self).parked_queue(q) == old(
                                self,
                            ).parked_queue(q)
                    },
                    Some(d) => {
                        &&& msg.0@.next_queue is None
                        &&& old(self).parked(d.worker_id)
                        &&& !final(self).parked(d.worker_id)
                        &&& forall|x: u64|
                            x != d.worker_id ==> final(self).parked(x) == old(self).parked(x)
                        &&& old(self).parked_queue(msg.0@.queue).len() > 0
                        &&& d.worker_id == old(self).parked_queue(msg.0@.queue)[0]
                        &&& final(self).parked_queue(msg.0@.queue) == old(self).parked_queue(
                            msg.0@.queue,
                        ).subrange(1, old(self).parked_queue(msg.0@.queue).len() as int)
                        &&& forall|q: Seq<char>|
                            q != msg.0@.queue ==> final(self).parked_queue(q) == old(
                                self,
                            ).parked_queue(q)
                        &&& mid.queued(d.job@.id)
                        &&& mid.queues[d.job@.id] == msg.0@.queue
                        &&& d.job@ == mid.jobs[d.job@.id].after_start(now)
                        &&& d.job@.ready_at(now)
                        &&& final(self).storage_view() == after_dispatch(
                            mid,
                            d.job@.id,
                            d.worker_id,
                            now,
                        )
                    },
                }
            }),
            msg.0@.next_queue is None && old(self).parked_for(msg.0@.queue) ==> r.1 is Some,
    {
        let queue_name = msg.0.queue().to_owned();
        let ready = msg.0.is_ready();
        let ghost fresh_id = self.storage@.next_id;
        let id = self.storage.new_job(msg.0, now);
        let delivery = if ready {
            proof {
                // the job just queued is itself ready, so a parked worker
                // for the queue is owed a delivery
                assert(self.storage@.queued(fresh_id));
                assert(self.storage@.jobs[fresh_id].ready_at(now));
                Server::lemma_parked_queue_equal_caches(*old(self), *self);
            }
            self.try_dispatch(&queue_name, now)
        } else {
            proof {
                Server::lemma_parked_queue_equal_caches(*old(self), *self);
            }
            None
        };
        (id, delivery)
    }

    /// Hand the requesting worker a ready job of its queue, or park it at
    /// the tail of the queue's FIFO. The worker must not already be parked
    /// and must be idle: each worker asks for one job at a time.
    pub fn handle_request_job(&mut self, msg: RequestJob, now: i64) -> (r: Option<JobInfo>)
        requires
            old(self).inv(),
            !old(self).parked(msg.0.id),
            old(self).storage_view().runner_idle(msg.0.id),
        ensures
            final(self).inv(),
            match r {
                Some(job) => {
                    &&& old(self).storage_view().queued(job@.id)
                    &&& old(self).storage_view().queues[job@.id] == msg.0.queue@
                    &&& job@ == old(self).storage_view().jobs[job@.id].after_start(now)
                    &&& job@.ready_at(now)
                    &&& final(self).storage_view() == after_dispatch(
                        old(self).storage_view(),
                        job@.id,
                        msg.0.id,
                        now,
                    )
                    &&& forall|w: u64| final(self).parked(w) == old(self).parked(w)
                    &&& forall|q: Seq<char>|
                        final(self).parked_queue(q) == old(self).parked_queue(q)
                },
                None => {
                    &&& final(self).storage_view() == old(self).storage_view()
                    &&& final(self).parked(msg.0.id)
                    &&& forall|x: u64|
                        final(self).parked(x) == (old(self).parked(x) || x == msg.0.id)
                    &&& final(self).parked_queue(msg.0.queue@) == old(self).parked_queue(
                        msg.0.queue@,
                    ).push(msg.0.id)
                    &&& forall|q: Seq<char>|
                        q != msg.0.queue@ ==> final(self).parked_queue(q) == old(
                            self,
                        ).parked_queue(q)
                    &&& forall|id: u64|
                        #[trigger] old(self).storage_view().queued(id) && old(
                            self,
                        ).storage_view().queues[id] == msg.0.queue@ ==> !old(
                            self,
                        ).storage_view().jobs[id].ready_at(now)
                },
            },
    {
        let worker = msg.0;
        match self.storage.request_job(worker.queue.as_str(), worker.id, now) {
            Some(job) => {
                proof {
                    assert forall|i2: int, j2: int|
                        0 <= i2 < self.cache@.len() && 0 <= j2
                            < self.cache@[i2].1@.len() implies self.storage@.runner_idle(
                        #[trigger] self.cache@[i2].1@[j2],
                    ) by {
                        assert(old(self).storage_view().runner_idle(self.cache@[i2].1@[j2]));
                        assert(self.cache@[i2].1@[j2] != worker.id) by {
                            if self.cache@[i2].1@[j2] == worker.id {
                                assert(in_cache(old(self).cache@, worker.id));
                            }
                        }
                    }
                    Server::lemma_parked_queue_equal_caches(*old(self), *self);
                }
                Some(job)
            },
            None => {
                proof {
                    Server::lemma_parked_queue_equal_caches(*old(self), *self);
                }
                self.park(worker);
                None
            },
        }
    }

    /// Park a worker at the tail of its queue's FIFO.
    fn park(&mut self, worker: WorkerHandle)
        requires
            old(self).inv(),
            !old(self).parked(worker.id),
            old(self).storage_view().runner_idle(worker.id),
        ensures
            final(self).inv(),
            final(self).parked(worker.id),
            forall|x: u64| x != worker.id ==> final(self).parked(x) == old(self).parked(x),
            final(self).parked_queue(worker.queue@) == old(self).parked_queue(
                worker.queue@,
            ).push(worker.id),
            forall|q: Seq<char>|
                q != worker.queue@ ==> final(self).parked_queue(q) == old(self).parked_queue(q),
            final(self).storage_view() == old(self).storage_view(),
    {
        let ghost oldc = self.cache@;
        match self.find_bucket(&worker.queue) {
            Some(i) => {
                let mut pair = self.cache.remove(i);
                pair.1.push(worker.id);
                self.cache.insert(i, pair);
                proof {
                    assert(forall|k: int|
                        0 <= k < self.cache@.len() && k != i ==> self.cache@[k] == oldc[k]);
                    assert(self.cache@[i as int].1@ =~= oldc[i as int].1@.push(worker.id));
                    lemma_cache_push_tail(oldc, self.cache@, i as int, worker.id);
                    assert(cache_idle(self.cache@, self.storage@)) by {
                        assert forall|i2: int, j2: int|
                            0 <= i2 < self.cache@.len() && 0 <= j2
                                < self.cache@[i2].1@.len() implies self.storage@.runner_idle(
                            #[trigger] self.cache@[i2].1@[j2],
                        ) by {
                            let x = self.cache@[i2].1@[j2];
                            if x != worker.id {
                                assert(in_cache(self.cache@, x));
                                assert(in_cache(oldc, x));
                                let (a, b) = choose|a: int, b: int|
                                    0 <= a < oldc.len() && 0 <= b < oldc[a].1@.len()
                                        && oldc[a].1@[b] == x;
                                assert(self.storage@.runner_idle(oldc[a].1@[b]));
                            }
                        }
                    }
                    old(self).lemma_parked_queue_at(worker.queue@, i as int);
                    self.lemma_parked_queue_at(worker.queue@, i as int);
                    assert forall|q: Seq<char>|
                        q != worker.queue@ implies self.parked_queue(q) == old(self).parked_queue(
                        q,
                    ) by {
                        Server::lemma_parked_queue_same_buckets(*old(self), *self, i as int, q);
                    }
                }
            },
            None => {
                let mut ids: Vec<u64> = Vec::new();
                ids.push(worker.id);
                self.cache.push((worker.queue, ids));
                proof {
                    let n = self.cache@.len() - 1;
                    assert(self.cache@[n].1@ =~= seq![worker.id]);
                    assert forall|i1: int, j1: int, i2: int, j2: int|
                        0 <= i1 < self.cache@.len() && 0 <= j1 < self.cache@[i1].1@.len() && 0 <= i2
                            < self.cache@.len() && 0 <= j2 < self.cache@[i2].1@.len() && (i1 != i2
                            || j1 != j2) implies (#[trigger] self.cache@[i1].1@[j1]) != (
                    #[trigger] self.cache@[i2].1@[j2]) by {
                        if i1 == n {
                            assert(self.cache@[i1].1@[j1] == worker.id);
                            assert(i2 < n);
                            assert(in_cache(oldc, oldc[i2].1@[j2]));
                        } else if i2 == n {
                            assert(self.cache@[i2].1@[j2] == worker.id);
                            assert(i1 < n);
                            assert(in_cache(oldc, oldc[i1].1@[j1]));
                        }
                    }
                    assert(cache_distinct(self.cache@));
                    assert(cache_idle(self.cache@, self.storage@)) by {
                        assert forall|i2: int, j2: int|
                            0 <= i2 < self.cache@.len() && 0 <= j2
                                < self.cache@[i2].1@.len() implies self.storage@.runner_idle(
                            #[trigger] self.cache@[i2].1@[j2],
                        ) by {
                            if i2 < n {
                                assert(self.cache@[i2].1@[j2] == oldc[i2].1@[j2]);
                            }
                        }
                    }
                    assert(self.cache@[n].1@[0] == worker.id);
                    assert(in_cache(self.cache@, worker.id));
                    old(self).lemma_parked_queue_absent(worker.queue@);
                    self.lemma_parked_queue_at(worker.queue@, n);
                    assert(self.cache@[n].1@ =~= Seq::<u64>::empty().push(worker.id));
                    assert forall|q: Seq<char>|
                        q != worker.queue@ implies self.parked_queue(q) == old(self).parked_queue(
                        q,
                    ) by {
                        Server::lemma_parked_queue_appended(*old(self), *self, q);
                    }
                    assert forall|x: u64| x != worker.id implies in_cache(self.cache@, x)
                        == in_cache(oldc, x) by {
                        if in_cache(self.cache@, x) {
                            let (i2, j2) = choose|i2: int, j2: int|
                                0 <= i2 < self.cache@.len() && 0 <= j2 < self.cache@[i2].1@.len()
                                    && self.cache@[i2].1@[j2] == x;
                            if i2 == n {
                                assert(false);
                            } else {
                                assert(oldc[i2].1@[j2] == x);
                            }
                            assert(in_cache(oldc, x));
                        }
                        if in_cache(oldc, x) {
                            let (i2, j2) = choose|i2: int, j2: int|
                                0 <= i2 < oldc.len() && 0 <= j2 < oldc[i2].1@.len()
                                    && oldc[i2].1@[j2] == x;
                            assert(self.cache@[i2].1@[j2] == x);
                            assert(in_cache(self.cache@, x));
                        }
                    }
                }
            },
        }
    }

    /// Forward a worker's outcome to the storage. No worker wakes here; the
    /// worker re-requests a job itself after returning one.
    pub fn handle_returning_job(&mut self, msg: ReturningJob, now: i64)
        requires
            old(self).inv(),
            valid_ts(now),
        ensures
            final(self).inv(),
            final(self).storage_view() == after_return(
                old(self).storage_view(),
                msg.0.id,
                msg.0.result,
                now,
            ),
            forall|w: u64| final(self).parked(w) == old(self).parked(w),
    {
        let ghost pre = self.storage@;
        self.storage.return_job(msg.0, now);
        proof {
            assert forall|i2: int, j2: int|
                0 <= i2 < self.cache@.len() && 0 <= j2
                    < self.cache@[i2].1@.len() implies self.storage@.runner_idle(
                #[trigger] self.cache@[i2].1@[j2],
            ) by {
                let w = self.cache@[i2].1@[j2];
                assert(pre.runner_idle(w));
                assert forall|id: u64| #[trigger]
                    self.storage@.running.dom().contains(id) implies self.storage@.running[id]
                    != w by {
                    assert(pre.running.dom().contains(id));
                    assert(self.storage@.running[id] == pre.running[id]);
                }
            }
        }
    }

    /// Scan every queue with parked workers and hand ready jobs to them,
    /// front of the FIFO first, stopping a queue's scan when the storage
    /// has nothing ready for it. All handoffs of one scan go to pairwise
    /// distinct workers and carry pairwise distinct jobs.
    pub fn handle_check_db(&mut self, _msg: CheckDb, now: i64) -> (r: Vec<Delivery>)
        requires
            old(self).inv(),
        ensures
            final(self).inv(),
            forall|k: int|
                #![auto]
                0 <= k < r@.len() ==> {
                    &&& old(self).parked(r@[k].worker_id)
                    &&& final(self).storage_view().running_bound(r@[k].job@.id)
                    &&& final(self).storage_view().running[r@[k].job@.id] == r@[k].worker_id
                    &&& r@[k].job@.ready_at(now)
                    &&& r@[k].job@.status == JobStatus::Running
                },
            forall|k1: int, k2: int|
                #![auto]
                0 <= k1 < k2 < r@.len() ==> r@[k1].worker_id != r@[k2].worker_id && r@[k1].job@.id
                    != r@[k2].job@.id,
            forall|q: Seq<char>|
                #[trigger] final(self).parked_for(q) ==> no_ready_job(
                    final(self).storage_view(),
                    q,
                    now,
                ),
            forall|w: u64|
                #![auto]
                final(self).parked(w) == (old(self).parked(w) && !delivered_to(r@, w)),
    {
        let mut deliveries: Vec<Delivery> = Vec::new();
        proof {
            assert(forall|w: u64| !delivered_to(deliveries@, w));
        }
        let n = self.cache.len();
        let mut i: usize = 0;
        while i < n
            invariant
                i <= n,
                n == self.cache@.len(),
                self.inv(),
                forall|w: u64| in_cache(self.cache@, w) ==> in_cache(old(self).cache@, w),
                forall|w: u64|
                    in_cache(self.cache@, w) == (in_cache(old(self).cache@, w) && !delivered_to(
                        deliveries@,
                        w,
                    )),
                forall|k: int|
                    #![auto]
                    0 <= k < deliveries@.len() ==> {
                        &&& in_cache(old(self).cache@, deliveries@[k].worker_id)
                        &&& !in_cache(self.cache@, deliveries@[k].worker_id)
                        &&& self.storage@.running_bound(deliveries@[k].job@.id)
                        &&& self.storage@.running[deliveries@[k].job@.id]
                            == deliveries@[k].worker_id
                        &&& deliveries@[k].job@.ready_at(now)
                        &&& deliveries@[k].job@.status == JobStatus::Running
                    },
                forall|k1: int, k2: int|
                    #![auto]
                    0 <= k1 < k2 < deliveries@.len() ==> deliveries@[k1].worker_id
                        != deliveries@[k2].worker_id,
                forall|k: int|
                    0 <= k < self.cache@.len() ==> (#[trigger] self.cache@[k].0)@ == (old(
                        self,
                    ).cache@[k].0)@,
                forall|k: int|
                    0 <= k < i ==> (#[trigger] self.cache@[k].1)@.len() > 0 ==> no_ready_job(
                        self.storage@,
                        self.cache@[k].0@,
                        now,
                    ),
            decreases n - i,
        {
            let ghost prev = *self;
            let ghost prev_deliveries = deliveries@;
            self.drain_bucket(i, now, &mut deliveries);
            proof {
                assert forall|x: u64|
                    in_cache(self.cache@, x) == (in_cache(old(self).cache@, x) && !delivered_to(
                        deliveries@,
                        x,
                    )) by {
                    assert(in_cache(self.cache@, x) == (in_cache(prev.cache@, x) && !delivered_to(
                        deliveries@,
                        x,
                    )));
                    assert(in_cache(prev.cache@, x) == (in_cache(old(self).cache@, x)
                        && !delivered_to(prev_deliveries, x)));
                    if delivered_to(prev_deliveries, x) {
                        let k = choose|k: int|
                            0 <= k < prev_deliveries.len() && prev_deliveries[k].worker_id == x;
                        assert(deliveries@[k] == prev_deliveries[k]);
                        assert(delivered_to(deliveries@, x));
                    }
                }
                assert forall|k: int|
                    0 <= k < i + 1 && (#[trigger] self.cache@[k].1)@.len() > 0 implies no_ready_job(
                    self.storage@,
                    self.cache@[k].0@,
                    now,
                ) by {
                    if k < i {
                        assert(self.cache@[k] == prev.cache@[k]);
                        assert((prev.cache@[k].1)@.len() > 0);
                        assert(no_ready_job(prev.storage@, prev.cache@[k].0@, now));
                        assert(no_ready_job(prev.storage_view(), prev.cache@[k].0@, now));
                        assert(no_ready_job(self.storage_view(), prev.cache@[k].0@, now));
                        assert(no_ready_job(self.storage@, prev.cache@[k].0@, now));
                    } else {
                        assert((self.cache@[i as int].0)@ == (prev.cache@[i as int].0)@);
                        assert(no_ready_job(self.storage_view(), (prev.cache@[i as int].0)@, now));
                        assert(no_ready_job(self.storage@, (prev.cache@[i as int].0)@, now));
                    }
                }
            }
            i = i + 1;
        }
        proof {
            assert forall|q: Seq<char>| #[trigger]
                self.parked_for(q) implies no_ready_job(self.storage@, q, now) by {
                let b = choose|b: int|
                    0 <= b < self.cache@.len() && self.cache@[b].0@ == q && self.cache@[b].1@.len()
                        > 0;
                assert((self.cache@[b].1)@.len() > 0);
                assert((self.cache@[b].0)@ == q);
            }
            assert forall|k1: int, k2: int|
                #![auto]
                0 <= k1 < k2 < deliveries@.len() implies deliveries@[k1].worker_id
                != deliveries@[k2].worker_id && deliveries@[k1].job@.id
                != deliveries@[k2].job@.id by {
                if deliveries@[k1].job@.id == deliveries@[k2].job@.id {
                    assert(self.storage@.running[deliveries@[k1].job@.id]
                        == deliveries@[k1].worker_id);
                    assert(false);
                }
            }
            assert forall|w: u64|
                #![auto]
                self.parked(w) == (old(self).parked(w) && !delivered_to(deliveries@, w)) by {
                assert(in_cache(self.cache@, w) == (in_cache(old(self).cache@, w) && !delivered_to(
                    deliveries@,
                    w,
                )));
            }
        }
        deliveries
    }

    /// Hand ready jobs of the queue in bucket `i` to its parked workers,
    /// front first, until the storage has nothing ready for it.
    fn drain_bucket(&mut self, i: usize, now: i64, deliveries: &mut Vec<Delivery>)
        requires
            old(self).inv(),
            i < old(self).cache@.len(),
            forall|k: int|
                #![auto]
                0 <= k < old(deliveries)@.len() ==> {
                    &&& !in_cache(old(self).cache@, old(deliveries)@[k].worker_id)
                    &&& old(self).storage_view().running_bound(old(deliveries)@[k].job@.id)
                    &&& old(self).storage_view().running[old(deliveries)@[k].job@.id] == old(
                        deliveries,
                    )@[k].worker_id
                    &&& old(deliveries)@[k].job@.ready_at(now)
                    &&& old(deliveries)@[k].job@.status == JobStatus::Running
                },
            forall|k1: int, k2: int|
                #![auto]
                0 <= k1 < k2 < old(deliveries)@.len() ==> old(deliveries)@[k1].worker_id != old(
                    deliveries,
                )@[k2].worker_id,
        ensures
            final(self).inv(),
            final(self).cache@.len() == old(self).cache@.len(),
            final(deliveries)@.len() >= old(deliveries)@.len(),
            forall|k: int|
                #![auto]
                0 <= k < old(deliveries)@.len() ==> final(deliveries)@[k] == old(deliveries)@[k],
            forall|k: int|
                #![auto]
                0 <= k < final(deliveries)@.len() ==> {
                    &&& !in_cache(final(self).cache@, final(deliveries)@[k].worker_id)
                    &&& final(self).storage_view().running_bound(final(deliveries)@[k].job@.id)
                    &&& final(self).storage_view().running[final(deliveries)@[k].job@.id]
                        == final(deliveries)@[k].worker_id
                    &&& final(deliveries)@[k].job@.ready_at(now)
                    &&& final(deliveries)@[k].job@.status == JobStatus::Running
                },
            forall|k1: int, k2: int|
                #![auto]
                0 <= k1 < k2 < final(deliveries)@.len() ==> final(deliveries)@[k1].worker_id
                    != final(deliveries)@[k2].worker_id,
            forall|k: int|
                #![auto]
                old(deliveries)@.len() <= k < final(deliveries)@.len() ==> in_cache(
                    old(self).cache@,
                    final(deliveries)@[k].worker_id,
                ),
            forall|w: u64| in_cache(final(self).cache@, w) ==> in_cache(old(self).cache@, w),
            forall|w: u64|
                in_cache(final(self).cache@, w) == (in_cache(old(self).cache@, w)
                    && !delivered_to(final(deliveries)@, w)),
            forall|k: int|
                0 <= k < final(self).cache@.len() && k != i ==> final(self).cache@[k] == old(
                    self,
                ).cache@[k],
            (final(self).cache@[i as int].0)@ == (old(self).cache@[i as int].0)@,
            forall|q: Seq<char>|
                no_ready_job(old(self).storage_view(), q, now) ==> no_ready_job(
                    final(self).storage_view(),
                    q,
                    now,
                ),
            final(self).cache@[i as int].1@.len() > 0 ==> no_ready_job(
                final(self).storage_view(),
                (old(self).cache@[i as int].0)@,
                now,
            ),
            ({
                let pq = old(self).parked_queue((old(self).cache@[i as int].0)@);
                let added = final(deliveries)@.len() - old(deliveries)@.len();
                &&& added <= pq.len()
                &&& forall|j: int|
                    0 <= j < added ==> final(deliveries)@[old(deliveries)@.len() + j].worker_id
                        == pq[j]
                &&& final(self).parked_queue((old(self).cache@[i as int].0)@) == rotate1(
                    pq.subrange(added, pq.len() as int),
                )
                &&& forall|q: Seq<char>|
                    q != (old(self).cache@[i as int].0)@ ==> final(self).parked_queue(q) == old(
                        self,
                    ).parked_queue(q)
            }),
    {
        let ghost name = (old(self).cache@[i as int].0)@;
        let ghost old_pq = old(self).parked_queue(name);
        proof {
            old(self).lemma_parked_queue_at(name, i as int);
            assert(old_pq.subrange(0, old_pq.len() as int) =~= old_pq);
            // a delivered worker is never parked, so the cache and the
            // deliveries start out disjoint
            assert forall|w: u64|
                in_cache(self.cache@, w) implies !delivered_to(deliveries@, w) by {
                if delivered_to(deliveries@, w) {
                    let k = choose|k: int|
                        0 <= k < deliveries@.len() && deliveries@[k].worker_id == w;
                    assert(!in_cache(old(self).cache@, deliveries@[k].worker_id));
                }
            }
        }
        loop
            invariant_except_break
                self.cache@[i as int].1@ == old_pq.subrange(
                    deliveries@.len() - old(deliveries)@.len(),
                    old_pq.len() as int,
                ),
            invariant
                self.inv(),
                i < self.cache@.len(),
                self.cache@.len() == old(self).cache@.len(),
                name == (old(self).cache@[i as int].0)@,
                old_pq == old(self).parked_queue(name),
                old_pq == old(self).cache@[i as int].1@,
                deliveries@.len() - old(deliveries)@.len() <= old_pq.len(),
                forall|j: int|
                    0 <= j < deliveries@.len() - old(deliveries)@.len() ==> deliveries@[old(
                        deliveries,
                    )@.len() + j].worker_id == old_pq[j],
                forall|q: Seq<char>|
                    q != name ==> self.parked_queue(q) == old(self).parked_queue(q),
                forall|k: int|
                    0 <= k < self.cache@.len() && k != i ==> self.cache@[k] == old(self).cache@[k],
                (self.cache@[i as int].0)@ == (old(self).cache@[i as int].0)@,
                forall|q: Seq<char>|
                    no_ready_job(old(self).storage_view(), q, now) ==> no_ready_job(
                        self.storage@,
                        q,
                        now,
                    ),
                deliveries@.len() >= old(deliveries)@.len(),
                forall|k: int|
                    #![auto]
                    0 <= k < old(deliveries)@.len() ==> deliveries@[k] == old(deliveries)@[k],
                forall|k: int|
                    #![auto]
                    0 <= k < deliveries@.len() ==> {
                        &&& !in_cache(self.cache@, deliveries@[k].worker_id)
                        &&& self.storage@.running_bound(deliveries@[k].job@.id)
                        &&& self.storage@.running[deliveries@[k].job@.id]
                            == deliveries@[k].worker_id
                        &&& deliveries@[k].job@.ready_at(now)
                        &&& deliveries@[k].job@.status == JobStatus::Running
                    },
                forall|k1: int, k2: int|
                    #![auto]
                    0 <= k1 < k2 < deliveries@.len() ==> deliveries@[k1].worker_id
                        != deliveries@[k2].worker_id,
                forall|k: int|
                    #![auto]
                    old(deliveries)@.len() <= k < deliveries@.len() ==> in_cache(
                        old(self).cache@,
                        deliveries@[k].worker_id,
                    ),
                forall|w: u64| in_cache(self.cache@, w) ==> in_cache(old(self).cache@, w),
                forall|w: u64|
                    in_cache(self.cache@, w) == (in_cache(old(self).cache@, w) && !delivered_to(
                        deliveries@,
                        w,
                    )),
            ensures
                self.cache@[i as int].1@.len() > 0 ==> no_ready_job(
                    self.storage@,
                    (self.cache@[i as int].0)@,
                    now,
                ),
                self.cache@[i as int].1@ == rotate1(
                    old_pq.subrange(
                        deliveries@.len() - old(deliveries)@.len(),
                        old_pq.len() as int,
                    ),
                ),
            decreases self.cache@[i as int].1@.len(),
        {
            let ghost prev = *self;
            let bucket_len = self.cache[i].1.len();
            if bucket_len == 0 {
                break ;
            }
            let mut pair = self.cache.remove(i);
            let w = pair.1.remove(0);
            proof {
                assert(prev.cache@[i as int].1@[0] == w);
                assert(prev.storage@.runner_idle(w));
            }
            let res = self.storage.request_job(pair.0.as_str(), w, now);
            match res {
                Some(job) => {
                    self.cache.insert(i, pair);
                    proof {
                        let oldc = prev.cache@;
                        assert(forall|k: int|
                            0 <= k < self.cache@.len() && k != i ==> self.cache@[k] == oldc[k]);
                        assert(self.cache@[i as int].1@ =~= oldc[i as int].1@.subrange(
                            1,
                            oldc[i as int].1@.len() as int,
                        ));
                        lemma_cache_pop_front(oldc, self.cache@, i as int);
                        assert forall|i2: int, j2: int|
                            0 <= i2 < self.cache@.len() && 0 <= j2
                                < self.cache@[i2].1@.len() implies self.storage@.runner_idle(
                            #[trigger] self.cache@[i2].1@[j2],
                        ) by {
                            let x = self.cache@[i2].1@[j2];
                            assert(in_cache(self.cache@, x));
                            assert(in_cache(oldc, x));
                            let (a, b) = choose|a: int, b: int|
                                0 <= a < oldc.len() && 0 <= b < oldc[a].1@.len() && oldc[a].1@[b]
                                    == x;
                            assert(prev.storage@.runner_idle(oldc[a].1@[b]));
                            lemma_idle_after_dispatch(prev.storage@, job@.id, w, now, x);
                        }
                        assert(cache_idle(self.cache@, self.storage@));
                        assert(self.cache@[i as int].1@ =~= old_pq.subrange(
                            deliveries@.len() - old(deliveries)@.len() + 1,
                            old_pq.len() as int,
                        ));
                        assert forall|q: Seq<char>| q != name implies self.parked_queue(q)
                            == old(self).parked_queue(q) by {
                            Server::lemma_parked_queue_same_buckets(prev, *self, i as int, q);
                        }
                        assert forall|q: Seq<char>|
                            no_ready_job(old(self).storage_view(), q, now) implies no_ready_job(
                            self.storage@,
                            q,
                            now,
                        ) by {
                            if no_ready_job(prev.storage@, q, now) {
                                lemma_dispatch_preserves_no_ready(
                                    prev.storage@,
                                    job@.id,
                                    w,
                                    now,
                                    q,
                                    now,
                                );
                            }
                        }
                    }
                    let ghost pre_deliveries = deliveries@;
                    deliveries.push(Delivery { worker_id: w, job });
                    proof {
                        assert(deliveries@[deliveries@.len() - 1].worker_id == w);
                        assert forall|x: u64|
                            in_cache(self.cache@, x) == (in_cache(old(self).cache@, x)
                                && !delivered_to(deliveries@, x)) by {
                            if x == w {
                                assert(!in_cache(self.cache@, x));
                                assert(delivered_to(deliveries@, x));
                            } else {
                                assert(in_cache(self.cache@, x) == in_cache(prev.cache@, x));
                                assert(delivered_to(deliveries@, x) == delivered_to(
                                    pre_deliveries,
                                    x,
                                )) by {
                                    if delivered_to(deliveries@, x) {
                                        let k = choose|k: int|
                                            0 <= k < deliveries@.len() && deliveries@[k].worker_id
                                                == x;
                                        assert(k != deliveries@.len() - 1);
                                        assert(pre_deliveries[k].worker_id == x);
                                    }
                                    if delivered_to(pre_deliveries, x) {
                                        let k = choose|k: int|
                                            0 <= k < pre_deliveries.len()
                                                && pre_deliveries[k].worker_id == x;
                                        assert(deliveries@[k].worker_id == x);
                                    }
                                }
                                assert(in_cache(prev.cache@, x) == (in_cache(old(self).cache@, x)
                                    && !delivered_to(pre_deliveries, x)));
                            }
                        }
                    }
                },
                None => {
                    pair.1.push(w);
                    self.cache.insert(i, pair);
                    proof {
                        let oldc = prev.cache@;
                        assert(forall|k: int|
                            0 <= k < self.cache@.len() && k != i ==> self.cache@[k] == oldc[k]);
                        assert(self.cache@[i as int].1@ =~= rotate1(oldc[i as int].1@));
                        lemma_cache_rotate(oldc, self.cache@, i as int);
                        lemma_cache_idle_subset(oldc, self.cache@, self.storage@);
                        assert forall|x: u64|
                            in_cache(self.cache@, x) == (in_cache(old(self).cache@, x)
                                && !delivered_to(deliveries@, x)) by {
                            assert(in_cache(self.cache@, x) == in_cache(prev.cache@, x));
                            assert(in_cache(prev.cache@, x) == (in_cache(old(self).cache@, x)
                                && !delivered_to(deliveries@, x)));
                        }
                        assert(self.cache@[i as int].1@ =~= rotate1(
                            old_pq.subrange(
                                deliveries@.len() - old(deliveries)@.len(),
                                old_pq.len() as int,
                            ),
                        ));
                        assert forall|q: Seq<char>| q != name implies self.parked_queue(q)
                            == old(self).parked_queue(q) by {
                            Server::lemma_parked_queue_same_buckets(prev, *self, i as int, q);
                        }
                        // the storage answered that nothing in this queue is
                        // ready, which is exactly what the scan stops on
                        assert(no_ready_job(self.storage@, (self.cache@[i as int].0)@, now));
                    }
                    break ;
                },
            }
        }
    }

    /// Whether the worker is parked in the server's cache. A host can test
    /// this before asking for a job on a worker's behalf.
    pub fn is_parked(&self, worker_id: u64) -> (r: bool)
        ensures
            r == self.parked(worker_id),
    {
        let n = self.cache.len();
        let mut i: usize = 0;
        while i < n
            invariant
                i <= n,
                n == self.cache@.len(),
                forall|i2: int, j2: int|
                    0 <= i2 < i && 0 <= j2 < self.cache@[i2].1@.len()
                        ==> (#[trigger] self.cache@[i2].1@[j2]) != worker_id,
            decreases n - i,
        {
            let m = self.cache[i].1.len();
            let mut j: usize = 0;
            while j < m
                invariant
                    j <= m,
                    i < self.cache@.len(),
                    n == self.cache@.len(),
                    m == self.cache@[i as int].1@.len(),
                    forall|i2: int, j2: int|
                        0 <= i2 < i && 0 <= j2 < self.cache@[i2].1@.len()
                            ==> (#[trigger] self.cache@[i2].1@[j2]) != worker_id,
                    forall|j2: int|
                        0 <= j2 < j ==> (#[trigger] self.cache@[i as int].1@[j2]) != worker_id,
                decreases m - j,
            {
                if self.cache[i].1[j] == worker_id {
                    proof {
                        assert(self.cache@[i as int].1@[j as int] == worker_id);
                    }
                    return true;
                }
                j = j + 1;
            }
            i = i + 1;
        }
        proof {
            if in_cache(self.cache@, worker_id) {
                let (i2, j2) = choose|i2: int, j2: int|
                    0 <= i2 < self.cache@.len() && 0 <= j2 < self.cache@[i2].1@.len()
                        && self.cache@[i2].1@[j2] == worker_id;
                assert(false);
            }
        }
        false
    }

    /// Whether the worker is bound to no job, so a request on its behalf is
    /// in order. A host can test this before asking for a job.
    pub fn worker_is_idle(&self, worker_id: u64) -> (r: bool)
        requires
            self.inv(),
        ensures
            r == self.storage_view().runner_idle(worker_id),
    {
        self.storage.runner_is_idle(worker_id)
    }

    /// Whether the storage can still assign a fresh id to a new job.
    pub fn has_id_capacity(&self) -> (r: bool)
        ensures
            r == (self.storage_view().next_id < u64::MAX),
    {
        self.storage.has_id_capacity()
    }

    /// Read through to the storage's statistics.
    pub fn handle_get_stats(&self, _msg: GetStats) -> (r: Stats)
        ensures
            r@ == self.storage_view().stats,
    {
        self.storage.get_stats()
    }
}

/// Relies on num_cpus::get: the number of logical cores available to the
/// process, always at least one.
#[verifier::external_body]
fn logical_cpus() -> (r: usize)
    ensures
        r >= 1,
{
    num_cpus::get()
}

/// Configuration of the server side: the storage to guard and how many
/// server instances should share it.
pub struct ServerConfig {
    storage: Storage,
    threads: usize,
}

impl ServerConfig {
    /// How many server instances the configuration asks for.
    pub closed spec fn thread_view(self) -> usize {
        self.threads
    }

    /// The storage the configuration carries.
    pub closed spec fn storage_view(self) -> StorageView {
        self.storage@
    }

    /// A configuration for this storage, defaulting to one server instance
    /// per logical core.
    pub fn new(storage: Storage) -> (r: Self)
        requires
            storage.wf(),
            storage@.consistent(),
        ensures
            r.thread_view() >= 1,
            r.storage_view() == storage@,
            r.wf(),
    {
        let threads = logical_cpus();
        ServerConfig { storage, threads }
    }

    /// The carried storage is well-formed and consistent.
    pub closed spec fn wf(self) -> bool {
        self.storage.wf() && self.storage@.consistent()
    }

    /// Set the number of server instances to use.
    pub fn thread_count(self, threads: usize) -> (r: Self)
        ensures
            r.thread_view() == threads,
            r.storage_view() == self.storage_view(),
            r.wf() == self.wf(),
    {
        ServerConfig { storage: self.storage, threads }
    }

    /// How many server instances the configuration asks for.
    pub fn threads(&self) -> (r: usize)
        ensures
            r == self.thread_view(),
    {
        self.threads
    }

    /// Turn the configuration into a server owning the storage. The host
    /// spawns it (or several sharing one storage behind a lock) and routes
    /// messages to it.
    pub fn into_server(self) -> (r: Server)
        requires
            self.wf(),
        ensures
            r.inv(),
            r.storage_view() == self.storage_view(),
            forall|w: u64| !r.parked(w),
    {
        Server::new(self.storage)
    }
}

} // verus!

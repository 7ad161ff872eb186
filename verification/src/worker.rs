//! Worker configuration.
//!
//! Workers are long-lived executors bound to one queue each; concurrency
//! within a queue comes from several workers with distinct runner ids. This
//! module tracks which queues get how many workers and assigns every worker
//! a distinct runner id (counting up from a fixed offset), so the runner
//! bindings in storage stay one-to-one. The host spawns one executor per
//! assignment and drives it through the server's messages.

use vstd::prelude::*;

use crate::registry::ProcessorRegistry;
use crate::server::WorkerHandle;

verus! {

broadcast use vstd::seq::group_seq_axioms;

/// The runner id of the first worker; later workers count up from here.
pub const WORKER_ID_OFFSET: u64 = 1000;

/// The worker count configured for queue `q`, if any; a later entry wins.
pub open spec fn count_of(s: Seq<(String, u64)>, q: Seq<char>) -> Option<u64>
    decreases s.len(),
{
    if s.len() == 0 {
        None
    } else if s.last().0@ == q {
        Some(s.last().1)
    } else {
        count_of(s.drop_last(), q)
    }
}

/// How many workers the configuration asks for in all.
pub open spec fn total_workers(s: Seq<(String, u64)>) -> int
    decreases s.len(),
{
    if s.len() == 0 {
        0
    } else {
        total_workers(s.drop_last()) + s.last().1
    }
}

/// How many workers the first `i` queue entries ask for.
pub open spec fn workers_before(s: Seq<(String, u64)>, i: int) -> int {
    total_workers(s.subrange(0, i))
}

/// The queue entries carry pairwise distinct names.
pub open spec fn queues_distinct(s: Seq<(String, u64)>) -> bool {
    forall|i: int, j: int|
        0 <= i < j < s.len() ==> (#[trigger] s[i].0)@ != (#[trigger] s[j].0)@
}

proof fn lemma_count_of_update(s: Seq<(String, u64)>, i: int, name: String, count: u64, q: Seq<
    char,
>)
    requires
        queues_distinct(s),
        0 <= i < s.len(),
        s[i].0@ == name@,
    ensures
        count_of(s.update(i, (name, count)), q) == if q == name@ {
            Some(count)
        } else {
            count_of(s, q)
        },
    decreases s.len(),
{
    let t = s.update(i, (name, count));
    assert(queues_distinct(s.drop_last())) by {
        assert(forall|p: int, r: int|
            0 <= p < r < s.drop_last().len() ==> s.drop_last()[p] == s[p] && s.drop_last()[r]
                == s[r]);
    }
    if i == s.len() - 1 {
        assert(t.last() == (name, count));
        if q != name@ {
            assert(t.drop_last() =~= s.drop_last());
        }
    } else {
        assert(t.last() == s.last());
        assert(s.last().0@ != name@);
        assert(t.drop_last() =~= s.drop_last().update(i, (name, count)));
        assert(s.drop_last()[i] == s[i]);
        lemma_count_of_update(s.drop_last(), i, name, count, q);
    }
}

proof fn lemma_count_of_present(s: Seq<(String, u64)>, i: int)
    requires
        0 <= i < s.len(),
    ensures
        count_of(s, s[i].0@) is Some,
    decreases s.len(),
{
    if s.last().0@ != s[i].0@ {
        assert(s.drop_last()[i] == s[i]);
        lemma_count_of_present(s.drop_last(), i);
    }
}

proof fn lemma_count_of_absent(s: Seq<(String, u64)>, q: Seq<char>)
    requires
        forall|i: int| 0 <= i < s.len() ==> (#[trigger] s[i].0)@ != q,
    ensures
        count_of(s, q) is None,
    decreases s.len(),
{
    if s.len() > 0 {
        assert(s.last() == s[s.len() - 1]);
        assert(forall|i: int|
            0 <= i < s.drop_last().len() ==> #[trigger] s.drop_last()[i] == s[i]);
        lemma_count_of_absent(s.drop_last(), q);
    }
}

/// Configuration of the worker side: the registered processors and the
/// number of workers each queue gets.
pub struct WorkerConfig {
    processors: ProcessorRegistry,
    queues: Vec<(String, u64)>,
}

impl WorkerConfig {
    /// Queue names are pairwise distinct and the registry is well-formed.
    pub closed spec fn wf(self) -> bool {
        queues_distinct(self.queues@) && self.processors.wf()
    }

    /// The worker count configured for a queue.
    pub closed spec fn queue_count(self, q: Seq<char>) -> Option<u64> {
        count_of(self.queues@, q)
    }

    /// The processor name is registered.
    pub closed spec fn registered(self, name: Seq<char>) -> bool {
        self.processors.registered(name)
    }

    /// The queue entries, in configuration order.
    pub closed spec fn queue_seq(self) -> Seq<(String, u64)> {
        self.queues@
    }

    pub fn new() -> (r: Self)
        ensures
            r.wf(),
            forall|q: Seq<char>| r.queue_count(q) is None,
            forall|name: Seq<char>| !r.registered(name),
            r.queue_seq().len() == 0,
    {
        WorkerConfig { processors: ProcessorRegistry::new(), queues: Vec::new() }
    }

    /// Set the worker count of a queue, adding the queue if it is new.
    fn upsert_queue(&mut self, queue: String, count: u64)
        requires
            old(self).wf(),
        ensures
            final(self).wf(),
            final(self).queue_count(queue@) == Some(count),
            forall|q: Seq<char>|
                q != queue@ ==> final(self).queue_count(q) == old(self).queue_count(q),
            forall|name: Seq<char>|
                final(self).registered(name) == old(self).registered(name),
    {
        let n = self.queues.len();
        let mut i: usize = 0;
        while i < n
            invariant
                i <= n,
                n == self.queues@.len(),
                self.queues@ == old(self).queues@,
                self.processors == old(self).processors,
                old(self).wf(),
                forall|k: int| 0 <= k < i ==> (#[trigger] self.queues@[k].0)@ != queue@,
            decreases n - i,
        {
            if self.queues[i].0 == queue {
                proof {
                    lemma_count_of_update(self.queues@, i as int, queue, count, queue@);
                }
                let ghost pre = self.queues@;
                self.queues[i] = (queue, count);
                proof {
                    assert(self.queues@ =~= pre.update(i as int, (queue, count)));
                    assert(queues_distinct(self.queues@)) by {
                        assert(forall|p: int|
                            0 <= p < self.queues@.len() && p != i ==> self.queues@[p] == pre[p]);
                        assert(self.queues@[i as int].0@ == pre[i as int].0@);
                    }
                    assert forall|q: Seq<char>| q != queue@ implies count_of(self.queues@, q)
                        == count_of(pre, q) by {
                        lemma_count_of_update(pre, i as int, queue, count, q);
                    }
                }
                return ;
            }
            i = i + 1;
        }
        proof {
            lemma_count_of_absent(self.queues@, queue@);
        }
        let ghost pre = self.queues@;
        self.queues.push((queue, count));
        proof {
            assert(self.queues@.drop_last() =~= pre);
            assert(queues_distinct(self.queues@)) by {
                assert(forall|p: int| 0 <= p < pre.len() ==> self.queues@[p] == pre[p]);
                assert(forall|p: int|
                    0 <= p < pre.len() ==> (#[trigger] self.queues@[p].0)@ != queue@);
            }
        }
    }

    /// Whether the queue already has a configured worker count.
    fn has_queue(&self, queue: &String) -> (r: bool)
        ensures
            r == (self.queue_count(queue@) is Some),
    {
        let n = self.queues.len();
        let mut i: usize = 0;
        while i < n
            invariant
                i <= n,
                n == self.queues@.len(),
                forall|k: int| 0 <= k < i ==> (#[trigger] self.queues@[k].0)@ != queue@,
            decreases n - i,
        {
            if self.queues[i].0 == *queue {
                proof {
                    lemma_count_of_present(self.queues@, i as int);
                }
                return true;
            }
            i = i + 1;
        }
        proof {
            lemma_count_of_absent(self.queues@, queue@);
        }
        false
    }

    /// Register a processor: its name joins the registry, and its queue gets
    /// the default worker count of four only when no count was configured
    /// for that queue yet; an earlier `set_processor_count` survives.
    pub fn register(&mut self, processor_name: String, queue: String)
        requires
            old(self).wf(),
        ensures
            final(self).wf(),
            final(self).registered(processor_name@),
            forall|other: Seq<char>|
                #[trigger] final(self).registered(other) == (old(self).registered(other) || other
                    == processor_name@),
            old(self).queue_count(queue@) is None ==> final(self).queue_count(queue@) == Some(
                4u64,
            ),
            old(self).queue_count(queue@) is Some ==> final(self).queue_count(queue@) == old(
                self,
            ).queue_count(queue@),
            forall|q: Seq<char>|
                q != queue@ ==> final(self).queue_count(q) == old(self).queue_count(q),
    {
        if !self.has_queue(&queue) {
            self.upsert_queue(queue, 4);
        }
        self.processors.register_processor(processor_name);
    }

    /// Set the number of workers to run for a given queue.
    pub fn set_processor_count(&mut self, queue: String, count: u64)
        requires
            old(self).wf(),
        ensures
            final(self).wf(),
            final(self).queue_count(queue@) == Some(count),
            forall|q: Seq<char>|
                q != queue@ ==> final(self).queue_count(q) == old(self).queue_count(q),
            forall|name: Seq<char>|
                final(self).registered(name) == old(self).registered(name),
    {
        self.upsert_queue(queue, count);
    }

    /// Whether a processor of this name is registered.
    pub fn contains_processor(&self, name: &String) -> (r: bool)
        ensures
            r == self.registered(name@),
    {
        self.processors.contains_processor(name)
    }

    /// One handle per configured worker: queue by queue, each worker gets
    /// the next runner id counting up from the offset, so all runner ids
    /// are pairwise distinct.
    pub fn worker_assignments(&self) -> (r: Vec<WorkerHandle>)
        requires
            self.wf(),
            total_workers(self.queue_seq()) + WORKER_ID_OFFSET <= u64::MAX,
            total_workers(self.queue_seq()) <= usize::MAX,
        ensures
            r@.len() == total_workers(self.queue_seq()),
            forall|p: int| 0 <= p < r@.len() ==> (#[trigger] r@[p]).id == WORKER_ID_OFFSET + p,
            forall|p1: int, p2: int|
                0 <= p1 < p2 < r@.len() ==> (#[trigger] r@[p1]).id != (#[trigger] r@[p2]).id,
            forall|i: int, j: int|
                0 <= i < self.queue_seq().len() && 0 <= j < self.queue_seq()[i].1 ==> (#[trigger] r@[
                    workers_before(self.queue_seq(), i) + j
                ]).queue@ == self.queue_seq()[i].0@,
    {
        let mut out: Vec<WorkerHandle> = Vec::new();
        let n = self.queues.len();
        let mut i: usize = 0;
        while i < n
            invariant
                i <= n,
                n == self.queues@.len(),
                self.wf(),
                total_workers(self.queues@) + WORKER_ID_OFFSET <= u64::MAX,
                total_workers(self.queues@) <= usize::MAX,
                out@.len() == workers_before(self.queues@, i as int),
                forall|p: int|
                    0 <= p < out@.len() ==> (#[trigger] out@[p]).id == WORKER_ID_OFFSET + p,
                forall|i2: int, j: int|
                    0 <= i2 < i && 0 <= j < self.queues@[i2].1 ==> (#[trigger] out@[workers_before(
                        self.queues@,
                        i2,
                    ) + j]).queue@ == self.queues@[i2].0@,
            decreases n - i,
        {
            proof {
                lemma_workers_before_step(self.queues@, i as int);
                lemma_workers_before_bound(self.queues@, i as int);
            }
            let count = self.queues[i].1;
            let ghost base = out@.len() as int;
            let mut j: u64 = 0;
            while j < count
                invariant
                    0 <= j <= count,
                    i < self.queues@.len(),
                    count == self.queues@[i as int].1,
                    self.wf(),
                    base >= 0,
                    base == workers_before(self.queues@, i as int),
                    base + count <= usize::MAX,
                    base + count + WORKER_ID_OFFSET <= u64::MAX,
                    out@.len() == base + j,
                    forall|p: int|
                        0 <= p < out@.len() ==> (#[trigger] out@[p]).id == WORKER_ID_OFFSET + p,
                    forall|i2: int, j2: int|
                        0 <= i2 < i && 0 <= j2 < self.queues@[i2].1 ==> (#[trigger] out@[
                            workers_before(self.queues@, i2) + j2
                        ]).queue@ == self.queues@[i2].0@,
                    forall|j2: int|
                        0 <= j2 < j ==> (#[trigger] out@[base + j2]).queue@ == self.queues@[
                            i as int
                        ].0@,
                decreases count - j,
            {
                let id = WORKER_ID_OFFSET + (out.len() as u64);
                let queue_name = self.queues[i].0.clone();
                proof {
                    assert(queue_name@ == self.queues@[i as int].0@);
                }
                let ghost pre_out = out@;
                proof {
                    assert(forall|j2: int|
                        0 <= j2 < j ==> (#[trigger] pre_out[base + j2]).queue@ == self.queues@[
                            i as int
                        ].0@);
                }
                out.push(WorkerHandle { id, queue: queue_name });
                j = j + 1;
                proof {
                    assert(out@.len() == base + j);
                    assert(out@[base + (j - 1)].queue@ == self.queues@[i as int].0@);
                    assert forall|j2: int|
                        0 <= j2 < j - 1 implies (#[trigger] out@[base + j2]).queue@
                        == self.queues@[i as int].0@ by {
                        assert(out@.drop_last() =~= pre_out);
                        assert(out@[base + j2] == out@.drop_last()[base + j2]);
                        assert(out@.drop_last()[base + j2] == pre_out[base + j2]);
                        assert(pre_out[base + j2].queue@ == self.queues@[i as int].0@);
                    }
                    assert(forall|j2: int|
                        0 <= j2 < j ==> (#[trigger] out@[base + j2]).queue@ == self.queues@[
                            i as int
                        ].0@);
                    assert forall|i2: int, j2: int|
                        0 <= i2 < i && 0 <= j2 < self.queues@[i2].1 implies (#[trigger] out@[
                        workers_before(self.queues@, i2) + j2
                    ]).queue@ == self.queues@[i2].0@ by {
                        lemma_workers_before_step(self.queues@, i2);
                        lemma_workers_before_monotone(self.queues@, i2 + 1, i as int);
                        lemma_workers_before_monotone(self.queues@, 0, i2);
                        assert(self.queues@.subrange(0, 0) =~= Seq::<(String, u64)>::empty());
                    }
                }
            }
            i = i + 1;
            proof {
                assert forall|i2: int, j2: int|
                    0 <= i2 < i && 0 <= j2 < self.queues@[i2].1 implies (#[trigger] out@[
                    workers_before(self.queues@, i2) + j2
                ]).queue@ == self.queues@[i2].0@ by {
                    if i2 < i - 1 {
                        lemma_workers_before_monotone(self.queues@, i2 + 1, i - 1);
                        lemma_workers_before_step(self.queues@, i2);
                        lemma_workers_before_monotone(self.queues@, 0, i2);
                        assert(self.queues@.subrange(0, 0) =~= Seq::<(String, u64)>::empty());
                    } else {
                        assert(workers_before(self.queues@, i2) == base);
                    }
                }
            }
        }
        proof {
            assert(self.queues@.subrange(0, n as int) =~= self.queues@);
        }
        out
    }
}

/// Adding one more queue entry adds its worker count.
proof fn lemma_workers_before_step(s: Seq<(String, u64)>, i: int)
    requires
        0 <= i < s.len(),
    ensures
        workers_before(s, i + 1) == workers_before(s, i) + s[i].1,
{
    assert(s.subrange(0, i + 1).drop_last() =~= s.subrange(0, i));
    assert(s.subrange(0, i + 1).last() == s[i]);
}

/// Worker counts accumulate monotonically.
proof fn lemma_workers_before_monotone(s: Seq<(String, u64)>, i: int, k: int)
    requires
        0 <= i <= k <= s.len(),
    ensures
        workers_before(s, i) <= workers_before(s, k),
    decreases k - i,
{
    if i < k {
        lemma_workers_before_step(s, k - 1);
        lemma_workers_before_monotone(s, i, k - 1);
    }
}

/// A prefix never asks for more workers than the whole configuration.
proof fn lemma_workers_before_bound(s: Seq<(String, u64)>, i: int)
    requires
        0 <= i < s.len(),
    ensures
        workers_before(s, i) + s[i].1 <= total_workers(s),
        workers_before(s, i) >= 0,
{
    lemma_workers_before_step(s, i);
    lemma_workers_before_monotone(s, i + 1, s.len() as int);
    lemma_workers_before_monotone(s, 0, i);
    assert(s.subrange(0, s.len() as int) =~= s);
    assert(s.subrange(0, 0) =~= Seq::<(String, u64)>::empty());
}

} // verus!

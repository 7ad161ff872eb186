//! The processor registry.
//!
//! Processors are registered under globally-unique names; a job selects its
//! handler by name. The registry core tracked here is the name set and the
//! routing decision: a job whose processor name is unknown is answered with
//! a missing-processor outcome so that it stays pending until a matching
//! registration appears. The type-erased handlers themselves (closures over
//! user state) live with the host, keyed by the same names.

use vstd::prelude::*;

use crate::JobError;
use crate::JobResult;
use crate::job_info::JobInfo;
use crate::job_info::ReturnJobInfo;

verus! {

/// The set of processor names the registry knows.
pub struct ProcessorRegistry {
    names: Vec<String>,
}

impl ProcessorRegistry {
    /// The name is registered.
    pub closed spec fn registered(self, name: Seq<char>) -> bool {
        exists|i: int| 0 <= i < self.names@.len() && self.names@[i]@ == name
    }

    /// Registered names are pairwise distinct.
    pub closed spec fn wf(self) -> bool {
        forall|i: int, j: int|
            0 <= i < j < self.names@.len() ==> (#[trigger] self.names@[i])@ != (
            #[trigger] self.names@[j])@
    }

    pub fn new() -> (r: Self)
        ensures
            r.wf(),
            forall|name: Seq<char>| !r.registered(name),
    {
        ProcessorRegistry { names: Vec::new() }
    }

    /// Whether a processor of this name is registered.
    pub fn contains_processor(&self, name: &String) -> (r: bool)
        ensures
            r == self.registered(name@),
    {
        let n = self.names.len();
        let mut i: usize = 0;
        while i < n
            invariant
                i <= n,
                n == self.names@.len(),
                forall|k: int| 0 <= k < i ==> (#[trigger] self.names@[k])@ != name@,
            decreases n - i,
        {
            if self.names[i] == *name {
                return true;
            }
            i = i + 1;
        }
        false
    }

    /// Register a processor name. Registration is additive; a name already
    /// present is left as it is, so registering twice changes nothing.
    pub fn register_processor(&mut self, name: String)
        requires
            old(self).wf(),
        ensures
            final(self).wf(),
            final(self).registered(name@),
            forall|other: Seq<char>|
                #[trigger] final(self).registered(other) == (old(self).registered(other) || other
                    == name@),
    {
        let ghost oldn = self.names@;
        if !self.contains_processor(&name) {
            self.names.push(name);
            proof {
                let n = self.names@.len() - 1;
                assert(self.names@[n]@ == name@);
                assert forall|other: Seq<char>| #[trigger]
                    self.registered(other) == (old(self).registered(other) || other
                        == name@) by {
                    if self.registered(other) {
                        let i = choose|i: int|
                            0 <= i < self.names@.len() && self.names@[i]@ == other;
                        if i < n {
                            assert(oldn[i]@ == other);
                        }
                    }
                    if old(self).registered(other) {
                        let i = choose|i: int| 0 <= i < oldn.len() && oldn[i]@ == other;
                        assert(self.names@[i]@ == other);
                    }
                }
            }
        }
    }

    /// The routing decision for a job: a missing-processor return when its
    /// processor name is unknown, nothing when a handler exists and the host
    /// should run it.
    pub fn route(&self, job: &JobInfo) -> (r: Option<ReturnJobInfo>)
        ensures
            match r {
                Some(ret) => !self.registered(job@.processor) && ret.id == job@.id && ret.result
                    == JobResult::MissingProcessor,
                None => self.registered(job@.processor),
            },
    {
        let name = job.processor().to_owned();
        if self.contains_processor(&name) {
            None
        } else {
            Some(ReturnJobInfo::missing_processor(job.id()))
        }
    }
}

/// The return record for a finished attempt: a success passes the job, any
/// processing error (including an argument decode failure) fails it.
pub fn process_outcome(id: u64, outcome: &Result<(), JobError>) -> (r: ReturnJobInfo)
    ensures
        r.id == id,
        r.result == (match outcome {
            Ok(_) => JobResult::Success,
            Err(_) => JobResult::Failure,
        }),
{
    match outcome {
        Ok(_) => ReturnJobInfo::pass(id),
        Err(_) => ReturnJobInfo::fail(id),
    }
}

} // verus!

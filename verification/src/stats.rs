//! Aggregate statistics.
//!
//! A [`JobStat`] is a rolling tally with hour, day, month and all-time
//! windows; the windowed counters reset when the wall clock crosses the
//! corresponding calendar boundary. [`Stats`] combines the two live gauges
//! (pending, running) with tallies of dead and completed jobs. The gauges
//! use saturating arithmetic: a decrement at zero is a no-op, never an
//! underflow.

use vstd::prelude::*;

use crate::clock::civil_fields;
use crate::clock::civil_of;
use crate::clock::current_timestamp;
use crate::clock::valid_ts;

verus! {

/// `x + 1`, sticking at the top of the range rather than wrap.
pub open spec fn sat_inc(x: usize) -> usize {
    if x < usize::MAX {
        (x + 1) as usize
    } else {
        usize::MAX
    }
}

/// `x - 1`, sticking at zero rather than underflow.
pub open spec fn sat_dec(x: usize) -> usize {
    if x > 0 {
        (x - 1) as usize
    } else {
        0
    }
}

/// A rolling tally of events with hour, day, month and all-time windows.
#[derive(Clone, Debug)]
pub struct JobStat {
    this_hour: usize,
    today: usize,
    this_month: usize,
    all_time: usize,
    updated_at: i64,
}

/// The mathematical content of a [`JobStat`].
pub ghost struct JobStatView {
    pub this_hour: usize,
    pub today: usize,
    pub this_month: usize,
    pub all_time: usize,
    pub updated_at: i64,
}

impl View for JobStat {
    type V = JobStatView;

    closed spec fn view(&self) -> JobStatView {
        JobStatView {
            this_hour: self.this_hour,
            today: self.today,
            this_month: self.this_month,
            all_time: self.all_time,
            updated_at: self.updated_at,
        }
    }
}

impl JobStatView {
    /// The last update time lies in calendar range, so the next rollover
    /// comparison is defined.
    pub open spec fn wf(self) -> bool {
        valid_ts(self.updated_at)
    }

    /// All windowed counters are zero.
    pub open spec fn is_zero(self) -> bool {
        self.this_hour == 0 && self.today == 0 && self.this_month == 0 && self.all_time == 0
    }

    /// The tally after the clock moved to `now`: each windowed counter is
    /// reset when `now` lies in a different calendar window than the last
    /// update did. The year takes part in every comparison, so a tally
    /// untouched for a whole year still rolls over.
    pub open spec fn ticked(self, now: i64) -> JobStatView {
        let then_fields = civil_of(self.updated_at);
        let now_fields = civil_of(now);
        if now_fields.0 != then_fields.0 || now_fields.1 != then_fields.1 {
            JobStatView { this_hour: 0, today: 0, this_month: 0, updated_at: now, ..self }
        } else if now_fields.2 != then_fields.2 {
            JobStatView { this_hour: 0, today: 0, updated_at: now, ..self }
        } else if now_fields.3 != then_fields.3 {
            JobStatView { this_hour: 0, updated_at: now, ..self }
        } else {
            JobStatView { updated_at: now, ..self }
        }
    }

    /// The tally after one more event at `now`: windows roll over first,
    /// then every counter grows by one.
    pub open spec fn incremented(self, now: i64) -> JobStatView {
        let t = self.ticked(now);
        JobStatView {
            this_hour: sat_inc(t.this_hour),
            today: sat_inc(t.today),
            this_month: sat_inc(t.this_month),
            all_time: sat_inc(t.all_time),
            ..t
        }
    }
}

impl JobStat {
    /// The last update time lies in calendar range, so the next rollover
    /// comparison is defined.
    pub open spec fn wf(self) -> bool {
        self@.wf()
    }

    pub fn new() -> (r: Self)
        ensures
            r@.is_zero(),
            r.wf(),
    {
        let now = current_timestamp();
        JobStat { this_hour: 0, today: 0, this_month: 0, all_time: 0, updated_at: now }
    }

    /// Count one event at `now`, rolling windows over first.
    pub fn increment(&mut self, now: i64)
        requires
            valid_ts(now),
            old(self).wf(),
        ensures
            final(self)@ == old(self)@.incremented(now),
            final(self).wf(),
    {
        self.tick(now);

        self.this_hour = if self.this_hour < usize::MAX {
            self.this_hour + 1
        } else {
            usize::MAX
        };
        self.today = if self.today < usize::MAX {
            self.today + 1
        } else {
            usize::MAX
        };
        self.this_month = if self.this_month < usize::MAX {
            self.this_month + 1
        } else {
            usize::MAX
        };
        self.all_time = if self.all_time < usize::MAX {
            self.all_time + 1
        } else {
            usize::MAX
        };
    }

    fn tick(&mut self, now: i64)
        requires
            valid_ts(now),
            old(self).wf(),
        ensures
            final(self)@ == old(self)@.ticked(now),
            final(self).wf(),
    {
        let then_fields = civil_fields(self.updated_at);
        let now_fields = civil_fields(now);

        if now_fields.0 != then_fields.0 || now_fields.1 != then_fields.1 {
            self.next_month();
        } else if now_fields.2 != then_fields.2 {
            self.next_day();
        } else if now_fields.3 != then_fields.3 {
            self.next_hour();
        }

        self.updated_at = now;
    }

    fn next_hour(&mut self)
        ensures
            final(self)@ == (JobStatView { this_hour: 0, ..old(self)@ }),
    {
        self.this_hour = 0;
    }

    fn next_day(&mut self)
        ensures
            final(self)@ == (JobStatView { this_hour: 0, today: 0, ..old(self)@ }),
    {
        self.next_hour();
        self.today = 0;
    }

    fn next_month(&mut self)
        ensures
            final(self)@ == (JobStatView { this_hour: 0, today: 0, this_month: 0, ..old(self)@ }),
    {
        self.next_day();
        self.this_month = 0;
    }

    pub fn this_hour(&self) -> (r: usize)
        ensures
            r == self@.this_hour,
    {
        self.this_hour
    }

    pub fn today(&self) -> (r: usize)
        ensures
            r == self@.today,
    {
        self.today
    }

    pub fn this_month(&self) -> (r: usize)
        ensures
            r == self@.this_month,
    {
        self.this_month
    }

    pub fn all_time(&self) -> (r: usize)
        ensures
            r == self@.all_time,
    {
        self.all_time
    }

    pub fn updated_at(&self) -> (r: i64)
        ensures
            r == self@.updated_at,
    {
        self.updated_at
    }

    /// Rebuild a tally from its plain parts, as a persistence backend does
    /// when it decodes stored statistics.
    pub fn from_parts(
        this_hour: usize,
        today: usize,
        this_month: usize,
        all_time: usize,
        updated_at: i64,
    ) -> (r: JobStat)
        requires
            valid_ts(updated_at),
        ensures
            r@ == (JobStatView { this_hour, today, this_month, all_time, updated_at }),
            r.wf(),
    {
        JobStat { this_hour, today, this_month, all_time, updated_at }
    }

    /// An exact copy of this tally.
    pub fn duplicate(&self) -> (r: JobStat)
        ensures
            r == *self,
    {
        JobStat {
            this_hour: self.this_hour,
            today: self.today,
            this_month: self.this_month,
            all_time: self.all_time,
            updated_at: self.updated_at,
        }
    }
}

impl Default for JobStat {
    fn default() -> (r: Self)
        ensures
            r@.is_zero(),
            r.wf(),
    {
        JobStat::new()
    }
}

/// The statistics record a storage backend maintains: two live gauges and
/// two tallies of finished jobs.
#[derive(Clone, Debug)]
pub struct Stats {
    pub pending: usize,
    pub running: usize,
    pub dead: JobStat,
    pub complete: JobStat,
}

/// The mathematical content of a [`Stats`].
pub ghost struct StatsView {
    pub pending: usize,
    pub running: usize,
    pub dead: JobStatView,
    pub complete: JobStatView,
}

impl View for Stats {
    type V = StatsView;

    closed spec fn view(&self) -> StatsView {
        StatsView {
            pending: self.pending,
            running: self.running,
            dead: self.dead@,
            complete: self.complete@,
        }
    }
}

impl StatsView {
    /// Both tallies carry a last-update time in calendar range.
    pub open spec fn wf(self) -> bool {
        self.dead.wf() && self.complete.wf()
    }

    /// One more job is pending.
    pub open spec fn job_queued(self) -> StatsView {
        StatsView { pending: sat_inc(self.pending), ..self }
    }

    /// A pending job started running.
    pub open spec fn job_started(self) -> StatsView {
        StatsView { pending: sat_dec(self.pending), running: sat_inc(self.running), ..self }
    }

    /// A running job went back to pending for another attempt.
    pub open spec fn job_retried(self) -> StatsView {
        StatsView { pending: sat_inc(self.pending), running: sat_dec(self.running), ..self }
    }

    /// A running job failed for good at `now`.
    pub open spec fn job_dead(self, now: i64) -> StatsView {
        StatsView { running: sat_dec(self.running), dead: self.dead.incremented(now), ..self }
    }

    /// A running job completed at `now`.
    pub open spec fn job_completed(self, now: i64) -> StatsView {
        StatsView {
            running: sat_dec(self.running),
            complete: self.complete.incremented(now),
            ..self
        }
    }
}

impl Stats {
    /// Both tallies carry a last-update time in calendar range.
    pub open spec fn wf(self) -> bool {
        self@.wf()
    }

    pub fn new() -> (r: Self)
        ensures
            r@.pending == 0,
            r@.running == 0,
            r@.dead.is_zero(),
            r@.complete.is_zero(),
            r.wf(),
    {
        Stats { pending: 0, running: 0, dead: JobStat::new(), complete: JobStat::new() }
    }

    /// Record a newly queued job.
    pub fn new_job(&mut self)
        ensures
            final(self)@ == old(self)@.job_queued(),
            old(self).wf() ==> final(self).wf(),
    {
        self.pending = if self.pending < usize::MAX {
            self.pending + 1
        } else {
            usize::MAX
        };
    }

    /// Record a job moving from pending to running.
    pub fn run_job(&mut self)
        ensures
            final(self)@ == old(self)@.job_started(),
            old(self).wf() ==> final(self).wf(),
    {
        if self.pending > 0 {
            self.pending = self.pending - 1;
        }
        self.running = if self.running < usize::MAX {
            self.running + 1
        } else {
            usize::MAX
        };
    }

    /// Record a job moving from running back to pending.
    pub fn retry_job(&mut self)
        ensures
            final(self)@ == old(self)@.job_retried(),
            old(self).wf() ==> final(self).wf(),
    {
        self.pending = if self.pending < usize::MAX {
            self.pending + 1
        } else {
            usize::MAX
        };
        if self.running > 0 {
            self.running = self.running - 1;
        }
    }

    /// Record a job failing for good at `now`.
    pub fn fail_job(&mut self, now: i64)
        requires
            valid_ts(now),
            old(self).wf(),
        ensures
            final(self)@ == old(self)@.job_dead(now),
            final(self).wf(),
    {
        if self.running > 0 {
            self.running = self.running - 1;
        }
        self.dead.increment(now);
    }

    /// Record a job completing at `now`.
    pub fn complete_job(&mut self, now: i64)
        requires
            valid_ts(now),
            old(self).wf(),
        ensures
            final(self)@ == old(self)@.job_completed(now),
            final(self).wf(),
    {
        if self.running > 0 {
            self.running = self.running - 1;
        }
        self.complete.increment(now);
    }

    /// An exact copy of this record.
    pub fn duplicate(&self) -> (r: Stats)
        ensures
            r == *self,
    {
        Stats {
            pending: self.pending,
            running: self.running,
            dead: self.dead.duplicate(),
            complete: self.complete.duplicate(),
        }
    }
}

impl Default for Stats {
    fn default() -> (r: Self)
        ensures
            r@.pending == 0,
            r@.running == 0,
            r@.dead.is_zero(),
            r@.complete.is_zero(),
            r.wf(),
    {
        Stats::new()
    }
}

} // verus!

use background_jobs::stats::{JobStat, Stats};

// 1971-01-01 00:00:00 UTC
const BASE: i64 = 365 * 86400;

#[test]
fn job_stat_starts_at_zero() {
    let stat = JobStat::new();
    assert_eq!(stat.this_hour(), 0);
    assert_eq!(stat.today(), 0);
    assert_eq!(stat.this_month(), 0);
    assert_eq!(stat.all_time(), 0);
}

#[test]
fn job_stat_rolls_over_at_hour_boundary() {
    let mut stat = JobStat::new();
    stat.increment(BASE);
    assert_eq!(stat.this_hour(), 1);
    assert_eq!(stat.today(), 1);
    assert_eq!(stat.this_month(), 1);
    assert_eq!(stat.all_time(), 1);

    // same hour: everything accumulates
    stat.increment(BASE + 3599);
    assert_eq!(stat.this_hour(), 2);
    assert_eq!(stat.today(), 2);

    // next hour, same day: the hour window resets
    stat.increment(BASE + 3600);
    assert_eq!(stat.this_hour(), 1);
    assert_eq!(stat.today(), 3);
    assert_eq!(stat.this_month(), 3);
    assert_eq!(stat.all_time(), 3);
}

#[test]
fn job_stat_rolls_over_at_day_and_month_boundaries() {
    let mut stat = JobStat::new();
    stat.increment(BASE);

    // next day: hour and day windows reset
    stat.increment(BASE + 86400);
    assert_eq!(stat.this_hour(), 1);
    assert_eq!(stat.today(), 1);
    assert_eq!(stat.this_month(), 2);
    assert_eq!(stat.all_time(), 2);

    // next month (February 1st): every window but the all-time tally resets
    stat.increment(BASE + 31 * 86400);
    assert_eq!(stat.this_hour(), 1);
    assert_eq!(stat.today(), 1);
    assert_eq!(stat.this_month(), 1);
    assert_eq!(stat.all_time(), 3);
}

#[test]
fn gauges_never_underflow() {
    // decrements at zero are no-ops, so the gauges stay non-negative
    let mut stats = Stats::new();
    assert_eq!(stats.pending, 0);
    assert_eq!(stats.running, 0);

    // a run with no pending job: pending stays at zero
    stats.run_job();
    assert_eq!(stats.pending, 0);
    assert_eq!(stats.running, 1);

    // two completions after one run: running bottoms out at zero
    stats.complete_job(1000);
    stats.complete_job(1001);
    assert_eq!(stats.running, 0);
    assert_eq!(stats.complete.all_time(), 2);

    // a retry with nothing running: running stays at zero
    stats.retry_job();
    assert_eq!(stats.pending, 1);
    assert_eq!(stats.running, 0);

    // a death with nothing running: running stays at zero
    stats.fail_job(1002);
    assert_eq!(stats.running, 0);
    assert_eq!(stats.dead.all_time(), 1);
}

#[test]
fn stats_transitions_move_jobs_between_gauges() {
    let mut stats = Stats::new();
    stats.new_job();
    stats.new_job();
    assert_eq!(stats.pending, 2);

    stats.run_job();
    assert_eq!(stats.pending, 1);
    assert_eq!(stats.running, 1);

    stats.retry_job();
    assert_eq!(stats.pending, 2);
    assert_eq!(stats.running, 0);
}

#[test]
fn job_stat_rolls_over_at_year_boundary() {
    // twelve months later the month number is the same but the year is
    // not: every window except the all-time tally resets
    let mut stat = JobStat::new();
    stat.increment(BASE);
    stat.increment(BASE + 365 * 86400);
    assert_eq!(stat.this_hour(), 1);
    assert_eq!(stat.today(), 1);
    assert_eq!(stat.this_month(), 1);
    assert_eq!(stat.all_time(), 2);
}

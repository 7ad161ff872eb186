use background_jobs::{Backoff, JobError, JobResult, JobStatus, MaxRetries, ShouldStop};
use background_jobs::job_info::ReturnJobInfo;
use background_jobs::registry::process_outcome;

#[test]
fn job_result_constructors_and_predicates() {
    assert_eq!(JobResult::success(), JobResult::Success);
    assert_eq!(JobResult::failure(), JobResult::Failure);
    assert_eq!(JobResult::missing_processor(), JobResult::MissingProcessor);

    assert!(JobResult::Success.is_success());
    assert!(!JobResult::Success.is_failure());
    assert!(!JobResult::Success.is_missing_processor());
    assert!(JobResult::Failure.is_failure());
    assert!(JobResult::MissingProcessor.is_missing_processor());
}

#[test]
fn job_status_constructors_and_predicates() {
    assert_eq!(JobStatus::pending(), JobStatus::Pending);
    assert_eq!(JobStatus::running(), JobStatus::Running);
    assert!(JobStatus::Pending.is_pending());
    assert!(!JobStatus::Pending.is_running());
    assert!(JobStatus::Running.is_running());
    assert!(!JobStatus::Running.is_pending());
}

#[test]
fn max_retries_boundary() {
    // Count(n) allows another attempt while the counter is at most n.
    let policy = MaxRetries::Count(2);
    assert_eq!(policy.compare(0), ShouldStop::Requeue);
    assert_eq!(policy.compare(1), ShouldStop::Requeue);
    assert_eq!(policy.compare(2), ShouldStop::Requeue);
    assert_eq!(policy.compare(3), ShouldStop::LimitReached);

    // Count(0) means one attempt in all: the first failure is final.
    let strict = MaxRetries::Count(0);
    assert_eq!(strict.compare(0), ShouldStop::Requeue);
    assert_eq!(strict.compare(1), ShouldStop::LimitReached);

    let forever = MaxRetries::Infinite;
    assert_eq!(forever.compare(u32::MAX), ShouldStop::Requeue);
}

#[test]
fn should_stop_requeue_flag() {
    assert!(ShouldStop::Requeue.should_requeue());
    assert!(!ShouldStop::LimitReached.should_requeue());
}

#[test]
fn return_job_info_constructors() {
    let pass = ReturnJobInfo::pass(7);
    assert_eq!(pass.id, 7);
    assert_eq!(pass.result, JobResult::Success);

    let fail = ReturnJobInfo::fail(8);
    assert_eq!(fail.id, 8);
    assert_eq!(fail.result, JobResult::Failure);

    let missing = ReturnJobInfo::missing_processor(9);
    assert_eq!(missing.id, 9);
    assert_eq!(missing.result, JobResult::MissingProcessor);
}

#[test]
fn process_outcome_maps_results() {
    let ok = process_outcome(3, &Ok(()));
    assert_eq!(ok.id, 3);
    assert_eq!(ok.result, JobResult::Success);

    let processing = process_outcome(4, &Err(JobError::Processing));
    assert_eq!(processing.id, 4);
    assert_eq!(processing.result, JobResult::Failure);

    // an argument decode failure counts as a plain failure, not as a
    // missing processor
    let json = process_outcome(5, &Err(JobError::Json));
    assert_eq!(json.id, 5);
    assert_eq!(json.result, JobResult::Failure);
}

#[test]
fn backoff_values_compare() {
    assert_eq!(Backoff::Linear(5), Backoff::Linear(5));
    assert_ne!(Backoff::Linear(5), Backoff::Exponential(5));
}

use background_jobs::{Backoff, JobStatus, MaxRetries};
use background_jobs::job_info::{NewJobInfo, ReturnJobInfo};
use background_jobs::storage::Storage;

fn plain_job(processor: &str, queue: &str, retries: MaxRetries, backoff: Backoff) -> NewJobInfo {
    NewJobInfo::new(
        processor.to_owned(),
        queue.to_owned(),
        serde_json::Value::Null,
        retries,
        backoff,
    )
}

#[test]
fn new_job_then_fetch_round_trip() {
    let mut storage = Storage::new();
    let mut args = serde_json::Map::new();
    args.insert("a".to_owned(), serde_json::Value::from(1));
    args.insert("b".to_owned(), serde_json::Value::from(2));
    let args = serde_json::Value::Object(args);

    let job = NewJobInfo::new(
        "proc".to_owned(),
        "default".to_owned(),
        args.clone(),
        MaxRetries::Count(1),
        Backoff::Exponential(2),
    );
    let id = storage.new_job(job, 100);

    let stored = storage.fetch_job(id).expect("job must be stored");
    assert_eq!(stored.id(), id);
    assert_eq!(stored.retry_count(), 0);
    assert!(stored.is_pending());
    assert_eq!(stored.processor(), "proc");
    assert_eq!(stored.queue(), "default");
    assert_eq!(stored.args(), args);
    assert!(storage.is_queued(id));
    assert_eq!(storage.get_stats().pending, 1);
}

#[test]
fn request_job_hands_out_ready_job_once() {
    let mut storage = Storage::new();
    let id = storage.new_job(
        plain_job("p", "q", MaxRetries::Infinite, Backoff::Linear(1)),
        100,
    );

    let handed = storage.request_job("q", 1000, 101).expect("a ready job waits");
    assert_eq!(handed.id(), id);
    assert!(!handed.is_pending());
    assert!(!storage.is_queued(id));
    assert_eq!(storage.runner_of(id), Some(1000));

    // the job is gone from the queue, so a second worker gets nothing
    assert!(storage.request_job("q", 1001, 101).is_none());

    let stats = storage.get_stats();
    assert_eq!(stats.pending, 0);
    assert_eq!(stats.running, 1);
}

#[test]
fn scheduled_job_not_dispatched_before_its_time() {
    let mut storage = Storage::new();
    let mut job = plain_job("p", "q", MaxRetries::Infinite, Backoff::Linear(1));
    job.schedule(103);
    assert!(!job.is_ready());
    storage.new_job(job, 100);

    // not ready while the wall clock has not passed the scheduled time
    assert!(storage.request_job("q", 1000, 101).is_none());
    assert!(storage.request_job("q", 1000, 103).is_none());
    // strictly after the scheduled time the job is handed out
    assert!(storage.request_job("q", 1000, 104).is_some());
}

#[test]
fn request_job_respects_queue_names() {
    let mut storage = Storage::new();
    storage.new_job(plain_job("p", "mail", MaxRetries::Infinite, Backoff::Linear(1)), 100);
    assert!(storage.request_job("web", 1000, 101).is_none());
    assert!(storage.request_job("mail", 1000, 101).is_some());
}

#[test]
fn failure_requeues_with_exponential_backoff() {
    let mut storage = Storage::new();
    let id = storage.new_job(
        plain_job("p", "q", MaxRetries::Infinite, Backoff::Exponential(2)),
        100,
    );

    storage.request_job("q", 1000, 101).expect("ready");
    storage.return_job(ReturnJobInfo::fail(id), 5000);

    let job = storage.fetch_job(id).expect("requeued");
    assert_eq!(job.retry_count(), 1);
    assert!(job.is_pending());
    // the delay is the base raised to the retry count: 2^1 seconds
    assert_eq!(job.next_queue_time(), Some(5002));
    assert!(storage.is_queued(id));
    assert_eq!(storage.runner_of(id), None);

    // not ready at the scheduled second, ready strictly after it
    assert!(storage.request_job("q", 1000, 5002).is_none());
    storage.request_job("q", 1000, 5003).expect("ready again");
    storage.return_job(ReturnJobInfo::fail(id), 6000);
    let job = storage.fetch_job(id).expect("requeued again");
    assert_eq!(job.retry_count(), 2);
    // 2^2 seconds now
    assert_eq!(job.next_queue_time(), Some(6004));
}

#[test]
fn linear_backoff_delay_is_constant() {
    let mut storage = Storage::new();
    let id = storage.new_job(
        plain_job("p", "q", MaxRetries::Infinite, Backoff::Linear(30)),
        100,
    );
    storage.request_job("q", 1000, 101).expect("ready");
    storage.return_job(ReturnJobInfo::fail(id), 200);
    let job = storage.fetch_job(id).expect("requeued");
    assert_eq!(job.next_queue_time(), Some(230));
}

#[test]
fn retries_exhaust_after_allowed_attempts() {
    // MaxRetries::Count(2): the first two failures requeue, the third
    // deletes the job and counts it dead.
    let mut storage = Storage::new();
    let id = storage.new_job(
        plain_job("p", "q", MaxRetries::Count(2), Backoff::Linear(0)),
        100,
    );
    let mut now = 101;
    for attempt in 1..=2u32 {
        storage.request_job("q", 1000, now).expect("ready");
        storage.return_job(ReturnJobInfo::fail(id), now);
        let job = storage.fetch_job(id).expect("still stored");
        assert_eq!(job.retry_count(), attempt);
        now += 1;
    }
    storage.request_job("q", 1000, now).expect("ready");
    storage.return_job(ReturnJobInfo::fail(id), now);
    assert!(storage.fetch_job(id).is_none());
    let stats = storage.get_stats();
    assert_eq!(stats.dead.all_time(), 1);
    assert_eq!(stats.running, 0);
    assert_eq!(stats.pending, 0);
}

#[test]
fn single_attempt_when_count_is_zero() {
    let mut storage = Storage::new();
    let id = storage.new_job(
        plain_job("p", "q", MaxRetries::Count(0), Backoff::Linear(0)),
        100,
    );
    storage.request_job("q", 1000, 101).expect("ready");
    storage.return_job(ReturnJobInfo::fail(id), 102);
    assert!(storage.fetch_job(id).is_none());
    assert_eq!(storage.get_stats().dead.all_time(), 1);
}

#[test]
fn success_deletes_job_and_counts_completion() {
    let mut storage = Storage::new();
    let id = storage.new_job(
        plain_job("p", "q", MaxRetries::Count(1), Backoff::Exponential(2)),
        100,
    );
    storage.request_job("q", 1000, 101).expect("ready");
    storage.return_job(ReturnJobInfo::pass(id), 102);

    assert!(storage.fetch_job(id).is_none());
    assert!(!storage.is_queued(id));
    assert_eq!(storage.runner_of(id), None);
    let stats = storage.get_stats();
    assert_eq!(stats.complete.all_time(), 1);
    assert_eq!(stats.running, 0);
    assert_eq!(stats.pending, 0);
}

#[test]
fn returning_success_twice_is_a_no_op() {
    let mut storage = Storage::new();
    let id = storage.new_job(
        plain_job("p", "q", MaxRetries::Count(1), Backoff::Linear(1)),
        100,
    );
    storage.request_job("q", 1000, 101).expect("ready");
    storage.return_job(ReturnJobInfo::pass(id), 102);
    let stats = storage.get_stats();

    storage.return_job(ReturnJobInfo::pass(id), 103);
    let again = storage.get_stats();
    assert!(storage.fetch_job(id).is_none());
    assert_eq!(again.complete.all_time(), stats.complete.all_time());
    assert_eq!(again.pending, stats.pending);
    assert_eq!(again.running, stats.running);
}

#[test]
fn requeueing_a_queued_id_is_idempotent_on_membership() {
    let mut storage = Storage::new();
    let id = storage.new_job(
        plain_job("p", "q", MaxRetries::Infinite, Backoff::Linear(1)),
        100,
    );
    assert!(storage.is_queued(id));
    storage.queue_job("q", id);
    assert!(storage.is_queued(id));
    // still exactly one queue entry: dequeueing once empties the queue
    storage.request_job("q", 1000, 101).expect("ready");
    assert!(!storage.is_queued(id));
    assert!(storage.request_job("q", 1001, 102).is_none());
}

#[test]
fn missing_processor_keeps_job_pending_with_retry_count() {
    let mut storage = Storage::new();
    let id = storage.new_job(
        plain_job("ghost", "q", MaxRetries::Count(5), Backoff::Linear(1)),
        100,
    );
    storage.request_job("q", 1000, 101).expect("ready");
    storage.return_job(ReturnJobInfo::missing_processor(id), 102);

    let job = storage.fetch_job(id).expect("still stored");
    assert!(job.is_pending());
    assert_eq!(job.retry_count(), 0);
    assert!(storage.is_queued(id));
    assert_eq!(storage.runner_of(id), None);
    // re-queued for a future registration: it can be requested again
    assert!(storage.request_job("q", 1000, 103).is_some());
}

#[test]
fn runner_bindings_are_unique_per_job_and_runner() {
    let mut storage = Storage::new();
    let a = storage.new_job(plain_job("p", "q", MaxRetries::Infinite, Backoff::Linear(1)), 100);
    let b = storage.new_job(plain_job("p", "q", MaxRetries::Infinite, Backoff::Linear(1)), 100);

    let first = storage.request_job("q", 1000, 101).expect("ready");
    let second = storage.request_job("q", 1001, 101).expect("ready");
    assert_ne!(first.id(), second.id());
    assert_ne!(storage.runner_of(a), storage.runner_of(b));
    assert_eq!(storage.runner_of(first.id()), Some(1000));
    assert_eq!(storage.runner_of(second.id()), Some(1001));
}

#[test]
fn generated_ids_are_distinct() {
    let mut storage = Storage::new();
    let a = storage.generate_id();
    let b = storage.generate_id();
    let c = storage.generate_id();
    assert_ne!(a, b);
    assert_ne!(b, c);
    assert_ne!(a, c);
}

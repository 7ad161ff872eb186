use std::collections::HashSet;

use background_jobs::{Backoff, MaxRetries};
use background_jobs::job_info::{NewJobInfo, ReturnJobInfo};
use background_jobs::registry::ProcessorRegistry;
use background_jobs::server::{
    CheckDb, GetStats, NewJob, RequestJob, ReturningJob, Server, ServerConfig, WorkerHandle,
};
use background_jobs::storage::Storage;
use background_jobs::worker::{WORKER_ID_OFFSET, WorkerConfig};

fn plain_job(processor: &str, queue: &str) -> NewJobInfo {
    NewJobInfo::new(
        processor.to_owned(),
        queue.to_owned(),
        serde_json::Value::Null,
        MaxRetries::Count(1),
        Backoff::Exponential(2),
    )
}

fn worker(id: u64, queue: &str) -> WorkerHandle {
    WorkerHandle { id, queue: queue.to_owned() }
}

#[test]
fn parked_worker_receives_new_job_at_once() {
    let mut server = Server::new(Storage::new());
    assert!(!server.is_parked(1000));
    assert!(server.worker_is_idle(1000));

    // no job yet: the worker parks
    assert!(server.handle_request_job(RequestJob(worker(1000, "default")), 100).is_none());
    assert!(server.is_parked(1000));

    let (id, delivery) = server.handle_new_job(NewJob(plain_job("p", "default")), 101);
    let delivery = delivery.expect("a parked worker gets the job at once");
    assert_eq!(delivery.worker_id, 1000);
    assert_eq!(delivery.job.id(), id);
    // the delivered worker left the cache and is bound to its job
    assert!(!server.is_parked(1000));
    assert!(!server.worker_is_idle(1000));

    // run to completion
    server.handle_returning_job(ReturningJob(ReturnJobInfo::pass(id)), 102);
    assert!(server.worker_is_idle(1000));
    let stats = server.handle_get_stats(GetStats);
    assert_eq!(stats.complete.all_time(), 1);
    assert_eq!(stats.pending, 0);
    assert_eq!(stats.running, 0);
}

#[test]
fn worker_receives_waiting_job_on_request() {
    let mut server = Server::new(Storage::new());
    let (id, delivery) = server.handle_new_job(NewJob(plain_job("p", "default")), 100);
    assert!(delivery.is_none(), "no worker is parked yet");

    let job = server
        .handle_request_job(RequestJob(worker(1000, "default")), 101)
        .expect("a ready job waits");
    assert_eq!(job.id(), id);
}

#[test]
fn scheduled_job_waits_for_the_pinger() {
    let mut server = Server::new(Storage::new());
    assert!(server.handle_request_job(RequestJob(worker(1000, "default")), 100).is_none());

    let mut job = plain_job("p", "default");
    job.schedule(105);
    let (id, delivery) = server.handle_new_job(NewJob(job), 100);
    assert!(delivery.is_none(), "a scheduled job is not handed off at once");

    // periodic re-scans find nothing until the scheduled time has passed
    assert!(server.handle_check_db(CheckDb, 103).is_empty());
    assert!(server.handle_check_db(CheckDb, 105).is_empty());
    let deliveries = server.handle_check_db(CheckDb, 106);
    assert_eq!(deliveries.len(), 1);
    assert_eq!(deliveries[0].worker_id, 1000);
    assert_eq!(deliveries[0].job.id(), id);
}

#[test]
fn unknown_processor_round_trip_until_registered() {
    let mut server = Server::new(Storage::new());
    let mut registry = ProcessorRegistry::new();

    let (id, _) = server.handle_new_job(NewJob(plain_job("mailer", "default")), 100);
    let job = server
        .handle_request_job(RequestJob(worker(1000, "default")), 101)
        .expect("ready");

    // no handler: the worker answers with a missing-processor outcome and
    // the job goes back to pending
    let ret = registry.route(&job).expect("nothing is registered");
    server.handle_returning_job(ReturningJob(ret), 102);
    assert_eq!(server.handle_get_stats(GetStats).pending, 1);

    // once the processor is registered, the job is served again
    registry.register_processor("mailer".to_owned());
    let job = server
        .handle_request_job(RequestJob(worker(1000, "default")), 103)
        .expect("the job is pending again");
    assert_eq!(job.id(), id);
    assert!(registry.route(&job).is_none(), "a handler exists now");
    server.handle_returning_job(ReturningJob(ReturnJobInfo::pass(id)), 104);
    assert_eq!(server.handle_get_stats(GetStats).complete.all_time(), 1);
}

#[test]
fn registry_membership_is_idempotent() {
    let mut registry = ProcessorRegistry::new();
    assert!(!registry.contains_processor(&"p".to_owned()));
    registry.register_processor("p".to_owned());
    registry.register_processor("p".to_owned());
    assert!(registry.contains_processor(&"p".to_owned()));
    assert!(!registry.contains_processor(&"q".to_owned()));
}

#[test]
fn two_queues_drain_without_duplicate_handoffs() {
    let mut server = Server::new(Storage::new());
    let jobs_per_queue: u64 = 20;
    for _ in 0..jobs_per_queue {
        server.handle_new_job(NewJob(plain_job("p", "a")), 100);
        server.handle_new_job(NewJob(plain_job("p", "b")), 100);
    }

    let mut seen: HashSet<u64> = HashSet::new();
    let mut now = 101;
    for (id, queue) in [(1000u64, "a"), (1001u64, "b")] {
        loop {
            match server.handle_request_job(RequestJob(worker(id, queue)), now) {
                Some(job) => {
                    assert_eq!(job.queue(), queue);
                    assert!(seen.insert(job.id()), "a job must be executed once");
                    server.handle_returning_job(ReturningJob(ReturnJobInfo::pass(job.id())), now);
                    now += 1;
                }
                None => break,
            }
        }
    }

    assert_eq!(seen.len() as u64, 2 * jobs_per_queue);
    let stats = server.handle_get_stats(GetStats);
    assert_eq!(stats.complete.all_time() as u64, 2 * jobs_per_queue);
    assert_eq!(stats.pending, 0);
    assert_eq!(stats.running, 0);
    // both workers ended up parked, and nothing is left to hand out
    assert!(server.handle_check_db(CheckDb, now).is_empty());
}

#[test]
fn check_db_wakes_several_workers_with_distinct_jobs() {
    let mut server = Server::new(Storage::new());
    assert!(server.handle_request_job(RequestJob(worker(1000, "a")), 100).is_none());
    assert!(server.handle_request_job(RequestJob(worker(1001, "a")), 100).is_none());

    for _ in 0..2 {
        let mut job = plain_job("p", "a");
        job.schedule(105);
        server.handle_new_job(NewJob(job), 100);
    }
    assert!(server.handle_check_db(CheckDb, 104).is_empty());

    let deliveries = server.handle_check_db(CheckDb, 106);
    assert_eq!(deliveries.len(), 2);
    // the scan serves the queue's FIFO front first; the earlier empty scan
    // popped the front worker and re-parked it at the tail, so the FIFO
    // was rotated once
    assert_eq!(deliveries[0].worker_id, 1001);
    assert_eq!(deliveries[1].worker_id, 1000);
    assert_ne!(deliveries[0].job.id(), deliveries[1].job.id());
    // exactly the delivered workers left the cache
    assert!(!server.is_parked(deliveries[0].worker_id));
    assert!(!server.is_parked(deliveries[1].worker_id));
}

#[test]
fn server_config_carries_thread_count() {
    let config = ServerConfig::new(Storage::new());
    assert!(config.threads() >= 1);
    let config = config.thread_count(3);
    assert_eq!(config.threads(), 3);
    let mut server = config.into_server();
    assert!(server.handle_check_db(CheckDb, 100).is_empty());
}

#[test]
fn worker_assignments_use_distinct_ids() {
    let mut config = WorkerConfig::new();
    config.register("mailer".to_owned(), "default".to_owned());
    config.set_processor_count("default".to_owned(), 2);
    config.register("indexer".to_owned(), "search".to_owned());
    assert!(config.contains_processor(&"mailer".to_owned()));
    assert!(config.contains_processor(&"indexer".to_owned()));
    assert!(!config.contains_processor(&"other".to_owned()));

    let assignments = config.worker_assignments();
    // two workers for "default" (the explicit count), four for "search"
    assert_eq!(assignments.len(), 6);
    let mut ids = HashSet::new();
    for handle in &assignments {
        assert!(handle.id >= WORKER_ID_OFFSET);
        assert!(ids.insert(handle.id), "runner ids must be distinct");
        assert!(handle.queue == "default" || handle.queue == "search");
    }
    assert_eq!(assignments.iter().filter(|h| h.queue == "default").count(), 2);
    assert_eq!(assignments.iter().filter(|h| h.queue == "search").count(), 4);
}

#[test]
fn register_keeps_an_already_configured_count() {
    // a count set before registration survives: register applies the
    // default of four only to a queue that had none
    let mut config = WorkerConfig::new();
    config.set_processor_count("mail".to_owned(), 7);
    config.register("mailer".to_owned(), "mail".to_owned());
    let assignments = config.worker_assignments();
    assert_eq!(assignments.len(), 7);
    assert!(assignments.iter().all(|h| h.queue == "mail"));

    // a queue without a count gets the default of four
    let mut fresh = WorkerConfig::new();
    fresh.register("mailer".to_owned(), "mail".to_owned());
    assert_eq!(fresh.worker_assignments().len(), 4);
}

#[test]
fn parked_workers_are_served_in_fifo_order() {
    let mut server = Server::new(Storage::new());
    assert!(server.handle_request_job(RequestJob(worker(1000, "a")), 100).is_none());
    assert!(server.handle_request_job(RequestJob(worker(1001, "a")), 100).is_none());

    // the worker parked first is at the front of the FIFO and served first
    let (_, first) = server.handle_new_job(NewJob(plain_job("p", "a")), 101);
    assert_eq!(first.expect("a worker is parked").worker_id, 1000);
    let (_, second) = server.handle_new_job(NewJob(plain_job("p", "a")), 102);
    assert_eq!(second.expect("another worker is parked").worker_id, 1001);
}

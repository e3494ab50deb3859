use imgpuller::db::{
    claim_next_job, get_job_by_id, insert_job_with_id, recover_stale_jobs, JobStatus, JobStore,
};
use imgpuller::routes::pull::{plan_pull, PullProgress};
use imgpuller::routes::record::{measure, PullReadings};
use imgpuller::worker::{
    heartbeat_interval, PullEnd, PullOutcome, RunnerAction, Scheduler, TaskAction,
    ERROR_DELAY_MS, IDLE_DELAY_MS,
};
use imgpuller::tasks::TaskPhase;

fn store_of(ids: &[(&str, &str)]) -> JobStore {
    let mut store = JobStore::new();
    for (id, image) in ids {
        insert_job_with_id(&mut store, id, image).unwrap();
    }
    store
}

fn spawned(action: RunnerAction) -> (u64, String, String, String) {
    match action {
        RunnerAction::Spawn { ticket, job_id, image, registry } => (ticket, job_id, image, registry),
        other => panic!("expected a job to be handed out, got {:?}", other),
    }
}

#[test]
fn heartbeat_is_half_the_lease_and_at_least_one() {
    assert_eq!(heartbeat_interval(300), 150);
    assert_eq!(heartbeat_interval(10), 5);
    assert_eq!(heartbeat_interval(3), 1);
    assert_eq!(heartbeat_interval(2), 1);
    assert_eq!(heartbeat_interval(1), 1);
    assert_eq!(heartbeat_interval(0), 1);
    assert_eq!(heartbeat_interval(-7), 1);
    assert_eq!(heartbeat_interval(i64::MIN), 1);
    assert_eq!(heartbeat_interval(i64::MAX), (i64::MAX / 2) as u64);
}

#[test]
fn delays() {
    assert_eq!(IDLE_DELAY_MS, 500);
    assert_eq!(ERROR_DELAY_MS, 1000);
    let sched = Scheduler::new(1, 1, 10);
    assert_eq!(sched.on_store_error(), RunnerAction::Backoff { millis: 1000 });
}

#[test]
fn idle_when_nothing_is_claimable() {
    let mut store = JobStore::new();
    let mut sched = Scheduler::new(2, 2, 10);
    assert_eq!(sched.poll(&mut store), RunnerAction::Idle { millis: 500 });
    assert_eq!(sched.task_count(), 0);
}

#[test]
fn poll_hands_out_a_claimed_job() {
    let mut store = store_of(&[("a", "gcr.io/proj/img:1")]);
    store.advance_clock(5);
    let mut sched = Scheduler::new(2, 2, 10);
    let (ticket, job_id, image, registry) = spawned(sched.poll(&mut store));
    assert_eq!(ticket, 0);
    assert_eq!(job_id, "a");
    assert_eq!(image, "gcr.io/proj/img:1");
    assert_eq!(registry, "gcr.io");
    let job = get_job_by_id(&store, "a").unwrap();
    assert_eq!(job.status, JobStatus::Running);
    assert_eq!(job.lease_expires_at, Some(15));
    let task = sched.task(ticket).unwrap();
    assert_eq!(task.phase, TaskPhase::Admitted);
    assert_eq!(task.job_id, "a");
    assert_eq!(task.registry, "gcr.io");
    assert_eq!(sched.task_count(), 1);
    assert_eq!(sched.working_count(), 0);
}

#[test]
fn second_job_waits_for_the_global_permit() {
    let mut store = store_of(&[("A", "alpha:latest"), ("B", "beta:latest")]);
    let mut sched = Scheduler::new(1, 2, 10);
    let (ticket_a, job_a, _, _) = spawned(sched.poll(&mut store));
    assert_eq!(job_a, "A");
    assert_eq!(sched.poll(&mut store), RunnerAction::Saturated);
    assert_eq!(get_job_by_id(&store, "B").unwrap().status, JobStatus::Queued);
    assert!(matches!(sched.start_task(ticket_a), TaskAction::Execute { .. }));
    assert_eq!(sched.poll(&mut store), RunnerAction::Saturated);
    assert_eq!(get_job_by_id(&store, "B").unwrap().status, JobStatus::Queued);
    assert!(sched.finish_task(&mut store, ticket_a, &PullOutcome::Completed(None)));
    let (_, job_b, _, _) = spawned(sched.poll(&mut store));
    assert_eq!(job_b, "B");
    assert_eq!(get_job_by_id(&store, "B").unwrap().status, JobStatus::Running);
}

#[test]
fn second_job_waits_for_the_global_permit_whatever_the_claim_order() {
    let mut store = JobStore::new();
    imgpuller::db::insert_job_with(&mut store, "A", "alpha:latest", 0, 3).unwrap();
    imgpuller::db::insert_job_with(&mut store, "B", "beta:latest", 9, 3).unwrap();
    let mut sched = Scheduler::new(1, 2, 10);
    let (first, job, _, _) = spawned(sched.poll(&mut store));
    assert_eq!(job, "B");
    assert_eq!(sched.poll(&mut store), RunnerAction::Saturated);
    assert_eq!(get_job_by_id(&store, "A").unwrap().status, JobStatus::Queued);
    assert!(sched.release_task(first));
    assert_eq!(spawned(sched.poll(&mut store)).1, "A");
}

#[test]
fn same_registry_runs_one_at_a_time() {
    let mut store = store_of(&[("a", "gcr.io/x:1"), ("b", "gcr.io/y:1")]);
    let mut sched = Scheduler::new(2, 1, 10);
    let (ta, _, _, _) = spawned(sched.poll(&mut store));
    let (tb, _, _, _) = spawned(sched.poll(&mut store));
    assert_eq!(get_job_by_id(&store, "a").unwrap().status, JobStatus::Running);
    assert_eq!(get_job_by_id(&store, "b").unwrap().status, JobStatus::Running);
    assert_eq!(
        sched.start_task(ta),
        TaskAction::Execute { job_id: "a".to_string(), image: "gcr.io/x:1".to_string(), heartbeat_secs: 5 }
    );
    assert_eq!(sched.start_task(tb), TaskAction::Wait);
    assert_eq!(sched.start_task(tb), TaskAction::Wait);
    assert_eq!(sched.busy_count("gcr.io"), 1);
    assert_eq!(sched.working_count(), 1);
    assert_eq!(sched.task_count(), 2);
    assert_eq!(sched.task(tb).unwrap().phase, TaskPhase::Admitted);
    assert!(sched.finish_task(&mut store, ta, &PullOutcome::Completed(Some("ok".to_string()))));
    assert_eq!(sched.busy_count("gcr.io"), 0);
    assert!(matches!(sched.start_task(tb), TaskAction::Execute { .. }));
    assert_eq!(sched.busy_count("gcr.io"), 1);
    assert_eq!(sched.task(tb).unwrap().phase, TaskPhase::Executing);
}

#[test]
fn different_registries_do_not_contend() {
    let mut store = store_of(&[("a", "gcr.io/x:1"), ("b", "quay.io/y:1")]);
    let mut sched = Scheduler::new(2, 1, 10);
    let (ta, _, _, _) = spawned(sched.poll(&mut store));
    let (tb, _, _, _) = spawned(sched.poll(&mut store));
    assert!(matches!(sched.start_task(ta), TaskAction::Execute { .. }));
    assert!(matches!(sched.start_task(tb), TaskAction::Execute { .. }));
    assert_eq!(sched.working_count(), 2);
    assert_eq!(sched.busy_count("gcr.io"), 1);
    assert_eq!(sched.busy_count("quay.io"), 1);
    assert_eq!(sched.busy_count("docker.io"), 0);
}

#[test]
fn abandoned_claim_is_recovered_after_its_lease() {
    let mut store = store_of(&[("a", "alpine")]);
    let mut sched = Scheduler::new(1, 1, 10);
    spawned(sched.poll(&mut store));
    store.advance_clock(10);
    assert_eq!(recover_stale_jobs(&mut store), 0);
    assert_eq!(get_job_by_id(&store, "a").unwrap().status, JobStatus::Running);
    store.advance_clock(11);
    assert_eq!(recover_stale_jobs(&mut store), 1);
    let job = get_job_by_id(&store, "a").unwrap();
    assert_ne!(job.status, JobStatus::Running);
    assert_eq!(job.status, JobStatus::Failed);
}

#[test]
fn execution_failure_fails_the_job() {
    let mut store = store_of(&[("a", "alpine")]);
    let mut sched = Scheduler::new(1, 1, 10);
    let (ticket, _, _, _) = spawned(sched.poll(&mut store));
    assert!(matches!(sched.start_task(ticket), TaskAction::Execute { .. }));
    let outcome = PullOutcome::Failed("docker connect error: no socket".to_string());
    assert!(sched.finish_task(&mut store, ticket, &outcome));
    let job = get_job_by_id(&store, "a").unwrap();
    assert_eq!(job.status, JobStatus::Failed);
    assert_eq!(job.retry_count, 1);
    assert!(!job.error_detail.clone().unwrap().is_empty());
    assert_eq!(job.error_detail.as_deref(), Some("docker connect error: no socket"));
    assert_eq!(job.result, None);
    assert_eq!(sched.task_count(), 0);
    assert_eq!(sched.working_count(), 0);
    assert_eq!(sched.busy_count("docker.io"), 0);
    assert_eq!(claim_next_job(&mut store, 10), None);
}

#[test]
fn heartbeat_extends_only_jobs_at_work() {
    let mut store = store_of(&[("a", "alpine")]);
    let mut sched = Scheduler::new(1, 1, 10);
    let (ticket, _, _, _) = spawned(sched.poll(&mut store));
    store.advance_clock(4);
    assert!(!sched.heartbeat(&mut store, ticket));
    assert_eq!(get_job_by_id(&store, "a").unwrap().lease_expires_at, Some(10));
    assert!(matches!(sched.start_task(ticket), TaskAction::Execute { .. }));
    assert!(sched.heartbeat(&mut store, ticket));
    assert_eq!(get_job_by_id(&store, "a").unwrap().lease_expires_at, Some(14));
    assert!(!sched.heartbeat(&mut store, ticket + 1));
    store.advance_clock(100);
    assert_eq!(recover_stale_jobs(&mut store), 1);
    assert!(!sched.heartbeat(&mut store, ticket));
    assert_eq!(get_job_by_id(&store, "a").unwrap().status, JobStatus::Failed);
}

#[test]
fn late_outcome_does_not_touch_a_finished_job() {
    let mut store = store_of(&[("a", "alpine")]);
    let mut sched = Scheduler::new(1, 1, 10);
    let (ticket, _, _, _) = spawned(sched.poll(&mut store));
    assert!(matches!(sched.start_task(ticket), TaskAction::Execute { .. }));
    store.advance_clock(50);
    assert_eq!(recover_stale_jobs(&mut store), 1);
    let swept = get_job_by_id(&store, "a").unwrap();
    assert!(sched.finish_task(&mut store, ticket, &PullOutcome::Completed(Some("late".to_string()))));
    assert_eq!(get_job_by_id(&store, "a").unwrap(), swept);
    assert_eq!(sched.task_count(), 0);
}

#[test]
fn abandoning_a_waiting_task() {
    let mut store = store_of(&[("a", "alpine")]);
    let mut sched = Scheduler::new(1, 1, 10);
    let (ticket, _, _, _) = spawned(sched.poll(&mut store));
    assert!(!sched.finish_task(&mut store, ticket, &PullOutcome::Completed(None)));
    assert!(sched.abandon_task(&mut store, ticket));
    let job = get_job_by_id(&store, "a").unwrap();
    assert_eq!(job.status, JobStatus::Failed);
    assert_eq!(job.error_detail.as_deref(), Some("registry semaphore closed"));
    assert_eq!(job.retry_count, 1);
    assert_eq!(sched.task_count(), 0);
    assert!(!sched.abandon_task(&mut store, ticket));
    assert_eq!(sched.poll(&mut store), RunnerAction::Idle { millis: 500 });
}

#[test]
fn unknown_tickets_change_nothing() {
    let mut store = store_of(&[("a", "alpine")]);
    let mut sched = Scheduler::new(2, 1, 10);
    let (ticket, _, _, _) = spawned(sched.poll(&mut store));
    assert_eq!(sched.start_task(ticket + 1), TaskAction::Unknown);
    assert!(!sched.release_task(ticket + 1));
    assert!(!sched.finish_task(&mut store, ticket + 1, &PullOutcome::Completed(None)));
    assert!(!sched.abandon_task(&mut store, ticket + 1));
    assert_eq!(sched.task(ticket + 1), None);
    assert!(matches!(sched.start_task(ticket), TaskAction::Execute { .. }));
    assert_eq!(sched.start_task(ticket), TaskAction::Unknown);
    assert!(!sched.abandon_task(&mut store, ticket));
    assert_eq!(sched.task_count(), 1);
    assert_eq!(sched.working_count(), 1);
}

#[test]
fn released_task_leaves_its_job_to_the_lease() {
    let mut store = store_of(&[("a", "alpine")]);
    let mut sched = Scheduler::new(1, 1, 10);
    let (ticket, _, _, _) = spawned(sched.poll(&mut store));
    assert!(matches!(sched.start_task(ticket), TaskAction::Execute { .. }));
    assert!(sched.release_task(ticket));
    assert_eq!(sched.task_count(), 0);
    assert_eq!(sched.busy_count("docker.io"), 0);
    assert_eq!(get_job_by_id(&store, "a").unwrap().status, JobStatus::Running);
    assert_eq!(sched.poll(&mut store), RunnerAction::Idle { millis: 500 });
    store.advance_clock(11);
    let (again, job, _, _) = spawned(sched.poll(&mut store));
    assert_eq!(job, "a");
    assert_eq!(again, ticket + 1);
}

#[test]
fn limits_hold_through_a_long_run() {
    let mut store = JobStore::new();
    let hosts = ["a.io", "b.io", "c.io"];
    let mut n: usize = 0;
    while n < 30 {
        let id = format!("job-{}", n);
        let image = format!("{}/img:{}", hosts[n % 3], n);
        insert_job_with_id(&mut store, &id, &image).unwrap();
        n += 1;
    }
    let mut sched = Scheduler::new(4, 2, 10);
    let mut tickets: Vec<u64> = Vec::new();
    let mut step: usize = 0;
    while step < 300 {
        match step % 5 {
            0 | 1 => {
                if let RunnerAction::Spawn { ticket, .. } = sched.poll(&mut store) {
                    tickets.push(ticket);
                }
            }
            2 | 3 => {
                if !tickets.is_empty() {
                    sched.start_task(tickets[step % tickets.len()]);
                }
            }
            _ => {
                if !tickets.is_empty() {
                    let t = tickets.remove(step % tickets.len());
                    if !sched.finish_task(&mut store, t, &PullOutcome::Completed(None)) {
                        sched.release_task(t);
                    }
                }
            }
        }
        assert!(sched.task_count() <= 4);
        assert!(sched.working_count() <= sched.task_count());
        for h in hosts {
            assert!(sched.busy_count(h) <= 2);
        }
        step += 1;
    }
}

#[test]
fn a_turn_sets_the_clock_sweeps_and_then_polls() {
    let mut store = store_of(&[("a", "alpine"), ("b", "busybox")]);
    let mut sched = Scheduler::new(1, 1, 10);
    let (swept, action) = sched.turn(&mut store, 5);
    assert_eq!(swept, 0);
    assert_eq!(store.clock(), 5);
    let (first, job, _, _) = spawned(action);
    assert_eq!(job, "a");
    assert_eq!(get_job_by_id(&store, "a").unwrap().lease_expires_at, Some(15));
    assert_eq!(sched.turn(&mut store, 15), (0, RunnerAction::Saturated));
    assert_eq!(get_job_by_id(&store, "a").unwrap().status, JobStatus::Running);
    assert_eq!(sched.turn(&mut store, 16), (1, RunnerAction::Saturated));
    assert_eq!(store.clock(), 16);
    assert_eq!(get_job_by_id(&store, "a").unwrap().status, JobStatus::Failed);
    assert_eq!(get_job_by_id(&store, "b").unwrap().status, JobStatus::Queued);
    assert!(sched.release_task(first));
    let (swept, action) = sched.turn(&mut store, 3);
    assert_eq!(swept, 0);
    assert_eq!(store.clock(), 16);
    assert_eq!(spawned(action).1, "b");
    assert_eq!(get_job_by_id(&store, "b").unwrap().lease_expires_at, Some(26));
    assert!(sched.release_task(1));
    assert_eq!(sched.turn(&mut store, 20), (0, RunnerAction::Idle { millis: 500 }));
}

#[test]
fn a_turn_sweeps_before_it_claims() {
    let mut store = store_of(&[("a", "alpine")]);
    let mut sched = Scheduler::new(2, 1, 10);
    let (first, _, _, _) = spawned(sched.turn(&mut store, 0).1);
    assert!(sched.release_task(first));
    let (swept, action) = sched.turn(&mut store, 11);
    assert_eq!(swept, 1);
    assert_eq!(action, RunnerAction::Idle { millis: 500 });
    assert_eq!(get_job_by_id(&store, "a").unwrap().status, JobStatus::Failed);
}

fn pulled(image: &str) -> PullEnd {
    PullEnd::Pulled {
        plan: plan_pull(image),
        measure: measure(&PullProgress::new(), Some(2_500_000)),
        readings: PullReadings {
            download_time_ms: 900.0f64.to_bits(),
            image_size_bytes: 2_500_000.0f64.to_bits(),
            bytes_downloaded_total: 0.0f64.to_bits(),
            image_size_reported_bytes: 2_500_000.0f64.to_bits(),
            download_ttfb_ms: 0.0f64.to_bits(),
            average_speed_mbps: 0.0f64.to_bits(),
            layers_observed: 0.0f64.to_bits(),
            size_megabytes: "2.5".to_string(),
        },
    }
}

#[test]
fn a_pull_that_succeeded_is_recorded() {
    let mut store = store_of(&[("a", "alpine")]);
    let mut sched = Scheduler::new(1, 1, 10);
    let (ticket, _, _, _) = spawned(sched.poll(&mut store));
    assert!(!sched.conclude_task(&mut store, ticket, &pulled("alpine")));
    assert_eq!(store.metric_count(), 0);
    assert!(matches!(sched.start_task(ticket), TaskAction::Execute { .. }));
    store.advance_clock(3);
    assert!(sched.conclude_task(&mut store, ticket, &pulled("alpine")));
    let job = get_job_by_id(&store, "a").unwrap();
    assert_eq!(job.status, JobStatus::Completed);
    assert_eq!(
        job.result.as_deref(),
        Some("Pulled alpine:latest from docker.io • size ~2.5 MB • layers 0 • cache_hit=true • digest -")
    );
    assert_eq!(job.retry_count, 0);
    assert_eq!(job.finished_at, Some(3));
    assert_eq!(store.metric_count(), 8);
    assert_eq!(sched.task_count(), 0);
    assert_eq!(sched.busy_count("docker.io"), 0);
    assert!(!sched.conclude_task(&mut store, ticket, &pulled("alpine")));
    assert_eq!(store.metric_count(), 8);
}

#[test]
fn a_pull_that_failed_writes_no_metric() {
    let mut store = store_of(&[("a", "alpine")]);
    let mut sched = Scheduler::new(1, 1, 10);
    let (ticket, _, _, _) = spawned(sched.poll(&mut store));
    assert!(matches!(sched.start_task(ticket), TaskAction::Execute { .. }));
    let end = PullEnd::Broken("docker connect error: no socket".to_string());
    assert!(sched.conclude_task(&mut store, ticket, &end));
    let job = get_job_by_id(&store, "a").unwrap();
    assert_eq!(job.status, JobStatus::Failed);
    assert_eq!(job.retry_count, 1);
    assert_eq!(job.error_detail.as_deref(), Some("docker connect error: no socket"));
    assert_eq!(job.result, None);
    assert_eq!(store.metric_count(), 0);
    assert_eq!(sched.task_count(), 0);
}

#[test]
fn a_late_success_still_leaves_its_metrics() {
    let mut store = store_of(&[("a", "alpine")]);
    let mut sched = Scheduler::new(1, 1, 10);
    let (ticket, _, _, _) = spawned(sched.poll(&mut store));
    assert!(matches!(sched.start_task(ticket), TaskAction::Execute { .. }));
    store.advance_clock(50);
    assert_eq!(recover_stale_jobs(&mut store), 1);
    assert!(sched.conclude_task(&mut store, ticket, &pulled("alpine")));
    let job = get_job_by_id(&store, "a").unwrap();
    assert_eq!(job.status, JobStatus::Failed);
    assert_eq!(job.result, None);
    assert_eq!(store.metric_count(), 8);
}

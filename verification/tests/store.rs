use imgpuller::db::{
    claim_next_job, complete_job, fail_job, get_job_by_id, heartbeat_job, insert_job,
    insert_job_with, insert_job_with_id, list_jobs, recover_stale_jobs, set_job_error,
    update_job_status, JobStatus, JobStore, StoreError,
};

fn store_with(ids: &[(&str, &str)]) -> JobStore {
    let mut store = JobStore::new();
    for (id, image) in ids {
        assert_eq!(insert_job_with_id(&mut store, id, image), Ok(()));
    }
    store
}

#[test]
fn new_store_is_empty() {
    let store = JobStore::new();
    assert_eq!(store.job_count(), 0);
    assert_eq!(store.metric_count(), 0);
    assert_eq!(store.clock(), 0);
    assert!(list_jobs(&store).is_empty());
}

#[test]
fn submitted_job_waits_in_the_queue() {
    let mut store = JobStore::new();
    store.advance_clock(100);
    assert_eq!(insert_job_with_id(&mut store, "a", "alpha:latest"), Ok(()));
    let job = get_job_by_id(&store, "a").unwrap();
    assert_eq!(job.id, "a");
    assert_eq!(job.image, "alpha:latest");
    assert_eq!(job.status, JobStatus::Queued);
    assert_eq!(job.priority, 0);
    assert_eq!(job.retry_count, 0);
    assert_eq!(job.max_attempts, 3);
    assert_eq!(job.created_at, 100);
    assert_eq!(job.started_at, None);
    assert_eq!(job.lease_expires_at, None);
    assert_eq!(job.finished_at, None);
    assert_eq!(job.result, None);
    assert_eq!(job.error_detail, None);
}

#[test]
fn duplicate_id_is_refused() {
    let mut store = store_with(&[("a", "alpha:latest")]);
    assert_eq!(
        insert_job_with_id(&mut store, "a", "other:1"),
        Err(StoreError::DuplicateId)
    );
    assert_eq!(store.job_count(), 1);
    assert_eq!(get_job_by_id(&store, "a").unwrap().image, "alpha:latest");
}

#[test]
fn random_ids_are_hyphenated_and_distinct() {
    let mut store = JobStore::new();
    let a = insert_job(&mut store, "alpha:latest").unwrap();
    let b = insert_job(&mut store, "beta:latest").unwrap();
    assert_eq!(a.chars().count(), 36);
    assert_eq!(b.chars().count(), 36);
    assert_ne!(a, b);
    assert_ne!(a, "alpha:latest");
    assert_eq!(get_job_by_id(&store, &a).unwrap().image, "alpha:latest");
    assert_eq!(get_job_by_id(&store, &b).unwrap().image, "beta:latest");
}

#[test]
fn claim_on_empty_store_returns_nothing() {
    let mut store = JobStore::new();
    assert_eq!(claim_next_job(&mut store, 10), None);
}

#[test]
fn claim_sets_running_and_lease() {
    let mut store = store_with(&[("a", "alpha:latest")]);
    store.advance_clock(50);
    assert_eq!(
        claim_next_job(&mut store, 10),
        Some(("a".to_string(), "alpha:latest".to_string()))
    );
    let job = get_job_by_id(&store, "a").unwrap();
    assert_eq!(job.status, JobStatus::Running);
    assert_eq!(job.started_at, Some(50));
    assert_eq!(job.updated_at, Some(50));
    assert_eq!(job.lease_expires_at, Some(60));
}

#[test]
fn claim_prefers_priority_then_age() {
    let mut store = JobStore::new();
    store.advance_clock(1);
    insert_job_with(&mut store, "old-low", "a:1", 0, 3).unwrap();
    store.advance_clock(2);
    insert_job_with(&mut store, "old-high", "b:1", 5, 3).unwrap();
    store.advance_clock(3);
    insert_job_with(&mut store, "new-high", "c:1", 5, 3).unwrap();
    store.advance_clock(4);
    assert_eq!(claim_next_job(&mut store, 100).unwrap().0, "old-high");
    assert_eq!(claim_next_job(&mut store, 100).unwrap().0, "new-high");
    assert_eq!(claim_next_job(&mut store, 100).unwrap().0, "old-low");
    assert_eq!(claim_next_job(&mut store, 100), None);
}

#[test]
fn no_job_is_claimed_twice_under_a_valid_lease() {
    let mut store = store_with(&[("a", "alpha:latest")]);
    assert!(claim_next_job(&mut store, 10).is_some());
    store.advance_clock(10);
    assert_eq!(claim_next_job(&mut store, 10), None);
    store.advance_clock(11);
    assert_eq!(claim_next_job(&mut store, 10).unwrap().0, "a");
}

#[test]
fn reclaim_keeps_first_start() {
    let mut store = store_with(&[("a", "alpha:latest")]);
    store.advance_clock(5);
    claim_next_job(&mut store, 10).unwrap();
    store.advance_clock(30);
    claim_next_job(&mut store, 10).unwrap();
    let job = get_job_by_id(&store, "a").unwrap();
    assert_eq!(job.started_at, Some(5));
    assert_eq!(job.updated_at, Some(30));
    assert_eq!(job.lease_expires_at, Some(40));
}

#[test]
fn lease_deadline_saturates() {
    let mut store = store_with(&[("a", "alpha:latest")]);
    store.advance_clock(10);
    claim_next_job(&mut store, i64::MAX).unwrap();
    assert_eq!(get_job_by_id(&store, "a").unwrap().lease_expires_at, Some(i64::MAX));
}

#[test]
fn heartbeat_extends_lease_of_running_job() {
    let mut store = store_with(&[("a", "alpha:latest")]);
    claim_next_job(&mut store, 10).unwrap();
    store.advance_clock(7);
    assert!(heartbeat_job(&mut store, "a", 10));
    let job = get_job_by_id(&store, "a").unwrap();
    assert_eq!(job.lease_expires_at, Some(17));
    assert_eq!(job.last_heartbeat, Some(7));
    assert_eq!(job.status, JobStatus::Running);
}

#[test]
fn heartbeat_does_not_resurrect_a_finished_job() {
    let mut store = store_with(&[("a", "alpha:latest")]);
    claim_next_job(&mut store, 10).unwrap();
    assert!(complete_job(&mut store, "a", Some("done")));
    let before = get_job_by_id(&store, "a").unwrap();
    store.advance_clock(3);
    assert!(!heartbeat_job(&mut store, "a", 10));
    assert_eq!(get_job_by_id(&store, "a").unwrap(), before);
    assert!(!heartbeat_job(&mut store, "missing", 10));
}

#[test]
fn heartbeat_ignores_queued_job() {
    let mut store = store_with(&[("a", "alpha:latest")]);
    assert!(!heartbeat_job(&mut store, "a", 10));
    assert_eq!(get_job_by_id(&store, "a").unwrap().lease_expires_at, None);
}

#[test]
fn complete_records_result_and_clears_lease() {
    let mut store = store_with(&[("a", "alpha:latest")]);
    claim_next_job(&mut store, 10).unwrap();
    store.advance_clock(4);
    assert!(complete_job(&mut store, "a", Some("pulled")));
    let job = get_job_by_id(&store, "a").unwrap();
    assert_eq!(job.status, JobStatus::Completed);
    assert_eq!(job.result.as_deref(), Some("pulled"));
    assert_eq!(job.finished_at, Some(4));
    assert_eq!(job.lease_expires_at, None);
    assert_eq!(job.retry_count, 0);
}

#[test]
fn complete_without_result_keeps_earlier_result() {
    let mut store = store_with(&[("a", "alpha:latest")]);
    assert!(update_job_status(&mut store, "a", JobStatus::Running, Some("partial")));
    assert!(complete_job(&mut store, "a", None));
    assert_eq!(get_job_by_id(&store, "a").unwrap().result.as_deref(), Some("partial"));
}

#[test]
fn execution_failure_is_recorded() {
    let mut store = store_with(&[("a", "alpha:latest")]);
    claim_next_job(&mut store, 10).unwrap();
    store.advance_clock(2);
    assert!(fail_job(&mut store, "a", "docker connect error: refused"));
    let job = get_job_by_id(&store, "a").unwrap();
    assert_eq!(job.status, JobStatus::Failed);
    assert_eq!(job.retry_count, 1);
    assert_eq!(job.error_detail.as_deref(), Some("docker connect error: refused"));
    assert!(!job.error_detail.unwrap().is_empty());
    assert_eq!(job.result, None);
    assert_eq!(job.finished_at, Some(2));
    assert_eq!(job.lease_expires_at, None);
}

#[test]
fn finalize_is_idempotent() {
    let mut store = store_with(&[("a", "alpha:latest"), ("b", "beta:latest")]);
    claim_next_job(&mut store, 10).unwrap();
    claim_next_job(&mut store, 10).unwrap();
    assert!(complete_job(&mut store, "a", Some("ok")));
    assert!(fail_job(&mut store, "b", "boom"));
    let a = get_job_by_id(&store, "a").unwrap();
    let b = get_job_by_id(&store, "b").unwrap();
    store.advance_clock(9);
    assert!(!complete_job(&mut store, "a", Some("again")));
    assert!(!fail_job(&mut store, "a", "late failure"));
    assert!(!complete_job(&mut store, "b", Some("late success")));
    assert!(!fail_job(&mut store, "b", "boom again"));
    assert!(!set_job_error(&mut store, "a", "x"));
    assert!(!update_job_status(&mut store, "b", JobStatus::Queued, None));
    assert_eq!(get_job_by_id(&store, "a").unwrap(), a);
    assert_eq!(get_job_by_id(&store, "b").unwrap(), b);
    assert_eq!(claim_next_job(&mut store, 10), None);
}

#[test]
fn outcome_for_unknown_job_changes_nothing() {
    let mut store = store_with(&[("a", "alpha:latest")]);
    assert!(!complete_job(&mut store, "zzz", None));
    assert!(!fail_job(&mut store, "zzz", "e"));
    assert_eq!(store.job_count(), 1);
    assert_eq!(get_job_by_id(&store, "a").unwrap().status, JobStatus::Queued);
    assert_eq!(get_job_by_id(&store, "zzz"), None);
}

#[test]
fn stale_job_is_recovered_after_lease_runs_out() {
    let mut store = store_with(&[("a", "alpha:latest")]);
    claim_next_job(&mut store, 10).unwrap();
    store.advance_clock(10);
    assert_eq!(recover_stale_jobs(&mut store), 0);
    assert_eq!(get_job_by_id(&store, "a").unwrap().status, JobStatus::Running);
    store.advance_clock(11);
    assert_eq!(recover_stale_jobs(&mut store), 1);
    let job = get_job_by_id(&store, "a").unwrap();
    assert_eq!(job.status, JobStatus::Failed);
    assert_eq!(job.error_detail.as_deref(), Some("lease expired / worker died"));
    assert_eq!(job.finished_at, Some(11));
    assert_eq!(job.lease_expires_at, None);
    assert_eq!(job.retry_count, 0);
    assert_eq!(recover_stale_jobs(&mut store), 0);
}

#[test]
fn sweep_leaves_live_and_waiting_jobs_alone() {
    let mut store = store_with(&[("a", "a:1"), ("b", "b:1"), ("c", "c:1")]);
    claim_next_job(&mut store, 5).unwrap();
    store.advance_clock(3);
    claim_next_job(&mut store, 50).unwrap();
    store.advance_clock(20);
    assert_eq!(recover_stale_jobs(&mut store), 1);
    assert_eq!(get_job_by_id(&store, "a").unwrap().status, JobStatus::Failed);
    assert_eq!(get_job_by_id(&store, "b").unwrap().status, JobStatus::Running);
    assert_eq!(get_job_by_id(&store, "c").unwrap().status, JobStatus::Queued);
}

#[test]
fn set_job_error_fails_without_counting_an_attempt() {
    let mut store = store_with(&[("a", "alpha:latest")]);
    store.advance_clock(8);
    assert!(set_job_error(&mut store, "a", "bad"));
    let job = get_job_by_id(&store, "a").unwrap();
    assert_eq!(job.status, JobStatus::Failed);
    assert_eq!(job.error_detail.as_deref(), Some("bad"));
    assert_eq!(job.retry_count, 0);
    assert_eq!(job.finished_at, Some(8));
}

#[test]
fn running_job_without_lease_is_claimable() {
    let mut store = store_with(&[("a", "alpha:latest")]);
    assert!(update_job_status(&mut store, "a", JobStatus::Running, None));
    assert_eq!(get_job_by_id(&store, "a").unwrap().lease_expires_at, None);
    assert_eq!(recover_stale_jobs(&mut store), 0);
    assert_eq!(claim_next_job(&mut store, 10).unwrap().0, "a");
}

#[test]
fn listing_shows_newest_first() {
    let mut store = JobStore::new();
    store.advance_clock(1);
    insert_job_with_id(&mut store, "a", "alpha:latest").unwrap();
    store.advance_clock(2);
    insert_job_with_id(&mut store, "b", "beta:latest").unwrap();
    claim_next_job(&mut store, 10).unwrap();
    let list = list_jobs(&store);
    assert_eq!(list.len(), 2);
    assert_eq!(list[0].id, "b");
    assert_eq!(list[0].image, "beta:latest");
    assert_eq!(list[0].status, JobStatus::Queued);
    assert_eq!(list[1].id, "a");
    assert_eq!(list[1].status, JobStatus::Running);
}

#[test]
fn clock_never_runs_backwards() {
    let mut store = JobStore::new();
    store.advance_clock(10);
    store.advance_clock(4);
    assert_eq!(store.clock(), 10);
    store.advance_clock(-3);
    assert_eq!(store.clock(), 10);
}

#[test]
fn status_words() {
    assert_eq!(JobStatus::Queued.as_str(), "queued");
    assert_eq!(JobStatus::Running.as_str(), "running");
    assert_eq!(JobStatus::Completed.as_str(), "completed");
    assert_eq!(JobStatus::Failed.as_str(), "failed");
    assert!(JobStatus::Completed.terminal());
    assert!(JobStatus::Failed.terminal());
    assert!(!JobStatus::Queued.terminal());
    assert!(!JobStatus::Running.terminal());
}

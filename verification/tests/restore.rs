use imgpuller::db::{
    claim_next_job, get_job_by_id, get_metrics_by_job, insert_job_with_id, restore_job,
    restore_metric, Job, JobStatus, JobStore, MetricRow, StoreError,
};
use imgpuller::model::ErrorResponse;

fn record(id: &str, status: JobStatus, created_at: i64) -> Job {
    Job {
        id: id.to_string(),
        image: "alpine".to_string(),
        status,
        result: None,
        error_detail: None,
        retry_count: 2,
        max_attempts: 3,
        priority: 1,
        created_at,
        started_at: Some(created_at),
        updated_at: Some(created_at),
        finished_at: if status.terminal() { Some(created_at + 1) } else { None },
        lease_expires_at: if status == JobStatus::Running { Some(created_at + 10) } else { None },
        last_heartbeat: None,
    }
}

fn fact(job_id: &str, key: &str, created_at: i64) -> MetricRow {
    MetricRow {
        job_id: job_id.to_string(),
        key: key.to_string(),
        value_bits: Some(42),
        unit: Some("ms".to_string()),
        labels_json: None,
        created_at,
    }
}

#[test]
fn status_from_its_word() {
    assert_eq!(JobStatus::from_text("queued"), Some(JobStatus::Queued));
    assert_eq!(JobStatus::from_text("running"), Some(JobStatus::Running));
    assert_eq!(JobStatus::from_text("completed"), Some(JobStatus::Completed));
    assert_eq!(JobStatus::from_text("failed"), Some(JobStatus::Failed));
    assert_eq!(JobStatus::from_text("success"), None);
    assert_eq!(JobStatus::from_text("Queued"), None);
    assert_eq!(JobStatus::from_text(""), None);
    for s in [JobStatus::Queued, JobStatus::Running, JobStatus::Completed, JobStatus::Failed] {
        assert_eq!(JobStatus::from_text(s.as_str()), Some(s));
    }
}

#[test]
fn records_are_put_back_as_they_are() {
    let mut store = JobStore::new();
    store.advance_clock(100);
    let a = record("a", JobStatus::Failed, 10);
    let b = record("b", JobStatus::Running, 20);
    let c = record("c", JobStatus::Queued, 20);
    assert_eq!(restore_job(&mut store, a.clone()), Ok(()));
    assert_eq!(restore_job(&mut store, b.clone()), Ok(()));
    assert_eq!(restore_job(&mut store, c.clone()), Ok(()));
    assert_eq!(get_job_by_id(&store, "a"), Some(a));
    assert_eq!(get_job_by_id(&store, "b"), Some(b));
    assert_eq!(get_job_by_id(&store, "c"), Some(c));
    assert_eq!(claim_next_job(&mut store, 5).unwrap().0, "b");
}

#[test]
fn malformed_records_are_refused() {
    let mut store = JobStore::new();
    store.advance_clock(100);
    insert_job_with_id(&mut store, "first", "alpine").unwrap();
    assert_eq!(restore_job(&mut store, record("first", JobStatus::Queued, 100)), Err(StoreError::DuplicateId));
    assert_eq!(restore_job(&mut store, record("early", JobStatus::Queued, 99)), Err(StoreError::MalformedRecord));
    store.advance_clock(200);
    assert_eq!(restore_job(&mut store, record("late", JobStatus::Queued, 201)), Err(StoreError::MalformedRecord));
    let mut leased = record("leased", JobStatus::Queued, 150);
    leased.lease_expires_at = Some(160);
    assert_eq!(restore_job(&mut store, leased), Err(StoreError::MalformedRecord));
    let mut unfinished = record("unfinished", JobStatus::Completed, 150);
    unfinished.finished_at = None;
    assert_eq!(restore_job(&mut store, unfinished), Err(StoreError::MalformedRecord));
    let mut finished = record("finished", JobStatus::Running, 150);
    finished.finished_at = Some(151);
    assert_eq!(restore_job(&mut store, finished), Err(StoreError::MalformedRecord));
    assert_eq!(store.job_count(), 1);
    assert_eq!(restore_job(&mut store, record("fine", JobStatus::Completed, 150)), Ok(()));
    assert_eq!(store.job_count(), 2);
}

#[test]
fn facts_are_put_back_as_they_are() {
    let mut store = JobStore::new();
    insert_job_with_id(&mut store, "a", "alpine").unwrap();
    store.advance_clock(50);
    assert_eq!(restore_metric(&mut store, fact("a", "k1", 10)), Ok(()));
    assert_eq!(restore_metric(&mut store, fact("a", "k2", 10)), Ok(()));
    assert_eq!(restore_metric(&mut store, fact("a", "k3", 50)), Ok(()));
    let rows = get_metrics_by_job(&store, "a");
    assert_eq!(rows, vec![fact("a", "k3", 50), fact("a", "k2", 10), fact("a", "k1", 10)]);
}

#[test]
fn malformed_facts_are_refused() {
    let mut store = JobStore::new();
    insert_job_with_id(&mut store, "a", "alpine").unwrap();
    store.advance_clock(50);
    assert_eq!(restore_metric(&mut store, fact("zzz", "k", 10)), Err(StoreError::UnknownJob));
    assert_eq!(restore_metric(&mut store, fact("a", "k", 51)), Err(StoreError::MalformedRecord));
    assert_eq!(restore_metric(&mut store, fact("a", "k", 20)), Ok(()));
    assert_eq!(restore_metric(&mut store, fact("a", "k", 30)), Err(StoreError::MalformedRecord));
    assert_eq!(restore_metric(&mut store, fact("a", "other", 19)), Err(StoreError::MalformedRecord));
    assert_eq!(store.metric_count(), 1);
}

#[test]
fn refusals_in_words() {
    assert_eq!(StoreError::DuplicateId.as_str(), "a job with this id is stored already");
    assert_eq!(StoreError::UnknownJob.as_str(), "no job with this id is stored");
    assert_eq!(StoreError::MalformedRecord.as_str(), "the record is malformed");
}

#[test]
fn fixed_error_bodies() {
    assert_eq!(
        ErrorResponse::bad_request_json(),
        ErrorResponse {
            success: false,
            status_code: 400,
            message: "Bad Request".to_string(),
            error: "Invalid JSON format or request payload size exceeded".to_string(),
        }
    );
    assert_eq!(
        ErrorResponse::not_found(),
        ErrorResponse {
            success: false,
            status_code: 404,
            message: "Not Found".to_string(),
            error: "No route found".to_string(),
        }
    );
}

#[test]
fn a_fact_without_a_value_keeps_none() {
    let mut store = JobStore::new();
    insert_job_with_id(&mut store, "a", "alpine").unwrap();
    store.advance_clock(5);
    let mut empty = fact("a", "k", 5);
    empty.value_bits = None;
    assert_eq!(restore_metric(&mut store, empty.clone()), Ok(()));
    assert_eq!(get_metrics_by_job(&store, "a"), vec![empty]);
    let shown = imgpuller::routes::metric::metric_item(&get_metrics_by_job(&store, "a")[0]);
    assert_eq!(shown.value_bits, None);
    imgpuller::db::insert_metric(&mut store, "a", "k", 7, None).unwrap();
    assert_eq!(get_metrics_by_job(&store, "a")[0].value_bits, Some(7));
}

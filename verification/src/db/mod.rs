//! The job store: the record of every job, its lease and its outcome, and
//! the operations that move jobs through their life.
//!
//! A job waits, runs under a lease, and ends completed or failed. The
//! claim hands a job to one worker at a time: a job whose lease is in force
//! is never handed out. An end is final: no operation changes a finished
//! job, and a failed job is not queued again, whatever number of attempts
//! it was given; that number is kept on record only. Time is the store's
//! own clock, in seconds, which never runs backwards.

pub mod job;
pub mod laws;
pub mod metrics;
pub mod model;
pub mod ops;
pub mod store;

pub use job::{Job, JobStatus, JobSummary};
pub use metrics::{
    get_metrics_by_job, insert_metric, insert_metric_labeled, list_recent_metrics, restore_metric,
};
pub use ops::{
    claim_next_job, complete_job, fail_job, get_job_by_id, heartbeat_job, insert_job, insert_job_with,
    insert_job_with_id, list_jobs, recover_stale_jobs, restore_job, set_job_error, sync_clock,
    update_job_status,
};
pub use store::{JobStore, MetricRow, StoreError};

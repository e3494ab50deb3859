//! The job store as mathematics: what it holds, when it is well formed, and
//! what each operation makes of it.

use vstd::prelude::*;
use crate::db::job::{JobStatus, JobView};

verus! {

/// The mathematical content of one metric fact. A fact that was written
/// has a value; one that was put back may have none.
pub struct MetricView {
    pub job_id: Seq<char>,
    pub key: Seq<char>,
    pub value_bits: Option<u64>,
    pub unit: Option<Seq<char>>,
    pub labels_json: Option<Seq<char>>,
    pub created_at: int,
}

/// The mathematical content of the store: the jobs in the order in which
/// they were submitted, the metric facts in the order in which they were
/// last written, and the reading of the store's clock.
pub struct StoreView {
    pub jobs: Seq<JobView>,
    pub metrics: Seq<MetricView>,
    pub now: int,
}

/// The error detail that the sweep leaves on a job it had to give up.
pub open spec fn stale_detail() -> Seq<char> {
    "lease expired / worker died"@
}

/// The first of two optional values that is present.
pub open spec fn first_present<T>(a: Option<T>, b: Option<T>) -> Option<T> {
    if a is Some {
        a
    } else {
        b
    }
}

/// The instant `lease_secs` after `now`, kept within what a timestamp can
/// hold.
pub open spec fn lease_end(now: int, lease_secs: int) -> int {
    if now + lease_secs > i64::MAX {
        i64::MAX as int
    } else if now + lease_secs < i64::MIN {
        i64::MIN as int
    } else {
        now + lease_secs
    }
}

/// A retry count one higher, kept within what the counter can hold.
pub open spec fn bumped(retry_count: nat) -> nat {
    if retry_count >= u64::MAX {
        u64::MAX as nat
    } else {
        retry_count + 1
    }
}

/// What holds of every stored job: only a running job carries a lease, and
/// a job has finished exactly when its status is final.
pub open spec fn job_wf(j: JobView) -> bool {
    &&& j.status != JobStatus::Running ==> j.lease_expires_at is None
    &&& j.finished_at is Some <==> j.status.is_terminal()
}

/// What holds of every store: no id and no (job, key) pair occurs twice,
/// every metric belongs to a stored job, and nothing is dated after the
/// clock or before something written earlier.
pub open spec fn store_wf(s: StoreView) -> bool {
    &&& forall|i: int| 0 <= i < s.jobs.len() ==> job_wf(#[trigger] s.jobs[i])
    &&& forall|i: int, j: int|
        0 <= i < j < s.jobs.len() ==> (#[trigger] s.jobs[i]).id != (#[trigger] s.jobs[j]).id
    &&& forall|i: int, j: int|
        0 <= i <= j < s.jobs.len() ==> (#[trigger] s.jobs[i]).created_at <= (
        #[trigger] s.jobs[j]).created_at
    &&& forall|i: int| 0 <= i < s.jobs.len() ==> (#[trigger] s.jobs[i]).created_at <= s.now
    &&& forall|i: int, j: int|
        0 <= i < j < s.metrics.len() ==> !same_fact(#[trigger] s.metrics[i], #[trigger] s.metrics[j])
    &&& forall|i: int, j: int|
        0 <= i <= j < s.metrics.len() ==> (#[trigger] s.metrics[i]).created_at <= (
        #[trigger] s.metrics[j]).created_at
    &&& forall|i: int| 0 <= i < s.metrics.len() ==> (#[trigger] s.metrics[i]).created_at <= s.now
    &&& forall|i: int|
        0 <= i < s.metrics.len() ==> job_index(s.jobs, (#[trigger] s.metrics[i]).job_id) is Some
}

/// Two metric facts are about the same key of the same job.
pub open spec fn same_fact(a: MetricView, b: MetricView) -> bool {
    a.job_id == b.job_id && a.key == b.key
}

// ---------------------------------------------------------------- lookup

/// Position of the first job at or after `from` whose id is `id`.
pub open spec fn job_index_from(jobs: Seq<JobView>, id: Seq<char>, from: int) -> Option<int>
    decreases jobs.len() - from,
{
    if from < 0 || from >= jobs.len() {
        None
    } else if jobs[from].id == id {
        Some(from)
    } else {
        job_index_from(jobs, id, from + 1)
    }
}

/// Position of the job whose id is `id`, if the store holds one.
pub open spec fn job_index(jobs: Seq<JobView>, id: Seq<char>) -> Option<int> {
    job_index_from(jobs, id, 0)
}

/// The job whose id is `id`, if the store holds one.
pub open spec fn job_with_id(s: StoreView, id: Seq<char>) -> Option<JobView> {
    match job_index(s.jobs, id) {
        Some(i) => Some(s.jobs[i]),
        None => None,
    }
}

/// The store with the job at position `i` replaced by `j`.
pub open spec fn with_job(s: StoreView, i: int, j: JobView) -> StoreView {
    StoreView { jobs: s.jobs.update(i, j), ..s }
}

// ----------------------------------------------------------------- clock

/// The store after its clock was told that it is `t`: the clock never runs
/// backwards.
pub open spec fn clock_step(s: StoreView, t: int) -> StoreView {
    StoreView { now: if t > s.now { t } else { s.now }, ..s }
}

// ------------------------------------------------------------ submission

/// The record of a job submitted at `now`.
pub open spec fn fresh_job(
    id: Seq<char>,
    image: Seq<char>,
    priority: int,
    max_attempts: nat,
    now: int,
) -> JobView {
    JobView {
        id,
        image,
        status: JobStatus::Queued,
        result: None,
        error_detail: None,
        retry_count: 0,
        max_attempts,
        priority,
        created_at: now,
        started_at: None,
        updated_at: None,
        finished_at: None,
        lease_expires_at: None,
        last_heartbeat: None,
    }
}

/// The number of characters of an id that is drawn at random.
pub open spec fn drawn_id_len() -> nat {
    36
}

/// Whether an id drawn at random can be taken already: the store holds a
/// job whose id is as long as a drawn one.
pub open spec fn may_collide(s: StoreView) -> bool {
    exists|k: int| 0 <= k < s.jobs.len() && (#[trigger] s.jobs[k]).id.len() == drawn_id_len()
}

/// The store after the submission of a job under an id that is not taken.
pub open spec fn submit_step(
    s: StoreView,
    id: Seq<char>,
    image: Seq<char>,
    priority: int,
    max_attempts: nat,
) -> StoreView {
    StoreView { jobs: s.jobs.push(fresh_job(id, image, priority, max_attempts, s.now)), ..s }
}

/// Whether the record `j` can be put behind the jobs that are stored: it is
/// well formed, its id is not taken, and it is dated neither before the job
/// stored last nor after the clock.
pub open spec fn can_restore(s: StoreView, j: JobView) -> bool {
    &&& job_wf(j)
    &&& job_index(s.jobs, j.id) is None
    &&& s.jobs.len() > 0 ==> s.jobs.last().created_at <= j.created_at
    &&& j.created_at <= s.now
}

/// The store with the record `j` behind the jobs that are stored.
pub open spec fn restore_step(s: StoreView, j: JobView) -> StoreView {
    StoreView { jobs: s.jobs.push(j), ..s }
}

// ----------------------------------------------------------------- claim

/// A job that may be handed to a worker at `now`: one that waits, or one
/// that runs without a lease or under a lease that has run out.
pub open spec fn claimable(j: JobView, now: int) -> bool {
    j.status == JobStatus::Queued || (j.status == JobStatus::Running && (j.lease_expires_at is None
        || j.lease_expires_at->0 < now))
}

/// A worker's lease on `j` is in force at `now`.
pub open spec fn lease_in_force(j: JobView, now: int) -> bool {
    j.status == JobStatus::Running && j.lease_expires_at is Some && j.lease_expires_at->0 >= now
}

/// `a` is to be claimed before `b`: higher priority first, older first
/// among equals.
pub open spec fn outranks(a: JobView, b: JobView) -> bool {
    a.priority > b.priority || (a.priority == b.priority && a.created_at < b.created_at)
}

/// Position of the job to claim among the first `n`, or `-1` when none of
/// them is claimable. Of two jobs of equal rank the one submitted first
/// wins.
pub open spec fn best_claim(jobs: Seq<JobView>, now: int, n: int) -> int
    decreases n,
{
    if n <= 0 || n > jobs.len() {
        -1
    } else {
        let prev = best_claim(jobs, now, n - 1);
        if claimable(jobs[n - 1], now) && (prev < 0 || outranks(jobs[n - 1], jobs[prev])) {
            n - 1
        } else {
            prev
        }
    }
}

/// Position of the job that the next claim takes, if any job is claimable.
pub open spec fn next_claim(s: StoreView) -> Option<int> {
    let i = best_claim(s.jobs, s.now, s.jobs.len() as int);
    if i < 0 {
        None
    } else {
        Some(i)
    }
}

/// The record of `j` once it has been claimed at `now` for `lease_secs`.
pub open spec fn claimed(j: JobView, now: int, lease_secs: int) -> JobView {
    JobView {
        status: JobStatus::Running,
        started_at: first_present(j.started_at, Some(now)),
        updated_at: Some(now),
        lease_expires_at: Some(lease_end(now, lease_secs)),
        ..j
    }
}

/// The store after a claim.
pub open spec fn claim_step(s: StoreView, lease_secs: int) -> StoreView {
    match next_claim(s) {
        Some(i) => with_job(s, i, claimed(s.jobs[i], s.now, lease_secs)),
        None => s,
    }
}

/// What a claim hands to the worker: the id and the image of the job taken.
pub open spec fn claim_result(s: StoreView) -> Option<(Seq<char>, Seq<char>)> {
    match next_claim(s) {
        Some(i) => Some((s.jobs[i].id, s.jobs[i].image)),
        None => None,
    }
}

// ------------------------------------------------------------- heartbeat

/// Position of the job that a heartbeat for `id` refreshes: the job must be
/// stored and running.
pub open spec fn beating(s: StoreView, id: Seq<char>) -> Option<int> {
    match job_index(s.jobs, id) {
        Some(i) => if s.jobs[i].status == JobStatus::Running {
            Some(i)
        } else {
            None
        },
        None => None,
    }
}

/// The record of `j` after a heartbeat at `now`.
pub open spec fn refreshed(j: JobView, now: int, lease_secs: int) -> JobView {
    JobView {
        last_heartbeat: Some(now),
        updated_at: Some(now),
        lease_expires_at: Some(lease_end(now, lease_secs)),
        ..j
    }
}

/// The store after a heartbeat for `id`.
pub open spec fn heartbeat_step(s: StoreView, id: Seq<char>, lease_secs: int) -> StoreView {
    match beating(s, id) {
        Some(i) => with_job(s, i, refreshed(s.jobs[i], s.now, lease_secs)),
        None => s,
    }
}

// -------------------------------------------------------------- outcomes

/// Position of the job that an outcome for `id` is written to: the job must
/// be stored and not finished yet.
pub open spec fn open_job(s: StoreView, id: Seq<char>) -> Option<int> {
    match job_index(s.jobs, id) {
        Some(i) => if s.jobs[i].status.is_terminal() {
            None
        } else {
            Some(i)
        },
        None => None,
    }
}

/// The record of `j` once it has completed at `now`.
pub open spec fn completed(j: JobView, now: int, result: Option<Seq<char>>) -> JobView {
    JobView {
        status: JobStatus::Completed,
        result: first_present(result, j.result),
        updated_at: Some(now),
        finished_at: Some(now),
        lease_expires_at: None,
        ..j
    }
}

/// The store after the completion of `id`.
pub open spec fn complete_step(s: StoreView, id: Seq<char>, result: Option<Seq<char>>) -> StoreView {
    match open_job(s, id) {
        Some(i) => with_job(s, i, completed(s.jobs[i], s.now, result)),
        None => s,
    }
}

/// The record of `j` once an attempt at it has failed at `now`.
pub open spec fn failed(j: JobView, now: int, detail: Seq<char>) -> JobView {
    JobView {
        status: JobStatus::Failed,
        error_detail: Some(detail),
        updated_at: Some(now),
        finished_at: Some(now),
        retry_count: bumped(j.retry_count),
        lease_expires_at: None,
        ..j
    }
}

/// The store after the failure of `id`.
pub open spec fn fail_step(s: StoreView, id: Seq<char>, detail: Seq<char>) -> StoreView {
    match open_job(s, id) {
        Some(i) => with_job(s, i, failed(s.jobs[i], s.now, detail)),
        None => s,
    }
}

/// The record of `j` once it was marked failed at `now` without counting an
/// attempt.
pub open spec fn errored(j: JobView, now: int, detail: Seq<char>) -> JobView {
    JobView {
        status: JobStatus::Failed,
        error_detail: Some(detail),
        finished_at: Some(now),
        lease_expires_at: None,
        ..j
    }
}

/// The store after `id` was marked failed.
pub open spec fn error_step(s: StoreView, id: Seq<char>, detail: Seq<char>) -> StoreView {
    match open_job(s, id) {
        Some(i) => with_job(s, i, errored(s.jobs[i], s.now, detail)),
        None => s,
    }
}

/// The record of `j` once its status was set to `status` at `now`.
pub open spec fn restated(
    j: JobView,
    now: int,
    status: JobStatus,
    result: Option<Seq<char>>,
) -> JobView {
    JobView {
        status,
        result: first_present(result, j.result),
        finished_at: if status.is_terminal() {
            Some(now)
        } else {
            j.finished_at
        },
        lease_expires_at: if status == JobStatus::Running {
            j.lease_expires_at
        } else {
            None
        },
        ..j
    }
}

/// The store after the status of `id` was set.
pub open spec fn status_step(
    s: StoreView,
    id: Seq<char>,
    status: JobStatus,
    result: Option<Seq<char>>,
) -> StoreView {
    match open_job(s, id) {
        Some(i) => with_job(s, i, restated(s.jobs[i], s.now, status, result)),
        None => s,
    }
}

// ----------------------------------------------------------------- sweep

/// A job that the sweep gives up on at `now`: it runs under a lease that
/// has run out.
pub open spec fn stale(j: JobView, now: int) -> bool {
    j.status == JobStatus::Running && j.lease_expires_at is Some && j.lease_expires_at->0 < now
}

/// The record of a stale job after the sweep at `now`.
pub open spec fn recovered(j: JobView, now: int) -> JobView {
    JobView {
        status: JobStatus::Failed,
        error_detail: first_present(j.error_detail, Some(stale_detail())),
        updated_at: Some(now),
        finished_at: Some(now),
        lease_expires_at: None,
        ..j
    }
}

/// The record of any job after the sweep at `now`.
pub open spec fn swept(j: JobView, now: int) -> JobView {
    if stale(j, now) {
        recovered(j, now)
    } else {
        j
    }
}

/// The store after a sweep.
pub open spec fn sweep_step(s: StoreView) -> StoreView {
    StoreView { jobs: Seq::new(s.jobs.len(), |i: int| swept(s.jobs[i], s.now)), ..s }
}

/// How many of the first `n` jobs are stale at `now`.
pub open spec fn stale_count(jobs: Seq<JobView>, now: int, n: int) -> nat
    decreases n,
{
    if n <= 0 || n > jobs.len() {
        0
    } else {
        stale_count(jobs, now, n - 1) + if stale(jobs[n - 1], now) {
            1nat
        } else {
            0nat
        }
    }
}

// --------------------------------------------------------------- listing

/// The first `n` items of `s`, last first.
pub open spec fn newest_first<T>(s: Seq<T>, n: int) -> Seq<T>
    decreases n,
{
    if n <= 0 || n > s.len() {
        Seq::empty()
    } else {
        seq![s[n - 1]] + newest_first(s, n - 1)
    }
}

// --------------------------------------------------------------- metrics

/// Position of the fact about `key` of `job_id` among the first `n`
/// metrics, or `-1`.
pub open spec fn metric_index(
    metrics: Seq<MetricView>,
    job_id: Seq<char>,
    key: Seq<char>,
    n: int,
) -> int
    decreases n,
{
    if n <= 0 || n > metrics.len() {
        -1
    } else if metrics[n - 1].job_id == job_id && metrics[n - 1].key == key {
        n - 1
    } else {
        metric_index(metrics, job_id, key, n - 1)
    }
}

/// The fact that a write of `key` for `job_id` leaves behind: the new
/// value, and the unit and labels given now or, failing that, before.
pub open spec fn written_fact(
    s: StoreView,
    job_id: Seq<char>,
    key: Seq<char>,
    value_bits: u64,
    unit: Option<Seq<char>>,
    labels_json: Option<Seq<char>>,
) -> MetricView {
    let at = metric_index(s.metrics, job_id, key, s.metrics.len() as int);
    if at >= 0 {
        MetricView {
            job_id,
            key,
            value_bits: Some(value_bits),
            unit: first_present(unit, s.metrics[at].unit),
            labels_json: first_present(labels_json, s.metrics[at].labels_json),
            created_at: s.now,
        }
    } else {
        MetricView {
            job_id,
            key,
            value_bits: Some(value_bits),
            unit,
            labels_json,
            created_at: s.now,
        }
    }
}

/// The store after a metric was written for a stored job: the fact is the
/// most recent one, and an earlier fact about the same key is gone.
pub open spec fn metric_step(
    s: StoreView,
    job_id: Seq<char>,
    key: Seq<char>,
    value_bits: u64,
    unit: Option<Seq<char>>,
    labels_json: Option<Seq<char>>,
) -> StoreView {
    let at = metric_index(s.metrics, job_id, key, s.metrics.len() as int);
    let fact = written_fact(s, job_id, key, value_bits, unit, labels_json);
    let kept = if at >= 0 {
        s.metrics.remove(at)
    } else {
        s.metrics
    };
    StoreView { metrics: kept.push(fact), ..s }
}

/// Whether the fact `m` can be put behind the facts that are stored: its
/// job is stored, no fact about its key of its job is, and it is dated
/// neither before the fact written last nor after the clock.
pub open spec fn can_restore_fact(s: StoreView, m: MetricView) -> bool {
    &&& job_index(s.jobs, m.job_id) is Some
    &&& metric_index(s.metrics, m.job_id, m.key, s.metrics.len() as int) < 0
    &&& s.metrics.len() > 0 ==> s.metrics.last().created_at <= m.created_at
    &&& m.created_at <= s.now
}

/// The store with the fact `m` behind the facts that are stored.
pub open spec fn restore_fact_step(s: StoreView, m: MetricView) -> StoreView {
    StoreView { metrics: s.metrics.push(m), ..s }
}

/// The facts about `job_id` among the first `n` metrics, most recent first.
pub open spec fn facts_of(metrics: Seq<MetricView>, job_id: Seq<char>, n: int) -> Seq<MetricView>
    decreases n,
{
    if n <= 0 || n > metrics.len() {
        Seq::empty()
    } else if metrics[n - 1].job_id == job_id {
        seq![metrics[n - 1]] + facts_of(metrics, job_id, n - 1)
    } else {
        facts_of(metrics, job_id, n - 1)
    }
}

/// The most recent facts, most recent first: at most `limit` of them, or
/// all of them under a negative `limit`.
pub open spec fn recent_facts(metrics: Seq<MetricView>, limit: int) -> Seq<MetricView> {
    let all = newest_first(metrics, metrics.len() as int);
    if limit < 0 || limit >= all.len() {
        all
    } else {
        all.subrange(0, limit)
    }
}

} // verus!

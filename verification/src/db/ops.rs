//! The operations on jobs: submission, the claim, the heartbeat, the two
//! outcomes, the sweep and the lookups.

use vstd::prelude::*;
use crate::db::job::{
    copy_text, summary_of, text_of, Job, JobStatus, JobSummary, JobSummaryView, JobView,
};
use crate::db::model::{
    best_claim, bumped, claim_result, claim_step, claimable, claimed, complete_step, completed,
    error_step, errored, fail_step, failed, first_present, fresh_job, heartbeat_step, job_index,
    job_wf, job_with_id, lease_end, newest_first, open_job, outranks, refreshed, restated, stale,
    stale_count, status_step, store_wf, submit_step, sweep_step, swept, StoreView,
};
use crate::db::store::{lemma_job_index, lemma_with_job_wf, JobStore, StoreError};

verus! {

/// The text held by an optional string slice.
pub open spec fn slice_text(o: Option<&str>) -> Option<Seq<char>> {
    match o {
        Some(s) => Some(s@),
        None => None,
    }
}

/// The texts held by an optional pair of strings.
pub open spec fn pair_text(o: Option<(String, String)>) -> Option<(Seq<char>, Seq<char>)> {
    match o {
        Some(p) => Some((p.0@, p.1@)),
        None => None,
    }
}

/// The content of an optional job.
pub open spec fn job_content(o: Option<Job>) -> Option<JobView> {
    match o {
        Some(j) => Some(j@),
        None => None,
    }
}

/// The contents of a list of summaries.
pub open spec fn summary_contents(v: Seq<JobSummary>) -> Seq<JobSummaryView> {
    Seq::new(v.len(), |i: int| v[i]@)
}

/// What a listing shows of each job, in the order of the jobs.
pub open spec fn summaries(jobs: Seq<JobView>) -> Seq<JobSummaryView> {
    Seq::new(jobs.len(), |i: int| summary_of(jobs[i]))
}

/// The instant `lease_secs` after `now`, kept within what a timestamp can
/// hold.
pub fn lease_deadline(now: i64, lease_secs: i64) -> (r: i64)
    ensures
        r == lease_end(now as int, lease_secs as int),
{
    match now.checked_add(lease_secs) {
        Some(v) => v,
        None => if lease_secs > 0 {
            i64::MAX
        } else {
            i64::MIN
        },
    }
}

/// Whether `job` may be handed to a worker at `now`.
pub fn is_claimable(job: &Job, now: i64) -> (r: bool)
    ensures
        r == claimable(job@, now as int),
{
    match job.status {
        JobStatus::Queued => true,
        JobStatus::Running => match job.lease_expires_at {
            Some(e) => e < now,
            None => true,
        },
        _ => false,
    }
}

/// Whether `a` is to be claimed before `b`.
pub fn ranks_over(a: &Job, b: &Job) -> (r: bool)
    ensures
        r == outranks(a@, b@),
{
    a.priority > b.priority || (a.priority == b.priority && a.created_at < b.created_at)
}

/// An owned copy of an optional string slice.
pub(crate) fn own_text(o: Option<&str>) -> (r: Option<String>)
    ensures
        text_of(r) == slice_text(o),
{
    match o {
        Some(s) => Some(s.to_owned()),
        None => None,
    }
}

/// The first of two optional strings that is present.
pub(crate) fn first_text(a: Option<String>, b: Option<String>) -> (r: Option<String>)
    ensures
        text_of(r) == first_present(text_of(a), text_of(b)),
{
    match a {
        Some(s) => Some(s),
        None => b,
    }
}

/// Submits a job under the id `id`, with a priority and a number of
/// attempts. The job waits in the queue, dated by the store's clock. An id
/// that is taken is refused and the store stays as it is.
pub fn insert_job_with(
    store: &mut JobStore,
    id: &str,
    image: &str,
    priority: i64,
    max_attempts: u64,
) -> (r: Result<(), StoreError>)
    requires
        old(store).wf(),
    ensures
        final(store).wf(),
        match r {
            Ok(_) => job_index(old(store)@.jobs, id@) is None && final(store)@ == submit_step(
                old(store)@,
                id@,
                image@,
                priority as int,
                max_attempts as nat,
            ),
            Err(e) => e == StoreError::DuplicateId && job_index(old(store)@.jobs, id@) is Some
                && final(store)@ == old(store)@,
        },
{
    match store.find_job(id) {
        Some(_) => Err(StoreError::DuplicateId),
        None => {
            let now = store.clock();
            let job = Job {
                id: id.to_owned(),
                image: image.to_owned(),
                status: JobStatus::Queued,
                result: None,
                error_detail: None,
                retry_count: 0,
                max_attempts,
                priority,
                created_at: now,
                started_at: None,
                updated_at: None,
                finished_at: None,
                lease_expires_at: None,
                last_heartbeat: None,
            };
            assert(job@ == fresh_job(id@, image@, priority as int, max_attempts as nat, now as int));
            store.push_job(job);
            proof {
                lemma_submit_wf(old(store)@, id@, image@, priority as int, max_attempts as nat);
            }
            Ok(())
        },
    }
}

/// Submits a job under the id `id` with priority 0 and three attempts.
pub fn insert_job_with_id(store: &mut JobStore, id: &str, image: &str) -> (r: Result<
    (),
    StoreError,
>)
    requires
        old(store).wf(),
    ensures
        final(store).wf(),
        match r {
            Ok(_) => job_index(old(store)@.jobs, id@) is None && final(store)@ == submit_step(
                old(store)@,
                id@,
                image@,
                0,
                3,
            ),
            Err(e) => e == StoreError::DuplicateId && job_index(old(store)@.jobs, id@) is Some
                && final(store)@ == old(store)@,
        },
{
    insert_job_with(store, id, image, 0, 3)
}

/// Puts back a record that was stored before, as it is. The record must be
/// well formed: only a running job carries a lease, and it has finished
/// exactly when its status is final. Its id must not be taken, and it must
/// be dated neither before the job stored last nor after the clock. Any
/// other record is refused and the store stays as it is.
pub fn restore_job(store: &mut JobStore, job: Job) -> (r: Result<(), StoreError>)
    requires
        old(store).wf(),
    ensures
        final(store).wf(),
        match r {
            Ok(_) => crate::db::model::can_restore(old(store)@, job@) && final(store)@
                == crate::db::model::restore_step(old(store)@, job@),
            Err(e) => {
                &&& !crate::db::model::can_restore(old(store)@, job@)
                &&& final(store)@ == old(store)@
                &&& e == if job_index(old(store)@.jobs, job.id@) is Some {
                    StoreError::DuplicateId
                } else {
                    StoreError::MalformedRecord
                }
            },
        },
{
    if store.find_job(job.id.as_str()).is_some() {
        return Err(StoreError::DuplicateId);
    }
    let lease_ok = match job.status {
        JobStatus::Running => true,
        _ => job.lease_expires_at.is_none(),
    };
    let finish_ok = job.finished_at.is_some() == job.status.terminal();
    let order_ok = match store.last_created_at() {
        Some(t) => t <= job.created_at,
        None => true,
    };
    if !lease_ok || !finish_ok || !order_ok || job.created_at > store.clock() {
        return Err(StoreError::MalformedRecord);
    }
    proof {
        lemma_restore_wf(store@, job@);
    }
    store.push_job(job);
    Ok(())
}

/// A store stays well formed when a record that can be restored is put
/// behind its jobs.
pub proof fn lemma_restore_wf(s: StoreView, j: JobView)
    requires
        store_wf(s),
        crate::db::model::can_restore(s, j),
    ensures
        store_wf(crate::db::model::restore_step(s, j)),
{
    let t = crate::db::model::restore_step(s, j);
    let n = s.jobs.len() as int;
    lemma_job_index(s.jobs, j.id);
    assert forall|a: int, b: int| 0 <= a < b < t.jobs.len() implies (#[trigger] t.jobs[a]).id != (
    #[trigger] t.jobs[b]).id by {
        if b < n {
            assert(s.jobs[a].id != s.jobs[b].id);
        } else {
            assert(s.jobs[a].id != j.id);
        }
    }
    assert forall|a: int, b: int| 0 <= a <= b < t.jobs.len() implies (
    #[trigger] t.jobs[a]).created_at <= (#[trigger] t.jobs[b]).created_at by {
        if b < n {
            assert(s.jobs[a].created_at <= s.jobs[b].created_at);
        } else if a < n {
            assert(s.jobs[a].created_at <= s.jobs[n - 1].created_at);
        }
    }
    assert forall|a: int| 0 <= a < t.jobs.len() implies (#[trigger] t.jobs[a]).created_at
        <= t.now by {
        if a < n {
            assert(s.jobs[a].created_at <= s.now);
        }
    }
    assert forall|a: int| 0 <= a < t.jobs.len() implies job_wf(#[trigger] t.jobs[a]) by {
        if a < n {
            assert(job_wf(s.jobs[a]));
        }
    }
    assert forall|k: int| 0 <= k < t.metrics.len() implies job_index(
        t.jobs,
        (#[trigger] t.metrics[k]).job_id,
    ) is Some by {
        let m = s.metrics[k].job_id;
        assert(job_index(s.jobs, m) is Some);
        lemma_job_index(s.jobs, m);
        lemma_job_index(t.jobs, m);
        let i = job_index(s.jobs, m)->0;
        assert(t.jobs[i].id == m);
    }
}

/// `uuid::Uuid::new_v4`, rendered by the id's `to_string`: an id drawn at
/// random, in its hyphenated form, which is thirty-six characters long.
/// Which id comes out is left open. The length is taken from the crate,
/// not proved here.
#[verifier::external_body]
fn fresh_job_id() -> (id: String)
    ensures
        id@.len() == 36,
{
    uuid::Uuid::new_v4().to_string()
}

/// Submits a job under an id drawn at random, with priority 0 and three
/// attempts, and returns the id. The submission succeeds unless the id
/// drawn is taken, which can only be where the store holds a job with an id
/// as long as a drawn one; it is then refused and the store stays as it is.
pub fn insert_job(store: &mut JobStore, image: &str) -> (r: Result<String, StoreError>)
    requires
        old(store).wf(),
    ensures
        final(store).wf(),
        !crate::db::model::may_collide(old(store)@) ==> r is Ok,
        match r {
            Ok(id) => id@.len() == crate::db::model::drawn_id_len() && job_index(
                old(store)@.jobs,
                id@,
            ) is None && final(store)@ == submit_step(old(store)@, id@, image@, 0, 3),
            Err(e) => e == StoreError::DuplicateId && crate::db::model::may_collide(old(store)@)
                && final(store)@ == old(store)@,
        },
{
    let id = fresh_job_id();
    match insert_job_with_id(store, id.as_str(), image) {
        Ok(_) => Ok(id),
        Err(e) => {
            proof {
                lemma_job_index(old(store)@.jobs, id@);
                let k = job_index(old(store)@.jobs, id@)->0;
                assert(old(store)@.jobs[k].id.len() == crate::db::model::drawn_id_len());
            }
            Err(e)
        },
    }
}

/// A store stays well formed when a job is submitted under a fresh id.
pub proof fn lemma_submit_wf(
    s: StoreView,
    id: Seq<char>,
    image: Seq<char>,
    priority: int,
    max_attempts: nat,
)
    requires
        store_wf(s),
        job_index(s.jobs, id) is None,
    ensures
        store_wf(submit_step(s, id, image, priority, max_attempts)),
{
    let t = submit_step(s, id, image, priority, max_attempts);
    let n = s.jobs.len() as int;
    lemma_job_index(s.jobs, id);
    assert forall|a: int, b: int| 0 <= a < b < t.jobs.len() implies (#[trigger] t.jobs[a]).id != (
    #[trigger] t.jobs[b]).id by {
        if b < n {
            assert(s.jobs[a].id != s.jobs[b].id);
        } else {
            assert(s.jobs[a].id != id);
        }
    }
    assert forall|a: int, b: int| 0 <= a <= b < t.jobs.len() implies (
    #[trigger] t.jobs[a]).created_at <= (#[trigger] t.jobs[b]).created_at by {
        if b < n {
            assert(s.jobs[a].created_at <= s.jobs[b].created_at);
        } else if a < n {
            assert(s.jobs[a].created_at <= s.now);
        }
    }
    assert forall|a: int| 0 <= a < t.jobs.len() implies (#[trigger] t.jobs[a]).created_at
        <= t.now by {
        if a < n {
            assert(s.jobs[a].created_at <= s.now);
        }
    }
    assert forall|a: int| 0 <= a < t.jobs.len() implies job_wf(#[trigger] t.jobs[a]) by {
        if a < n {
            assert(job_wf(s.jobs[a]));
        }
    }
    assert forall|k: int| 0 <= k < t.metrics.len() implies job_index(
        t.jobs,
        (#[trigger] t.metrics[k]).job_id,
    ) is Some by {
        let m = s.metrics[k].job_id;
        assert(job_index(s.jobs, m) is Some);
        lemma_job_index(s.jobs, m);
        lemma_job_index(t.jobs, m);
        let i = job_index(s.jobs, m)->0;
        assert(t.jobs[i].id == m);
    }
}

/// Hands the best claimable job to the caller: the one of highest
/// priority, the oldest among those, the first submitted among those. The
/// job runs from now on under a lease of `lease_secs` seconds; its start is
/// recorded if it never started before. Without a claimable job the store
/// stays as it is and nothing is returned.
pub fn claim_next_job(store: &mut JobStore, lease_secs: i64) -> (r: Option<(String, String)>)
    requires
        old(store).wf(),
    ensures
        final(store).wf(),
        final(store)@ == claim_step(old(store)@, lease_secs as int),
        pair_text(r) == claim_result(old(store)@),
{
    let now = store.clock();
    let n = store.job_count();
    let mut best: Option<usize> = None;
    let mut i: usize = 0;
    while i < n
        invariant
            i <= n,
            n == store@.jobs.len(),
            now == store@.now,
            store@ == old(store)@,
            match best {
                Some(b) => b < i && best_claim(store@.jobs, now as int, i as int) == b,
                None => best_claim(store@.jobs, now as int, i as int) == -1,
            },
        decreases n - i,
    {
        let candidate = store.job_at(i);
        if is_claimable(candidate, now) {
            let better = match best {
                Some(b) => ranks_over(candidate, store.job_at(b)),
                None => true,
            };
            if better {
                best = Some(i);
            }
        }
        i = i + 1;
    }
    match best {
        None => None,
        Some(b) => {
            let held = store.job_at(b).duplicate();
            let id = held.id.clone();
            let image = held.image.clone();
            let started = match held.started_at {
                Some(t) => Some(t),
                None => Some(now),
            };
            let taken = Job {
                status: JobStatus::Running,
                started_at: started,
                updated_at: Some(now),
                lease_expires_at: Some(lease_deadline(now, lease_secs)),
                ..held
            };
            proof {
                let s = old(store)@;
                lemma_best_claim(s.jobs, s.now, s.jobs.len() as int);
                assert(job_wf(s.jobs[b as int]));
                assert(taken@ == claimed(s.jobs[b as int], s.now, lease_secs as int));
                lemma_with_job_wf(s, b as int, taken@);
            }
            store.replace_job(b, taken);
            Some((id, image))
        },
    }
}

/// The job that `best_claim` picks is claimable and nothing claimable is to
/// be claimed before it; where it picks none, nothing is claimable.
pub proof fn lemma_best_claim(jobs: Seq<JobView>, now: int, n: int)
    requires
        0 <= n <= jobs.len(),
    ensures
        -1 <= best_claim(jobs, now, n) < n,
        best_claim(jobs, now, n) >= 0 ==> claimable(jobs[best_claim(jobs, now, n)], now),
        forall|k: int|
            0 <= k < n && claimable(#[trigger] jobs[k], now) ==> {
                let b = best_claim(jobs, now, n);
                &&& b >= 0
                &&& !outranks(jobs[k], jobs[b])
                &&& k < b ==> outranks(jobs[b], jobs[k])
            },
    decreases n,
{
    if n > 0 {
        lemma_best_claim(jobs, now, n - 1);
    }
}

/// Extends the lease of a running job to `lease_secs` seconds from now and
/// records the heartbeat. A job that is not stored, or no longer runs, is
/// left as it is. Says whether the lease was extended.
pub fn heartbeat_job(store: &mut JobStore, job_id: &str, lease_secs: i64) -> (r: bool)
    requires
        old(store).wf(),
    ensures
        final(store).wf(),
        final(store)@ == heartbeat_step(old(store)@, job_id@, lease_secs as int),
        r == crate::db::model::beating(old(store)@, job_id@) is Some,
{
    let now = store.clock();
    match store.find_job(job_id) {
        None => false,
        Some(i) => {
            let held = store.job_at(i).duplicate();
            match held.status {
                JobStatus::Running => {
                    let kept = Job {
                        last_heartbeat: Some(now),
                        updated_at: Some(now),
                        lease_expires_at: Some(lease_deadline(now, lease_secs)),
                        ..held
                    };
                    proof {
                        let s = old(store)@;
                        assert(job_wf(s.jobs[i as int]));
                        assert(kept@ == refreshed(s.jobs[i as int], s.now, lease_secs as int));
                        lemma_with_job_wf(s, i as int, kept@);
                    }
                    store.replace_job(i, kept);
                    true
                },
                _ => false,
            }
        },
    }
}

/// Position of the job `job_id` if it is stored and not finished yet.
fn find_open_job(store: &JobStore, job_id: &str) -> (r: Option<usize>)
    ensures
        match r {
            Some(i) => open_job(store@, job_id@) == Some(i as int) && i < store@.jobs.len(),
            None => open_job(store@, job_id@) is None,
        },
{
    match store.find_job(job_id) {
        None => None,
        Some(i) => if store.job_at(i).status.terminal() {
            None
        } else {
            Some(i)
        },
    }
}

/// Records that the job completed, with its result if one is given. A job
/// that is not stored, or is finished already, is left as it is. Says
/// whether the completion was recorded.
pub fn complete_job(store: &mut JobStore, job_id: &str, result: Option<&str>) -> (r: bool)
    requires
        old(store).wf(),
    ensures
        final(store).wf(),
        final(store)@ == complete_step(old(store)@, job_id@, slice_text(result)),
        r == open_job(old(store)@, job_id@) is Some,
{
    let now = store.clock();
    match find_open_job(store, job_id) {
        None => false,
        Some(i) => {
            let held = store.job_at(i).duplicate();
            let earlier = copy_text(&held.result);
            let done = Job {
                status: JobStatus::Completed,
                result: first_text(own_text(result), earlier),
                updated_at: Some(now),
                finished_at: Some(now),
                lease_expires_at: None,
                ..held
            };
            proof {
                let s = old(store)@;
                assert(done@ == completed(s.jobs[i as int], s.now, slice_text(result)));
                lemma_with_job_wf(s, i as int, done@);
            }
            store.replace_job(i, done);
            true
        },
    }
}

/// A retry count one higher, kept within what the counter can hold.
fn bump(retry_count: u64) -> (r: u64)
    ensures
        r == bumped(retry_count as nat),
{
    if retry_count == u64::MAX {
        retry_count
    } else {
        retry_count + 1
    }
}

/// Records that an attempt at the job failed: the job is failed for good,
/// with `err` as its error detail and one more retry counted. A job that is
/// not stored, or is finished already, is left as it is. Says whether the
/// failure was recorded.
pub fn fail_job(store: &mut JobStore, job_id: &str, err: &str) -> (r: bool)
    requires
        old(store).wf(),
    ensures
        final(store).wf(),
        final(store)@ == fail_step(old(store)@, job_id@, err@),
        r == open_job(old(store)@, job_id@) is Some,
{
    let now = store.clock();
    match find_open_job(store, job_id) {
        None => false,
        Some(i) => {
            let held = store.job_at(i).duplicate();
            let count = bump(held.retry_count);
            let done = Job {
                status: JobStatus::Failed,
                error_detail: Some(err.to_owned()),
                updated_at: Some(now),
                finished_at: Some(now),
                retry_count: count,
                lease_expires_at: None,
                ..held
            };
            proof {
                let s = old(store)@;
                assert(done@ == failed(s.jobs[i as int], s.now, err@));
                lemma_with_job_wf(s, i as int, done@);
            }
            store.replace_job(i, done);
            true
        },
    }
}

/// Marks the job failed with `error_detail`, without counting an attempt. A
/// job that is not stored, or is finished already, is left as it is. Says
/// whether the job was marked.
pub fn set_job_error(store: &mut JobStore, id: &str, error_detail: &str) -> (r: bool)
    requires
        old(store).wf(),
    ensures
        final(store).wf(),
        final(store)@ == error_step(old(store)@, id@, error_detail@),
        r == open_job(old(store)@, id@) is Some,
{
    let now = store.clock();
    match find_open_job(store, id) {
        None => false,
        Some(i) => {
            let held = store.job_at(i).duplicate();
            let done = Job {
                status: JobStatus::Failed,
                error_detail: Some(error_detail.to_owned()),
                finished_at: Some(now),
                lease_expires_at: None,
                ..held
            };
            proof {
                let s = old(store)@;
                assert(done@ == errored(s.jobs[i as int], s.now, error_detail@));
                lemma_with_job_wf(s, i as int, done@);
            }
            store.replace_job(i, done);
            true
        },
    }
}

/// Sets the status of a job that is not finished yet, and its result if one
/// is given. A final status dates the end of the job; any status but
/// `Running` drops the lease. A job that is not stored, or is finished
/// already, is left as it is. Says whether the status was set.
pub fn update_job_status(
    store: &mut JobStore,
    id: &str,
    status: JobStatus,
    result: Option<&str>,
) -> (r: bool)
    requires
        old(store).wf(),
    ensures
        final(store).wf(),
        final(store)@ == status_step(old(store)@, id@, status, slice_text(result)),
        r == open_job(old(store)@, id@) is Some,
{
    let now = store.clock();
    match find_open_job(store, id) {
        None => false,
        Some(i) => {
            let held = store.job_at(i).duplicate();
            let earlier = copy_text(&held.result);
            let finished = if status.terminal() {
                Some(now)
            } else {
                held.finished_at
            };
            let lease = match status {
                JobStatus::Running => held.lease_expires_at,
                _ => None,
            };
            let set = Job {
                status,
                result: first_text(own_text(result), earlier),
                finished_at: finished,
                lease_expires_at: lease,
                ..held
            };
            proof {
                let s = old(store)@;
                assert(job_wf(s.jobs[i as int]));
                assert(set@ == restated(s.jobs[i as int], s.now, status, slice_text(result)));
                lemma_with_job_wf(s, i as int, set@);
            }
            store.replace_job(i, set);
            true
        },
    }
}

/// Whether the sweep gives up on `job` at `now`.
pub fn is_stale(job: &Job, now: i64) -> (r: bool)
    ensures
        r == stale(job@, now as int),
{
    match job.status {
        JobStatus::Running => match job.lease_expires_at {
            Some(e) => e < now,
            None => false,
        },
        _ => false,
    }
}

/// The sweep: every job that runs under a lease that has run out is failed
/// for good, with a note that its lease expired unless it carries an error
/// detail already. All other jobs stay as they are. Returns the number of
/// jobs it failed.
pub fn recover_stale_jobs(store: &mut JobStore) -> (count: usize)
    requires
        old(store).wf(),
    ensures
        final(store).wf(),
        final(store)@ == sweep_step(old(store)@),
        count == stale_count(old(store)@.jobs, old(store)@.now, old(store)@.jobs.len() as int),
{
    let now = store.clock();
    let n = store.job_count();
    let mut count: usize = 0;
    let mut i: usize = 0;
    while i < n
        invariant
            i <= n,
            n == old(store)@.jobs.len(),
            now == old(store)@.now,
            store.wf(),
            store@.now == old(store)@.now,
            store@.metrics == old(store)@.metrics,
            store@.jobs.len() == n,
            forall|k: int| 0 <= k < i ==> store@.jobs[k] == swept(old(store)@.jobs[k], now as int),
            forall|k: int| i <= k < n ==> store@.jobs[k] == old(store)@.jobs[k],
            count == stale_count(old(store)@.jobs, now as int, i as int),
            count <= i,
        decreases n - i,
    {
        if is_stale(store.job_at(i), now) {
            let held = store.job_at(i).duplicate();
            let earlier = copy_text(&held.error_detail);
            let note = Some("lease expired / worker died".to_owned());
            let done = Job {
                status: JobStatus::Failed,
                error_detail: first_text(earlier, note),
                updated_at: Some(now),
                finished_at: Some(now),
                lease_expires_at: None,
                ..held
            };
            proof {
                let s = store@;
                assert(done@ == crate::db::model::recovered(s.jobs[i as int], s.now));
                lemma_with_job_wf(s, i as int, done@);
            }
            store.replace_job(i, done);
            count = count + 1;
        }
        i = i + 1;
    }
    assert(store@.jobs =~= sweep_step(old(store)@).jobs);
    count
}

/// `chrono::Utc::now`, read by the instant's `timestamp`: the wall clock in
/// whole seconds since the start of 1970. Nothing is promised of the
/// reading, and nothing is proved of the call.
#[verifier::external_body]
fn wall_clock_seconds() -> (t: i64) {
    chrono::Utc::now().timestamp()
}

/// Sets the store's clock by the wall clock and returns the reading. The
/// store's clock never runs backwards: an earlier reading leaves it where
/// it is.
pub fn sync_clock(store: &mut JobStore) -> (t: i64)
    requires
        old(store).wf(),
    ensures
        final(store).wf(),
        final(store)@ == crate::db::model::clock_step(old(store)@, t as int),
{
    let t = wall_clock_seconds();
    store.advance_clock(t);
    t
}

/// The job stored under `id`, if there is one.
pub fn get_job_by_id(store: &JobStore, id: &str) -> (r: Option<Job>)
    ensures
        job_content(r) == job_with_id(store@, id@),
{
    match store.find_job(id) {
        Some(i) => Some(store.job_at(i).duplicate()),
        None => None,
    }
}

/// Id, image and status of every job, the most recently submitted first.
pub fn list_jobs(store: &JobStore) -> (r: Vec<JobSummary>)
    ensures
        summary_contents(r@) == newest_first(
            summaries(store@.jobs),
            store@.jobs.len() as int,
        ),
{
    let n = store.job_count();
    let mut out: Vec<JobSummary> = Vec::new();
    let mut i: usize = n;
    let ghost all = summaries(store@.jobs);
    assert(summary_contents(out@) =~= Seq::<JobSummaryView>::empty());
    while i > 0
        invariant
            i <= n,
            n == store@.jobs.len(),
            all == summaries(store@.jobs),
            summary_contents(out@) + newest_first(all, i as int) == newest_first(all, n as int),
        decreases i,
    {
        let job = store.job_at(i - 1);
        let item = JobSummary { id: job.id.clone(), image: job.image.clone(), status: job.status };
        let ghost before = summary_contents(out@);
        out.push(item);
        proof {
            assert(item@ == all[i - 1]);
            assert(summary_contents(out@) =~= before.push(all[i - 1]));
            assert(before.push(all[i - 1]) + newest_first(all, i - 1) =~= before + newest_first(
                all,
                i as int,
            ));
        }
        i = i - 1;
    }
    assert(summary_contents(out@) + newest_first(all, 0) =~= summary_contents(out@));
    out
}

} // verus!

//! What holds of the store whatever is done with it: a lease in force keeps
//! a job from being claimed, a finished job stays finished, and the sweep
//! takes every abandoned job out of the running state.

use vstd::prelude::*;
use crate::db::job::{JobStatus, JobView};
use crate::db::model::{
    claim_result, claim_step, claimable, claimed, clock_step, complete_step,
    error_step, fail_step, heartbeat_step, job_index, job_with_id, lease_end, lease_in_force,
    next_claim, open_job, stale, status_step, store_wf, sweep_step, with_job, StoreView,
};
use crate::db::ops::lemma_best_claim;
use crate::db::store::{lemma_job_index, lemma_job_index_same_ids};

verus! {

/// In a well-formed store the job at position `i` is the one found under
/// its id.
pub proof fn lemma_index_of_own_id(s: StoreView, i: int)
    requires
        store_wf(s),
        0 <= i < s.jobs.len(),
    ensures
        job_index(s.jobs, s.jobs[i].id) == Some(i),
        job_with_id(s, s.jobs[i].id) == Some(s.jobs[i]),
{
    lemma_job_index(s.jobs, s.jobs[i].id);
    let found = job_index(s.jobs, s.jobs[i].id);
    assert(found is Some);
    let k = found->0;
    if k < i {
        assert(s.jobs[k].id != s.jobs[i].id);
    }
}

/// Replacing the job at position `i` by a record with the same id leaves
/// every lookup by id where it was.
pub proof fn lemma_lookup_after_replace(s: StoreView, i: int, j: JobView, id: Seq<char>)
    requires
        0 <= i < s.jobs.len(),
        j.id == s.jobs[i].id,
    ensures
        job_index(with_job(s, i, j).jobs, id) == job_index(s.jobs, id),
{
    lemma_job_index_same_ids(s.jobs, with_job(s, i, j).jobs, id, 0);
}

/// The job that a claim takes was free to take: it waited, or it ran
/// without a lease in force. After the claim it runs under a lease that
/// ends `lease_secs` seconds from now, and every other job is as before.
pub proof fn law_claim_takes_a_free_job(s: StoreView, lease_secs: int)
    requires
        store_wf(s),
        claim_result(s) is Some,
    ensures
        ({
            let id = claim_result(s).unwrap().0;
            let before = job_with_id(s, id);
            let after = job_with_id(claim_step(s, lease_secs), id);
            &&& before is Some
            &&& claimable(before->0, s.now)
            &&& !lease_in_force(before->0, s.now)
            &&& claim_result(s).unwrap().1 == before->0.image
            &&& after == Some(claimed(before->0, s.now, lease_secs))
            &&& after->0.status == JobStatus::Running
            &&& after->0.lease_expires_at == Some(lease_end(s.now, lease_secs))
            &&& forall|other: Seq<char>|
                other != id ==> job_with_id(claim_step(s, lease_secs), other) == job_with_id(
                    s,
                    other,
                )
        }),
{
    let i = next_claim(s)->0;
    let t = claim_step(s, lease_secs);
    let id = s.jobs[i].id;
    lemma_best_claim(s.jobs, s.now, s.jobs.len() as int);
    lemma_index_of_own_id(s, i);
    lemma_lookup_after_replace(s, i, claimed(s.jobs[i], s.now, lease_secs), id);
    assert forall|other: Seq<char>| other != id implies job_with_id(t, other) == job_with_id(
        s,
        other,
    ) by {
        lemma_lookup_after_replace(s, i, claimed(s.jobs[i], s.now, lease_secs), other);
        lemma_job_index(s.jobs, other);
    }
}

/// At most one claim: a job whose lease is in force is never handed out.
/// Whatever was done to the store before, a claim returns the id of no job
/// that runs under a lease that has not run out.
pub proof fn law_leased_job_is_not_claimed(s: StoreView, id: Seq<char>)
    requires
        store_wf(s),
        job_with_id(s, id) is Some,
        lease_in_force(job_with_id(s, id)->0, s.now),
    ensures
        claim_result(s) is Some ==> claim_result(s).unwrap().0 != id,
{
    if claim_result(s) is Some {
        let i = next_claim(s)->0;
        lemma_best_claim(s.jobs, s.now, s.jobs.len() as int);
        lemma_index_of_own_id(s, i);
    }
}

/// At most one claim, for two claims in a row: while the lease of the first
/// claim is in force, a second claim, at whatever later instant `t`, takes
/// another job or none.
pub proof fn law_no_double_claim(s: StoreView, first_lease: int, t: int)
    requires
        store_wf(s),
        claim_result(s) is Some,
        t <= lease_end(s.now, first_lease),
        s.now <= lease_end(s.now, first_lease),
    ensures
        ({
            let later = clock_step(claim_step(s, first_lease), t);
            claim_result(later) is Some ==> claim_result(later).unwrap().0 != claim_result(s).unwrap().0
        }),
{
    let i = next_claim(s)->0;
    let held = claim_step(s, first_lease);
    let later = clock_step(held, t);
    lemma_best_claim(s.jobs, s.now, s.jobs.len() as int);
    law_claim_step_wf(s, first_lease);
    law_clock_step_wf(held, t);
    lemma_index_of_own_id(later, i);
    assert(lease_in_force(later.jobs[i], later.now));
    law_leased_job_is_not_claimed(later, s.jobs[i].id);
}

/// A claim keeps the store well formed.
pub proof fn law_claim_step_wf(s: StoreView, lease_secs: int)
    requires
        store_wf(s),
    ensures
        store_wf(claim_step(s, lease_secs)),
{
    if next_claim(s) is Some {
        let i = next_claim(s)->0;
        lemma_best_claim(s.jobs, s.now, s.jobs.len() as int);
        assert(crate::db::model::job_wf(s.jobs[i]));
        crate::db::store::lemma_with_job_wf(s, i, claimed(s.jobs[i], s.now, lease_secs));
    }
}

/// Moving the clock keeps the store well formed.
pub proof fn law_clock_step_wf(s: StoreView, t: int)
    requires
        store_wf(s),
    ensures
        store_wf(clock_step(s, t)),
{
    let r = clock_step(s, t);
    assert forall|i: int| 0 <= i < r.jobs.len() implies (#[trigger] r.jobs[i]).created_at
        <= r.now by {
        assert(s.jobs[i].created_at <= s.now);
    }
    assert forall|i: int| 0 <= i < r.metrics.len() implies (#[trigger] r.metrics[i]).created_at
        <= r.now by {
        assert(s.metrics[i].created_at <= s.now);
    }
}

/// Finalizing is idempotent: on a job that is finished already, recording a
/// completion, a failure or an error, or setting a status, changes nothing
/// at all.
pub proof fn law_finalize_is_idempotent(
    s: StoreView,
    id: Seq<char>,
    result: Option<Seq<char>>,
    detail: Seq<char>,
    status: JobStatus,
)
    requires
        job_with_id(s, id) is Some,
        job_with_id(s, id)->0.status.is_terminal(),
    ensures
        complete_step(s, id, result) == s,
        fail_step(s, id, detail) == s,
        error_step(s, id, detail) == s,
        status_step(s, id, status, result) == s,
{
}

/// Once recorded, an outcome stands: after a completion or a failure was
/// recorded for a job that was not finished, the job is finished, and a
/// second outcome of either kind changes nothing.
pub proof fn law_first_outcome_stands(
    s: StoreView,
    id: Seq<char>,
    result: Option<Seq<char>>,
    detail: Seq<char>,
    later_result: Option<Seq<char>>,
    later_detail: Seq<char>,
)
    requires
        store_wf(s),
        open_job(s, id) is Some,
    ensures
        ({
            let done = complete_step(s, id, result);
            &&& job_with_id(done, id)->0.status == JobStatus::Completed
            &&& complete_step(done, id, later_result) == done
            &&& fail_step(done, id, later_detail) == done
        }),
        ({
            let gone = fail_step(s, id, detail);
            &&& job_with_id(gone, id)->0.status == JobStatus::Failed
            &&& complete_step(gone, id, later_result) == gone
            &&& fail_step(gone, id, later_detail) == gone
        }),
{
    let i = open_job(s, id)->0;
    lemma_job_index(s.jobs, id);
    let done = complete_step(s, id, result);
    let gone = fail_step(s, id, detail);
    lemma_lookup_after_replace(s, i, done.jobs[i], id);
    lemma_lookup_after_replace(s, i, gone.jobs[i], id);
}

/// A finished job stays finished: no claim, heartbeat, sweep, outcome or
/// change of status, for whatever job, alters the record of a job that is
/// finished.
pub proof fn law_finished_jobs_are_left_alone(
    s: StoreView,
    i: int,
    lease_secs: int,
    id: Seq<char>,
    result: Option<Seq<char>>,
    detail: Seq<char>,
    status: JobStatus,
)
    requires
        store_wf(s),
        0 <= i < s.jobs.len(),
        s.jobs[i].status.is_terminal(),
    ensures
        claim_step(s, lease_secs).jobs[i] == s.jobs[i],
        heartbeat_step(s, id, lease_secs).jobs[i] == s.jobs[i],
        sweep_step(s).jobs[i] == s.jobs[i],
        complete_step(s, id, result).jobs[i] == s.jobs[i],
        fail_step(s, id, detail).jobs[i] == s.jobs[i],
        error_step(s, id, detail).jobs[i] == s.jobs[i],
        status_step(s, id, status, result).jobs[i] == s.jobs[i],
{
    lemma_best_claim(s.jobs, s.now, s.jobs.len() as int);
    lemma_job_index(s.jobs, id);
}

/// The sweep reclaims every abandoned job: a job that runs under a lease
/// that has run out is failed by one sweep, and after the sweep no job is
/// left in that state.
pub proof fn law_sweep_reclaims(s: StoreView)
    requires
        store_wf(s),
    ensures
        sweep_step(s).jobs.len() == s.jobs.len(),
        forall|i: int|
            0 <= i < s.jobs.len() && stale(#[trigger] s.jobs[i], s.now) ==> sweep_step(
                s,
            ).jobs[i].status == JobStatus::Failed,
        forall|i: int|
            0 <= i < s.jobs.len() && !stale(#[trigger] s.jobs[i], s.now) ==> sweep_step(
                s,
            ).jobs[i] == s.jobs[i],
        forall|i: int|
            0 <= i < s.jobs.len() ==> !stale(#[trigger] sweep_step(s).jobs[i], sweep_step(s).now),
{
}

/// A job that was claimed and then abandoned by its worker is failed by the
/// first sweep that runs after its lease has run out.
pub proof fn law_abandoned_job_is_reclaimed(s: StoreView, lease_secs: int, t: int)
    requires
        store_wf(s),
        claim_result(s) is Some,
        t > lease_end(s.now, lease_secs),
        t > s.now,
    ensures
        ({
            let id = claim_result(s).unwrap().0;
            let swept = sweep_step(clock_step(claim_step(s, lease_secs), t));
            &&& job_with_id(swept, id) is Some
            &&& job_with_id(swept, id)->0.status == JobStatus::Failed
            &&& job_with_id(swept, id)->0.lease_expires_at is None
        }),
{
    let i = next_claim(s)->0;
    let id = s.jobs[i].id;
    lemma_best_claim(s.jobs, s.now, s.jobs.len() as int);
    let held = claim_step(s, lease_secs);
    let later = clock_step(held, t);
    let swept = sweep_step(later);
    law_claim_step_wf(s, lease_secs);
    law_clock_step_wf(held, t);
    lemma_index_of_own_id(later, i);
    assert(stale(later.jobs[i], later.now));
    lemma_job_index_same_ids(later.jobs, swept.jobs, id, 0);
}

/// The sweep keeps the store well formed.
pub proof fn law_sweep_step_wf(s: StoreView)
    requires
        store_wf(s),
    ensures
        store_wf(sweep_step(s)),
{
    let t = sweep_step(s);
    assert forall|k: int| 0 <= k < t.metrics.len() implies job_index(
        t.jobs,
        (#[trigger] t.metrics[k]).job_id,
    ) is Some by {
        assert(job_index(s.jobs, s.metrics[k].job_id) is Some);
        lemma_job_index_same_ids(s.jobs, t.jobs, t.metrics[k].job_id, 0);
    }
    assert forall|a: int, b: int| 0 <= a < b < t.jobs.len() implies (#[trigger] t.jobs[a]).id != (
    #[trigger] t.jobs[b]).id by {
        assert(s.jobs[a].id != s.jobs[b].id);
    }
    assert forall|a: int, b: int| 0 <= a <= b < t.jobs.len() implies (
    #[trigger] t.jobs[a]).created_at <= (#[trigger] t.jobs[b]).created_at by {
        assert(s.jobs[a].created_at <= s.jobs[b].created_at);
    }
    assert forall|a: int| 0 <= a < t.jobs.len() implies (#[trigger] t.jobs[a]).created_at
        <= t.now by {
        assert(s.jobs[a].created_at <= s.now);
    }
    assert forall|a: int| 0 <= a < t.jobs.len() implies crate::db::model::job_wf(
        #[trigger] t.jobs[a],
    ) by {
        assert(crate::db::model::job_wf(s.jobs[a]));
    }
}

/// The order of claims: the job taken is claimable, no claimable job has a
/// higher priority, none of the same priority is older, and none of the
/// same priority and age was submitted before it. Where nothing is taken,
/// nothing is claimable.
pub proof fn law_claim_order(s: StoreView)
    ensures
        match next_claim(s) {
            Some(i) => {
                &&& 0 <= i < s.jobs.len()
                &&& claimable(s.jobs[i], s.now)
                &&& forall|k: int|
                    0 <= k < s.jobs.len() && claimable(#[trigger] s.jobs[k], s.now) ==> {
                        &&& s.jobs[k].priority <= s.jobs[i].priority
                        &&& s.jobs[k].priority == s.jobs[i].priority ==> s.jobs[i].created_at
                            <= s.jobs[k].created_at
                        &&& s.jobs[k].priority == s.jobs[i].priority && s.jobs[k].created_at
                            == s.jobs[i].created_at ==> i <= k
                    }
            },
            None => forall|k: int| 0 <= k < s.jobs.len() ==> !claimable(#[trigger] s.jobs[k], s.now),
        },
{
    lemma_best_claim(s.jobs, s.now, s.jobs.len() as int);
}

/// A heartbeat keeps the job for its worker: after a heartbeat under a
/// lease that is in force from now on, the job runs under that lease, and a
/// claim at this instant takes another job or none.
pub proof fn law_heartbeat_keeps_the_job(s: StoreView, id: Seq<char>, lease_secs: int)
    requires
        store_wf(s),
        crate::db::model::beating(s, id) is Some,
        s.now <= lease_end(s.now, lease_secs),
    ensures
        ({
            let kept = heartbeat_step(s, id, lease_secs);
            &&& job_with_id(kept, id) is Some
            &&& lease_in_force(job_with_id(kept, id)->0, kept.now)
            &&& job_with_id(kept, id)->0.lease_expires_at == Some(lease_end(s.now, lease_secs))
            &&& claim_result(kept) is Some ==> claim_result(kept).unwrap().0 != id
        }),
{
    let i = crate::db::model::beating(s, id)->0;
    let kept = heartbeat_step(s, id, lease_secs);
    lemma_job_index(s.jobs, id);
    lemma_lookup_after_replace(s, i, kept.jobs[i], id);
    law_steps_keep_store_wf(s, id, lease_secs, None, Seq::empty(), JobStatus::Queued, 0);
    law_leased_job_is_not_claimed(kept, id);
}

/// A heartbeat never brings a job back: for a job that does not run, be it
/// finished or waiting, a heartbeat changes nothing at all.
pub proof fn law_heartbeat_resurrects_nothing(s: StoreView, id: Seq<char>, lease_secs: int)
    requires
        job_with_id(s, id) is None || job_with_id(s, id)->0.status != JobStatus::Running,
    ensures
        heartbeat_step(s, id, lease_secs) == s,
{
}

/// Every operation on jobs keeps the store well formed.
pub proof fn law_steps_keep_store_wf(
    s: StoreView,
    id: Seq<char>,
    lease_secs: int,
    result: Option<Seq<char>>,
    detail: Seq<char>,
    status: JobStatus,
    t: int,
)
    requires
        store_wf(s),
    ensures
        store_wf(claim_step(s, lease_secs)),
        store_wf(heartbeat_step(s, id, lease_secs)),
        store_wf(complete_step(s, id, result)),
        store_wf(fail_step(s, id, detail)),
        store_wf(error_step(s, id, detail)),
        store_wf(status_step(s, id, status, result)),
        store_wf(sweep_step(s)),
        store_wf(clock_step(s, t)),
{
    law_claim_step_wf(s, lease_secs);
    law_sweep_step_wf(s);
    law_clock_step_wf(s, t);
    lemma_job_index(s.jobs, id);
    if job_index(s.jobs, id) is Some {
        let i = job_index(s.jobs, id)->0;
        assert(crate::db::model::job_wf(s.jobs[i]));
        if s.jobs[i].status == JobStatus::Running {
            crate::db::store::lemma_with_job_wf(
                s,
                i,
                crate::db::model::refreshed(s.jobs[i], s.now, lease_secs),
            );
        }
        if !s.jobs[i].status.is_terminal() {
            crate::db::store::lemma_with_job_wf(
                s,
                i,
                crate::db::model::completed(s.jobs[i], s.now, result),
            );
            crate::db::store::lemma_with_job_wf(
                s,
                i,
                crate::db::model::failed(s.jobs[i], s.now, detail),
            );
            crate::db::store::lemma_with_job_wf(
                s,
                i,
                crate::db::model::errored(s.jobs[i], s.now, detail),
            );
            crate::db::store::lemma_with_job_wf(
                s,
                i,
                crate::db::model::restated(s.jobs[i], s.now, status, result),
            );
        }
    }
}

/// A failure is final: a job that failed is never claimed again, however
/// many attempts it has left, and its retry count stands.
pub proof fn law_failed_jobs_are_not_retried(s: StoreView, id: Seq<char>, detail: Seq<char>)
    requires
        store_wf(s),
        open_job(s, id) is Some,
    ensures
        ({
            let gone = fail_step(s, id, detail);
            &&& job_with_id(gone, id)->0.status == JobStatus::Failed
            &&& job_with_id(gone, id)->0.error_detail == Some(detail)
            &&& job_with_id(gone, id)->0.retry_count == crate::db::model::bumped(
                job_with_id(s, id)->0.retry_count,
            )
            &&& job_with_id(gone, id)->0.result == job_with_id(s, id)->0.result
            &&& claim_result(gone) is Some ==> claim_result(gone).unwrap().0 != id
        }),
{
    let i = open_job(s, id)->0;
    let gone = fail_step(s, id, detail);
    lemma_job_index(s.jobs, id);
    lemma_lookup_after_replace(s, i, gone.jobs[i], id);
    law_steps_keep_store_wf(s, id, 0, None, detail, JobStatus::Queued, 0);
    if claim_result(gone) is Some {
        let k = next_claim(gone)->0;
        lemma_best_claim(gone.jobs, gone.now, gone.jobs.len() as int);
        lemma_index_of_own_id(gone, k);
    }
}

/// The listing is ordered by age: in a well-formed store the jobs, the one
/// submitted last first, are dated in descending order.
pub proof fn law_listing_is_newest_first(s: StoreView, k: int, l: int)
    requires
        store_wf(s),
        0 <= k <= l < s.jobs.len(),
    ensures
        ({
            let listing = crate::db::model::newest_first(s.jobs, s.jobs.len() as int);
            &&& listing.len() == s.jobs.len()
            &&& listing[k].created_at >= listing[l].created_at
        }),
{
    let n = s.jobs.len() as int;
    crate::db::metrics::lemma_newest_first_index(s.jobs, n, k);
    crate::db::metrics::lemma_newest_first_index(s.jobs, n, l);
    assert(s.jobs[n - 1 - l].created_at <= s.jobs[n - 1 - k].created_at);
}

} // verus!

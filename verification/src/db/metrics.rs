//! The operations on metric facts: the write, which keeps one fact per key
//! of a job, and the two listings.

use vstd::prelude::*;
use crate::db::model::{
    facts_of, job_index, metric_index, metric_step, newest_first, recent_facts,
    same_fact, store_wf, written_fact, MetricView, StoreView,
};
use crate::db::ops::{first_text, own_text, slice_text};
use crate::db::store::{JobStore, MetricRow, StoreError};
use crate::text::same_text;

verus! {

/// The contents of a list of metric facts.
pub open spec fn fact_contents(v: Seq<MetricRow>) -> Seq<MetricView> {
    Seq::new(v.len(), |i: int| v[i]@)
}

/// Where `metric_index` finds a fact, the fact is about the key of the job;
/// where it finds none, none of the first `n` facts is. In a well-formed
/// store the fact found is the only one.
pub proof fn lemma_metric_index(
    metrics: Seq<MetricView>,
    job_id: Seq<char>,
    key: Seq<char>,
    n: int,
)
    requires
        0 <= n <= metrics.len(),
    ensures
        -1 <= metric_index(metrics, job_id, key, n) < n,
        metric_index(metrics, job_id, key, n) >= 0 ==> {
            let at = metric_index(metrics, job_id, key, n);
            metrics[at].job_id == job_id && metrics[at].key == key
        },
        forall|k: int|
            metric_index(metrics, job_id, key, n) < k < n ==> !((#[trigger] metrics[k]).job_id
                == job_id && metrics[k].key == key),
    decreases n,
{
    if n > 0 && !(metrics[n - 1].job_id == job_id && metrics[n - 1].key == key) {
        lemma_metric_index(metrics, job_id, key, n - 1);
    }
}

/// A well-formed store stays well formed when a metric is written for a
/// stored job.
pub proof fn lemma_metric_step_wf(
    s: StoreView,
    job_id: Seq<char>,
    key: Seq<char>,
    value_bits: u64,
    unit: Option<Seq<char>>,
    labels_json: Option<Seq<char>>,
)
    requires
        store_wf(s),
        job_index(s.jobs, job_id) is Some,
    ensures
        store_wf(metric_step(s, job_id, key, value_bits, unit, labels_json)),
{
    let t = metric_step(s, job_id, key, value_bits, unit, labels_json);
    let n = s.metrics.len() as int;
    let at = metric_index(s.metrics, job_id, key, n);
    let fact = written_fact(s, job_id, key, value_bits, unit, labels_json);
    lemma_metric_index(s.metrics, job_id, key, n);
    let kept = if at >= 0 {
        s.metrics.remove(at)
    } else {
        s.metrics
    };
    let m = kept.len() as int;
    // every kept fact is an old fact other than the one replaced, in the old order
    let from = |k: int|
        if at >= 0 && k >= at {
            k + 1
        } else {
            k
        };
    assert forall|k: int| 0 <= k < m implies 0 <= from(k) < n && #[trigger] kept[k]
        == s.metrics[from(k)] && from(k) != at by {}
    assert forall|k: int| 0 <= k < m implies !same_fact(#[trigger] kept[k], fact) by {
        let o = from(k);
        assert(kept[k] == s.metrics[o]);
        if same_fact(s.metrics[o], fact) {
            assert(at >= 0);
            if o < at {
                assert(!same_fact(s.metrics[o], s.metrics[at]));
            } else {
                assert(!same_fact(s.metrics[at], s.metrics[o]));
            }
        }
    }
    assert(t.metrics == kept.push(fact));
    assert forall|a: int, b: int| 0 <= a < b < t.metrics.len() implies !same_fact(
        #[trigger] t.metrics[a],
        #[trigger] t.metrics[b],
    ) by {
        if b < m {
            assert(kept[a] == s.metrics[from(a)]);
            assert(kept[b] == s.metrics[from(b)]);
            assert(!same_fact(s.metrics[from(a)], s.metrics[from(b)]));
        } else {
            assert(!same_fact(kept[a], fact));
        }
    }
    assert forall|a: int, b: int| 0 <= a <= b < t.metrics.len() implies (
    #[trigger] t.metrics[a]).created_at <= (#[trigger] t.metrics[b]).created_at by {
        if b < m {
            assert(kept[a] == s.metrics[from(a)]);
            assert(kept[b] == s.metrics[from(b)]);
            assert(s.metrics[from(a)].created_at <= s.metrics[from(b)].created_at);
        } else if a < m {
            assert(kept[a] == s.metrics[from(a)]);
            assert(s.metrics[from(a)].created_at <= s.now);
        }
    }
    assert forall|a: int| 0 <= a < t.metrics.len() implies (#[trigger] t.metrics[a]).created_at
        <= t.now by {
        if a < m {
            assert(kept[a] == s.metrics[from(a)]);
            assert(s.metrics[from(a)].created_at <= s.now);
        }
    }
    assert forall|a: int| 0 <= a < t.metrics.len() implies job_index(
        t.jobs,
        (#[trigger] t.metrics[a]).job_id,
    ) is Some by {
        if a < m {
            assert(kept[a] == s.metrics[from(a)]);
            assert(job_index(s.jobs, s.metrics[from(a)].job_id) is Some);
        }
    }
}

/// Position of the fact about `key` of `job_id`.
fn find_metric(store: &JobStore, job_id: &str, key: &str) -> (r: Option<usize>)
    ensures
        match r {
            Some(i) => i < store@.metrics.len() && metric_index(
                store@.metrics,
                job_id@,
                key@,
                store@.metrics.len() as int,
            ) == i,
            None => metric_index(store@.metrics, job_id@, key@, store@.metrics.len() as int) == -1,
        },
{
    let n = store.metric_count();
    let mut i: usize = n;
    while i > 0
        invariant
            i <= n,
            n == store@.metrics.len(),
            metric_index(store@.metrics, job_id@, key@, n as int) == metric_index(
                store@.metrics,
                job_id@,
                key@,
                i as int,
            ),
        decreases i,
    {
        let m = store.metric_at(i - 1);
        if same_text(m.job_id.as_str(), job_id) && same_text(m.key.as_str(), key) {
            return Some(i - 1);
        }
        i = i - 1;
    }
    None
}

/// Puts back a fact that was stored before, as it is. Its job must be
/// stored, no fact about its key of its job may be, and it must be dated
/// neither before the fact written last nor after the clock. Any other
/// fact is refused and the store stays as it is.
pub fn restore_metric(store: &mut JobStore, fact: MetricRow) -> (r: Result<(), StoreError>)
    requires
        old(store).wf(),
    ensures
        final(store).wf(),
        match r {
            Ok(_) => crate::db::model::can_restore_fact(old(store)@, fact@) && final(store)@
                == crate::db::model::restore_fact_step(old(store)@, fact@),
            Err(e) => {
                &&& !crate::db::model::can_restore_fact(old(store)@, fact@)
                &&& final(store)@ == old(store)@
                &&& e == if job_index(old(store)@.jobs, fact.job_id@) is None {
                    StoreError::UnknownJob
                } else {
                    StoreError::MalformedRecord
                }
            },
        },
{
    if store.find_job(fact.job_id.as_str()).is_none() {
        return Err(StoreError::UnknownJob);
    }
    if find_metric(store, fact.job_id.as_str(), fact.key.as_str()).is_some() {
        return Err(StoreError::MalformedRecord);
    }
    let order_ok = match store.last_metric_at() {
        Some(t) => t <= fact.created_at,
        None => true,
    };
    if !order_ok || fact.created_at > store.clock() {
        return Err(StoreError::MalformedRecord);
    }
    proof {
        let s = store@;
        let m = fact@;
        let t = crate::db::model::restore_fact_step(s, m);
        let n = s.metrics.len() as int;
        lemma_metric_index(s.metrics, m.job_id, m.key, n);
        assert forall|a: int, b: int| 0 <= a < b < t.metrics.len() implies !same_fact(
            #[trigger] t.metrics[a],
            #[trigger] t.metrics[b],
        ) by {
            if b < n {
                assert(!same_fact(s.metrics[a], s.metrics[b]));
            } else {
                assert(!(s.metrics[a].job_id == m.job_id && s.metrics[a].key == m.key));
            }
        }
        assert forall|a: int, b: int| 0 <= a <= b < t.metrics.len() implies (
        #[trigger] t.metrics[a]).created_at <= (#[trigger] t.metrics[b]).created_at by {
            if b < n {
                assert(s.metrics[a].created_at <= s.metrics[b].created_at);
            } else if a < n {
                assert(s.metrics[a].created_at <= s.metrics[n - 1].created_at);
            }
        }
        assert forall|a: int| 0 <= a < t.metrics.len() implies (#[trigger] t.metrics[a]).created_at
            <= t.now by {
            if a < n {
                assert(s.metrics[a].created_at <= s.now);
            }
        }
        assert forall|a: int| 0 <= a < t.metrics.len() implies job_index(
            t.jobs,
            (#[trigger] t.metrics[a]).job_id,
        ) is Some by {
            if a < n {
                assert(job_index(s.jobs, s.metrics[a].job_id) is Some);
            }
        }
    }
    store.push_metric(fact);
    Ok(())
}

/// Writes the value of `key` for the job `job_id`, with a unit and labels
/// where they are given. The job keeps one fact per key: a second write
/// replaces the value and the date, and the unit and the labels only where
/// new ones are given. The fact written is the most recent one. A job that
/// is not stored is refused and the store stays as it is.
pub fn insert_metric_labeled(
    store: &mut JobStore,
    job_id: &str,
    key: &str,
    value_bits: u64,
    unit: Option<&str>,
    labels_json: Option<&str>,
) -> (r: Result<(), StoreError>)
    requires
        old(store).wf(),
    ensures
        final(store).wf(),
        match r {
            Ok(_) => job_index(old(store)@.jobs, job_id@) is Some && final(store)@ == metric_step(
                old(store)@,
                job_id@,
                key@,
                value_bits,
                slice_text(unit),
                slice_text(labels_json),
            ),
            Err(e) => e == StoreError::UnknownJob && job_index(old(store)@.jobs, job_id@) is None
                && final(store)@ == old(store)@,
        },
{
    if store.find_job(job_id).is_none() {
        return Err(StoreError::UnknownJob);
    }
    let now = store.clock();
    let fact = match find_metric(store, job_id, key) {
        Some(at) => {
            let earlier = store.metric_at(at).duplicate();
            let fact = MetricRow {
                job_id: job_id.to_owned(),
                key: key.to_owned(),
                value_bits: Some(value_bits),
                unit: first_text(own_text(unit), earlier.unit),
                labels_json: first_text(own_text(labels_json), earlier.labels_json),
                created_at: now,
            };
            store.remove_metric(at);
            fact
        },
        None => MetricRow {
            job_id: job_id.to_owned(),
            key: key.to_owned(),
            value_bits: Some(value_bits),
            unit: own_text(unit),
            labels_json: own_text(labels_json),
            created_at: now,
        },
    };
    proof {
        assert(fact@ == written_fact(
            old(store)@,
            job_id@,
            key@,
            value_bits,
            slice_text(unit),
            slice_text(labels_json),
        ));
        lemma_metric_step_wf(
            old(store)@,
            job_id@,
            key@,
            value_bits,
            slice_text(unit),
            slice_text(labels_json),
        );
    }
    store.push_metric(fact);
    Ok(())
}

/// Writes the value of `key` for the job `job_id`, with a unit where one is
/// given; labels written earlier stay.
pub fn insert_metric(
    store: &mut JobStore,
    job_id: &str,
    key: &str,
    value_bits: u64,
    unit: Option<&str>,
) -> (r: Result<(), StoreError>)
    requires
        old(store).wf(),
    ensures
        final(store).wf(),
        match r {
            Ok(_) => job_index(old(store)@.jobs, job_id@) is Some && final(store)@ == metric_step(
                old(store)@,
                job_id@,
                key@,
                value_bits,
                slice_text(unit),
                None,
            ),
            Err(e) => e == StoreError::UnknownJob && job_index(old(store)@.jobs, job_id@) is None
                && final(store)@ == old(store)@,
        },
{
    insert_metric_labeled(store, job_id, key, value_bits, unit, None)
}

/// The facts recorded for the job `job_id`, the most recent first.
pub fn get_metrics_by_job(store: &JobStore, job_id: &str) -> (r: Vec<MetricRow>)
    ensures
        fact_contents(r@) == facts_of(store@.metrics, job_id@, store@.metrics.len() as int),
{
    let n = store.metric_count();
    let mut out: Vec<MetricRow> = Vec::new();
    let mut i: usize = n;
    let ghost all = store@.metrics;
    assert(fact_contents(out@) =~= Seq::<MetricView>::empty());
    while i > 0
        invariant
            i <= n,
            n == store@.metrics.len(),
            all == store@.metrics,
            fact_contents(out@) + facts_of(all, job_id@, i as int) == facts_of(
                all,
                job_id@,
                n as int,
            ),
        decreases i,
    {
        let m = store.metric_at(i - 1);
        if same_text(m.job_id.as_str(), job_id) {
            let ghost before = fact_contents(out@);
            let row = m.duplicate();
            out.push(row);
            proof {
                assert(fact_contents(out@) =~= before.push(all[i - 1]));
                assert(before.push(all[i - 1]) + facts_of(all, job_id@, i - 1) =~= before
                    + facts_of(all, job_id@, i as int));
            }
        }
        i = i - 1;
    }
    assert(fact_contents(out@) + facts_of(all, job_id@, 0) =~= fact_contents(out@));
    out
}

/// The most recent facts of all jobs, the most recent first: at most
/// `limit` of them, or all of them where `limit` is negative.
pub fn list_recent_metrics(store: &JobStore, limit: i64) -> (r: Vec<MetricRow>)
    ensures
        fact_contents(r@) == recent_facts(store@.metrics, limit as int),
{
    let n = store.metric_count();
    let mut out: Vec<MetricRow> = Vec::new();
    let mut i: usize = n;
    let ghost all = store@.metrics;
    proof {
        lemma_newest_first_len(all, n as int);
    }
    assert(fact_contents(out@) =~= newest_first(all, n as int).subrange(0, 0));
    while i > 0 && (limit < 0 || ((n - i) as u64) < (limit as u64))
        invariant
            i <= n,
            n == store@.metrics.len(),
            all == store@.metrics,
            out@.len() == n - i,
            limit >= 0 ==> out@.len() <= limit,
            newest_first(all, n as int).len() == n,
            fact_contents(out@) == newest_first(all, n as int).subrange(0, n - i),
        decreases i,
    {
        let ghost before = fact_contents(out@);
        let row = store.metric_at(i - 1).duplicate();
        out.push(row);
        proof {
            lemma_newest_first_index(all, n as int, n - i);
            assert(fact_contents(out@) =~= before.push(all[i - 1]));
            assert(before.push(all[i - 1]) =~= newest_first(all, n as int).subrange(0, n - i + 1));
        }
        i = i - 1;
    }
    proof {
        let whole = newest_first(all, n as int);
        if limit < 0 || limit >= n {
            assert(i == 0);
            assert(whole.subrange(0, n as int) =~= whole);
        } else {
            assert(out@.len() == limit);
        }
    }
    out
}

/// `newest_first` keeps every one of the first `n` items.
pub proof fn lemma_newest_first_len<T>(s: Seq<T>, n: int)
    requires
        0 <= n <= s.len(),
    ensures
        newest_first(s, n).len() == n,
    decreases n,
{
    if n > 0 {
        lemma_newest_first_len(s, n - 1);
    }
}

/// The item at position `k` of `newest_first` is the one `k` places before
/// the last of the first `n`.
pub proof fn lemma_newest_first_index<T>(s: Seq<T>, n: int, k: int)
    requires
        0 <= k < n <= s.len(),
    ensures
        newest_first(s, n).len() == n,
        newest_first(s, n)[k] == s[n - 1 - k],
    decreases n,
{
    lemma_newest_first_len(s, n);
    lemma_newest_first_len(s, n - 1);
    if k > 0 {
        lemma_newest_first_index(s, n - 1, k - 1);
    }
}

} // verus!

//! The store itself: the jobs and metric facts it holds, its clock, and the
//! lookups that the operations share.

use vstd::prelude::*;
use crate::db::job::{Job, JobView};
use crate::db::model::{
    clock_step, job_index, job_index_from, job_wf, store_wf, with_job, MetricView, StoreView,
};
use crate::text::same_text;

verus! {

/// One metric fact: a value recorded under `key` for the job `job_id`. The
/// value is carried as the bit pattern of a double-precision number; a
/// fact that was put back may have none.
#[derive(Clone, Debug, PartialEq, Eq)]
pub struct MetricRow {
    pub job_id: String,
    pub key: String,
    pub value_bits: Option<u64>,
    pub unit: Option<String>,
    pub labels_json: Option<String>,
    pub created_at: i64,
}

impl View for MetricRow {
    type V = MetricView;

    open spec fn view(&self) -> MetricView {
        MetricView {
            job_id: self.job_id@,
            key: self.key@,
            value_bits: self.value_bits,
            unit: crate::db::job::text_of(self.unit),
            labels_json: crate::db::job::text_of(self.labels_json),
            created_at: self.created_at as int,
        }
    }
}

impl MetricRow {
    /// A copy of the fact with the same content.
    pub fn duplicate(&self) -> (r: MetricRow)
        ensures
            r@ == self@,
    {
        MetricRow {
            job_id: self.job_id.clone(),
            key: self.key.clone(),
            value_bits: self.value_bits,
            unit: crate::db::job::copy_text(&self.unit),
            labels_json: crate::db::job::copy_text(&self.labels_json),
            created_at: self.created_at,
        }
    }
}

/// Why the store refused a write.
#[derive(Clone, Copy, Debug, PartialEq, Eq, Structural)]
pub enum StoreError {
    /// A job with this id is stored already.
    DuplicateId,
    /// No job with this id is stored.
    UnknownJob,
    /// The record breaks what holds of every stored job, or is dated
    /// before a job that is stored or after the clock.
    MalformedRecord,
}

impl StoreError {
    /// The refusal in words.
    pub open spec fn text(self) -> Seq<char> {
        match self {
            StoreError::DuplicateId => "a job with this id is stored already"@,
            StoreError::UnknownJob => "no job with this id is stored"@,
            StoreError::MalformedRecord => "the record is malformed"@,
        }
    }

    /// The refusal in words.
    pub fn as_str(&self) -> (r: &'static str)
        ensures
            r@ == self.text(),
    {
        match self {
            StoreError::DuplicateId => "a job with this id is stored already",
            StoreError::UnknownJob => "no job with this id is stored",
            StoreError::MalformedRecord => "the record is malformed",
        }
    }
}

/// The record of all jobs and metric facts, with a clock of its own.
pub struct JobStore {
    jobs: Vec<Job>,
    metrics: Vec<MetricRow>,
    now: i64,
}

impl View for JobStore {
    type V = StoreView;

    closed spec fn view(&self) -> StoreView {
        StoreView {
            jobs: Seq::new(self.jobs@.len(), |i: int| self.jobs@[i]@),
            metrics: Seq::new(self.metrics@.len(), |i: int| self.metrics@[i]@),
            now: self.now as int,
        }
    }
}

/// Where `job_index_from` finds a job, the job has the id and no job
/// between `from` and it has; where it finds none, none from `from` on has.
pub proof fn lemma_job_index_from(jobs: Seq<JobView>, id: Seq<char>, from: int)
    requires
        0 <= from <= jobs.len(),
    ensures
        match job_index_from(jobs, id, from) {
            Some(i) => from <= i < jobs.len() && jobs[i].id == id && forall|k: int|
                from <= k < i ==> (#[trigger] jobs[k]).id != id,
            None => forall|k: int| from <= k < jobs.len() ==> (#[trigger] jobs[k]).id != id,
        },
    decreases jobs.len() - from,
{
    if from < jobs.len() && jobs[from].id != id {
        lemma_job_index_from(jobs, id, from + 1);
    }
}

/// Where `job_index` finds a job, the job has the id; where it finds none,
/// no stored job has.
pub proof fn lemma_job_index(jobs: Seq<JobView>, id: Seq<char>)
    ensures
        match job_index(jobs, id) {
            Some(i) => 0 <= i < jobs.len() && jobs[i].id == id && forall|k: int|
                0 <= k < i ==> (#[trigger] jobs[k]).id != id,
            None => forall|k: int| 0 <= k < jobs.len() ==> (#[trigger] jobs[k]).id != id,
        },
{
    lemma_job_index_from(jobs, id, 0);
}

/// Lookups by id depend on the ids alone.
pub proof fn lemma_job_index_same_ids(a: Seq<JobView>, b: Seq<JobView>, id: Seq<char>, from: int)
    requires
        a.len() == b.len(),
        forall|k: int| 0 <= k < a.len() ==> (#[trigger] a[k]).id == (#[trigger] b[k]).id,
    ensures
        job_index_from(a, id, from) == job_index_from(b, id, from),
    decreases a.len() - from,
{
    if 0 <= from < a.len() {
        assert(a[from].id == b[from].id);
        if a[from].id != id {
            lemma_job_index_same_ids(a, b, id, from + 1);
        }
    }
}

/// A well-formed store stays well formed when one job is replaced by a
/// well-formed record with the same id and the same date of submission.
pub proof fn lemma_with_job_wf(s: StoreView, i: int, j: JobView)
    requires
        store_wf(s),
        0 <= i < s.jobs.len(),
        job_wf(j),
        j.id == s.jobs[i].id,
        j.created_at == s.jobs[i].created_at,
    ensures
        store_wf(with_job(s, i, j)),
{
    let t = with_job(s, i, j);
    assert forall|k: int| 0 <= k < t.metrics.len() implies job_index(
        t.jobs,
        (#[trigger] t.metrics[k]).job_id,
    ) is Some by {
        assert(job_index(s.jobs, s.metrics[k].job_id) is Some);
        lemma_job_index_same_ids(s.jobs, t.jobs, t.metrics[k].job_id, 0);
    }
    assert forall|a: int, b: int| 0 <= a < b < t.jobs.len() implies (#[trigger] t.jobs[a]).id != (
    #[trigger] t.jobs[b]).id by {
        assert(s.jobs[a].id != s.jobs[b].id);
    }
    assert forall|a: int, b: int| 0 <= a <= b < t.jobs.len() implies (
    #[trigger] t.jobs[a]).created_at <= (#[trigger] t.jobs[b]).created_at by {
        assert(s.jobs[a].created_at <= s.jobs[b].created_at);
    }
    assert forall|a: int| 0 <= a < t.jobs.len() implies (#[trigger] t.jobs[a]).created_at
        <= t.now by {
        assert(s.jobs[a].created_at <= s.now);
    }
    assert forall|a: int| 0 <= a < t.jobs.len() implies job_wf(#[trigger] t.jobs[a]) by {
        if a != i {
            assert(job_wf(s.jobs[a]));
        }
    }
}

impl JobStore {
    /// Whether the store is well formed; every operation keeps it so.
    pub open spec fn wf(&self) -> bool {
        store_wf(self@)
    }

    /// An empty store whose clock reads zero.
    pub fn new() -> (store: JobStore)
        ensures
            store.wf(),
            store@.jobs == Seq::<JobView>::empty(),
            store@.metrics == Seq::<MetricView>::empty(),
            store@.now == 0,
    {
        let store = JobStore { jobs: Vec::new(), metrics: Vec::new(), now: 0 };
        assert(store@.jobs =~= Seq::<JobView>::empty());
        assert(store@.metrics =~= Seq::<MetricView>::empty());
        store
    }

    /// The reading of the store's clock.
    pub fn clock(&self) -> (now: i64)
        ensures
            now == self@.now,
    {
        self.now
    }

    /// How many jobs the store holds.
    pub fn job_count(&self) -> (n: usize)
        ensures
            n == self@.jobs.len(),
    {
        self.jobs.len()
    }

    /// How many metric facts the store holds.
    pub fn metric_count(&self) -> (n: usize)
        ensures
            n == self@.metrics.len(),
    {
        self.metrics.len()
    }

    /// Tells the clock that it is `t`. The clock never runs backwards: an
    /// earlier instant leaves it where it is.
    pub fn advance_clock(&mut self, t: i64)
        requires
            old(self).wf(),
        ensures
            final(self).wf(),
            final(self)@ == clock_step(old(self)@, t as int),
    {
        if t > self.now {
            self.now = t;
        }
        proof {
            let s = old(self)@;
            let r = clock_step(s, t as int);
            assert(self@.jobs =~= r.jobs);
            assert(self@.metrics =~= r.metrics);
            assert forall|i: int| 0 <= i < r.jobs.len() implies (#[trigger] r.jobs[i]).created_at
                <= r.now by {
                assert(s.jobs[i].created_at <= s.now);
            }
            assert forall|i: int| 0 <= i < r.metrics.len() implies (
            #[trigger] r.metrics[i]).created_at <= r.now by {
                assert(s.metrics[i].created_at <= s.now);
            }
        }
    }

    /// Position of the job whose id is `id`.
    pub(crate) fn find_job(&self, id: &str) -> (r: Option<usize>)
        ensures
            match r {
                Some(i) => job_index(self@.jobs, id@) == Some(i as int) && i < self@.jobs.len(),
                None => job_index(self@.jobs, id@) is None,
            },
    {
        let mut i: usize = 0;
        while i < self.jobs.len()
            invariant
                i <= self.jobs.len(),
                job_index(self@.jobs, id@) == job_index_from(self@.jobs, id@, i as int),
            decreases self.jobs.len() - i,
        {
            if same_text(self.jobs[i].id.as_str(), id) {
                return Some(i);
            }
            i = i + 1;
        }
        None
    }

    /// The job at position `i`.
    pub(crate) fn job_at(&self, i: usize) -> (j: &Job)
        requires
            i < self@.jobs.len(),
        ensures
            j@ == self@.jobs[i as int],
    {
        &self.jobs[i]
    }

    /// Adds `job` behind the jobs that are stored.
    pub(crate) fn push_job(&mut self, job: Job)
        ensures
            final(self)@ == (StoreView {
                jobs: old(self)@.jobs.push(job@),
                ..old(self)@
            }),
    {
        self.jobs.push(job);
        assert(self@.jobs =~= old(self)@.jobs.push(job@));
        assert(self@.metrics =~= old(self)@.metrics);
    }

    /// The date of submission of the job stored last.
    pub(crate) fn last_created_at(&self) -> (r: Option<i64>)
        ensures
            match r {
                Some(t) => self@.jobs.len() > 0 && t == self@.jobs.last().created_at,
                None => self@.jobs.len() == 0,
            },
    {
        if self.jobs.len() == 0 {
            None
        } else {
            Some(self.jobs[self.jobs.len() - 1].created_at)
        }
    }

    /// The date of the metric fact written last.
    pub(crate) fn last_metric_at(&self) -> (r: Option<i64>)
        ensures
            match r {
                Some(t) => self@.metrics.len() > 0 && t == self@.metrics.last().created_at,
                None => self@.metrics.len() == 0,
            },
    {
        if self.metrics.len() == 0 {
            None
        } else {
            Some(self.metrics[self.metrics.len() - 1].created_at)
        }
    }

    /// The metric fact at position `i`.
    pub(crate) fn metric_at(&self, i: usize) -> (m: &MetricRow)
        requires
            i < self@.metrics.len(),
        ensures
            m@ == self@.metrics[i as int],
    {
        &self.metrics[i]
    }

    /// Adds `fact` behind the metric facts that are stored.
    pub(crate) fn push_metric(&mut self, fact: MetricRow)
        ensures
            final(self)@ == (StoreView {
                metrics: old(self)@.metrics.push(fact@),
                ..old(self)@
            }),
    {
        self.metrics.push(fact);
        assert(self@.metrics =~= old(self)@.metrics.push(fact@));
        assert(self@.jobs =~= old(self)@.jobs);
    }

    /// Takes the metric fact at position `i` out of the store.
    pub(crate) fn remove_metric(&mut self, i: usize)
        requires
            i < old(self)@.metrics.len(),
        ensures
            final(self)@ == (StoreView {
                metrics: old(self)@.metrics.remove(i as int),
                ..old(self)@
            }),
    {
        let _ = self.metrics.remove(i);
        assert(self@.metrics =~= old(self)@.metrics.remove(i as int));
        assert(self@.jobs =~= old(self)@.jobs);
    }

    /// Puts `job` in the place of the job at position `i`.
    pub(crate) fn replace_job(&mut self, i: usize, job: Job)
        requires
            i < old(self)@.jobs.len(),
        ensures
            final(self)@ == with_job(old(self)@, i as int, job@),
    {
        self.jobs.set(i, job);
        assert(self@.jobs =~= old(self)@.jobs.update(i as int, job@));
        assert(self@.metrics =~= old(self)@.metrics);
    }
}

} // verus!

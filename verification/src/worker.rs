//! The dispatch loop as decisions: what the runner does next, given what it
//! holds and what has just happened. The runner around it sleeps, waits and
//! pulls images; every decision is taken here.

use vstd::prelude::*;
use crate::db::model::{
    claim_result, claim_step, clock_step, complete_step, fail_step, heartbeat_step, job_index,
    stale_count, sweep_step, StoreView,
};
use crate::db::ops::{
    claim_next_job, complete_job, fail_job, heartbeat_job, recover_stale_jobs,
};
use crate::db::store::JobStore;
use crate::gate::{
    enter_step, executing, finish_step, gate_wf, in_use, law_finish_frees, law_gate_bounds,
    law_keys_do_not_contend, law_start_then_finish, leave_step, lemma_pool_step, may_enter,
    start_answer, start_step, Admission, AdmissionGate, GateView,
};
use crate::routes::image::registry_of;
use crate::routes::pull::PullPlan;
use crate::routes::record::{record_pull, recorded_step, PullMeasure, PullReadings};
pub use crate::routes::image::parse_registry;
use crate::tasks::{
    busy, is_working, lemma_counts_after_update, lemma_counts_bounded, lemma_counts_with_new,
    lemma_counts_without, lemma_task_index_from, task_index, task_index_from, working, works_at,
    Task, TaskPhase, TaskView,
};

verus! {

/// How long the runner sleeps when there was nothing to claim, in
/// milliseconds.
pub const IDLE_DELAY_MS: u64 = 500;

/// How long the runner sleeps when the store could not be reached, in
/// milliseconds.
pub const ERROR_DELAY_MS: u64 = 1000;

/// The error detail of a job that was given up before it could start.
pub open spec fn abandoned_detail() -> Seq<char> {
    "registry semaphore closed"@
}

/// The seconds between two heartbeats under a lease of `lease_secs`
/// seconds: half the lease, and at least one.
pub open spec fn heartbeat_every(lease_secs: int) -> int {
    if lease_secs >= 2 {
        lease_secs / 2
    } else {
        1
    }
}

/// The seconds between two heartbeats under a lease of `lease_secs`
/// seconds: half the lease, and at least one.
pub fn heartbeat_interval(lease_secs: i64) -> (secs: u64)
    ensures
        secs == heartbeat_every(lease_secs as int),
        secs >= 1,
{
    if lease_secs >= 2 {
        (lease_secs / 2) as u64
    } else {
        1
    }
}

/// What the runner does after it has looked for a job.
#[derive(Clone, Debug, PartialEq, Eq)]
pub enum RunnerAction {
    /// A job was claimed: hand it to a task of its own, under the ticket.
    Spawn { ticket: u64, job_id: String, image: String, registry: String },
    /// Nothing was claimable: sleep, then look again.
    Idle { millis: u64 },
    /// Every global permit is taken: look again when a task has ended.
    Saturated,
    /// The store could not be reached: sleep, then look again.
    Backoff { millis: u64 },
}

/// What a task does after it has asked to start work.
#[derive(Clone, Debug, PartialEq, Eq)]
pub enum TaskAction {
    /// Pull the image, and send a heartbeat every so many seconds.
    Execute { job_id: String, image: String, heartbeat_secs: u64 },
    /// Every permit of the registry is taken: ask again later.
    Wait,
    /// No task waits to start under the ticket.
    Unknown,
}

/// How a pull ended.
#[derive(Clone, Debug, PartialEq, Eq)]
pub enum PullOutcome {
    /// The image was pulled; the summary of the pull, if there is one.
    Completed(Option<String>),
    /// The pull failed, for the reason given.
    Failed(String),
}

/// How a pull ended, with what it measured where it succeeded.
#[derive(Clone, Debug, PartialEq, Eq)]
pub enum PullEnd {
    /// The image was pulled: the names it went under, and what was
    /// measured.
    Pulled { plan: PullPlan, measure: PullMeasure, readings: PullReadings },
    /// The daemon or the transfer failed, for the reason given.
    Broken(String),
}

/// The scheduler: the limiter and the jobs that were handed out and not yet
/// taken back. The store that it works on is handed to each operation.
pub struct Scheduler {
    gate: AdmissionGate,
    tasks: Vec<Task>,
    lease_secs: i64,
    next_ticket: u64,
}

/// The mathematical content of a [`Scheduler`].
pub struct SchedulerView {
    pub gate: GateView,
    pub tasks: Seq<TaskView>,
    pub lease_secs: int,
    pub next_ticket: nat,
}

impl View for Scheduler {
    type V = SchedulerView;

    closed spec fn view(&self) -> SchedulerView {
        SchedulerView {
            gate: self.gate@,
            tasks: Seq::new(self.tasks@.len(), |i: int| self.tasks@[i]@),
            lease_secs: self.lease_secs as int,
            next_ticket: self.next_ticket as nat,
        }
    }
}

// ----------------------------------------------------------------- model

/// What holds of every scheduler: the limiter is well formed; every task
/// holds a global permit and every global permit is held by a task; the
/// tasks at work are those that hold a permit of their registry; and no
/// ticket was given out twice.
pub open spec fn runner_wf(v: SchedulerView) -> bool {
    &&& gate_wf(v.gate)
    &&& v.tasks.len() == v.gate.global_in_use
    &&& working(v.tasks) == executing(v.gate)
    &&& forall|key: Seq<char>| #[trigger] busy(v.tasks, key) == in_use(v.gate, key)
    &&& forall|i: int| 0 <= i < v.tasks.len() ==> (#[trigger] v.tasks[i]).ticket < v.next_ticket
    &&& forall|i: int, j: int|
        0 <= i < j < v.tasks.len() ==> (#[trigger] v.tasks[i]).ticket != (
        #[trigger] v.tasks[j]).ticket
    &&& v.next_ticket <= u64::MAX
}

/// Whether the runner may hand out a job: a global permit is free, and so
/// is a ticket.
pub open spec fn can_dispatch(v: SchedulerView) -> bool {
    may_enter(v.gate) && v.next_ticket < u64::MAX
}

/// The task of a job that was just handed out.
pub open spec fn new_task(v: SchedulerView, job_id: Seq<char>, image: Seq<char>) -> TaskView {
    TaskView {
        ticket: v.next_ticket,
        job_id,
        image,
        registry: registry_of(image),
        phase: TaskPhase::Admitted,
    }
}

/// The scheduler after it handed out the job `job_id`.
pub open spec fn dispatch_step(
    v: SchedulerView,
    job_id: Seq<char>,
    image: Seq<char>,
) -> SchedulerView {
    SchedulerView {
        gate: enter_step(v.gate),
        tasks: v.tasks.push(new_task(v, job_id, image)),
        next_ticket: v.next_ticket + 1,
        ..v
    }
}

/// Whether `action`, the store `after` and the scheduler `w` are what one
/// look for a job makes of the store `before` and the scheduler `v`: while
/// a job may be handed out, the next claimable job is claimed and handed
/// out, or the runner idles where there is none; otherwise nothing changes.
pub open spec fn polled(
    before: StoreView,
    v: SchedulerView,
    action: RunnerAction,
    after: StoreView,
    w: SchedulerView,
) -> bool {
    match action {
        RunnerAction::Spawn { ticket, job_id, image, registry } => {
            &&& can_dispatch(v)
            &&& claim_result(before) == Some((job_id@, image@))
            &&& registry@ == registry_of(image@)
            &&& ticket == v.next_ticket
            &&& after == claim_step(before, v.lease_secs)
            &&& w == dispatch_step(v, job_id@, image@)
        },
        RunnerAction::Idle { millis } => {
            &&& can_dispatch(v)
            &&& claim_result(before) is None
            &&& millis == IDLE_DELAY_MS
            &&& after == before
            &&& w == v
        },
        RunnerAction::Saturated => {
            &&& !can_dispatch(v)
            &&& after == before
            &&& w == v
        },
        RunnerAction::Backoff { .. } => false,
    }
}

/// Position of the task under `ticket` if it is in the phase `phase`.
pub open spec fn task_in_phase(v: SchedulerView, ticket: nat, phase: TaskPhase) -> Option<int> {
    match task_index(v.tasks, ticket) {
        Some(i) => if v.tasks[i].phase == phase {
            Some(i)
        } else {
            None
        },
        None => None,
    }
}

/// The task `t` at work.
pub open spec fn at_work(t: TaskView) -> TaskView {
    TaskView { phase: TaskPhase::Executing, ..t }
}

/// The scheduler after the task under `ticket` asked to start work.
pub open spec fn start_task_step(v: SchedulerView, ticket: nat) -> SchedulerView {
    match task_in_phase(v, ticket, TaskPhase::Admitted) {
        Some(i) => SchedulerView {
            gate: start_step(v.gate, v.tasks[i].registry),
            tasks: if start_answer(v.gate, v.tasks[i].registry) == Admission::Granted {
                v.tasks.update(i, at_work(v.tasks[i]))
            } else {
                v.tasks
            },
            ..v
        },
        None => v,
    }
}

/// The scheduler after the task under `ticket` gave back what it held: a
/// task at work both its permits, a task that waited its global permit.
pub open spec fn release_step(v: SchedulerView, ticket: nat) -> SchedulerView {
    match task_index(v.tasks, ticket) {
        Some(i) => SchedulerView {
            gate: if v.tasks[i].phase == TaskPhase::Executing {
                finish_step(v.gate, v.tasks[i].registry)
            } else {
                leave_step(v.gate)
            },
            tasks: v.tasks.remove(i),
            ..v
        },
        None => v,
    }
}

/// The text of the outcome that is written to the job: the summary of a
/// pull that completed, the reason of one that failed.
pub open spec fn outcome_step(s: StoreView, job_id: Seq<char>, outcome: PullOutcome) -> StoreView {
    match outcome {
        PullOutcome::Completed(summary) => complete_step(
            s,
            job_id,
            crate::db::job::text_of(summary),
        ),
        PullOutcome::Failed(reason) => fail_step(s, job_id, reason@),
    }
}

/// What the end of a pull makes of the store. A pull that succeeded leaves
/// its metric facts and completes its job, provided the job is stored. A
/// pull that failed fails its job and leaves no metric fact.
pub open spec fn end_step(s: StoreView, job_id: Seq<char>, end: PullEnd) -> StoreView {
    match end {
        PullEnd::Pulled { plan, measure, readings } => if job_index(s.jobs, job_id) is Some {
            recorded_step(s, job_id, plan, measure, readings)
        } else {
            s
        },
        PullEnd::Broken(reason) => fail_step(s, job_id, reason@),
    }
}

// ---------------------------------------------------------------- lemmas

/// Handing out a job keeps the scheduler well formed.
pub proof fn lemma_dispatch_wf(v: SchedulerView, job_id: Seq<char>, image: Seq<char>)
    requires
        runner_wf(v),
        can_dispatch(v),
    ensures
        runner_wf(dispatch_step(v, job_id, image)),
{
    let t = dispatch_step(v, job_id, image);
    let task = new_task(v, job_id, image);
    let n = v.tasks.len() as int;
    assert forall|key: Seq<char>| #[trigger] busy(t.tasks, key) == in_use(t.gate, key) by {
        lemma_counts_with_new(v.tasks, task, key);
        assert(busy(v.tasks, key) == in_use(v.gate, key));
    }
    lemma_counts_with_new(v.tasks, task, Seq::empty());
    assert forall|i: int, j: int| 0 <= i < j < t.tasks.len() implies (
    #[trigger] t.tasks[i]).ticket != (#[trigger] t.tasks[j]).ticket by {
        if j < n {
            assert(v.tasks[i].ticket != v.tasks[j].ticket);
        } else {
            assert(v.tasks[i].ticket < v.next_ticket);
        }
    }
    assert forall|i: int| 0 <= i < t.tasks.len() implies (#[trigger] t.tasks[i]).ticket
        < t.next_ticket by {
        if i < n {
            assert(v.tasks[i].ticket < v.next_ticket);
        }
    }
}

/// A task's asking to start keeps the scheduler well formed, and the limiter
/// never takes a task that waits for a job that has not entered.
pub proof fn lemma_start_task_wf(v: SchedulerView, ticket: nat)
    requires
        runner_wf(v),
    ensures
        runner_wf(start_task_step(v, ticket)),
        task_in_phase(v, ticket, TaskPhase::Admitted) is Some ==> start_answer(
            v.gate,
            v.tasks[task_in_phase(v, ticket, TaskPhase::Admitted)->0].registry,
        ) != Admission::NotEntered,
{
    if task_in_phase(v, ticket, TaskPhase::Admitted) is Some {
        let i = task_in_phase(v, ticket, TaskPhase::Admitted)->0;
        lemma_task_index_from(v.tasks, ticket, 0);
        let key = v.tasks[i].registry;
        let t = start_task_step(v, ticket);
        let n = v.tasks.len() as int;
        lemma_counts_bounded(v.tasks, key, n);
        assert(!is_working(v.tasks[i]));
        lemma_pool_step(v.gate, key);
        crate::gate::law_steps_keep_gate_wf(v.gate, key);
        if start_answer(v.gate, key) == Admission::Granted {
            law_start_then_finish(v.gate, key);
            assert forall|k: Seq<char>| #[trigger] busy(t.tasks, k) == in_use(t.gate, k) by {
                lemma_counts_after_update(v.tasks, i, at_work(v.tasks[i]), k, n);
                assert(busy(v.tasks, k) == in_use(v.gate, k));
                if k != key {
                    law_keys_do_not_contend(v.gate, key, k);
                }
            }
            lemma_counts_after_update(v.tasks, i, at_work(v.tasks[i]), key, n);
            assert forall|a: int, b: int| 0 <= a < b < t.tasks.len() implies (
            #[trigger] t.tasks[a]).ticket != (#[trigger] t.tasks[b]).ticket by {
                assert(v.tasks[a].ticket != v.tasks[b].ticket);
            }
            assert forall|a: int| 0 <= a < t.tasks.len() implies (#[trigger] t.tasks[a]).ticket
                < t.next_ticket by {
                assert(v.tasks[a].ticket < v.next_ticket);
            }
        } else {
            assert forall|k: Seq<char>| #[trigger] busy(t.tasks, k) == in_use(t.gate, k) by {
                assert(busy(v.tasks, k) == in_use(v.gate, k));
            }
        }
    }
}

/// A task's giving back what it held keeps the scheduler well formed, and
/// the limiter always finds what the task gives back.
pub proof fn lemma_release_wf(v: SchedulerView, ticket: nat)
    requires
        runner_wf(v),
    ensures
        runner_wf(release_step(v, ticket)),
        task_in_phase(v, ticket, TaskPhase::Executing) is Some ==> crate::gate::may_finish(
            v.gate,
            v.tasks[task_index(v.tasks, ticket)->0].registry,
        ),
        task_in_phase(v, ticket, TaskPhase::Admitted) is Some ==> crate::gate::may_leave(v.gate),
{
    if task_index(v.tasks, ticket) is Some {
        let i = task_index(v.tasks, ticket)->0;
        lemma_task_index_from(v.tasks, ticket, 0);
        let key = v.tasks[i].registry;
        let t = release_step(v, ticket);
        let n = v.tasks.len() as int;
        lemma_counts_bounded(v.tasks, key, n);
        lemma_counts_without(v.tasks, i, key);
        assert(busy(v.tasks, key) == in_use(v.gate, key));
        crate::gate::law_steps_keep_gate_wf(v.gate, key);
        if v.tasks[i].phase == TaskPhase::Executing {
            assert(works_at(v.tasks[i], key));
            law_finish_frees(v.gate, key);
            assert forall|k: Seq<char>| #[trigger] busy(t.tasks, k) == in_use(t.gate, k) by {
                lemma_counts_without(v.tasks, i, k);
                assert(busy(v.tasks, k) == in_use(v.gate, k));
                if k != key {
                    law_keys_do_not_contend(v.gate, key, k);
                }
            }
        } else {
            assert(!is_working(v.tasks[i]));
            assert forall|k: Seq<char>| #[trigger] busy(t.tasks, k) == in_use(t.gate, k) by {
                lemma_counts_without(v.tasks, i, k);
                assert(busy(v.tasks, k) == in_use(v.gate, k));
            }
        }
        assert forall|a: int, b: int| 0 <= a < b < t.tasks.len() implies (
        #[trigger] t.tasks[a]).ticket != (#[trigger] t.tasks[b]).ticket by {
            let oa = if a < i {
                a
            } else {
                a + 1
            };
            let ob = if b < i {
                b
            } else {
                b + 1
            };
            assert(v.tasks[oa].ticket != v.tasks[ob].ticket);
        }
        assert forall|a: int| 0 <= a < t.tasks.len() implies (#[trigger] t.tasks[a]).ticket
            < t.next_ticket by {
            let oa = if a < i {
                a
            } else {
                a + 1
            };
            assert(v.tasks[oa].ticket < v.next_ticket);
        }
    }
}

// ------------------------------------------------------------- scheduler

impl Scheduler {
    /// Whether the scheduler is well formed; every operation keeps it so.
    pub open spec fn wf(&self) -> bool {
        runner_wf(self@)
    }

    /// A scheduler that lets `concurrency` jobs work at once,
    /// `per_registry_max` of them at one registry, and claims jobs for
    /// `lease_secs` seconds. No job is handed out yet.
    pub fn new(concurrency: usize, per_registry_max: usize, lease_secs: i64) -> (s: Scheduler)
        ensures
            s.wf(),
            s@.tasks == Seq::<TaskView>::empty(),
            s@.lease_secs == lease_secs,
            s@.next_ticket == 0,
            s@.gate.global_limit == concurrency,
            s@.gate.per_key_limit == per_registry_max,
            s@.gate.global_in_use == 0,
            s@.gate.pools.len() == 0,
    {
        let s = Scheduler {
            gate: AdmissionGate::new(concurrency, per_registry_max),
            tasks: Vec::new(),
            lease_secs,
            next_ticket: 0,
        };
        proof {
            assert(s@.tasks =~= Seq::<TaskView>::empty());
            assert forall|key: Seq<char>| #[trigger] busy(s@.tasks, key) == in_use(s@.gate, key) by {
                crate::gate::lemma_pool_index_from(s@.gate.pools, key, 0);
            }
        }
        s
    }

    /// The seconds for which jobs are claimed.
    pub fn lease_secs(&self) -> (secs: i64)
        ensures
            secs == self@.lease_secs,
    {
        self.lease_secs
    }

    /// How many jobs are handed out.
    pub fn task_count(&self) -> (n: usize)
        ensures
            n == self@.tasks.len(),
    {
        self.tasks.len()
    }

    /// How many jobs are being worked on.
    pub fn working_count(&self) -> (n: usize)
        requires
            self.wf(),
        ensures
            n == working(self@.tasks),
            n <= self@.gate.global_limit,
    {
        proof {
            law_gate_bounds(self@.gate, Seq::empty());
        }
        self.gate.at_work()
    }

    /// How many jobs are being worked on at `registry`.
    pub fn busy_count(&self, registry: &str) -> (n: usize)
        requires
            self.wf(),
        ensures
            n == busy(self@.tasks, registry@),
            n <= self@.gate.per_key_limit,
    {
        proof {
            law_gate_bounds(self@.gate, registry@);
            assert(busy(self@.tasks, registry@) == in_use(self@.gate, registry@));
        }
        self.gate.permits_in_use(registry)
    }

    /// The task that goes under `ticket`, if there is one.
    pub fn task(&self, ticket: u64) -> (r: Option<Task>)
        ensures
            match r {
                Some(t) => task_index(self@.tasks, ticket as nat) is Some && t@
                    == self@.tasks[task_index(self@.tasks, ticket as nat)->0],
                None => task_index(self@.tasks, ticket as nat) is None,
            },
    {
        match self.find_task(ticket) {
            Some(i) => Some(self.tasks[i].duplicate()),
            None => None,
        }
    }

    /// Position of the task that goes under `ticket`.
    fn find_task(&self, ticket: u64) -> (r: Option<usize>)
        ensures
            match r {
                Some(i) => task_index(self@.tasks, ticket as nat) == Some(i as int) && i
                    < self@.tasks.len(),
                None => task_index(self@.tasks, ticket as nat) is None,
            },
    {
        let mut i: usize = 0;
        while i < self.tasks.len()
            invariant
                i <= self.tasks.len(),
                task_index(self@.tasks, ticket as nat) == task_index_from(
                    self@.tasks,
                    ticket as nat,
                    i as int,
                ),
            decreases self.tasks.len() - i,
        {
            if self.tasks[i].ticket == ticket {
                return Some(i);
            }
            i = i + 1;
        }
        None
    }

    /// One turn of the dispatch loop. While a global permit is free, the
    /// runner claims the next job; the job enters the limiter and is to be
    /// handed to a task of its own. Without a claimable job the runner is
    /// to sleep for the idle delay. While every global permit is taken the
    /// runner claims nothing: it is to look again when a task has ended.
    pub fn poll(&mut self, store: &mut JobStore) -> (action: RunnerAction)
        requires
            old(self).wf(),
            old(store).wf(),
        ensures
            final(self).wf(),
            final(store).wf(),
            match action {
                RunnerAction::Spawn { ticket, job_id, image, registry } => {
                    &&& can_dispatch(old(self)@)
                    &&& claim_result(old(store)@) == Some((job_id@, image@))
                    &&& registry@ == registry_of(image@)
                    &&& ticket == old(self)@.next_ticket
                    &&& final(store)@ == claim_step(old(store)@, old(self)@.lease_secs)
                    &&& final(self)@ == dispatch_step(old(self)@, job_id@, image@)
                },
                RunnerAction::Idle { millis } => {
                    &&& can_dispatch(old(self)@)
                    &&& claim_result(old(store)@) is None
                    &&& millis == IDLE_DELAY_MS
                    &&& final(store)@ == old(store)@
                    &&& final(self)@ == old(self)@
                },
                RunnerAction::Saturated => {
                    &&& !can_dispatch(old(self)@)
                    &&& final(store)@ == old(store)@
                    &&& final(self)@ == old(self)@
                },
                RunnerAction::Backoff { .. } => false,
            },
    {
        if self.gate.entered() >= self.gate.global_limit() || self.next_ticket == u64::MAX {
            return RunnerAction::Saturated;
        }
        match claim_next_job(store, self.lease_secs) {
            None => RunnerAction::Idle { millis: IDLE_DELAY_MS },
            Some((job_id, image)) => {
                let registry = parse_registry(image.as_str());
                let ticket = self.next_ticket;
                let entered = self.gate.try_enter();
                assert(entered);
                self.tasks.push(
                    Task {
                        ticket,
                        job_id: job_id.clone(),
                        image: image.clone(),
                        registry: registry.clone(),
                        phase: TaskPhase::Admitted,
                    },
                );
                self.next_ticket = ticket + 1;
                proof {
                    lemma_dispatch_wf(old(self)@, job_id@, image@);
                    assert(self@.tasks =~= dispatch_step(old(self)@, job_id@, image@).tasks);
                }
                RunnerAction::Spawn { ticket, job_id, image, registry }
            },
        }
    }

    /// One whole turn of the runner at the instant `now`, in this order: the
    /// store's clock is told that it is `now`; the sweep fails every job
    /// whose lease has run out by then; then the runner looks for a job as
    /// `poll` does. Returns the number of jobs that the sweep failed, and
    /// what the runner is to do next.
    pub fn turn(&mut self, store: &mut JobStore, now: i64) -> (r: (usize, RunnerAction))
        requires
            old(self).wf(),
            old(store).wf(),
        ensures
            final(self).wf(),
            final(store).wf(),
            ({
                let clocked = clock_step(old(store)@, now as int);
                &&& r.0 == stale_count(clocked.jobs, clocked.now, clocked.jobs.len() as int)
                &&& polled(sweep_step(clocked), old(self)@, r.1, final(store)@, final(self)@)
            }),
    {
        store.advance_clock(now);
        let swept = recover_stale_jobs(store);
        let action = self.poll(store);
        (swept, action)
    }

    /// What the runner does when the store could not be reached: it sleeps
    /// for the error delay and looks again. It never stops.
    pub fn on_store_error(&self) -> (action: RunnerAction)
        ensures
            action == (RunnerAction::Backoff { millis: ERROR_DELAY_MS }),
    {
        RunnerAction::Backoff { millis: ERROR_DELAY_MS }
    }

    /// The task under `ticket`, which holds a global permit, asks to start
    /// work. It gets a permit of its registry if one is free, and is then
    /// to pull the image and to send heartbeats; if none is free it is to
    /// ask again, holding its global permit meanwhile. A ticket under which
    /// no task waits changes nothing.
    pub fn start_task(&mut self, ticket: u64) -> (action: TaskAction)
        requires
            old(self).wf(),
        ensures
            final(self).wf(),
            final(self)@ == start_task_step(old(self)@, ticket as nat),
            match task_in_phase(old(self)@, ticket as nat, TaskPhase::Admitted) {
                Some(i) => {
                    let task = old(self)@.tasks[i];
                    match action {
                        TaskAction::Execute { job_id, image, heartbeat_secs } => {
                            &&& start_answer(old(self)@.gate, task.registry) == Admission::Granted
                            &&& job_id@ == task.job_id
                            &&& image@ == task.image
                            &&& heartbeat_secs == heartbeat_every(old(self)@.lease_secs)
                        },
                        TaskAction::Wait => start_answer(old(self)@.gate, task.registry)
                            == Admission::Busy,
                        TaskAction::Unknown => false,
                    }
                },
                None => action == TaskAction::Unknown,
            },
    {
        proof {
            lemma_start_task_wf(self@, ticket as nat);
        }
        let at = match self.find_task(ticket) {
            Some(i) => i,
            None => {
                return TaskAction::Unknown;
            },
        };
        let task = self.tasks[at].duplicate();
        match task.phase {
            TaskPhase::Executing => TaskAction::Unknown,
            TaskPhase::Admitted => {
                match self.gate.try_start(task.registry.as_str()) {
                    Admission::Granted => {
                        let job_id = task.job_id.clone();
                        let image = task.image.clone();
                        let working = Task { phase: TaskPhase::Executing, ..task };
                        self.tasks.set(at, working);
                        assert(self@.tasks =~= start_task_step(old(self)@, ticket as nat).tasks);
                        TaskAction::Execute {
                            job_id,
                            image,
                            heartbeat_secs: heartbeat_interval(self.lease_secs),
                        }
                    },
                    _ => {
                        assert(self@.tasks =~= old(self)@.tasks);
                        TaskAction::Wait
                    },
                }
            },
        }
    }

    /// A heartbeat of the task under `ticket`: while the task is at work
    /// and its job still runs, the lease of the job is extended to a whole
    /// lease from now. Says whether the lease was extended.
    pub fn heartbeat(&mut self, store: &mut JobStore, ticket: u64) -> (extended: bool)
        requires
            old(self).wf(),
            old(store).wf(),
        ensures
            final(self).wf(),
            final(store).wf(),
            final(self)@ == old(self)@,
            match task_in_phase(old(self)@, ticket as nat, TaskPhase::Executing) {
                Some(i) => {
                    &&& final(store)@ == heartbeat_step(
                        old(store)@,
                        old(self)@.tasks[i].job_id,
                        old(self)@.lease_secs,
                    )
                    &&& extended == crate::db::model::beating(
                        old(store)@,
                        old(self)@.tasks[i].job_id,
                    ) is Some
                },
                None => final(store)@ == old(store)@ && !extended,
            },
    {
        let at = match self.find_task(ticket) {
            Some(i) => i,
            None => {
                return false;
            },
        };
        match self.tasks[at].phase {
            TaskPhase::Admitted => false,
            TaskPhase::Executing => {
                let job_id = self.tasks[at].job_id.clone();
                heartbeat_job(store, job_id.as_str(), self.lease_secs)
            },
        }
    }

    /// The task under `ticket` gives back what it holds and is forgotten; a
    /// task at work gives back both its permits together, a task that
    /// waited its global permit. No store is touched: a job whose task ends
    /// like this stays as it is until its lease runs out. Says whether
    /// there was such a task.
    pub fn release_task(&mut self, ticket: u64) -> (released: bool)
        requires
            old(self).wf(),
        ensures
            final(self).wf(),
            final(self)@ == release_step(old(self)@, ticket as nat),
            released == task_index(old(self)@.tasks, ticket as nat) is Some,
    {
        proof {
            lemma_release_wf(self@, ticket as nat);
        }
        let at = match self.find_task(ticket) {
            Some(i) => i,
            None => {
                return false;
            },
        };
        let task = self.tasks.remove(at);
        match task.phase {
            TaskPhase::Executing => {
                let done = self.gate.finish(task.registry.as_str());
                assert(done);
            },
            TaskPhase::Admitted => {
                let done = self.gate.leave();
                assert(done);
            },
        }
        assert(self@.tasks =~= old(self)@.tasks.remove(at as int));
        true
    }

    /// The pull of the task under `ticket` has ended. Its outcome is
    /// written to the job: a completion with its summary, or a failure with
    /// its reason and one more retry counted; a job that is finished
    /// already stays as it is. The task gives back both its permits and is
    /// forgotten. A ticket under which no task is at work changes nothing.
    /// Says whether there was such a task.
    pub fn finish_task(&mut self, store: &mut JobStore, ticket: u64, outcome: &PullOutcome) -> (finished:
        bool)
        requires
            old(self).wf(),
            old(store).wf(),
        ensures
            final(self).wf(),
            final(store).wf(),
            match task_in_phase(old(self)@, ticket as nat, TaskPhase::Executing) {
                Some(i) => {
                    &&& finished
                    &&& final(store)@ == outcome_step(
                        old(store)@,
                        old(self)@.tasks[i].job_id,
                        *outcome,
                    )
                    &&& final(self)@ == release_step(old(self)@, ticket as nat)
                },
                None => !finished && final(store)@ == old(store)@ && final(self)@ == old(
                    self,
                )@,
            },
    {
        let at = match self.find_task(ticket) {
            Some(i) => i,
            None => {
                return false;
            },
        };
        match self.tasks[at].phase {
            TaskPhase::Admitted => false,
            TaskPhase::Executing => {
                let job_id = self.tasks[at].job_id.clone();
                match outcome {
                    PullOutcome::Completed(summary) => {
                        match summary {
                            Some(text) => {
                                complete_job(store, job_id.as_str(), Some(text.as_str()));
                            },
                            None => {
                                complete_job(store, job_id.as_str(), None);
                            },
                        }
                    },
                    PullOutcome::Failed(reason) => {
                        fail_job(store, job_id.as_str(), reason.as_str());
                    },
                }
                self.release_task(ticket)
            },
        }
    }

    /// The pull of the task under `ticket` has ended. A pull that succeeded
    /// is recorded: its metric facts are written and its job completes with
    /// the summary of the pull. A pull that failed fails its job, with the
    /// reason and one more retry counted, and writes no metric fact. A job
    /// that is finished already keeps its status. The task gives back both
    /// its permits and is forgotten. A ticket under which no task is at
    /// work changes nothing. Says whether there was such a task.
    pub fn conclude_task(&mut self, store: &mut JobStore, ticket: u64, end: &PullEnd) -> (concluded:
        bool)
        requires
            old(self).wf(),
            old(store).wf(),
        ensures
            final(self).wf(),
            final(store).wf(),
            match task_in_phase(old(self)@, ticket as nat, TaskPhase::Executing) {
                Some(i) => {
                    &&& concluded
                    &&& final(store)@ == end_step(old(store)@, old(self)@.tasks[i].job_id, *end)
                    &&& final(self)@ == release_step(old(self)@, ticket as nat)
                },
                None => !concluded && final(store)@ == old(store)@ && final(self)@ == old(self)@,
            },
    {
        let at = match self.find_task(ticket) {
            Some(i) => i,
            None => {
                return false;
            },
        };
        match self.tasks[at].phase {
            TaskPhase::Admitted => false,
            TaskPhase::Executing => {
                let job_id = self.tasks[at].job_id.clone();
                match end {
                    PullEnd::Pulled { plan, measure, readings } => {
                        let _ = record_pull(store, job_id.as_str(), plan, measure, readings);
                    },
                    PullEnd::Broken(reason) => {
                        fail_job(store, job_id.as_str(), reason.as_str());
                    },
                }
                self.release_task(ticket)
            },
        }
    }

    /// The task under `ticket` is given up before it could start work. Its
    /// job is failed with a note to that effect and one more retry counted;
    /// a job that is finished already stays as it is. The task gives back
    /// its global permit and is forgotten. A ticket under which no task
    /// waits changes nothing. Says whether there was such a task.
    pub fn abandon_task(&mut self, store: &mut JobStore, ticket: u64) -> (abandoned: bool)
        requires
            old(self).wf(),
            old(store).wf(),
        ensures
            final(self).wf(),
            final(store).wf(),
            match task_in_phase(old(self)@, ticket as nat, TaskPhase::Admitted) {
                Some(i) => {
                    &&& abandoned
                    &&& final(store)@ == fail_step(
                        old(store)@,
                        old(self)@.tasks[i].job_id,
                        abandoned_detail(),
                    )
                    &&& final(self)@ == release_step(old(self)@, ticket as nat)
                },
                None => !abandoned && final(store)@ == old(store)@ && final(self)@
                    == old(self)@,
            },
    {
        let at = match self.find_task(ticket) {
            Some(i) => i,
            None => {
                return false;
            },
        };
        match self.tasks[at].phase {
            TaskPhase::Executing => false,
            TaskPhase::Admitted => {
                let job_id = self.tasks[at].job_id.clone();
                fail_job(store, job_id.as_str(), "registry semaphore closed");
                self.release_task(ticket)
            },
        }
    }
}

// ------------------------------------------------------------------ laws

/// The bounds of the scheduler: at no point are more jobs being worked on
/// than there are global permits, nor more at one registry than a registry
/// has permits; and no more jobs are handed out than there are global
/// permits.
pub proof fn law_concurrency_is_bounded(v: SchedulerView, key: Seq<char>)
    requires
        runner_wf(v),
    ensures
        working(v.tasks) <= v.tasks.len() <= v.gate.global_limit,
        busy(v.tasks, key) <= v.gate.per_key_limit,
        busy(v.tasks, key) <= working(v.tasks),
{
    law_gate_bounds(v.gate, key);
    lemma_counts_bounded(v.tasks, key, v.tasks.len() as int);
    assert(busy(v.tasks, key) == in_use(v.gate, key));
}

/// Every step keeps the scheduler within its bounds: handing out a job, a
/// task's asking to start, and a task's giving back what it holds.
pub proof fn law_steps_keep_runner_wf(
    v: SchedulerView,
    ticket: nat,
    job_id: Seq<char>,
    image: Seq<char>,
)
    requires
        runner_wf(v),
    ensures
        can_dispatch(v) ==> runner_wf(dispatch_step(v, job_id, image)),
        runner_wf(start_task_step(v, ticket)),
        runner_wf(release_step(v, ticket)),
{
    if can_dispatch(v) {
        lemma_dispatch_wf(v, job_id, image);
    }
    lemma_start_task_wf(v, ticket);
    lemma_release_wf(v, ticket);
}

/// Every turn of the runner reclaims what was abandoned: a job that runs
/// under a lease that has run out by the instant of the turn is failed when
/// the turn is over, whatever the runner claims in that turn.
pub proof fn law_turn_reclaims_stale_jobs(
    before: StoreView,
    v: SchedulerView,
    now: int,
    action: RunnerAction,
    after: StoreView,
    w: SchedulerView,
    i: int,
)
    requires
        crate::db::model::store_wf(before),
        polled(sweep_step(clock_step(before, now)), v, action, after, w),
        0 <= i < before.jobs.len(),
        crate::db::model::stale(clock_step(before, now).jobs[i], clock_step(before, now).now),
    ensures
        after.jobs.len() == before.jobs.len(),
        after.jobs[i].status == crate::db::job::JobStatus::Failed,
{
    let clocked = clock_step(before, now);
    let swept = sweep_step(clocked);
    crate::db::laws::law_clock_step_wf(before, now);
    crate::db::laws::law_sweep_step_wf(clocked);
    crate::db::laws::law_sweep_reclaims(clocked);
    crate::db::laws::law_finished_jobs_are_left_alone(
        swept,
        i,
        v.lease_secs,
        Seq::empty(),
        None,
        Seq::empty(),
        crate::db::job::JobStatus::Queued,
    );
    crate::db::ops::lemma_best_claim(swept.jobs, swept.now, swept.jobs.len() as int);
}

/// A pull that failed writes nothing but the failure: the metric facts are
/// as they were, and so is every job but the one that failed.
pub proof fn law_failed_pull_writes_no_metric(s: StoreView, job_id: Seq<char>, reason: String)
    ensures
        end_step(s, job_id, PullEnd::Broken(reason)).metrics == s.metrics,
        end_step(s, job_id, PullEnd::Broken(reason)).now == s.now,
        end_step(s, job_id, PullEnd::Broken(reason)).jobs.len() == s.jobs.len(),
        forall|k: int|
            0 <= k < s.jobs.len() && (#[trigger] s.jobs[k]).id != job_id ==> end_step(
                s,
                job_id,
                PullEnd::Broken(reason),
            ).jobs[k] == s.jobs[k],
{
    crate::db::store::lemma_job_index(s.jobs, job_id);
}

/// While every global permit is held by a task, the runner hands out no
/// job; it hands one out again only once a task has given its permit back.
pub proof fn law_saturated_runner_claims_nothing(v: SchedulerView, ticket: nat)
    requires
        runner_wf(v),
        v.tasks.len() == v.gate.global_limit,
    ensures
        !can_dispatch(v),
        task_index(v.tasks, ticket) is Some && v.next_ticket < u64::MAX ==> can_dispatch(
            release_step(v, ticket),
        ),
{
    if task_index(v.tasks, ticket) is Some {
        lemma_release_wf(v, ticket);
        lemma_task_index_from(v.tasks, ticket, 0);
    }
}

/// A task that finds its registry busy keeps its global permit while it
/// waits, and starts as soon as a task at work at that registry has given
/// its permits back.
pub proof fn law_waiting_task_starts_after_release(v: SchedulerView, waiting: nat, working: nat)
    requires
        runner_wf(v),
        task_in_phase(v, waiting, TaskPhase::Admitted) is Some,
        task_in_phase(v, working, TaskPhase::Executing) is Some,
        v.tasks[task_index(v.tasks, waiting)->0].registry == v.tasks[task_index(
            v.tasks,
            working,
        )->0].registry,
        v.gate.per_key_limit >= 1,
    ensures
        ({
            let key = v.tasks[task_index(v.tasks, waiting)->0].registry;
            let freed = release_step(v, working);
            &&& start_answer(v.gate, key) == Admission::Busy ==> start_task_step(v, waiting).tasks
                == v.tasks
            &&& task_in_phase(freed, waiting, TaskPhase::Admitted) is Some
            &&& start_answer(freed.gate, key) == Admission::Granted
        }),
{
    let i = task_index(v.tasks, waiting)->0;
    let j = task_index(v.tasks, working)->0;
    let key = v.tasks[i].registry;
    let freed = release_step(v, working);
    lemma_task_index_from(v.tasks, waiting, 0);
    lemma_task_index_from(v.tasks, working, 0);
    lemma_release_wf(v, working);
    law_finish_frees(v.gate, key);
    law_gate_bounds(v.gate, key);
    lemma_task_index_from(freed.tasks, waiting, 0);
    let k = if i < j {
        i
    } else {
        i - 1
    };
    assert(freed.tasks[k] == v.tasks[i]);
    if task_index(freed.tasks, waiting) is Some {
        let found = task_index(freed.tasks, waiting)->0;
        if found != k {
            let of = if found < j {
                found
            } else {
                found + 1
            };
            assert(freed.tasks[found] == v.tasks[of]);
            if of < i {
                assert(v.tasks[of].ticket != v.tasks[i].ticket);
            } else {
                assert(v.tasks[i].ticket != v.tasks[of].ticket);
            }
        }
    }
    lemma_counts_bounded(freed.tasks, key, freed.tasks.len() as int);
    assert(!is_working(freed.tasks[k]));
}

} // verus!

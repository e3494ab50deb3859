//! The jobs that the scheduler has handed out and not yet taken back, and
//! how to count them.

use vstd::prelude::*;

verus! {

/// How far a handed-out job has come.
#[derive(Clone, Copy, Debug, PartialEq, Eq, Structural)]
pub enum TaskPhase {
    /// The job holds a global permit and waits for a permit of its
    /// registry.
    Admitted,
    /// The job holds both permits and is being worked on.
    Executing,
}

/// A job that was handed out, under the ticket by which the scheduler
/// knows the hand-out.
#[derive(Clone, Debug, PartialEq, Eq)]
pub struct Task {
    pub ticket: u64,
    pub job_id: String,
    pub image: String,
    pub registry: String,
    pub phase: TaskPhase,
}

/// The mathematical content of a [`Task`].
pub struct TaskView {
    pub ticket: nat,
    pub job_id: Seq<char>,
    pub image: Seq<char>,
    pub registry: Seq<char>,
    pub phase: TaskPhase,
}

impl View for Task {
    type V = TaskView;

    open spec fn view(&self) -> TaskView {
        TaskView {
            ticket: self.ticket as nat,
            job_id: self.job_id@,
            image: self.image@,
            registry: self.registry@,
            phase: self.phase,
        }
    }
}

impl Task {
    /// A copy of the task with the same content.
    pub fn duplicate(&self) -> (r: Task)
        ensures
            r@ == self@,
    {
        Task {
            ticket: self.ticket,
            job_id: self.job_id.clone(),
            image: self.image.clone(),
            registry: self.registry.clone(),
            phase: self.phase,
        }
    }
}

/// Position of the first task at or after `from` that goes under `ticket`.
pub open spec fn task_index_from(tasks: Seq<TaskView>, ticket: nat, from: int) -> Option<int>
    decreases tasks.len() - from,
{
    if from < 0 || from >= tasks.len() {
        None
    } else if tasks[from].ticket == ticket {
        Some(from)
    } else {
        task_index_from(tasks, ticket, from + 1)
    }
}

/// Position of the task that goes under `ticket`, if there is one.
pub open spec fn task_index(tasks: Seq<TaskView>, ticket: nat) -> Option<int> {
    task_index_from(tasks, ticket, 0)
}

/// Whether `t` is being worked on.
pub open spec fn is_working(t: TaskView) -> bool {
    t.phase == TaskPhase::Executing
}

/// Whether `t` is being worked on at the registry `key`.
pub open spec fn works_at(t: TaskView, key: Seq<char>) -> bool {
    t.phase == TaskPhase::Executing && t.registry == key
}

/// How many of the first `n` tasks are being worked on.
pub open spec fn working_count(tasks: Seq<TaskView>, n: int) -> nat
    decreases n,
{
    if n <= 0 || n > tasks.len() {
        0
    } else {
        working_count(tasks, n - 1) + if is_working(tasks[n - 1]) {
            1nat
        } else {
            0nat
        }
    }
}

/// How many of the first `n` tasks are being worked on at `key`.
pub open spec fn busy_count(tasks: Seq<TaskView>, key: Seq<char>, n: int) -> nat
    decreases n,
{
    if n <= 0 || n > tasks.len() {
        0
    } else {
        busy_count(tasks, key, n - 1) + if works_at(tasks[n - 1], key) {
            1nat
        } else {
            0nat
        }
    }
}

/// How many tasks are being worked on.
pub open spec fn working(tasks: Seq<TaskView>) -> nat {
    working_count(tasks, tasks.len() as int)
}

/// How many tasks are being worked on at `key`.
pub open spec fn busy(tasks: Seq<TaskView>, key: Seq<char>) -> nat {
    busy_count(tasks, key, tasks.len() as int)
}

/// Where `task_index_from` finds a task, the task goes under the ticket
/// and no task between `from` and it does; where it finds none, none from
/// `from` on does.
pub proof fn lemma_task_index_from(tasks: Seq<TaskView>, ticket: nat, from: int)
    requires
        0 <= from <= tasks.len(),
    ensures
        match task_index_from(tasks, ticket, from) {
            Some(i) => from <= i < tasks.len() && tasks[i].ticket == ticket && forall|k: int|
                from <= k < i ==> (#[trigger] tasks[k]).ticket != ticket,
            None => forall|k: int| from <= k < tasks.len() ==> (#[trigger] tasks[k]).ticket != ticket,
        },
    decreases tasks.len() - from,
{
    if from < tasks.len() && tasks[from].ticket != ticket {
        lemma_task_index_from(tasks, ticket, from + 1);
    }
}

/// No more tasks are being worked on than there are, fewer where one of
/// them is not, and no more at one registry than at all.
pub proof fn lemma_counts_bounded(tasks: Seq<TaskView>, key: Seq<char>, n: int)
    requires
        0 <= n <= tasks.len(),
    ensures
        busy_count(tasks, key, n) <= working_count(tasks, n) <= n,
        forall|i: int| 0 <= i < n && !is_working(#[trigger] tasks[i]) ==> working_count(tasks, n) < n,
    decreases n,
{
    if n > 0 {
        lemma_counts_bounded(tasks, key, n - 1);
    }
}

/// A task added at the end counts where it is being worked on; the counts
/// of the tasks before it stay.
pub proof fn lemma_counts_after_push(tasks: Seq<TaskView>, t: TaskView, key: Seq<char>, n: int)
    requires
        0 <= n <= tasks.len(),
    ensures
        working_count(tasks.push(t), n) == working_count(tasks, n),
        busy_count(tasks.push(t), key, n) == busy_count(tasks, key, n),
    decreases n,
{
    if n > 0 {
        lemma_counts_after_push(tasks, t, key, n - 1);
    }
}

/// The counts after a task was added at the end.
pub proof fn lemma_counts_with_new(tasks: Seq<TaskView>, t: TaskView, key: Seq<char>)
    ensures
        working(tasks.push(t)) == working(tasks) + if is_working(t) {
            1nat
        } else {
            0nat
        },
        busy(tasks.push(t), key) == busy(tasks, key) + if works_at(t, key) {
            1nat
        } else {
            0nat
        },
{
    lemma_counts_after_push(tasks, t, key, tasks.len() as int);
    assert(tasks.push(t)[tasks.len() as int] == t);
}

/// The counts after the task at position `i` was replaced by `t`.
pub proof fn lemma_counts_after_update(
    tasks: Seq<TaskView>,
    i: int,
    t: TaskView,
    key: Seq<char>,
    n: int,
)
    requires
        0 <= i < tasks.len(),
        0 <= n <= tasks.len(),
    ensures
        working_count(tasks.update(i, t), n) == if i < n {
            working_count(tasks, n) - (if is_working(tasks[i]) {
                1int
            } else {
                0int
            }) + (if is_working(t) {
                1int
            } else {
                0int
            })
        } else {
            working_count(tasks, n) as int
        },
        busy_count(tasks.update(i, t), key, n) == if i < n {
            busy_count(tasks, key, n) - (if works_at(tasks[i], key) {
                1int
            } else {
                0int
            }) + (if works_at(t, key) {
                1int
            } else {
                0int
            })
        } else {
            busy_count(tasks, key, n) as int
        },
    decreases n,
{
    if n > 0 {
        lemma_counts_after_update(tasks, i, t, key, n - 1);
    }
}

/// The counts after the task at position `i` was taken out.
pub proof fn lemma_counts_after_remove(tasks: Seq<TaskView>, i: int, key: Seq<char>, n: int)
    requires
        0 <= i < tasks.len(),
        0 <= n <= tasks.len() - 1,
    ensures
        working_count(tasks.remove(i), n) == if i < n {
            working_count(tasks, n + 1) - (if is_working(tasks[i]) {
                1int
            } else {
                0int
            })
        } else {
            working_count(tasks, n) as int
        },
        busy_count(tasks.remove(i), key, n) == if i < n {
            busy_count(tasks, key, n + 1) - (if works_at(tasks[i], key) {
                1int
            } else {
                0int
            })
        } else {
            busy_count(tasks, key, n) as int
        },
    decreases n,
{
    if n > 0 {
        lemma_counts_after_remove(tasks, i, key, n - 1);
        assert(tasks.remove(i)[n - 1] == if n - 1 < i {
            tasks[n - 1]
        } else {
            tasks[n]
        });
    }
}

/// The counts after the task at position `i` was taken out of all tasks.
pub proof fn lemma_counts_without(tasks: Seq<TaskView>, i: int, key: Seq<char>)
    requires
        0 <= i < tasks.len(),
    ensures
        working(tasks.remove(i)) == working(tasks) - if is_working(tasks[i]) {
            1int
        } else {
            0int
        },
        busy(tasks.remove(i), key) == busy(tasks, key) - if works_at(tasks[i], key) {
            1int
        } else {
            0int
        },
{
    lemma_counts_after_remove(tasks, i, key, tasks.len() - 1);
}

} // verus!

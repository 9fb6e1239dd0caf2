//! The pool as the cooperative model sees it, over plain values: the pending
//! tasks, the signal that ends the scheduler's loop, and the record of what
//! happened.
use crate::ledger::{
    lemma_occurrences_add, lemma_occurrences_cancelled, lemma_occurrences_executing,
    lemma_occurrences_push, lemma_occurrences_repeated, lemma_queued_first, lemma_queued_push,
    lemma_queued_without,
};
use crate::model::{occurrences, queued, repeated};
use crate::queue::{ids, without};
use crate::task::{TaskEvent, TaskRef};
use vstd::prelude::*;

verus! {

/// One event for each identity in `ids`, in the same order.
pub open spec fn each(ids: Seq<usize>, event: spec_fn(usize) -> TaskEvent) -> Seq<TaskEvent> {
    ids.map_values(event)
}

/// A cooperative pool, as plain values.
pub struct CoopModel {
    /// The pending tasks, the next one to leave first.
    pub pending: Seq<TaskRef>,
    /// What has happened to tasks in this pool, in the order in which it
    /// happened. A task that was handed out as a job is recorded as
    /// executing; the pool does not learn when the job ends.
    pub history: Seq<TaskEvent>,
    /// The signal that ends the scheduler's loop is set.
    pub terminated: bool,
}

/// What the scheduler does next.
pub enum SchedulerAction {
    /// Run the task as a job of its own, and come back without waiting for
    /// it.
    Spawn(TaskRef),
    /// Give way to other jobs, without blocking, and come back.
    Yield,
    /// End the loop.
    Exit,
}

impl CoopModel {
    /// A new pool: nothing pending, nothing recorded, no signal.
    pub open spec fn fresh() -> CoopModel {
        CoopModel { pending: Seq::empty(), history: Seq::empty(), terminated: false }
    }

    /// `task` is put at the tail of the queue.
    pub open spec fn submit(self, task: TaskRef) -> CoopModel {
        CoopModel {
            pending: self.pending.push(task),
            history: self.history.push(TaskEvent::Submitted(task.id())),
            ..self
        }
    }

    /// What the scheduler does next: it ends its loop once the signal is
    /// set; until then it runs the first pending task as a job, or gives way
    /// if it sees the queue empty.
    pub open spec fn next_action(self) -> SchedulerAction {
        if self.terminated {
            SchedulerAction::Exit
        } else if self.pending.len() == 0 {
            SchedulerAction::Yield
        } else {
            SchedulerAction::Spawn(self.pending.first())
        }
    }

    /// The pool after one turn of the scheduler's loop: a task that is run
    /// as a job has left the queue, and the signal that ended the loop is
    /// taken back, so that the loop can be run again.
    pub open spec fn turn(self) -> CoopModel {
        if self.terminated {
            CoopModel { terminated: false, ..self }
        } else {
            self.dispatch()
        }
    }

    /// Every pending reference to the task `id` leaves the queue, and is
    /// recorded as cancelled.
    pub open spec fn cancel(self, id: usize) -> CoopModel {
        CoopModel {
            pending: without(self.pending, id),
            history: self.history + repeated(
                TaskEvent::Cancelled(id),
                queued(self.pending, id),
            ),
            ..self
        }
    }

    /// The first pending task, if there is one, is handed out as a job.
    pub open spec fn dispatch(self) -> CoopModel {
        if self.pending.len() > 0 {
            CoopModel {
                pending: self.pending.drop_first(),
                history: self.history.push(TaskEvent::Executing(self.pending.first().id())),
                ..self
            }
        } else {
            self
        }
    }

    /// Every pending task is handed out as a job, in order.
    pub open spec fn dispatch_all(self) -> CoopModel {
        CoopModel {
            pending: Seq::empty(),
            history: self.history + each(ids(self.pending), |id: usize| TaskEvent::Executing(id)),
            ..self
        }
    }

    /// The signal is set, and every pending task leaves the queue and is
    /// recorded as cancelled. Jobs that were handed out before are not
    /// touched.
    pub open spec fn terminate(self) -> CoopModel {
        CoopModel {
            pending: Seq::empty(),
            history: self.history + each(ids(self.pending), |id: usize| TaskEvent::Cancelled(id)),
            terminated: true,
        }
    }
}

/// One thing that can happen to a cooperative pool.
pub enum CoopStep {
    /// A task is submitted.
    Submit(TaskRef),
    /// The task of this identity is cancelled.
    Cancel(usize),
    /// The first pending task is handed out as a job.
    Dispatch,
    /// Every pending task is handed out as a job.
    DispatchAll,
    /// The pool is told to terminate.
    Terminate,
    /// The scheduler's loop takes one turn.
    Turn,
}

impl CoopModel {
    /// The pool after `step`.
    pub open spec fn step(self, step: CoopStep) -> CoopModel {
        match step {
            CoopStep::Submit(task) => self.submit(task),
            CoopStep::Cancel(id) => self.cancel(id),
            CoopStep::Dispatch => self.dispatch(),
            CoopStep::DispatchAll => self.dispatch_all(),
            CoopStep::Terminate => self.terminate(),
            CoopStep::Turn => self.turn(),
        }
    }

    /// How often the task `id` was submitted.
    pub open spec fn submitted(self, id: usize) -> nat {
        occurrences(self.history, TaskEvent::Submitted(id))
    }

    /// How often the task `id` left the queue without becoming a job.
    pub open spec fn cancelled(self, id: usize) -> nat {
        occurrences(self.history, TaskEvent::Cancelled(id))
    }

    /// How often the task `id` was handed out as a job.
    pub open spec fn executed(self, id: usize) -> nat {
        occurrences(self.history, TaskEvent::Executing(id))
    }

    /// The record accounts for the task `id`: each time it was submitted it
    /// is pending, or left the queue without becoming a job, or was handed
    /// out as a job.
    pub open spec fn accounts_for(self, id: usize) -> bool {
        self.submitted(id) == queued(self.pending, id) + self.cancelled(id) + self.executed(id)
    }

    /// The record accounts for every task.
    pub open spec fn wf(self) -> bool {
        forall|id: usize| #[trigger] self.accounts_for(id)
    }
}

/// A new cooperative pool is well formed.
pub proof fn law_coop_fresh_is_well_formed()
    ensures
        CoopModel::fresh().wf(),
{
    let fresh = CoopModel::fresh();
    assert forall|id: usize| #[trigger] fresh.accounts_for(id) by {}
}

/// Whatever happens to a well-formed cooperative pool, it stays well formed:
/// no task is lost, none is made up, and none becomes a job more often than
/// it was submitted.
pub proof fn law_coop_step_preserves_well_formedness(pool: CoopModel, step: CoopStep)
    requires
        pool.wf(),
    ensures
        pool.step(step).wf(),
        forall|id: usize| #[trigger] pool.step(step).executed(id) <= pool.step(step).submitted(id),
{
    let next = pool.step(step);
    assert forall|id: usize| #[trigger] next.accounts_for(id) by {
        assert(pool.accounts_for(id));
        let submitted = TaskEvent::Submitted(id);
        let cancelled = TaskEvent::Cancelled(id);
        let executing = TaskEvent::Executing(id);
        match step {
            CoopStep::Submit(task) => {
                let event = TaskEvent::Submitted(task.id());
                lemma_queued_push(pool.pending, task, id);
                lemma_occurrences_push(pool.history, event, submitted);
                lemma_occurrences_push(pool.history, event, cancelled);
                lemma_occurrences_push(pool.history, event, executing);
            },
            CoopStep::Cancel(gone) => {
                let added = repeated(TaskEvent::Cancelled(gone), queued(pool.pending, gone));
                lemma_queued_without(pool.pending, gone, id);
                lemma_occurrences_add(pool.history, added, submitted);
                lemma_occurrences_add(pool.history, added, cancelled);
                lemma_occurrences_add(pool.history, added, executing);
                lemma_occurrences_repeated(
                    TaskEvent::Cancelled(gone),
                    queued(pool.pending, gone),
                    submitted,
                );
                lemma_occurrences_repeated(
                    TaskEvent::Cancelled(gone),
                    queued(pool.pending, gone),
                    cancelled,
                );
                lemma_occurrences_repeated(
                    TaskEvent::Cancelled(gone),
                    queued(pool.pending, gone),
                    executing,
                );
            },
            CoopStep::Dispatch => {
                if pool.pending.len() > 0 {
                    let event = TaskEvent::Executing(pool.pending.first().id());
                    lemma_queued_first(pool.pending, id);
                    lemma_occurrences_push(pool.history, event, submitted);
                    lemma_occurrences_push(pool.history, event, cancelled);
                    lemma_occurrences_push(pool.history, event, executing);
                }
            },
            CoopStep::Turn => {
                if !pool.terminated && pool.pending.len() > 0 {
                    let event = TaskEvent::Executing(pool.pending.first().id());
                    lemma_queued_first(pool.pending, id);
                    lemma_occurrences_push(pool.history, event, submitted);
                    lemma_occurrences_push(pool.history, event, cancelled);
                    lemma_occurrences_push(pool.history, event, executing);
                }
            },
            CoopStep::DispatchAll => {
                let added = each(ids(pool.pending), |id: usize| TaskEvent::Executing(id));
                lemma_occurrences_add(pool.history, added, submitted);
                lemma_occurrences_add(pool.history, added, cancelled);
                lemma_occurrences_add(pool.history, added, executing);
                lemma_occurrences_executing(ids(pool.pending), submitted);
                lemma_occurrences_executing(ids(pool.pending), cancelled);
                lemma_occurrences_executing(ids(pool.pending), executing);
            },
            CoopStep::Terminate => {
                let added = each(ids(pool.pending), |id: usize| TaskEvent::Cancelled(id));
                lemma_occurrences_add(pool.history, added, submitted);
                lemma_occurrences_add(pool.history, added, cancelled);
                lemma_occurrences_add(pool.history, added, executing);
                lemma_occurrences_cancelled(ids(pool.pending), submitted);
                lemma_occurrences_cancelled(ids(pool.pending), cancelled);
                lemma_occurrences_cancelled(ids(pool.pending), executing);
            },
        }
    }
    assert forall|id: usize| #[trigger] next.executed(id) <= next.submitted(id) by {
        assert(next.accounts_for(id));
    }
}

/// Terminating hands out no job and takes none back: what was handed out
/// before stays so, nothing is pending afterwards, and the next turn of the
/// scheduler's loop ends the loop.
pub proof fn law_terminate_drops_pending_tasks_only(pool: CoopModel, id: usize)
    ensures
        pool.terminate().pending.len() == 0,
        pool.terminate().next_action() == SchedulerAction::Exit,
        pool.terminate().executed(id) == pool.executed(id),
        pool.terminate().cancelled(id) == pool.cancelled(id) + queued(pool.pending, id),
{
    let added = each(ids(pool.pending), |id: usize| TaskEvent::Cancelled(id));
    lemma_occurrences_add(pool.history, added, TaskEvent::Executing(id));
    lemma_occurrences_add(pool.history, added, TaskEvent::Cancelled(id));
    lemma_occurrences_cancelled(ids(pool.pending), TaskEvent::Executing(id));
    lemma_occurrences_cancelled(ids(pool.pending), TaskEvent::Cancelled(id));
}

/// The scheduler's loop goes on until the signal is set: while it is not
/// set, the loop gives way on an empty queue, which changes nothing, and
/// runs a task that is submitted then as a job on its next turn. Once the
/// signal is set, the next turn ends the loop and hands out nothing.
pub proof fn law_scheduler_waits_for_the_signal(pool: CoopModel, task: TaskRef)
    ensures
        !pool.terminated && pool.pending.len() == 0 ==> pool.next_action()
            == SchedulerAction::Yield && pool.turn() == pool,
        !pool.terminated && pool.pending.len() == 0 ==> pool.submit(task).next_action()
            == SchedulerAction::Spawn(task) && pool.submit(task).turn().pending.len() == 0,
        !pool.terminated && pool.pending.len() > 0 ==> pool.next_action()
            == SchedulerAction::Spawn(pool.pending.first()) && pool.turn() == pool.dispatch(),
        pool.terminated ==> pool.next_action() == SchedulerAction::Exit && pool.turn().pending
            == pool.pending && pool.turn().history == pool.history,
        pool.next_action() == SchedulerAction::Exit ==> pool.terminated,
{
}

/// Handing out every pending task is `dispatch` as often as tasks are
/// pending.
pub proof fn law_dispatch_all_is_dispatch(pool: CoopModel)
    ensures
        pool.dispatch_all() == dispatched(pool, pool.pending.len()),
{
    lemma_dispatched(pool, pool.pending.len());
    assert(pool.pending.skip(pool.pending.len() as int) =~= Seq::<TaskRef>::empty());
    assert(pool.pending.take(pool.pending.len() as int) =~= pool.pending);
}

/// The pool after `n` tasks were handed out one by one.
pub open spec fn dispatched(pool: CoopModel, n: nat) -> CoopModel
    decreases n,
{
    if n == 0 {
        pool
    } else {
        dispatched(pool, (n - 1) as nat).dispatch()
    }
}

proof fn lemma_dispatched(pool: CoopModel, n: nat)
    requires
        n <= pool.pending.len(),
    ensures
        dispatched(pool, n) == (CoopModel {
            pending: pool.pending.skip(n as int),
            history: pool.history + each(
                ids(pool.pending.take(n as int)),
                |id: usize| TaskEvent::Executing(id),
            ),
            terminated: pool.terminated,
        }),
    decreases n,
{
    let executing = |id: usize| TaskEvent::Executing(id);
    if n == 0 {
        assert(pool.pending.skip(0) =~= pool.pending);
    } else {
        let k = (n - 1) as nat;
        lemma_dispatched(pool, k);
        let before = dispatched(pool, k);
        assert(before.pending.drop_first() =~= pool.pending.skip(n as int));
        assert(before.dispatch().history =~= pool.history + each(
            ids(pool.pending.take(n as int)),
            executing,
        ));
    }
}

} // verus!

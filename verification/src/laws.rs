//! What holds of a pool whatever happens to it, and in which order.
use crate::executor::{run_trace, WorkerState};
use crate::ledger::{
    lemma_busy_absent, lemma_busy_counts, lemma_busy_none, lemma_busy_same_tasks,
    lemma_busy_update, lemma_occurrences_add, lemma_occurrences_push,
    lemma_occurrences_repeated, lemma_occurrences_run_trace, lemma_queued_first,
    lemma_queued_push, lemma_queued_without,
};
use crate::model::{busy, occurrences, queued, repeated, PoolModel};
use crate::task::{TaskEvent, TaskRef};
use vstd::prelude::*;

verus! {

/// One thing that can happen to a pool.
pub enum PoolStep {
    /// A task is submitted.
    Submit(TaskRef),
    /// The task of this identity is cancelled.
    Cancel(usize),
    /// Every worker is asked to run.
    Start,
    /// Every worker is asked to stop.
    Stop,
    /// The context of this worker has ended.
    Exited(int),
    /// The context of this worker has been joined.
    Joined(int),
    /// The context of this worker asks for a task.
    Take(int),
    /// The context of this worker reports its task done.
    Complete(int),
}

impl PoolModel {
    /// The pool after `step`.
    pub open spec fn step(self, step: PoolStep) -> PoolModel {
        match step {
            PoolStep::Submit(task) => self.submit(task),
            PoolStep::Cancel(id) => self.cancel(id),
            PoolStep::Start => self.start(),
            PoolStep::Stop => self.stop(),
            PoolStep::Exited(w) => self.exited(w),
            PoolStep::Joined(w) => self.joined(w),
            PoolStep::Take(w) => self.take(w),
            PoolStep::Complete(w) => self.complete(w),
        }
    }

    /// The pool after `steps`, one after the other.
    pub open spec fn run(self, steps: Seq<PoolStep>) -> PoolModel
        decreases steps.len(),
    {
        if steps.len() == 0 {
            self
        } else {
            self.run(steps.drop_last()).step(steps.last())
        }
    }

    /// How often the task `id` was submitted.
    pub open spec fn submitted(self, id: usize) -> nat {
        occurrences(self.history, TaskEvent::Submitted(id))
    }

    /// How often the task `id` was cancelled while it was pending.
    pub open spec fn cancelled(self, id: usize) -> nat {
        occurrences(self.history, TaskEvent::Cancelled(id))
    }

    /// How often a worker took the task `id` to perform it.
    pub open spec fn executed(self, id: usize) -> nat {
        occurrences(self.history, TaskEvent::Executing(id))
    }

    /// How often a worker reported the task `id` done.
    pub open spec fn completed(self, id: usize) -> nat {
        occurrences(self.history, TaskEvent::Completed(id))
    }

    /// How often a context ended over the task `id`.
    pub open spec fn abandoned(self, id: usize) -> nat {
        occurrences(self.history, TaskEvent::Abandoned(id))
    }

    /// The record accounts for the task `id`: each time it was submitted it
    /// is pending, or was cancelled, or was taken by a worker; and each time
    /// a worker took it, that worker has it still, or has reported it done,
    /// or its context ended over it.
    pub open spec fn accounts_for(self, id: usize) -> bool {
        &&& self.submitted(id) == queued(self.pending, id) + self.cancelled(id) + self.executed(id)
        &&& self.executed(id) == self.completed(id) + self.abandoned(id) + busy(self.workers, id)
    }

    /// How often the task `id` was taken before place `i` of the record and
    /// neither reported done nor abandoned before that place.
    pub open spec fn open_before(self, i: int, id: usize) -> int {
        occurrences(self.history.take(i), TaskEvent::Executing(id)) - occurrences(
            self.history.take(i),
            TaskEvent::Completed(id),
        ) - occurrences(self.history.take(i), TaskEvent::Abandoned(id))
    }

    /// The event at place `i` of the record is in order: if it reports a
    /// task done or abandoned, then a worker had taken that task before, and
    /// the task had been neither reported done nor abandoned since.
    pub open spec fn in_order(self, i: int) -> bool {
        match self.history[i] {
            TaskEvent::Completed(id) => self.open_before(i, id) > 0,
            TaskEvent::Abandoned(id) => self.open_before(i, id) > 0,
            _ => true,
        }
    }

    /// The slot is sound: only a slot that holds a context is stopping or
    /// has a running context, and only a running context has a task in hand.
    pub open spec fn sound(worker: WorkerState) -> bool {
        &&& worker.stopping ==> worker.started
        &&& worker.running ==> worker.started
        &&& worker.current is Some ==> worker.running
    }

    /// The record accounts for every task and is in order, and every slot is
    /// sound.
    pub open spec fn wf(self) -> bool {
        &&& forall|id: usize| #[trigger] self.accounts_for(id)
        &&& forall|i: int| 0 <= i < self.history.len() ==> #[trigger] self.in_order(i)
        &&& forall|w: int|
            0 <= w < self.workers.len() ==> Self::sound(#[trigger] self.workers[w])
    }
}

/// A new pool is well formed.
pub proof fn law_fresh_is_well_formed(n: nat)
    ensures
        PoolModel::fresh(n).wf(),
{
    let pool = PoolModel::fresh(n);
    assert forall|id: usize| #[trigger] pool.accounts_for(id) by {
        lemma_busy_none(pool.workers, id);
    }
}

/// One more event in the record is one more occurrence of that event, and of
/// no other.
proof fn lemma_record_push(history: Seq<TaskEvent>, event: TaskEvent, id: usize)
    ensures
        occurrences(history.push(event), TaskEvent::Submitted(id)) == occurrences(
            history,
            TaskEvent::Submitted(id),
        ) + if event == TaskEvent::Submitted(id) {
            1nat
        } else {
            0nat
        },
        occurrences(history.push(event), TaskEvent::Cancelled(id)) == occurrences(
            history,
            TaskEvent::Cancelled(id),
        ) + if event == TaskEvent::Cancelled(id) {
            1nat
        } else {
            0nat
        },
        occurrences(history.push(event), TaskEvent::Executing(id)) == occurrences(
            history,
            TaskEvent::Executing(id),
        ) + if event == TaskEvent::Executing(id) {
            1nat
        } else {
            0nat
        },
        occurrences(history.push(event), TaskEvent::Completed(id)) == occurrences(
            history,
            TaskEvent::Completed(id),
        ) + if event == TaskEvent::Completed(id) {
            1nat
        } else {
            0nat
        },
        occurrences(history.push(event), TaskEvent::Abandoned(id)) == occurrences(
            history,
            TaskEvent::Abandoned(id),
        ) + if event == TaskEvent::Abandoned(id) {
            1nat
        } else {
            0nat
        },
{
    lemma_occurrences_push(history, event, TaskEvent::Submitted(id));
    lemma_occurrences_push(history, event, TaskEvent::Cancelled(id));
    lemma_occurrences_push(history, event, TaskEvent::Executing(id));
    lemma_occurrences_push(history, event, TaskEvent::Completed(id));
    lemma_occurrences_push(history, event, TaskEvent::Abandoned(id));
}

/// Cancelling a task `n` times adds `n` cancellations of that task to the
/// record, and nothing else.
proof fn lemma_record_cancel(history: Seq<TaskEvent>, gone: usize, n: nat, id: usize)
    ensures
        occurrences(history + repeated(TaskEvent::Cancelled(gone), n), TaskEvent::Submitted(id))
            == occurrences(history, TaskEvent::Submitted(id)),
        occurrences(history + repeated(TaskEvent::Cancelled(gone), n), TaskEvent::Cancelled(id))
            == occurrences(history, TaskEvent::Cancelled(id)) + if gone == id {
            n
        } else {
            0
        },
        occurrences(history + repeated(TaskEvent::Cancelled(gone), n), TaskEvent::Executing(id))
            == occurrences(history, TaskEvent::Executing(id)),
        occurrences(history + repeated(TaskEvent::Cancelled(gone), n), TaskEvent::Completed(id))
            == occurrences(history, TaskEvent::Completed(id)),
        occurrences(history + repeated(TaskEvent::Cancelled(gone), n), TaskEvent::Abandoned(id))
            == occurrences(history, TaskEvent::Abandoned(id)),
{
    let added = repeated(TaskEvent::Cancelled(gone), n);
    let event = TaskEvent::Cancelled(gone);
    lemma_occurrences_add(history, added, TaskEvent::Submitted(id));
    lemma_occurrences_add(history, added, TaskEvent::Cancelled(id));
    lemma_occurrences_add(history, added, TaskEvent::Executing(id));
    lemma_occurrences_add(history, added, TaskEvent::Completed(id));
    lemma_occurrences_add(history, added, TaskEvent::Abandoned(id));
    lemma_occurrences_repeated(event, n, TaskEvent::Submitted(id));
    lemma_occurrences_repeated(event, n, TaskEvent::Cancelled(id));
    lemma_occurrences_repeated(event, n, TaskEvent::Executing(id));
    lemma_occurrences_repeated(event, n, TaskEvent::Completed(id));
    lemma_occurrences_repeated(event, n, TaskEvent::Abandoned(id));
}

/// Whatever happens to a well-formed pool, it stays well formed: no task is
/// lost and none is made up.
pub proof fn law_step_preserves_well_formedness(pool: PoolModel, step: PoolStep)
    requires
        pool.wf(),
    ensures
        pool.step(step).wf(),
{
    let next = pool.step(step);
    assert forall|w: int| 0 <= w < next.workers.len() implies PoolModel::sound(
        #[trigger] next.workers[w],
    ) by {
        assert(PoolModel::sound(pool.workers[w]));
    }
    assert forall|id: usize| #[trigger] next.accounts_for(id) by {
        assert(pool.accounts_for(id));
        match step {
            PoolStep::Submit(task) => {
                lemma_queued_push(pool.pending, task, id);
                lemma_record_push(pool.history, TaskEvent::Submitted(task.id()), id);
            },
            PoolStep::Cancel(gone) => {
                lemma_queued_without(pool.pending, gone, id);
                lemma_record_cancel(pool.history, gone, queued(pool.pending, gone), id);
            },
            PoolStep::Start => {
                assert forall|w: int| 0 <= w < pool.workers.len() implies pool.workers[w].current
                    == next.workers[w].current by {
                    assert(PoolModel::sound(pool.workers[w]));
                }
                lemma_busy_same_tasks(pool.workers, next.workers, id);
            },
            PoolStep::Stop => {
                lemma_busy_same_tasks(pool.workers, next.workers, id);
            },
            PoolStep::Exited(w) => {
                if 0 <= w < pool.workers.len() {
                    lemma_busy_update(pool.workers, w, next.workers[w], id);
                    if let Some(task) = pool.workers[w].current {
                        lemma_record_push(pool.history, TaskEvent::Abandoned(task.id()), id);
                    }
                }
            },
            PoolStep::Joined(w) => {
                if 0 <= w < pool.workers.len() && pool.workers[w].stopping {
                    lemma_busy_update(pool.workers, w, next.workers[w], id);
                    if let Some(task) = pool.workers[w].current {
                        lemma_record_push(pool.history, TaskEvent::Abandoned(task.id()), id);
                    }
                }
            },
            PoolStep::Take(w) => {
                if pool.can_take(w) {
                    lemma_queued_first(pool.pending, id);
                    lemma_busy_update(pool.workers, w, next.workers[w], id);
                    lemma_record_push(
                        pool.history,
                        TaskEvent::Executing(pool.pending.first().id()),
                        id,
                    );
                }
            },
            PoolStep::Complete(w) => {
                if 0 <= w < pool.workers.len() && pool.workers[w].current is Some {
                    lemma_busy_update(pool.workers, w, next.workers[w], id);
                    lemma_record_push(
                        pool.history,
                        TaskEvent::Completed(pool.workers[w].current.unwrap().id()),
                        id,
                    );
                }
            },
        }
    }
    assert forall|i: int| 0 <= i < next.history.len() implies #[trigger] next.in_order(i) by {
        if i < pool.history.len() {
            assert(pool.in_order(i));
            assert(next.history.take(i) =~= pool.history.take(i));
        } else {
            match step {
                PoolStep::Complete(w) => {
                    lemma_in_hand_is_open(pool, w);
                    assert(next.history.take(i) =~= pool.history);
                },
                PoolStep::Exited(w) => {
                    lemma_in_hand_is_open(pool, w);
                    assert(next.history.take(i) =~= pool.history);
                },
                PoolStep::Joined(w) => {
                    lemma_in_hand_is_open(pool, w);
                    assert(next.history.take(i) =~= pool.history);
                },
                _ => {},
            }
        }
    }
}

/// The task that a worker has in hand was taken and has been neither
/// reported done nor abandoned since.
proof fn lemma_in_hand_is_open(pool: PoolModel, w: int)
    requires
        pool.wf(),
        0 <= w < pool.workers.len(),
        pool.workers[w].current is Some,
    ensures
        pool.executed(pool.workers[w].current.unwrap().id()) > pool.completed(
            pool.workers[w].current.unwrap().id(),
        ) + pool.abandoned(pool.workers[w].current.unwrap().id()),
{
    let id = pool.workers[w].current.unwrap().id();
    assert(pool.accounts_for(id));
    lemma_busy_counts(pool.workers, w, id);
}

/// However many things happen to a well-formed pool, in whatever order, it
/// stays well formed.
pub proof fn law_run_preserves_well_formedness(pool: PoolModel, steps: Seq<PoolStep>)
    requires
        pool.wf(),
    ensures
        pool.run(steps).wf(),
    decreases steps.len(),
{
    if steps.len() > 0 {
        law_run_preserves_well_formedness(pool, steps.drop_last());
        law_step_preserves_well_formedness(pool.run(steps.drop_last()), steps.last());
    }
}

/// Every pool that is reached from a new one is well formed, in whatever
/// order submissions, cancellations and the workers' steps came.
pub proof fn law_reachable_is_well_formed(n: nat, steps: Seq<PoolStep>)
    ensures
        PoolModel::fresh(n).run(steps).wf(),
{
    law_fresh_is_well_formed(n);
    law_run_preserves_well_formedness(PoolModel::fresh(n), steps);
}

/// The number of workers of a pool is that with which it was made, whatever
/// happens to the pool.
pub proof fn law_pool_size_is_fixed(n: nat, steps: Seq<PoolStep>)
    ensures
        PoolModel::fresh(n).run(steps).workers.len() == n,
    decreases steps.len(),
{
    if steps.len() > 0 {
        law_pool_size_is_fixed(n, steps.drop_last());
    }
}

/// A task is taken by a worker at most as often as it was submitted, and
/// reported done at most as often as it was taken.
pub proof fn law_at_most_once(pool: PoolModel, id: usize)
    requires
        pool.wf(),
    ensures
        pool.completed(id) <= pool.executed(id) <= pool.submitted(id),
{
    assert(pool.accounts_for(id));
}

/// A task that was submitted once and not cancelled while it was pending is
/// performed exactly once: as soon as it has left the queue, one worker has
/// taken it, and as soon as no worker has it any more, it has been reported
/// done once, unless the worker's context ended over it. Its report comes
/// after its taking.
pub proof fn law_exactly_once(pool: PoolModel, id: usize)
    requires
        pool.wf(),
        pool.submitted(id) == 1,
        pool.cancelled(id) == 0,
    ensures
        pool.executed(id) <= 1,
        queued(pool.pending, id) == 0 ==> pool.executed(id) == 1,
        queued(pool.pending, id) == 0 && !pool.in_flight(id) ==> pool.completed(id)
            + pool.abandoned(id) == 1,
        forall|i: int|
            0 <= i < pool.history.len() && pool.history[i] == TaskEvent::Completed(id)
                ==> occurrences(#[trigger] pool.history.take(i), TaskEvent::Executing(id)) == 1,
{
    assert(pool.accounts_for(id));
    if !pool.in_flight(id) {
        lemma_busy_absent(pool.workers, id);
    }
    assert forall|i: int|
        0 <= i < pool.history.len() && pool.history[i] == TaskEvent::Completed(
            id,
        ) implies occurrences(#[trigger] pool.history.take(i), TaskEvent::Executing(id)) == 1 by {
        assert(pool.in_order(i));
        assert(pool.history =~= pool.history.take(i) + pool.history.skip(i));
        lemma_occurrences_add(
            pool.history.take(i),
            pool.history.skip(i),
            TaskEvent::Executing(id),
        );
    }
}

impl PoolStep {
    /// The step submits the task `id`.
    pub open spec fn submits(self, id: usize) -> bool {
        self matches PoolStep::Submit(task) && task.id() == id
    }
}

/// A task that was cancelled while it was pending is not performed: whatever
/// happens afterwards, no worker takes it, unless it is submitted again.
pub proof fn law_cancelled_is_never_executed(pool: PoolModel, id: usize, steps: Seq<PoolStep>)
    requires
        forall|i: int| 0 <= i < steps.len() ==> !(#[trigger] steps[i]).submits(id),
    ensures
        queued(pool.cancel(id).run(steps).pending, id) == 0,
        pool.cancel(id).run(steps).executed(id) == pool.executed(id),
    decreases steps.len(),
{
    let start = pool.cancel(id);
    if steps.len() == 0 {
        lemma_queued_without(pool.pending, id, id);
        lemma_occurrences_add(
            pool.history,
            repeated(TaskEvent::Cancelled(id), queued(pool.pending, id)),
            TaskEvent::Executing(id),
        );
        lemma_occurrences_repeated(
            TaskEvent::Cancelled(id),
            queued(pool.pending, id),
            TaskEvent::Executing(id),
        );
    } else {
        let before = start.run(steps.drop_last());
        assert forall|i: int| 0 <= i < steps.drop_last().len() implies !(
        #[trigger] steps.drop_last()[i]).submits(id) by {}
        law_cancelled_is_never_executed(pool, id, steps.drop_last());
        lemma_step_without_pending(before, steps.last(), id);
    }
}

/// A step that does not submit the task `id` leaves it out of the queue if
/// it was not pending, and no worker takes it.
proof fn lemma_step_without_pending(pool: PoolModel, step: PoolStep, id: usize)
    requires
        queued(pool.pending, id) == 0,
        !step.submits(id),
    ensures
        queued(pool.step(step).pending, id) == 0,
        pool.step(step).executed(id) == pool.executed(id),
{
    let executing = TaskEvent::Executing(id);
    match step {
        PoolStep::Submit(task) => {
            lemma_queued_push(pool.pending, task, id);
            lemma_occurrences_push(pool.history, TaskEvent::Submitted(task.id()), executing);
        },
        PoolStep::Cancel(gone) => {
            lemma_queued_without(pool.pending, gone, id);
            lemma_occurrences_add(
                pool.history,
                repeated(TaskEvent::Cancelled(gone), queued(pool.pending, gone)),
                executing,
            );
            lemma_occurrences_repeated(
                TaskEvent::Cancelled(gone),
                queued(pool.pending, gone),
                executing,
            );
        },
        PoolStep::Take(w) => {
            if pool.can_take(w) {
                lemma_queued_first(pool.pending, id);
                lemma_occurrences_push(
                    pool.history,
                    TaskEvent::Executing(pool.pending.first().id()),
                    executing,
                );
            }
        },
        PoolStep::Complete(w) => {
            if 0 <= w < pool.workers.len() && pool.workers[w].current is Some {
                lemma_occurrences_push(
                    pool.history,
                    TaskEvent::Completed(pool.workers[w].current.unwrap().id()),
                    executing,
                );
            }
        },
        PoolStep::Exited(w) => {
            if 0 <= w < pool.workers.len() && pool.workers[w].current is Some {
                lemma_occurrences_push(
                    pool.history,
                    TaskEvent::Abandoned(pool.workers[w].current.unwrap().id()),
                    executing,
                );
            }
        },
        PoolStep::Joined(w) => {
            if 0 <= w < pool.workers.len() && pool.workers[w].current is Some {
                lemma_occurrences_push(
                    pool.history,
                    TaskEvent::Abandoned(pool.workers[w].current.unwrap().id()),
                    executing,
                );
            }
        },
        _ => {},
    }
}

/// A new pool has nothing pending. The first task that is submitted to an
/// empty queue is the next to leave it: a worker that is ready takes that
/// task.
pub proof fn law_first_submitted_is_first_taken(pool: PoolModel, task: TaskRef, w: int)
    requires
        pool.pending.len() == 0,
        0 <= w < pool.workers.len(),
        pool.workers[w].ready(),
    ensures
        forall|n: nat| (#[trigger] PoolModel::fresh(n)).pending.len() == 0,
        pool.submit(task).pending.first() == task,
        pool.submit(task).take(w).workers[w].current == Some(task),
        pool.submit(task).take(w).pending.len() == 0,
{
}

/// A pool with one worker performs its tasks one at a time: whenever the
/// worker can take a task, every task that it took before has been reported
/// done, or a context ended over it; and the task that it takes is the one
/// that has waited longest.
pub proof fn law_single_worker_one_at_a_time(pool: PoolModel, id: usize)
    requires
        pool.wf(),
        pool.workers.len() == 1,
        pool.can_take(0),
    ensures
        pool.executed(id) == pool.completed(id) + pool.abandoned(id),
        pool.take(0).workers[0].current == Some(pool.pending.first()),
{
    assert(pool.accounts_for(id));
    lemma_busy_none(pool.workers, id);
}

/// Of two tasks submitted to an idle pool, a worker with the queue to itself
/// completes the first before it takes the second.
pub proof fn law_first_in_first_out(pool: PoolModel, a: TaskRef, b: TaskRef, w: int)
    requires
        pool.pending.len() == 0,
        0 <= w < pool.workers.len(),
        pool.workers[w].ready(),
    ensures
        pool.submit(a).submit(b).drain(w).history == pool.history + seq![
            TaskEvent::Submitted(a.id()),
            TaskEvent::Submitted(b.id()),
            TaskEvent::Executing(a.id()),
            TaskEvent::Completed(a.id()),
            TaskEvent::Executing(b.id()),
            TaskEvent::Completed(b.id()),
        ],
{
    reveal_with_fuel(run_trace, 3);
}

impl PoolModel {
    /// The pool after the contexts of the workers below `n` have been joined.
    pub open spec fn join_all(self, n: nat) -> PoolModel
        decreases n,
    {
        if n == 0 {
            self
        } else {
            self.join_all((n - 1) as nat).joined(n - 1)
        }
    }

    /// No worker holds a context, running or ended.
    pub open spec fn at_rest(self) -> bool {
        forall|w: int|
            0 <= w < self.workers.len() ==> #[trigger] self.workers[w] == WorkerState::idle()
    }

    /// No worker has a task in hand.
    pub open spec fn nothing_in_hand(self) -> bool {
        forall|w: int| 0 <= w < self.workers.len() ==> (#[trigger] self.workers[w]).current is None
    }
}

/// What `turn` after `turn` of worker `w` comes to: `n` times, it takes a
/// task and reports it done.
pub open spec fn turns(w: int, n: nat) -> Seq<PoolStep>
    decreases n,
{
    if n == 0 {
        Seq::empty()
    } else {
        turns(w, (n - 1) as nat).push(PoolStep::Take(w)).push(PoolStep::Complete(w))
    }
}

/// Once every worker has been asked to stop and every context has been
/// joined, no worker holds a context or has a task in hand: a task over
/// which a context ended is abandoned, and the record says so. The queue is
/// as it was, and so is the record if no worker had a task in hand.
pub proof fn law_terminate_joins_every_context(pool: PoolModel)
    requires
        pool.wf(),
    ensures
        pool.stop().join_all(pool.workers.len()).at_rest(),
        pool.stop().join_all(pool.workers.len()).wf(),
        pool.stop().join_all(pool.workers.len()).pending == pool.pending,
        pool.stop().join_all(pool.workers.len()).workers.len() == pool.workers.len(),
        pool.nothing_in_hand() ==> pool.stop().join_all(pool.workers.len()).history
            == pool.history,
{
    lemma_join_all(pool, pool.workers.len());
}

proof fn lemma_join_all(pool: PoolModel, n: nat)
    requires
        pool.wf(),
        n <= pool.workers.len(),
    ensures
        pool.stop().join_all(n).wf(),
        pool.stop().join_all(n).pending == pool.pending,
        pool.stop().join_all(n).workers.len() == pool.workers.len(),
        pool.nothing_in_hand() ==> pool.stop().join_all(n).history == pool.history,
        forall|w: int|
            0 <= w < pool.workers.len() ==> (#[trigger] pool.stop().join_all(n).workers[w])
                == if w < n {
                WorkerState::idle()
            } else {
                pool.stop().workers[w]
            },
    decreases n,
{
    law_step_preserves_well_formedness(pool, PoolStep::Stop);
    if n > 0 {
        lemma_join_all(pool, (n - 1) as nat);
        let before = pool.stop().join_all((n - 1) as nat);
        law_step_preserves_well_formedness(before, PoolStep::Joined(n - 1));
        assert(PoolModel::sound(pool.workers[n - 1]));
        assert(before.workers[n - 1] == pool.stop().workers[n - 1]);
        if pool.nothing_in_hand() {
            assert(pool.workers[n - 1].current is None);
        }
    }
}

/// While no worker holds a context, a task that is submitted stays in the
/// queue: no worker takes it. Once the workers are asked to run again, each
/// of them is named to be given a context, and each can then take the task.
pub proof fn law_at_rest_tasks_wait(pool: PoolModel, task: TaskRef, w: int)
    requires
        pool.at_rest(),
        pool.workers.len() <= usize::MAX,
    ensures
        pool.submit(task).take(w) == pool.submit(task),
        pool.submit(task).pending == pool.pending.push(task),
        0 <= w < pool.workers.len() ==> pool.to_start().contains(w as usize),
        0 <= w < pool.workers.len() ==> pool.submit(task).start().can_take(w),
{
    if 0 <= w < pool.workers.len() {
        assert(pool.workers[w] == WorkerState::idle());
        let all = crate::model::indices(pool.workers.len());
        assert(all[w] == w as usize);
        all.lemma_filter_contains(|k: usize| !pool.workers[k as int].running, w);
    }
}

/// A worker whose context has ended, joined or not, is named again when the
/// workers are next asked to run, and has a running context afterwards: a
/// task that was waiting is then taken.
pub proof fn law_ended_worker_is_restarted(pool: PoolModel, w: int, task: TaskRef)
    requires
        0 <= w < pool.workers.len() <= usize::MAX,
    ensures
        pool.exited(w).to_start().contains(w as usize),
        pool.exited(w).start().workers[w] == WorkerState::fresh_context(),
        pool.exited(w).submit(task).start().can_take(w),
        pool.drain(w).to_start().contains(w as usize) || !pool.workers[w].ready(),
{
    let ended = pool.exited(w);
    let all = crate::model::indices(pool.workers.len());
    assert(all[w] == w as usize);
    all.lemma_filter_contains(|k: usize| !ended.workers[k as int].running, w);
    if pool.workers[w].ready() {
        let drained = pool.drain(w);
        all.lemma_filter_contains(|k: usize| !drained.workers[k as int].running, w);
    }
}

/// Asking the workers to run twice starts nothing twice: the second time, no
/// worker is named.
pub proof fn law_execute_is_idempotent(pool: PoolModel)
    ensures
        pool.start().to_start() == Seq::<usize>::empty(),
        pool.start().start() == pool.start(),
{
    let started = pool.start();
    let all = crate::model::indices(started.workers.len());
    let idle = |w: usize| !started.workers[w as int].running;
    assert forall|i: int| 0 <= i < all.len() implies !idle(#[trigger] all[i]) by {}
    all.lemma_all_neg_filter_empty(idle);
    assert(started.start().workers =~= started.workers);
}

/// A worker that has the queue to itself for the whole life of its context
/// does what `turns` says, and ends: it takes a task and reports it done, as
/// often as tasks are pending.
pub proof fn law_drain_is_take_and_complete(pool: PoolModel, w: int)
    requires
        0 <= w < pool.workers.len(),
        pool.workers[w].ready(),
    ensures
        pool.drain(w) == pool.run(turns(w, pool.pending.len())).exited(w),
{
    lemma_turns(pool, w, pool.pending.len());
    assert(pool.pending.take(pool.pending.len() as int) =~= pool.pending);
    assert(pool.pending.skip(pool.pending.len() as int) =~= Seq::<TaskRef>::empty());
}

proof fn lemma_turns(pool: PoolModel, w: int, n: nat)
    requires
        0 <= w < pool.workers.len(),
        pool.workers[w].ready(),
        n <= pool.pending.len(),
    ensures
        pool.run(turns(w, n)) == (PoolModel {
            pending: pool.pending.skip(n as int),
            workers: pool.workers,
            history: pool.history + run_trace(pool.pending.take(n as int)),
        }),
    decreases n,
{
    if n == 0 {
        assert(pool.pending.skip(0) =~= pool.pending);
    } else {
        let k = (n - 1) as nat;
        lemma_turns(pool, w, k);
        let before = pool.run(turns(w, k));
        let taken = turns(w, k).push(PoolStep::Take(w));
        assert(turns(w, n).drop_last() =~= taken);
        assert(taken.drop_last() =~= turns(w, k));
        assert(pool.run(taken) == before.step(PoolStep::Take(w)));
        assert(before.pending.drop_first() =~= pool.pending.skip(n as int));
        assert(pool.pending.take(n as int).drop_last() =~= pool.pending.take(k as int));
        let after = before.take(w).complete(w);
        assert(after.workers =~= pool.workers);
    }
}

/// A worker that has the queue to itself leaves a well-formed pool well
/// formed.
pub proof fn law_drain_preserves_well_formedness(pool: PoolModel, w: int)
    requires
        pool.wf(),
    ensures
        pool.drain(w).wf(),
{
    if 0 <= w < pool.workers.len() && pool.workers[w].ready() {
        law_drain_is_take_and_complete(pool, w);
        law_run_preserves_well_formedness(pool, turns(w, pool.pending.len()));
        law_step_preserves_well_formedness(
            pool.run(turns(w, pool.pending.len())),
            PoolStep::Exited(w),
        );
    }
}

/// A worker that has the queue to itself performs every pending task, each
/// as often as it is pending, and reports each done; nothing is pending
/// afterwards, and nothing was submitted or cancelled meanwhile.
pub proof fn law_drain_performs_every_pending_task(pool: PoolModel, w: int, id: usize)
    requires
        0 <= w < pool.workers.len(),
        pool.workers[w].ready(),
    ensures
        pool.drain(w).pending.len() == 0,
        pool.drain(w).executed(id) == pool.executed(id) + queued(pool.pending, id),
        pool.drain(w).completed(id) == pool.completed(id) + queued(pool.pending, id),
        pool.drain(w).submitted(id) == pool.submitted(id),
        pool.drain(w).cancelled(id) == pool.cancelled(id),
        pool.drain(w).abandoned(id) == pool.abandoned(id),
{
    let trace = run_trace(pool.pending);
    lemma_occurrences_add(pool.history, trace, TaskEvent::Executing(id));
    lemma_occurrences_add(pool.history, trace, TaskEvent::Completed(id));
    lemma_occurrences_add(pool.history, trace, TaskEvent::Submitted(id));
    lemma_occurrences_add(pool.history, trace, TaskEvent::Cancelled(id));
    lemma_occurrences_add(pool.history, trace, TaskEvent::Abandoned(id));
    lemma_occurrences_run_trace(pool.pending, TaskEvent::Abandoned(id));
    lemma_occurrences_run_trace(pool.pending, TaskEvent::Executing(id));
    lemma_occurrences_run_trace(pool.pending, TaskEvent::Completed(id));
    lemma_occurrences_run_trace(pool.pending, TaskEvent::Submitted(id));
    lemma_occurrences_run_trace(pool.pending, TaskEvent::Cancelled(id));
}

} // verus!

//! The pool as a state machine over plain values: the pending tasks, the
//! worker slots and the record of what happened, with one function for each
//! thing that can happen to a pool.
use crate::executor::{run_trace, WorkerState};
use crate::queue::{ids, without};
use crate::task::{TaskEvent, TaskRef};
use vstd::prelude::*;

verus! {

/// How often `a` occurs in `s`.
pub open spec fn occurrences<A>(s: Seq<A>, a: A) -> nat
    decreases s.len(),
{
    if s.len() == 0 {
        0
    } else {
        occurrences(s.drop_last(), a) + if s.last() == a {
            1nat
        } else {
            0nat
        }
    }
}

/// How many references to the task `id` are pending in `tasks`.
pub open spec fn queued(tasks: Seq<TaskRef>, id: usize) -> nat {
    occurrences(ids(tasks), id)
}

/// How many of `workers` perform the task `id`.
pub open spec fn busy(workers: Seq<WorkerState>, id: usize) -> nat
    decreases workers.len(),
{
    if workers.len() == 0 {
        0
    } else {
        busy(workers.drop_last(), id) + if workers.last().runs(id) {
            1nat
        } else {
            0nat
        }
    }
}

/// `event`, `n` times.
pub open spec fn repeated(event: TaskEvent, n: nat) -> Seq<TaskEvent> {
    Seq::new(n, |i: int| event)
}

/// The numbers below `n`, in increasing order.
pub open spec fn indices(n: nat) -> Seq<usize> {
    Seq::new(n, |i: int| i as usize)
}

/// A pool, as plain values.
pub struct PoolModel {
    /// The pending tasks, the next one to leave first.
    pub pending: Seq<TaskRef>,
    /// The worker slots.
    pub workers: Seq<WorkerState>,
    /// What has happened to tasks in this pool, in the order in which it
    /// happened.
    pub history: Seq<TaskEvent>,
}

impl PoolModel {
    /// A new pool of `n` workers: nothing pending, no worker with a context,
    /// nothing recorded.
    pub open spec fn fresh(n: nat) -> PoolModel {
        PoolModel {
            pending: Seq::empty(),
            workers: Seq::new(n, |i: int| WorkerState::idle()),
            history: Seq::empty(),
        }
    }

    /// `task` is put at the tail of the queue.
    pub open spec fn submit(self, task: TaskRef) -> PoolModel {
        PoolModel {
            pending: self.pending.push(task),
            history: self.history.push(TaskEvent::Submitted(task.id())),
            ..self
        }
    }

    /// Every pending reference to the task `id` leaves the queue, and is
    /// recorded as cancelled.
    pub open spec fn cancel(self, id: usize) -> PoolModel {
        PoolModel {
            pending: without(self.pending, id),
            history: self.history + repeated(
                TaskEvent::Cancelled(id),
                queued(self.pending, id),
            ),
            ..self
        }
    }

    /// Some worker performs the task `id`.
    pub open spec fn in_flight(self, id: usize) -> bool {
        exists|w: int| 0 <= w < self.workers.len() && #[trigger] self.workers[w].runs(id)
    }

    /// The workers for which no context is running, in increasing order.
    pub open spec fn to_start(self) -> Seq<usize> {
        indices(self.workers.len()).filter(|w: usize| !self.workers[w as int].running)
    }

    /// Every worker has a running context: those that had one keep it, the
    /// others have a new one.
    pub open spec fn start(self) -> PoolModel {
        PoolModel {
            workers: self.workers.map_values(
                |worker: WorkerState|
                    if worker.running {
                        worker
                    } else {
                        WorkerState::fresh_context()
                    },
            ),
            ..self
        }
    }

    /// The record after a context that had `current` in hand has ended: a
    /// task in hand is abandoned.
    pub open spec fn abandon(self, current: Option<TaskRef>) -> Seq<TaskEvent> {
        match current {
            Some(task) => self.history.push(TaskEvent::Abandoned(task.id())),
            None => self.history,
        }
    }

    /// The context of worker `w` has ended. The task that it had in hand, if
    /// any, is abandoned. Nothing changes for a worker that the pool does
    /// not have.
    pub open spec fn exited(self, w: int) -> PoolModel {
        if 0 <= w < self.workers.len() {
            PoolModel {
                workers: self.workers.update(w, self.workers[w].ended()),
                history: self.abandon(self.workers[w].current),
                ..self
            }
        } else {
            self
        }
    }

    /// The workers that hold a context, in increasing order.
    pub open spec fn to_join(self) -> Seq<usize> {
        indices(self.workers.len()).filter(|w: usize| self.workers[w as int].started)
    }

    /// Every worker that holds a context is stopping.
    pub open spec fn stop(self) -> PoolModel {
        PoolModel {
            workers: self.workers.map_values(
                |worker: WorkerState|
                    WorkerState { stopping: worker.stopping || worker.started, ..worker },
            ),
            ..self
        }
    }

    /// The context of worker `w`, which was stopping, has been joined: it
    /// has ended, and the worker holds none any more. The task that it had
    /// in hand, if any, is abandoned. Nothing changes for a worker that is
    /// not stopping, or that the pool does not have.
    pub open spec fn joined(self, w: int) -> PoolModel {
        if 0 <= w < self.workers.len() && self.workers[w].stopping {
            PoolModel {
                workers: self.workers.update(w, WorkerState::idle()),
                history: self.abandon(self.workers[w].current),
                ..self
            }
        } else {
            self
        }
    }

    /// Worker `w` can take a task: the pool has that worker, its context is
    /// ready, and a task is pending.
    pub open spec fn can_take(self, w: int) -> bool {
        0 <= w < self.workers.len() && self.workers[w].ready() && self.pending.len() > 0
    }

    /// Worker `w` takes the first pending task, if it can.
    pub open spec fn take(self, w: int) -> PoolModel {
        if self.can_take(w) {
            PoolModel {
                pending: self.pending.drop_first(),
                workers: self.workers.update(
                    w,
                    WorkerState { current: Some(self.pending.first()), ..self.workers[w] },
                ),
                history: self.history.push(TaskEvent::Executing(self.pending.first().id())),
            }
        } else {
            self
        }
    }

    /// Worker `w` has done the task that it performed, if it performed one.
    pub open spec fn complete(self, w: int) -> PoolModel {
        if 0 <= w < self.workers.len() && self.workers[w].current is Some {
            PoolModel {
                workers: self.workers.update(w, WorkerState { current: None, ..self.workers[w] }),
                history: self.history.push(
                    TaskEvent::Completed(self.workers[w].current.unwrap().id()),
                ),
                ..self
            }
        } else {
            self
        }
    }

    /// The context of worker `w` runs from its start to its end with the
    /// queue to itself: it performs every pending task, in order, and ends.
    /// Nothing happens if the pool has no such worker or the worker is not
    /// ready.
    pub open spec fn drain(self, w: int) -> PoolModel {
        if 0 <= w < self.workers.len() && self.workers[w].ready() {
            PoolModel {
                pending: Seq::empty(),
                workers: self.workers.update(w, self.workers[w].ended()),
                history: self.history + run_trace(self.pending),
            }
        } else {
            self
        }
    }
}

} // verus!

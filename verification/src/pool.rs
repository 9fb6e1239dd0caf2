//! The pool of the parallel model: the queue and a fixed set of worker slots.
use crate::executor::{ThreadExecutor, WorkerState};
use crate::laws::{
    law_drain_preserves_well_formedness, law_fresh_is_well_formed,
    law_step_preserves_well_formedness, PoolStep,
};
use crate::model::{indices, queued, repeated, PoolModel};
use crate::queue::TaskPool;
use crate::task::{TaskEvent, TaskRef};
use vstd::prelude::*;

verus! {

/// The slots of `threads`, as plain values.
pub open spec fn slots(threads: Seq<ThreadExecutor>) -> Seq<WorkerState> {
    threads.map_values(|thread: ThreadExecutor| thread@)
}

/// A pool with a fixed number of workers. Its view is a [`PoolModel`]; each
/// method is one step of that state machine.
///
/// The pool decides; it starts no execution context itself. `execute` names
/// the workers that need one, and each context then acts for its worker
/// through `is_empty`, `take_task` and `complete_task`, and is reported with
/// `exited` when it ends; or it does all that at once with `run_worker`.
/// `terminate` names the workers whose context has to be joined, and
/// `joined` reports each join.
pub struct ThreadPool {
    task_pool: TaskPool,
    threads: Vec<ThreadExecutor>,
    history: Ghost<Seq<TaskEvent>>,
}

impl View for ThreadPool {
    type V = PoolModel;

    closed spec fn view(&self) -> PoolModel {
        PoolModel {
            pending: self.task_pool@,
            workers: slots(self.threads@),
            history: self.history@,
        }
    }
}

impl ThreadPool {
    /// A pool of `num_threads` workers, none of them with a context, and an
    /// empty queue.
    pub fn new(num_threads: usize) -> (pool: Self)
        ensures
            pool@ == PoolModel::fresh(num_threads as nat),
            pool@.wf(),
    {
        let task_pool = TaskPool::new();
        let mut threads: Vec<ThreadExecutor> = Vec::new();
        let mut i: usize = 0;
        while i < num_threads
            invariant
                i <= num_threads,
                threads@.len() == i,
                forall|k: int| 0 <= k < i ==> (#[trigger] threads@[k])@ == WorkerState::idle(),
            decreases num_threads - i,
        {
            threads.push(ThreadExecutor::new());
            i += 1;
        }
        let pool = ThreadPool { task_pool, threads, history: Ghost(Seq::empty()) };
        proof {
            assert(pool@.workers =~= PoolModel::fresh(num_threads as nat).workers);
            law_fresh_is_well_formed(num_threads as nat);
        }
        pool
    }

    /// The number of workers.
    pub fn max_threads(&self) -> (n: usize)
        ensures
            n == self@.workers.len(),
    {
        self.threads.len()
    }

    /// Whether no task is pending.
    pub fn is_empty(&self) -> (empty: bool)
        ensures
            empty == (self@.pending.len() == 0),
    {
        self.task_pool.is_empty()
    }

    /// Puts `task` at the tail of the queue.
    pub fn add_task(&mut self, task: TaskRef)
        ensures
            final(self)@ == old(self)@.submit(task),
            old(self)@.wf() ==> final(self)@.wf(),
    {
        proof {
            if self@.wf() {
                law_step_preserves_well_formedness(self@, PoolStep::Submit(task));
            }
            self.history@ = self.history@.push(TaskEvent::Submitted(task.id()));
        }
        self.task_pool.enqueue(task);
    }

    /// Takes the task of `task` out of the queue, if it is still pending.
    /// Returns whether a worker performs that task at the moment; such a task
    /// is not interrupted.
    pub fn cancel_task(&mut self, task: &TaskRef) -> (in_flight: bool)
        ensures
            final(self)@ == old(self)@.cancel(task.id()),
            in_flight == old(self)@.in_flight(task.id()),
            old(self)@.wf() ==> final(self)@.wf(),
    {
        proof {
            if self@.wf() {
                law_step_preserves_well_formedness(self@, PoolStep::Cancel(task.id()));
            }
            self.history@ = self.history@ + repeated(
                TaskEvent::Cancelled(task.id()),
                queued(self.task_pool@, task.id()),
            );
        }
        self.task_pool.erase(task);
        let ghost workers = slots(self.threads@);
        let mut in_flight = false;
        let n = self.threads.len();
        let mut i: usize = 0;
        while i < n
            invariant
                i <= n,
                n == self.threads@.len(),
                workers == slots(self.threads@),
                in_flight == exists|w: int| 0 <= w < i && #[trigger] workers[w].runs(task.id()),
            decreases n - i,
        {
            let running = self.threads[i].cancel_task_if_running(task);
            proof {
                assert(running == workers[i as int].runs(task.id()));
            }
            if running {
                in_flight = true;
            }
            i += 1;
        }
        in_flight
    }

    /// Asks for every worker's context to run. Returns the workers for which
    /// a context has to be started, in increasing order: those for which
    /// none is running. A context that has ended leaves its place to the new
    /// one; whoever holds its handle joins it or drops it first.
    pub fn execute(&mut self) -> (start: Vec<usize>)
        ensures
            final(self)@ == old(self)@.start(),
            start@ == old(self)@.to_start(),
            old(self)@.wf() ==> final(self)@.wf(),
    {
        let ghost before = self@;
        let ghost idle = |w: usize| !before.workers[w as int].running;
        let mut start: Vec<usize> = Vec::new();
        let n = self.threads.len();
        let mut i: usize = 0;
        proof {
            reveal(Seq::filter);
        }
        while i < n
            invariant
                i <= n,
                n == before.workers.len(),
                self.threads@.len() == n,
                self.task_pool@ == before.pending,
                self.history@ == before.history,
                idle == |w: usize| !before.workers[w as int].running,
                forall|k: int|
                    0 <= k < i ==> #[trigger] slots(self.threads@)[k] == before.start().workers[k],
                forall|k: int|
                    i <= k < n ==> #[trigger] slots(self.threads@)[k] == before.workers[k],
                start@ == indices(n as nat).take(i as int).filter(idle),
            decreases n - i,
        {
            proof {
                assert(indices(n as nat).take(i + 1) =~= indices(n as nat).take(i as int).push(
                    i,
                ));
                indices(n as nat).take(i as int).lemma_filter_push(i, idle);
                assert(slots(self.threads@)[i as int] == before.workers[i as int]);
            }
            let ghost threads_before = self.threads@;
            if self.threads[i].execute() {
                start.push(i);
            }
            proof {
                assert forall|k: int| 0 <= k < i + 1 implies #[trigger] slots(self.threads@)[k]
                    == before.start().workers[k] by {
                    if k < i {
                        assert(slots(threads_before)[k] == before.start().workers[k]);
                    }
                }
                assert forall|k: int| i + 1 <= k < n implies #[trigger] slots(self.threads@)[k]
                    == before.workers[k] by {
                    assert(slots(threads_before)[k] == before.workers[k]);
                }
            }
            i += 1;
        }
        proof {
            assert(indices(n as nat).take(n as int) =~= indices(n as nat));
            assert(self@.workers =~= before.start().workers);
            if before.wf() {
                law_step_preserves_well_formedness(before, PoolStep::Start);
            }
        }
        start
    }

    /// Begins the shutdown of every worker's context. Returns the workers
    /// whose context has to be joined, in increasing order: those that hold
    /// one. They are stopping until `joined` is called for them. The queue is
    /// left as it is.
    pub fn terminate(&mut self) -> (join: Vec<usize>)
        ensures
            final(self)@ == old(self)@.stop(),
            join@ == old(self)@.to_join(),
            old(self)@.wf() ==> final(self)@.wf(),
    {
        let ghost before = self@;
        let ghost held = |w: usize| before.workers[w as int].started;
        let mut join: Vec<usize> = Vec::new();
        let n = self.threads.len();
        let mut i: usize = 0;
        proof {
            reveal(Seq::filter);
        }
        while i < n
            invariant
                i <= n,
                n == before.workers.len(),
                self.threads@.len() == n,
                self.task_pool@ == before.pending,
                self.history@ == before.history,
                held == |w: usize| before.workers[w as int].started,
                forall|k: int|
                    0 <= k < i ==> #[trigger] slots(self.threads@)[k] == before.stop().workers[k],
                forall|k: int|
                    i <= k < n ==> #[trigger] slots(self.threads@)[k] == before.workers[k],
                join@ == indices(n as nat).take(i as int).filter(held),
            decreases n - i,
        {
            proof {
                assert(indices(n as nat).take(i + 1) =~= indices(n as nat).take(i as int).push(
                    i,
                ));
                indices(n as nat).take(i as int).lemma_filter_push(i, held);
                assert(slots(self.threads@)[i as int] == before.workers[i as int]);
            }
            let ghost threads_before = self.threads@;
            if self.threads[i].terminate() {
                join.push(i);
            }
            proof {
                assert forall|k: int| 0 <= k < i + 1 implies #[trigger] slots(self.threads@)[k]
                    == before.stop().workers[k] by {
                    if k < i {
                        assert(slots(threads_before)[k] == before.stop().workers[k]);
                    }
                }
                assert forall|k: int| i + 1 <= k < n implies #[trigger] slots(self.threads@)[k]
                    == before.workers[k] by {
                    assert(slots(threads_before)[k] == before.workers[k]);
                }
            }
            i += 1;
        }
        proof {
            assert(indices(n as nat).take(n as int) =~= indices(n as nat));
            assert(self@.workers =~= before.stop().workers);
            if before.wf() {
                law_step_preserves_well_formedness(before, PoolStep::Stop);
            }
        }
        join
    }

    /// Reports that the context of `worker` has ended. A task that it had in
    /// hand is recorded as abandoned, and the worker has none any more; the
    /// next `execute` names the worker again.
    pub fn exited(&mut self, worker: usize)
        ensures
            final(self)@ == old(self)@.exited(worker as int),
            old(self)@.wf() ==> final(self)@.wf(),
    {
        if worker < self.threads.len() {
            let ghost before = self@;
            let abandoned = self.threads[worker].exited();
            proof {
                if let Some(id) = abandoned {
                    self.history@ = self.history@.push(TaskEvent::Abandoned(id));
                }
                assert(self@.workers =~= before.exited(worker as int).workers);
                if before.wf() {
                    law_step_preserves_well_formedness(before, PoolStep::Exited(worker as int));
                }
            }
        }
    }

    /// Reports that the context of `worker`, which was stopping, has been
    /// joined. A task that it had in hand is recorded as abandoned, and the
    /// worker holds no context and no task any more.
    pub fn joined(&mut self, worker: usize)
        ensures
            final(self)@ == old(self)@.joined(worker as int),
            old(self)@.wf() ==> final(self)@.wf(),
    {
        if worker < self.threads.len() {
            let ghost before = self@;
            let abandoned = self.threads[worker].joined();
            proof {
                if let Some(id) = abandoned {
                    self.history@ = self.history@.push(TaskEvent::Abandoned(id));
                }
                assert(self@.workers =~= before.joined(worker as int).workers);
                if before.wf() {
                    law_step_preserves_well_formedness(before, PoolStep::Joined(worker as int));
                }
            }
        }
    }

    /// Takes the first pending task for the context of `worker`, if that
    /// worker can take one. The task is then recorded as executing, and the
    /// worker has it until `complete_task`.
    pub fn take_task(&mut self, worker: usize) -> (task: Option<TaskRef>)
        ensures
            final(self)@ == old(self)@.take(worker as int),
            task == if old(self)@.can_take(worker as int) {
                Some(old(self)@.pending.first())
            } else {
                None
            },
            old(self)@.wf() ==> final(self)@.wf(),
    {
        if worker >= self.threads.len() {
            return None;
        }
        let ghost before = self@;
        let task = self.threads[worker].take(&mut self.task_pool);
        proof {
            if before.can_take(worker as int) {
                self.history@ = self.history@.push(
                    TaskEvent::Executing(before.pending.first().id()),
                );
            }
            assert(self@.workers =~= before.take(worker as int).workers);
            if before.wf() {
                law_step_preserves_well_formedness(before, PoolStep::Take(worker as int));
            }
        }
        task
    }

    /// Reports that the context of `worker` has done the task that it had.
    /// The task is then recorded as completed.
    pub fn complete_task(&mut self, worker: usize)
        ensures
            final(self)@ == old(self)@.complete(worker as int),
            old(self)@.wf() ==> final(self)@.wf(),
    {
        if worker < self.threads.len() {
            let ghost before = self@;
            let done = self.threads[worker].complete();
            proof {
                if let Some(id) = done {
                    self.history@ = self.history@.push(TaskEvent::Completed(id));
                }
                assert(self@.workers =~= before.complete(worker as int).workers);
                if before.wf() {
                    law_step_preserves_well_formedness(before, PoolStep::Complete(worker as int));
                }
            }
        }
    }

    /// Runs the context of `worker` here, from its start to its end: it
    /// performs every pending task, first come first served, each to its
    /// end, and ends. Nothing happens if the worker is not ready.
    pub fn run_worker(&mut self, worker: usize)
        ensures
            final(self)@ == old(self)@.drain(worker as int),
            old(self)@.wf() ==> final(self)@.wf(),
    {
        if worker < self.threads.len() {
            let ghost before = self@;
            let trace = self.threads[worker]._execute(&mut self.task_pool);
            proof {
                self.history@ = self.history@ + trace@;
                assert(self@.workers =~= before.drain(worker as int).workers);
                assert(self@.pending =~= before.drain(worker as int).pending);
                if before.wf() {
                    law_drain_preserves_well_formedness(before, worker as int);
                }
            }
        }
    }
}

} // verus!

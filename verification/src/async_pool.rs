//! The pool of the cooperative model: the queue and the signal that ends the
//! scheduler's loop. Each task that leaves the queue becomes a job of its
//! own, which the scheduler of the embedding program runs; the pool waits
//! for none of them.
use crate::coop::{
    each, law_coop_fresh_is_well_formed, law_coop_step_preserves_well_formedness, CoopModel,
    CoopStep, SchedulerAction,
};
use crate::model::{queued, repeated};
use crate::queue::{ids, TaskPool};
use crate::task::{TaskEvent, TaskRef};
use vstd::prelude::*;

verus! {

/// A pool without workers of its own. Its view is a [`CoopModel`]; each
/// method is one step of that state machine.
pub struct AsyncThreadPool {
    task_pool: TaskPool,
    terminated: bool,
    history: Ghost<Seq<TaskEvent>>,
}

impl View for AsyncThreadPool {
    type V = CoopModel;

    closed spec fn view(&self) -> CoopModel {
        CoopModel {
            pending: self.task_pool@,
            history: self.history@,
            terminated: self.terminated,
        }
    }
}

impl AsyncThreadPool {
    /// A pool with an empty queue.
    pub fn new() -> (pool: Self)
        ensures
            pool@ == CoopModel::fresh(),
            pool@.wf(),
    {
        proof {
            law_coop_fresh_is_well_formed();
        }
        AsyncThreadPool {
            task_pool: TaskPool::new(),
            terminated: false,
            history: Ghost(Seq::empty()),
        }
    }

    /// Whether no task is pending.
    pub fn is_empty(&self) -> (empty: bool)
        ensures
            empty == (self@.pending.len() == 0),
    {
        self.task_pool.is_empty()
    }

    /// Puts `task` at the tail of the queue.
    pub fn add_task(&mut self, task: TaskRef)
        ensures
            final(self)@ == old(self)@.submit(task),
            old(self)@.wf() ==> final(self)@.wf(),
    {
        proof {
            if self@.wf() {
                law_coop_step_preserves_well_formedness(self@, CoopStep::Submit(task));
            }
            self.history@ = self.history@.push(TaskEvent::Submitted(task.id()));
        }
        self.task_pool.enqueue(task);
    }

    /// Takes the task of `task` out of the queue, if it is still pending. A
    /// job that was handed out is not touched.
    pub fn cancel_task(&mut self, task: &TaskRef)
        ensures
            final(self)@ == old(self)@.cancel(task.id()),
            old(self)@.wf() ==> final(self)@.wf(),
    {
        proof {
            if self@.wf() {
                law_coop_step_preserves_well_formedness(self@, CoopStep::Cancel(task.id()));
            }
            self.history@ = self.history@ + repeated(
                TaskEvent::Cancelled(task.id()),
                queued(self.task_pool@, task.id()),
            );
        }
        self.task_pool.erase(task);
    }

    /// Takes the first pending task, to be run as a job of its own.
    pub fn dispatch(&mut self) -> (job: Option<TaskRef>)
        ensures
            final(self)@ == old(self)@.dispatch(),
            job == if old(self)@.pending.len() > 0 {
                Some(old(self)@.pending.first())
            } else {
                None
            },
            old(self)@.wf() ==> final(self)@.wf(),
    {
        let ghost before = self@;
        let job = self.task_pool.dequeue();
        proof {
            if before.wf() {
                law_coop_step_preserves_well_formedness(before, CoopStep::Dispatch);
            }
            if before.pending.len() > 0 {
                self.history@ = self.history@.push(
                    TaskEvent::Executing(before.pending.first().id()),
                );
            }
        }
        job
    }

    /// One turn of the scheduler's loop. Returns what the scheduler does
    /// next: it runs the first pending task as a job of its own, which has
    /// then left the queue; or, seeing the queue empty, it gives way; or,
    /// once the pool was told to terminate, it ends the loop. Whoever runs
    /// the loop does what is returned and, unless the loop has ended, comes
    /// back for the next turn.
    pub fn execute(&mut self) -> (action: SchedulerAction)
        ensures
            action == old(self)@.next_action(),
            final(self)@ == old(self)@.turn(),
            old(self)@.wf() ==> final(self)@.wf(),
    {
        proof {
            if self@.wf() {
                law_coop_step_preserves_well_formedness(self@, CoopStep::Turn);
            }
        }
        if self.terminated {
            self.terminated = false;
            return SchedulerAction::Exit;
        }
        match self.dispatch() {
            Some(task) => SchedulerAction::Spawn(task),
            None => SchedulerAction::Yield,
        }
    }

    /// Takes every pending task, to be run as jobs of their own. Returns
    /// them in the order in which they left the queue.
    pub fn dispatch_all(&mut self) -> (jobs: Vec<TaskRef>)
        ensures
            final(self)@ == old(self)@.dispatch_all(),
            jobs@ == old(self)@.pending,
            old(self)@.wf() ==> final(self)@.wf(),
    {
        let ghost before = self@;
        let ghost executing = |id: usize| TaskEvent::Executing(id);
        let mut jobs: Vec<TaskRef> = Vec::new();
        let n = self.task_pool.len();
        let mut i: usize = 0;
        proof {
            assert(before.history + each(ids(before.pending.take(0)), executing)
                =~= before.history);
        }
        while i < n
            invariant
                i <= n,
                n == before.pending.len(),
                executing == |id: usize| TaskEvent::Executing(id),
                self.terminated == before.terminated,
                jobs@ == before.pending.take(i as int),
                self.task_pool@ == before.pending.skip(i as int),
                self.history@ == before.history + each(
                    ids(before.pending.take(i as int)),
                    executing,
                ),
            decreases n - i,
        {
            let job = self.dispatch();
            proof {
                assert(before.pending.take(i + 1) =~= before.pending.take(i as int).push(
                    before.pending[i as int],
                ));
                assert(self.history@ =~= before.history + each(
                    ids(before.pending.take(i + 1)),
                    executing,
                ));
            }
            if let Some(task) = job {
                jobs.push(task);
            }
            i += 1;
        }
        proof {
            assert(before.pending.take(n as int) =~= before.pending);
            assert(self@.pending =~= before.dispatch_all().pending);
            if before.wf() {
                law_coop_step_preserves_well_formedness(before, CoopStep::DispatchAll);
            }
        }
        jobs
    }

    /// Whether the pool was told to terminate and the scheduler's loop has
    /// not ended since.
    pub fn is_terminated(&self) -> (terminated: bool)
        ensures
            terminated == self@.terminated,
    {
        self.terminated
    }

    /// Tells the scheduler's loop to end, and empties the queue. Jobs that
    /// were handed out before run on; the pool waits for none of them.
    pub fn terminate(&mut self)
        ensures
            final(self)@ == old(self)@.terminate(),
            old(self)@.wf() ==> final(self)@.wf(),
    {
        proof {
            if self@.wf() {
                law_coop_step_preserves_well_formedness(self@, CoopStep::Terminate);
            }
            self.history@ = self.history@ + each(
                ids(self.task_pool@),
                |id: usize| TaskEvent::Cancelled(id),
            );
        }
        self.task_pool.clear();
        self.terminated = true;
    }
}

} // verus!

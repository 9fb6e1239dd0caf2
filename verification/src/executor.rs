//! One worker slot: whether it holds an execution context, whether that
//! context is running or has ended, whether it is being shut down, which
//! task it performs, and what a context does next.
use crate::queue::TaskPool;
use crate::task::{TaskEvent, TaskRef};
use vstd::prelude::*;

verus! {

/// What a worker slot holds, as plain values.
pub struct WorkerState {
    /// The slot holds an execution context, running or ended, that has not
    /// been joined.
    pub started: bool,
    /// The context of the slot is running: it was started and has not ended.
    pub running: bool,
    /// The context is being joined.
    pub stopping: bool,
    /// The task that the context performs at the moment.
    pub current: Option<TaskRef>,
}

impl WorkerState {
    /// A slot without a context and without a task.
    pub open spec fn idle() -> WorkerState {
        WorkerState { started: false, running: false, stopping: false, current: None }
    }

    /// A slot with a context that has just been started.
    pub open spec fn fresh_context() -> WorkerState {
        WorkerState { started: true, running: true, stopping: false, current: None }
    }

    /// The slot after its context has ended: no context is running for it,
    /// and it has no task in hand.
    pub open spec fn ended(self) -> WorkerState {
        WorkerState { running: false, current: None, ..self }
    }

    /// The context of this slot may take the next task: it is running, and
    /// the task it took before is done.
    pub open spec fn ready(self) -> bool {
        self.running && self.current is None
    }

    /// The slot performs the task `id`.
    pub open spec fn runs(self, id: usize) -> bool {
        self.current matches Some(task) && task.id() == id
    }
}

/// What a worker's execution context has just seen.
pub enum WorkerEvent {
    /// The context has been started.
    Started,
    /// It looked at the queue, which was empty or not.
    Observed { empty: bool },
    /// It asked the queue for a task and got one or none.
    Dequeued(Option<TaskRef>),
    /// The task it performed is done.
    Completed,
    /// It gave way to other contexts and has come back.
    Yielded,
}

/// What a worker's execution context does next.
pub enum WorkerAction {
    /// Look whether the queue is empty.
    Observe,
    /// Ask the queue for its first task.
    Dequeue,
    /// Perform the task, to its end.
    Run(TaskRef),
    /// Give way to other contexts, without blocking.
    Yield,
    /// End the context.
    Exit,
}

/// The action that follows `event`: a context looks at the queue whenever it
/// has nothing in hand, ends when it saw the queue empty, and otherwise asks
/// for a task, which it performs if it got one; if another context was faster
/// it gives way and looks again.
pub open spec fn action_after(event: WorkerEvent) -> WorkerAction {
    match event {
        WorkerEvent::Started => WorkerAction::Observe,
        WorkerEvent::Observed { empty } => if empty {
            WorkerAction::Exit
        } else {
            WorkerAction::Dequeue
        },
        WorkerEvent::Dequeued(Some(task)) => WorkerAction::Run(task),
        WorkerEvent::Dequeued(None) => WorkerAction::Yield,
        WorkerEvent::Completed => WorkerAction::Observe,
        WorkerEvent::Yielded => WorkerAction::Observe,
    }
}

/// The action that follows `event`.
pub fn next_action(event: WorkerEvent) -> (action: WorkerAction)
    ensures
        action == action_after(event),
{
    match event {
        WorkerEvent::Started => WorkerAction::Observe,
        WorkerEvent::Observed { empty } => if empty {
            WorkerAction::Exit
        } else {
            WorkerAction::Dequeue
        },
        WorkerEvent::Dequeued(Some(task)) => WorkerAction::Run(task),
        WorkerEvent::Dequeued(None) => WorkerAction::Yield,
        WorkerEvent::Completed => WorkerAction::Observe,
        WorkerEvent::Yielded => WorkerAction::Observe,
    }
}

/// What a context records when it performs `tasks` one after the other: each
/// task is taken and completed before the next one is taken.
pub open spec fn run_trace(tasks: Seq<TaskRef>) -> Seq<TaskEvent>
    decreases tasks.len(),
{
    if tasks.len() == 0 {
        Seq::empty()
    } else {
        run_trace(tasks.drop_last()).push(TaskEvent::Executing(tasks.last().id())).push(
            TaskEvent::Completed(tasks.last().id()),
        )
    }
}

/// A worker slot of the pool.
pub struct ThreadExecutor {
    started: bool,
    running: bool,
    stopping: bool,
    current_running_task: Option<TaskRef>,
}

impl View for ThreadExecutor {
    type V = WorkerState;

    closed spec fn view(&self) -> WorkerState {
        WorkerState {
            started: self.started,
            running: self.running,
            stopping: self.stopping,
            current: self.current_running_task,
        }
    }
}

impl ThreadExecutor {
    /// A slot without a context.
    pub fn new() -> (worker: Self)
        ensures
            worker@ == WorkerState::idle(),
    {
        ThreadExecutor {
            started: false,
            running: false,
            stopping: false,
            current_running_task: None,
        }
    }

    /// Asks for the slot's context to run. Returns whether a context has to
    /// be started for it: that is so when none is running for it. A context
    /// that has ended leaves its place to the new one; whoever holds the
    /// handle of the old context joins it or drops it before starting the
    /// new one.
    pub fn execute(&mut self) -> (start: bool)
        ensures
            start == !old(self)@.running,
            final(self)@ == if old(self)@.running {
                old(self)@
            } else {
                WorkerState::fresh_context()
            },
    {
        if self.running {
            false
        } else {
            self.started = true;
            self.running = true;
            self.stopping = false;
            self.current_running_task = None;
            true
        }
    }

    /// Records that the context of the slot has ended. Returns the identity
    /// of the task that the context had in hand, if it ended over one: that
    /// task is abandoned.
    pub fn exited(&mut self) -> (abandoned: Option<usize>)
        ensures
            final(self)@ == old(self)@.ended(),
            match old(self)@.current {
                Some(task) => abandoned == Some(task.id()),
                None => abandoned is None,
            },
    {
        let abandoned = match &self.current_running_task {
            Some(task) => Some(task.identity()),
            None => None,
        };
        self.running = false;
        self.current_running_task = None;
        abandoned
    }

    /// Begins the shutdown of the slot's context. Returns whether a context
    /// has to be joined: that is so when the slot holds one, which is then
    /// marked as stopping until [`ThreadExecutor::joined`] is called.
    pub fn terminate(&mut self) -> (join: bool)
        ensures
            join == old(self)@.started,
            final(self)@ == (WorkerState {
                stopping: old(self)@.stopping || old(self)@.started,
                ..old(self)@
            }),
    {
        if self.started {
            self.stopping = true;
            true
        } else {
            false
        }
    }

    /// Ends the shutdown: the context of a stopping slot has been joined, so
    /// it has ended, and the slot holds none any more and has no task in
    /// hand. Returns the identity of the task that the context had in hand,
    /// if it ended over one: that task is abandoned. A slot that is not
    /// stopping is left as it is.
    pub fn joined(&mut self) -> (abandoned: Option<usize>)
        ensures
            final(self)@ == if old(self)@.stopping {
                WorkerState::idle()
            } else {
                old(self)@
            },
            match old(self)@.current {
                Some(task) => abandoned == if old(self)@.stopping {
                    Some(task.id())
                } else {
                    None
                },
                None => abandoned is None,
            },
    {
        if self.stopping {
            let abandoned = match &self.current_running_task {
                Some(task) => Some(task.identity()),
                None => None,
            };
            self.stopping = false;
            self.started = false;
            self.running = false;
            self.current_running_task = None;
            abandoned
        } else {
            None
        }
    }

    /// Whether the slot performs the task of `task` at the moment. The answer
    /// is for the caller's information: a task that has been taken from the
    /// queue is performed to its end.
    pub fn cancel_task_if_running(&self, task: &TaskRef) -> (running: bool)
        ensures
            running == self@.runs(task.id()),
    {
        match &self.current_running_task {
            Some(current) => current.same_task(task),
            None => false,
        }
    }

    /// Takes the first task of the queue for this slot's context, which must
    /// be ready for one; the slot keeps a reference to the task until
    /// [`ThreadExecutor::complete`]. Nothing is taken from an empty queue, nor
    /// for a slot that is not ready.
    pub fn take(&mut self, task_pool: &mut TaskPool) -> (task: Option<TaskRef>)
        ensures
            old(self)@.ready() && old(task_pool)@.len() > 0 ==> {
                &&& task == Some(old(task_pool)@.first())
                &&& final(task_pool)@ == old(task_pool)@.drop_first()
                &&& final(self)@ == (WorkerState { current: task, ..old(self)@ })
            },
            !(old(self)@.ready() && old(task_pool)@.len() > 0) ==> {
                &&& task is None
                &&& final(task_pool)@ == old(task_pool)@
                &&& final(self)@ == old(self)@
            },
    {
        if !self.running || self.current_running_task.is_some() {
            return None;
        }
        match task_pool.dequeue() {
            Some(task) => {
                self.current_running_task = Some(task.share());
                Some(task)
            },
            None => None,
        }
    }

    /// Records that the task which the slot performed is done. Returns the
    /// identity of that task, or nothing if the slot performed none.
    pub fn complete(&mut self) -> (done: Option<usize>)
        ensures
            final(self)@ == (WorkerState { current: None, ..old(self)@ }),
            match old(self)@.current {
                Some(task) => done == Some(task.id()),
                None => done is None,
            },
    {
        let done = match &self.current_running_task {
            Some(task) => Some(task.identity()),
            None => None,
        };
        self.current_running_task = None;
        done
    }

    /// The whole life of this slot's context, with the queue to itself: it
    /// performs the pending tasks one after the other, first come first
    /// served, each to its end, until it sees the queue empty; then it ends.
    /// The result is what it did, in order. A slot that is not ready does
    /// nothing.
    pub fn _execute(&mut self, task_pool: &mut TaskPool) -> (trace: Ghost<Seq<TaskEvent>>)
        ensures
            old(self)@.ready() ==> {
                &&& final(task_pool)@.len() == 0
                &&& trace@ == run_trace(old(task_pool)@)
                &&& final(self)@ == old(self)@.ended()
            },
            !old(self)@.ready() ==> {
                &&& final(task_pool)@ == old(task_pool)@
                &&& trace@ == Seq::<TaskEvent>::empty()
                &&& final(self)@ == old(self)@
            },
    {
        let ghost all = task_pool@;
        let ghost slot = self@;
        let ghost mut done: int = 0;
        let mut trace: Ghost<Seq<TaskEvent>> = Ghost(Seq::empty());
        if !self.running || self.current_running_task.is_some() {
            return trace;
        }
        let mut event = WorkerEvent::Started;
        loop
            invariant_except_break
                0 <= done <= all.len(),
                slot.ready(),
                match event {
                    WorkerEvent::Dequeued(Some(task)) => {
                        &&& done < all.len()
                        &&& task == all[done]
                        &&& task_pool@ == all.skip(done + 1)
                        &&& self@ == (WorkerState { current: Some(task), ..slot })
                        &&& trace@ == run_trace(all.take(done)).push(
                            TaskEvent::Executing(task.id()),
                        )
                    },
                    WorkerEvent::Dequeued(None) => false,
                    WorkerEvent::Yielded => false,
                    WorkerEvent::Observed { empty } => {
                        &&& empty == (done == all.len())
                        &&& task_pool@ == all.skip(done)
                        &&& self@ == slot
                        &&& trace@ == run_trace(all.take(done))
                    },
                    _ => {
                        &&& task_pool@ == all.skip(done)
                        &&& self@ == slot
                        &&& trace@ == run_trace(all.take(done))
                    },
                },
            ensures
                task_pool@.len() == 0,
                self@ == slot,
                trace@ == run_trace(all),
            decreases
                    4 * (all.len() - done) + match event {
                        WorkerEvent::Dequeued(_) => 1int,
                        WorkerEvent::Observed { .. } => 2int,
                        _ => 3int,
                    },
        {
            match next_action(event) {
                WorkerAction::Observe => {
                    event = WorkerEvent::Observed { empty: task_pool.is_empty() };
                },
                WorkerAction::Dequeue => {
                    let next = self.take(task_pool);
                    proof {
                        trace@ = trace@.push(TaskEvent::Executing(all[done].id()));
                    }
                    event = WorkerEvent::Dequeued(next);
                },
                WorkerAction::Run(task) => {
                    task.run();
                    self.complete();
                    proof {
                        assert(all.take(done + 1).drop_last() =~= all.take(done));
                        trace@ = trace@.push(TaskEvent::Completed(task.id()));
                        done = done + 1;
                    }
                    event = WorkerEvent::Completed;
                },
                WorkerAction::Yield => {
                    event = WorkerEvent::Yielded;
                },
                WorkerAction::Exit => {
                    proof {
                        assert(all.take(done) =~= all);
                    }
                    break ;
                },
            }
        }
        self.exited();
        trace
    }
}

} // verus!

//! Tasks and the references by which the engine holds them.
use std::sync::Arc;
use vstd::prelude::*;

verus! {

/// A unit of work. The engine calls `on_execute` to perform the work and then
/// `on_complete`, once, in the same execution context. It looks at nothing
/// else of a task, and neither call can report a failure to the engine.
pub trait ITask: Send + Sync {
    fn on_execute(&self);

    fn on_complete(&self);
}

/// A shared reference to a task, together with the identity under which the
/// engine finds the task again.
///
/// Two references have the same identity when they were obtained from one
/// another with [`TaskRef::share`], or made from handles to one shared
/// allocation. Two tasks of equal content that were allocated separately are
/// different tasks.
///
/// The task may be of one known type or, as the engine holds it, any task
/// (`dyn ITask`).
pub struct TaskRef<T: ?Sized = dyn ITask> {
    id: usize,
    body: Arc<T>,
}

/// `Arc::as_ptr`: the address of the value that `body` shares, as a number.
/// Nothing is claimed of the number: it is whatever the allocator chose.
#[verifier::external_body]
fn address_of<T: ?Sized>(body: &Arc<T>) -> usize {
    Arc::as_ptr(body).addr()
}

/// `Arc::clone`: one more handle to the value that `body` shares. The clone
/// points to the same allocation, so it is the same value.
#[verifier::external_body]
fn share_arc<T: ?Sized>(body: &Arc<T>) -> (shared: Arc<T>)
    ensures
        shared == *body,
{
    Arc::clone(body)
}

impl<T: ?Sized> TaskRef<T> {
    /// The identity of the task.
    pub closed spec fn id(&self) -> usize {
        self.id
    }

    /// The task that is referred to.
    pub closed spec fn body(&self) -> Arc<T> {
        self.body
    }

    /// Refers to `body` under the identity `id`. It is for the caller to give
    /// one task one identity, and different tasks different ones.
    pub fn with_identity(id: usize, body: Arc<T>) -> (task: Self)
        ensures
            task.id() == id,
            task.body() == body,
    {
        TaskRef { id, body }
    }

    /// Refers to `body`. The identity is that of the allocation behind `body`.
    pub fn new(body: Arc<T>) -> (task: Self)
        ensures
            task.body() == body,
    {
        let id = address_of(&body);
        Self::with_identity(id, body)
    }

    /// The identity of the task, as a number.
    pub fn identity(&self) -> (id: usize)
        ensures
            id == self.id(),
    {
        self.id
    }

    /// Whether both references are to the same task.
    pub fn same_task(&self, other: &Self) -> (same: bool)
        ensures
            same == (self.id() == other.id()),
    {
        self.id == other.id
    }

    /// Another reference to the same task.
    pub fn share(&self) -> (shared: Self)
        ensures
            shared == *self,
    {
        let body = share_arc(&self.body);
        TaskRef { id: self.id, body }
    }
}

impl<T: ITask + ?Sized> TaskRef<T> {
    /// Performs the task: its work, then its completion step.
    pub fn run(&self) {
        self.body.on_execute();
        self.body.on_complete();
    }
}

/// What the engine records of a task, by the task's identity.
#[derive(Clone, Copy, PartialEq, Eq, Structural, Debug)]
pub enum TaskEvent {
    /// The task was put into the queue.
    Submitted(usize),
    /// The task was taken out of the queue before any worker had it.
    Cancelled(usize),
    /// A worker took the task from the queue to perform it.
    Executing(usize),
    /// The worker that had the task reported it done.
    Completed(usize),
    /// The context that had the task ended before it reported the task done.
    Abandoned(usize),
}

} // verus!

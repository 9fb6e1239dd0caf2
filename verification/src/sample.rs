//! A small task that carries a number, for programs that want to watch the
//! engine work.
use crate::text::{decimal, decimal_of};
use vstd::prelude::*;
use vstd::string::StringExecFns;

verus! {

/// A task known by a number.
pub struct MyTask {
    id: i32,
}

impl MyTask {
    /// The number of the task.
    pub closed spec fn number(&self) -> i32 {
        self.id
    }

    /// The task with the number `id`.
    pub fn new(id: i32) -> (task: Self)
        ensures
            task.number() == id,
    {
        MyTask { id }
    }

    /// The number of the task.
    pub fn id(&self) -> (id: i32)
        ensures
            id == self.number(),
    {
        self.id
    }

    /// What the task reports when its work begins.
    pub fn executing_line(&self) -> (line: String)
        ensures
            line@ == "Executing task with id: "@ + decimal(self.number() as int),
    {
        let mut line = "Executing task with id: ".to_owned();
        line.append(decimal_of(self.id).as_str());
        line
    }

    /// What the task reports when it is done.
    pub fn completed_line(&self) -> (line: String)
        ensures
            line@ == "Completed task with id: "@ + decimal(self.number() as int),
    {
        let mut line = "Completed task with id: ".to_owned();
        line.append(decimal_of(self.id).as_str());
        line
    }
}

} // verus!

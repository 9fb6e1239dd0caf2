//! The queue of pending tasks.
use crate::task::TaskRef;
use std::collections::VecDeque;
use vstd::prelude::*;

verus! {

/// The identities of `tasks`, in the same order.
pub open spec fn ids(tasks: Seq<TaskRef>) -> Seq<usize> {
    tasks.map_values(|task: TaskRef| task.id())
}

/// `tasks` without every reference to the task `id`; the others keep their
/// order.
pub open spec fn without(tasks: Seq<TaskRef>, id: usize) -> Seq<TaskRef> {
    tasks.filter(|task: TaskRef| task.id() != id)
}

/// A first-in-first-out queue of task references. Its view is the sequence of
/// the pending tasks, the next one to leave first.
pub struct TaskPool {
    tasks: VecDeque<TaskRef>,
}

impl View for TaskPool {
    type V = Seq<TaskRef>;

    closed spec fn view(&self) -> Seq<TaskRef> {
        self.tasks@
    }
}

impl TaskPool {
    /// An empty queue.
    pub fn new() -> (pool: Self)
        ensures
            pool@ == Seq::<TaskRef>::empty(),
    {
        TaskPool { tasks: VecDeque::new() }
    }

    /// Puts `task` at the tail.
    pub fn enqueue(&mut self, task: TaskRef)
        ensures
            final(self)@ == old(self)@.push(task),
    {
        self.tasks.push_back(task);
    }

    /// Takes the task at the head, if there is one.
    pub fn dequeue(&mut self) -> (task: Option<TaskRef>)
        ensures
            old(self)@.len() == 0 ==> task is None && final(self)@ == old(self)@,
            old(self)@.len() > 0 ==> task == Some(old(self)@.first()) && final(self)@ == old(
                self,
            )@.drop_first(),
    {
        self.tasks.pop_front()
    }

    /// Takes every reference to the task of `task` out of the queue. The
    /// other tasks keep their order.
    pub fn erase(&mut self, task: &TaskRef)
        ensures
            final(self)@ == without(old(self)@, task.id()),
    {
        let ghost all = self.tasks@;
        let ghost keep = |other: TaskRef| other.id() != task.id();
        let n = self.tasks.len();
        let mut kept: VecDeque<TaskRef> = VecDeque::new();
        let mut i: usize = 0;
        proof {
            reveal(Seq::filter);
        }
        while i < n
            invariant
                i <= n,
                n == all.len(),
                keep == |other: TaskRef| other.id() != task.id(),
                self.tasks@ == all.skip(i as int),
                kept@ == all.take(i as int).filter(keep),
            decreases n - i,
        {
            let next = self.tasks.pop_front();
            proof {
                assert(all.take(i + 1) =~= all.take(i as int).push(all[i as int]));
                all.take(i as int).lemma_filter_push(all[i as int], keep);
            }
            if let Some(other) = next {
                if !other.same_task(task) {
                    kept.push_back(other);
                }
            }
            i += 1;
        }
        self.tasks = kept;
    }

    /// Empties the queue.
    pub fn clear(&mut self)
        ensures
            final(self)@ == Seq::<TaskRef>::empty(),
    {
        self.tasks.clear();
    }

    /// Whether no task is pending.
    pub fn is_empty(&self) -> (empty: bool)
        ensures
            empty == (self@.len() == 0),
    {
        self.tasks.len() == 0
    }

    /// The number of pending tasks.
    pub fn len(&self) -> (n: usize)
        ensures
            n == self@.len(),
    {
        self.tasks.len()
    }
}

/// No task is in `tasks` twice.
pub open spec fn distinct(tasks: Seq<TaskRef>) -> bool {
    ids(tasks).no_duplicates()
}

/// Whether `tasks` holds a reference to the task `id`.
pub open spec fn holds(tasks: Seq<TaskRef>, id: usize) -> bool {
    ids(tasks).contains(id)
}

/// One more task at the tail is one more identity: the queue then holds it
/// and what it held before, and no task is in it twice if none was before
/// and the new one was not in it.
proof fn lemma_push(tasks: Seq<TaskRef>, task: TaskRef)
    ensures
        forall|id: usize|
            #[trigger] holds(tasks.push(task), id) <==> holds(tasks, id) || task.id() == id,
        distinct(tasks.push(task)) <==> distinct(tasks) && !holds(tasks, task.id()),
{
    let before = ids(tasks);
    let after = ids(tasks.push(task));
    assert(after =~= before.push(task.id()));
    assert forall|id: usize| holds(tasks.push(task), id) implies holds(tasks, id) || task.id()
        == id by {
        let k = choose|k: int| 0 <= k < after.len() && after[k] == id;
        if k < before.len() {
            assert(before[k] == id);
        }
    }
    assert forall|id: usize| holds(tasks, id) || task.id() == id implies holds(
        tasks.push(task),
        id,
    ) by {
        if holds(tasks, id) {
            let k = choose|k: int| 0 <= k < before.len() && before[k] == id;
            assert(after[k] == id);
        } else {
            assert(after[before.len() as int] == id);
        }
    }
    if distinct(tasks.push(task)) {
        assert forall|a: int, b: int|
            0 <= a < before.len() && 0 <= b < before.len() && a != b implies before[a]
            != before[b] by {
            assert(after[a] != after[b]);
        }
        if holds(tasks, task.id()) {
            let k = choose|k: int| 0 <= k < before.len() && before[k] == task.id();
            assert(after[k] == after[before.len() as int]);
        }
    }
    if distinct(tasks) && !holds(tasks, task.id()) {
        assert forall|a: int, b: int|
            0 <= a < after.len() && 0 <= b < after.len() && a != b implies after[a]
            != after[b] by {
            if a < before.len() && b < before.len() {
                assert(before[a] != before[b]);
            } else if a < before.len() {
                assert(before[a] == after[a]);
            } else {
                assert(before[b] == after[b]);
            }
        }
    }
}

/// What is left after a task was taken out was there before, in the same
/// order, and the task that was taken out is not among it. Taking out a task
/// that is not there changes nothing.
pub proof fn law_erase_takes_one_task_out(tasks: Seq<TaskRef>, id: usize)
    ensures
        !holds(without(tasks, id), id),
        forall|other: usize|
            other != id ==> (holds(without(tasks, id), other) <==> holds(tasks, other)),
        !holds(tasks, id) ==> without(tasks, id) == tasks,
        distinct(tasks) ==> distinct(without(tasks, id)),
    decreases tasks.len(),
{
    reveal(Seq::filter);
    if tasks.len() > 0 {
        let rest = tasks.drop_last();
        let last = tasks.last();
        law_erase_takes_one_task_out(rest, id);
        assert(tasks =~= rest.push(last));
        lemma_push(rest, last);
        if last.id() != id {
            assert(without(tasks, id) == without(rest, id).push(last));
            lemma_push(without(rest, id), last);
        } else {
            assert(without(tasks, id) == without(rest, id));
        }
        assert forall|other: usize| other != id implies (holds(without(tasks, id), other)
            <==> holds(tasks, other)) by {
            assert(holds(rest.push(last), other) <==> holds(rest, other) || last.id() == other);
        }
    }
}

/// A queue in which no task is twice stays so: when a task is added that is
/// not in it, when the first task leaves, and when it is emptied. The task
/// that leaves is not in the queue any more, so it does not leave twice.
pub proof fn law_queue_keeps_tasks_distinct(tasks: Seq<TaskRef>, task: TaskRef)
    requires
        distinct(tasks),
    ensures
        distinct(Seq::<TaskRef>::empty()),
        !holds(tasks, task.id()) ==> distinct(tasks.push(task)),
        tasks.len() > 0 ==> distinct(tasks.drop_first()),
        tasks.len() > 0 ==> !holds(tasks.drop_first(), tasks.first().id()),
{
    lemma_push(tasks, task);
    if tasks.len() > 0 {
        let all = ids(tasks);
        let rest = ids(tasks.drop_first());
        assert(rest =~= all.drop_first());
        assert forall|a: int, b: int|
            0 <= a < rest.len() && 0 <= b < rest.len() && a != b implies rest[a] != rest[b] by {
            assert(all[a + 1] != all[b + 1]);
        }
        if holds(tasks.drop_first(), tasks.first().id()) {
            let k = choose|k: int| 0 <= k < rest.len() && rest[k] == tasks.first().id();
            assert(all[k + 1] == all[0]);
        }
    }
}

} // verus!

//! Counting lemmas for the record that a pool keeps.
use crate::executor::{run_trace, WorkerState};
use crate::model::{busy, occurrences, queued, repeated};
use crate::queue::{ids, without};
use crate::task::{TaskEvent, TaskRef};
use vstd::prelude::*;

verus! {

/// One more element is one more occurrence of that element, and of no other.
pub proof fn lemma_occurrences_push<A>(s: Seq<A>, a: A, b: A)
    ensures
        occurrences(s.push(a), b) == occurrences(s, b) + if a == b {
            1nat
        } else {
            0nat
        },
{
    assert(s.push(a).drop_last() =~= s);
}

/// Occurrences add up over a concatenation.
pub proof fn lemma_occurrences_add<A>(s: Seq<A>, t: Seq<A>, a: A)
    ensures
        occurrences(s + t, a) == occurrences(s, a) + occurrences(t, a),
    decreases t.len(),
{
    if t.len() > 0 {
        assert((s + t).drop_last() =~= s + t.drop_last());
        lemma_occurrences_add(s, t.drop_last(), a);
    }
}

/// The first element counts once, the rest as before.
pub proof fn lemma_occurrences_first<A>(s: Seq<A>, a: A)
    requires
        s.len() > 0,
    ensures
        occurrences(s, a) == occurrences(s.drop_first(), a) + if s.first() == a {
            1nat
        } else {
            0nat
        },
    decreases s.len(),
{
    if s.len() == 1 {
        assert(s.drop_first() =~= Seq::<A>::empty());
        assert(s.drop_last() =~= Seq::<A>::empty());
    } else {
        assert(s.drop_last().drop_first() =~= s.drop_first().drop_last());
        lemma_occurrences_first(s.drop_last(), a);
    }
}

/// An event repeated `n` times occurs `n` times, and no other event occurs.
pub proof fn lemma_occurrences_repeated(event: TaskEvent, n: nat, other: TaskEvent)
    ensures
        occurrences(repeated(event, n), other) == if event == other {
            n
        } else {
            0
        },
    decreases n,
{
    if n > 0 {
        assert(repeated(event, n).drop_last() =~= repeated(event, (n - 1) as nat));
        lemma_occurrences_repeated(event, (n - 1) as nat, other);
    }
}

/// One more pending task is one more reference to its identity.
pub proof fn lemma_queued_push(tasks: Seq<TaskRef>, task: TaskRef, id: usize)
    ensures
        queued(tasks.push(task), id) == queued(tasks, id) + if task.id() == id {
            1nat
        } else {
            0nat
        },
{
    assert(ids(tasks.push(task)) =~= ids(tasks).push(task.id()));
    lemma_occurrences_push(ids(tasks), task.id(), id);
}

/// The task at the head counts once, the rest as before.
pub proof fn lemma_queued_first(tasks: Seq<TaskRef>, id: usize)
    requires
        tasks.len() > 0,
    ensures
        queued(tasks, id) == queued(tasks.drop_first(), id) + if tasks.first().id() == id {
            1nat
        } else {
            0nat
        },
{
    assert(ids(tasks.drop_first()) =~= ids(tasks).drop_first());
    lemma_occurrences_first(ids(tasks), id);
}

/// After the task `gone` was taken out, no reference to it is pending, and
/// as many as before to every other task.
pub proof fn lemma_queued_without(tasks: Seq<TaskRef>, gone: usize, id: usize)
    ensures
        queued(without(tasks, gone), id) == if id == gone {
            0
        } else {
            queued(tasks, id)
        },
    decreases tasks.len(),
{
    reveal(Seq::filter);
    if tasks.len() > 0 {
        let rest = tasks.drop_last();
        let last = tasks.last();
        lemma_queued_without(rest, gone, id);
        assert(tasks =~= rest.push(last));
        lemma_queued_push(rest, last, id);
        rest.lemma_filter_push(last, |task: TaskRef| task.id() != gone);
        if last.id() != gone {
            lemma_queued_push(without(rest, gone), last, id);
        }
    }
}

/// A worker whose task changes counts for the new task in place of the old.
pub proof fn lemma_busy_update(workers: Seq<WorkerState>, w: int, next: WorkerState, id: usize)
    requires
        0 <= w < workers.len(),
    ensures
        busy(workers.update(w, next), id) + (if workers[w].runs(id) {
            1nat
        } else {
            0nat
        }) == busy(workers, id) + if next.runs(id) {
            1nat
        } else {
            0nat
        },
    decreases workers.len(),
{
    let updated = workers.update(w, next);
    if w == workers.len() - 1 {
        assert(updated.drop_last() =~= workers.drop_last());
    } else {
        assert(updated.drop_last() =~= workers.drop_last().update(w, next));
        lemma_busy_update(workers.drop_last(), w, next, id);
    }
}

/// Workers that perform the same tasks count the same.
pub proof fn lemma_busy_same_tasks(a: Seq<WorkerState>, b: Seq<WorkerState>, id: usize)
    requires
        a.len() == b.len(),
        forall|w: int| 0 <= w < a.len() ==> a[w].current == b[w].current,
    ensures
        busy(a, id) == busy(b, id),
    decreases a.len(),
{
    if a.len() > 0 {
        lemma_busy_same_tasks(a.drop_last(), b.drop_last(), id);
    }
}

/// Workers without a task count for none.
pub proof fn lemma_busy_none(workers: Seq<WorkerState>, id: usize)
    requires
        forall|w: int| 0 <= w < workers.len() ==> workers[w].current is None,
    ensures
        busy(workers, id) == 0,
    decreases workers.len(),
{
    if workers.len() > 0 {
        lemma_busy_none(workers.drop_last(), id);
    }
}

/// If no worker performs a task, none is counted for it.
pub proof fn lemma_busy_absent(workers: Seq<WorkerState>, id: usize)
    requires
        forall|w: int| 0 <= w < workers.len() ==> !(#[trigger] workers[w]).runs(id),
    ensures
        busy(workers, id) == 0,
    decreases workers.len(),
{
    if workers.len() > 0 {
        assert forall|w: int| 0 <= w < workers.drop_last().len() implies !(
        #[trigger] workers.drop_last()[w]).runs(id) by {}
        lemma_busy_absent(workers.drop_last(), id);
    }
}

/// A worker that performs a task is counted for it.
pub proof fn lemma_busy_counts(workers: Seq<WorkerState>, w: int, id: usize)
    requires
        0 <= w < workers.len(),
        workers[w].runs(id),
    ensures
        busy(workers, id) >= 1,
    decreases workers.len(),
{
    if w < workers.len() - 1 {
        lemma_busy_counts(workers.drop_last(), w, id);
    }
}

/// A context that performs `tasks` one after the other records each task as
/// executing and as completed as often as it is among them, and records
/// nothing else.
pub proof fn lemma_occurrences_run_trace(tasks: Seq<TaskRef>, event: TaskEvent)
    ensures
        occurrences(run_trace(tasks), event) == match event {
            TaskEvent::Executing(id) => queued(tasks, id),
            TaskEvent::Completed(id) => queued(tasks, id),
            _ => 0,
        },
    decreases tasks.len(),
{
    if tasks.len() > 0 {
        let rest = tasks.drop_last();
        let last = tasks.last();
        lemma_occurrences_run_trace(rest, event);
        let executing = TaskEvent::Executing(last.id());
        let completed = TaskEvent::Completed(last.id());
        lemma_occurrences_push(run_trace(rest), executing, event);
        lemma_occurrences_push(run_trace(rest).push(executing), completed, event);
        assert(tasks =~= rest.push(last));
        match event {
            TaskEvent::Executing(id) => {
                lemma_queued_push(rest, last, id);
            },
            TaskEvent::Completed(id) => {
                lemma_queued_push(rest, last, id);
            },
            _ => {},
        }
    }
}

/// Tasks that are recorded one by one as executing are recorded as often as
/// they are among them, and nothing else is recorded.
pub proof fn lemma_occurrences_executing(ids: Seq<usize>, event: TaskEvent)
    ensures
        occurrences(ids.map_values(|id: usize| TaskEvent::Executing(id)), event) == match event {
            TaskEvent::Executing(id) => occurrences(ids, id),
            _ => 0,
        },
    decreases ids.len(),
{
    let events = ids.map_values(|id: usize| TaskEvent::Executing(id));
    if ids.len() > 0 {
        lemma_occurrences_executing(ids.drop_last(), event);
        assert(events.drop_last() =~= ids.drop_last().map_values(
            |id: usize| TaskEvent::Executing(id),
        ));
    }
}

/// Tasks that are recorded one by one as cancelled are recorded as often as
/// they are among them, and nothing else is recorded.
pub proof fn lemma_occurrences_cancelled(ids: Seq<usize>, event: TaskEvent)
    ensures
        occurrences(ids.map_values(|id: usize| TaskEvent::Cancelled(id)), event) == match event {
            TaskEvent::Cancelled(id) => occurrences(ids, id),
            _ => 0,
        },
    decreases ids.len(),
{
    let events = ids.map_values(|id: usize| TaskEvent::Cancelled(id));
    if ids.len() > 0 {
        lemma_occurrences_cancelled(ids.drop_last(), event);
        assert(events.drop_last() =~= ids.drop_last().map_values(
            |id: usize| TaskEvent::Cancelled(id),
        ));
    }
}

} // verus!

use std::sync::{Arc, Mutex};
use taskmanager::async_pool::AsyncThreadPool;
use taskmanager::coop::SchedulerAction;
use taskmanager::executor::{next_action, ThreadExecutor, WorkerAction, WorkerEvent};
use taskmanager::pool::ThreadPool;
use taskmanager::queue::TaskPool;
use taskmanager::sample::MyTask;
use taskmanager::task::{ITask, TaskRef};

struct Recording {
    task: MyTask,
    log: Arc<Mutex<Vec<String>>>,
}

impl ITask for Recording {
    fn on_execute(&self) {
        self.log.lock().unwrap().push(format!("executing {}", self.task.id()));
    }

    fn on_complete(&self) {
        self.log.lock().unwrap().push(format!("completed {}", self.task.id()));
    }
}

fn recording(id: i32, log: &Arc<Mutex<Vec<String>>>) -> TaskRef {
    let body: Arc<dyn ITask> = Arc::new(Recording { task: MyTask::new(id), log: log.clone() });
    TaskRef::new(body)
}

fn new_log() -> Arc<Mutex<Vec<String>>> {
    Arc::new(Mutex::new(Vec::new()))
}

fn lines(log: &Arc<Mutex<Vec<String>>>) -> Vec<String> {
    log.lock().unwrap().clone()
}

fn count(log: &Arc<Mutex<Vec<String>>>, line: &str) -> usize {
    log.lock().unwrap().iter().filter(|l| l.as_str() == line).count()
}

#[test]
fn my_task_keeps_its_number() {
    assert_eq!(MyTask::new(7).id(), 7);
    assert_eq!(MyTask::new(-3).id(), -3);
}

#[test]
fn task_ref_identity_is_that_of_the_allocation() {
    let log = new_log();
    let body: Arc<dyn ITask> = Arc::new(Recording { task: MyTask::new(1), log: log.clone() });
    let first = TaskRef::new(body.clone());
    let again = TaskRef::new(body);
    let twin = recording(1, &log);
    assert!(first.same_task(&again));
    assert_eq!(first.identity(), again.identity());
    assert!(!first.same_task(&twin));
    assert!(first.same_task(&first.share()));
    assert_eq!(first.share().identity(), first.identity());
}

#[test]
fn task_ref_takes_the_identity_that_it_is_given() {
    let log = new_log();
    let body: Arc<dyn ITask> = Arc::new(Recording { task: MyTask::new(1), log: log.clone() });
    let first = TaskRef::with_identity(7, body.clone());
    let other = TaskRef::with_identity(8, body);
    assert_eq!(first.identity(), 7);
    assert_eq!(other.identity(), 8);
    assert!(!first.same_task(&other));
    assert!(first.same_task(&first.share()));
    let mut pool = ThreadPool::new(1);
    pool.add_task(first.share());
    pool.add_task(other.share());
    assert!(!pool.cancel_task(&TaskRef::with_identity(7, Arc::new(Recording { task: MyTask::new(2), log: log.clone() }))));
    pool.execute();
    assert!(pool.take_task(0).unwrap().same_task(&other));
}

#[test]
fn shared_reference_runs_the_same_task() {
    let log = new_log();
    let task = recording(4, &log);
    task.share().run();
    assert_eq!(lines(&log), vec!["executing 4", "completed 4"]);
}

#[test]
fn fresh_queue_is_empty() {
    let mut queue = TaskPool::new();
    assert!(queue.is_empty());
    assert_eq!(queue.len(), 0);
    assert!(queue.dequeue().is_none());
}

#[test]
fn queue_is_first_in_first_out() {
    let log = new_log();
    let mut queue = TaskPool::new();
    let a = recording(0, &log);
    let b = recording(1, &log);
    queue.enqueue(a.share());
    assert_eq!(queue.len(), 1);
    queue.enqueue(b.share());
    assert_eq!(queue.len(), 2);
    assert!(!queue.is_empty());
    assert!(queue.dequeue().unwrap().same_task(&a));
    assert!(queue.dequeue().unwrap().same_task(&b));
    assert!(queue.dequeue().is_none());
    assert!(queue.is_empty());
}

#[test]
fn erase_removes_every_reference_and_keeps_the_order() {
    let log = new_log();
    let mut queue = TaskPool::new();
    let a = recording(0, &log);
    let b = recording(0, &log);
    let c = recording(2, &log);
    queue.enqueue(a.share());
    queue.enqueue(b.share());
    queue.enqueue(a.share());
    queue.enqueue(c.share());
    queue.erase(&a);
    assert_eq!(queue.len(), 2);
    assert!(queue.dequeue().unwrap().same_task(&b));
    assert!(queue.dequeue().unwrap().same_task(&c));
}

#[test]
fn erase_of_a_task_that_is_not_pending_changes_nothing() {
    let log = new_log();
    let mut queue = TaskPool::new();
    let a = recording(0, &log);
    let stranger = recording(0, &log);
    queue.enqueue(a.share());
    queue.erase(&stranger);
    assert_eq!(queue.len(), 1);
    assert!(queue.dequeue().unwrap().same_task(&a));
}

#[test]
fn clear_empties_the_queue() {
    let log = new_log();
    let mut queue = TaskPool::new();
    queue.enqueue(recording(0, &log));
    queue.enqueue(recording(1, &log));
    queue.clear();
    assert!(queue.is_empty());
    assert!(queue.dequeue().is_none());
}

#[test]
fn a_context_goes_from_event_to_action() {
    let log = new_log();
    let task = recording(0, &log);
    assert!(matches!(next_action(WorkerEvent::Started), WorkerAction::Observe));
    assert!(matches!(next_action(WorkerEvent::Observed { empty: true }), WorkerAction::Exit));
    assert!(matches!(next_action(WorkerEvent::Observed { empty: false }), WorkerAction::Dequeue));
    assert!(matches!(next_action(WorkerEvent::Dequeued(None)), WorkerAction::Yield));
    assert!(matches!(next_action(WorkerEvent::Completed), WorkerAction::Observe));
    assert!(matches!(next_action(WorkerEvent::Yielded), WorkerAction::Observe));
    match next_action(WorkerEvent::Dequeued(Some(task.share()))) {
        WorkerAction::Run(got) => assert!(got.same_task(&task)),
        _ => panic!("a dequeued task is run"),
    }
}

#[test]
fn a_slot_is_started_whenever_no_context_runs_for_it() {
    let mut slot = ThreadExecutor::new();
    assert!(!slot.terminate());
    assert!(slot.execute());
    assert!(!slot.execute());
    assert_eq!(slot.joined(), None);
    assert!(!slot.execute());
    assert_eq!(slot.exited(), None);
    assert!(slot.execute());
    assert!(!slot.execute());
    assert!(slot.terminate());
    assert!(!slot.execute());
    assert_eq!(slot.joined(), None);
    assert!(!slot.terminate());
    assert!(slot.execute());
}

#[test]
fn a_context_that_ends_over_a_task_abandons_it() {
    let log = new_log();
    let mut queue = TaskPool::new();
    let a = recording(0, &log);
    let b = recording(1, &log);
    let c = recording(2, &log);
    queue.enqueue(a.share());
    queue.enqueue(b.share());
    queue.enqueue(c.share());
    let mut slot = ThreadExecutor::new();
    assert!(slot.execute());
    assert!(slot.take(&mut queue).unwrap().same_task(&a));
    assert_eq!(slot.exited(), Some(a.identity()));
    assert!(!slot.cancel_task_if_running(&a));
    assert!(slot.take(&mut queue).is_none());
    assert!(slot.execute());
    assert!(slot.take(&mut queue).unwrap().same_task(&b));
    assert!(slot.terminate());
    assert_eq!(slot.joined(), Some(b.identity()));
    assert!(!slot.cancel_task_if_running(&b));
    assert!(slot.execute());
    assert!(slot.take(&mut queue).unwrap().same_task(&c));
    assert_eq!(slot.complete(), Some(c.identity()));
    assert_eq!(slot.exited(), None);
}

#[test]
fn a_slot_takes_a_task_only_when_it_is_ready() {
    let log = new_log();
    let mut queue = TaskPool::new();
    let a = recording(0, &log);
    let b = recording(1, &log);
    queue.enqueue(a.share());
    queue.enqueue(b.share());
    let mut slot = ThreadExecutor::new();
    assert!(slot.take(&mut queue).is_none());
    assert_eq!(queue.len(), 2);
    assert!(slot.execute());
    assert!(slot.take(&mut queue).unwrap().same_task(&a));
    assert!(slot.cancel_task_if_running(&a));
    assert!(!slot.cancel_task_if_running(&b));
    assert!(slot.take(&mut queue).is_none());
    assert_eq!(queue.len(), 1);
    assert_eq!(slot.complete(), Some(a.identity()));
    assert!(!slot.cancel_task_if_running(&a));
    assert_eq!(slot.complete(), None);
    assert!(slot.take(&mut queue).unwrap().same_task(&b));
}

#[test]
fn a_context_that_is_not_started_runs_nothing() {
    let log = new_log();
    let mut queue = TaskPool::new();
    queue.enqueue(recording(0, &log));
    let mut slot = ThreadExecutor::new();
    slot._execute(&mut queue);
    assert_eq!(queue.len(), 1);
    assert!(lines(&log).is_empty());
}

#[test]
fn fresh_pool_is_empty_and_first_submission_is_first_taken() {
    let log = new_log();
    let mut pool = ThreadPool::new(2);
    assert!(pool.is_empty());
    assert_eq!(pool.max_threads(), 2);
    let a = recording(0, &log);
    pool.add_task(a.share());
    assert!(!pool.is_empty());
    assert_eq!(pool.execute(), vec![0, 1]);
    assert!(pool.take_task(1).unwrap().same_task(&a));
    assert!(pool.is_empty());
}

#[test]
fn one_worker_runs_tasks_in_submission_order() {
    let log = new_log();
    let mut pool = ThreadPool::new(1);
    for id in [0, 1, 2] {
        pool.add_task(recording(id, &log));
    }
    for worker in pool.execute() {
        pool.run_worker(worker);
    }
    assert_eq!(
        lines(&log),
        vec!["executing 0", "completed 0", "executing 1", "completed 1", "executing 2", "completed 2"]
    );
    assert!(pool.is_empty());
}

#[test]
fn four_workers_complete_five_tasks_once_each() {
    let log = new_log();
    let mut pool = ThreadPool::new(4);
    for id in 0..5 {
        pool.add_task(recording(id, &log));
    }
    let started = pool.execute();
    assert_eq!(started, vec![0, 1, 2, 3]);
    for worker in started {
        pool.run_worker(worker);
    }
    for id in 0..5 {
        assert_eq!(count(&log, &format!("executing {}", id)), 1);
        assert_eq!(count(&log, &format!("completed {}", id)), 1);
    }
    assert_eq!(lines(&log).len(), 10);
    assert!(pool.is_empty());
}

fn turn(pool: &mut ThreadPool, worker: usize, event: WorkerEvent, yields: &mut usize) -> Option<WorkerEvent> {
    match next_action(event) {
        WorkerAction::Observe => Some(WorkerEvent::Observed { empty: pool.is_empty() }),
        WorkerAction::Dequeue => Some(WorkerEvent::Dequeued(pool.take_task(worker))),
        WorkerAction::Run(task) => {
            task.run();
            pool.complete_task(worker);
            Some(WorkerEvent::Completed)
        }
        WorkerAction::Yield => {
            *yields += 1;
            Some(WorkerEvent::Yielded)
        }
        WorkerAction::Exit => {
            pool.exited(worker);
            None
        }
    }
}

#[test]
fn four_interleaved_contexts_complete_five_tasks_once_each() {
    let log = new_log();
    let mut pool = ThreadPool::new(4);
    for id in 0..5 {
        pool.add_task(recording(id, &log));
    }
    let started = pool.execute();
    assert_eq!(started, vec![0, 1, 2, 3]);
    let mut contexts: Vec<Option<WorkerEvent>> =
        started.iter().map(|_| Some(WorkerEvent::Started)).collect();
    let mut yields = 0;
    while contexts.iter().any(|c| c.is_some()) {
        for worker in 0..contexts.len() {
            if let Some(event) = contexts[worker].take() {
                contexts[worker] = turn(&mut pool, worker, event, &mut yields);
            }
        }
    }
    assert_eq!(pool.terminate(), vec![0, 1, 2, 3]);
    for worker in 0..4 {
        pool.joined(worker);
    }
    for id in 0..5 {
        assert_eq!(count(&log, &format!("executing {}", id)), 1);
        assert_eq!(count(&log, &format!("completed {}", id)), 1);
        let all = lines(&log);
        let began = all.iter().position(|l| *l == format!("executing {}", id)).unwrap();
        let ended = all.iter().position(|l| *l == format!("completed {}", id)).unwrap();
        assert!(began < ended);
    }
    assert!(yields > 0);
    assert!(pool.is_empty());
    assert_eq!(pool.execute(), vec![0, 1, 2, 3]);
}

#[test]
fn first_task_completes_before_the_second_begins() {
    let log = new_log();
    let mut pool = ThreadPool::new(1);
    pool.add_task(recording(10, &log));
    pool.add_task(recording(20, &log));
    assert_eq!(pool.execute(), vec![0]);
    let a = pool.take_task(0).unwrap();
    assert!(pool.take_task(0).is_none());
    a.run();
    pool.complete_task(0);
    let b = pool.take_task(0).unwrap();
    b.run();
    pool.complete_task(0);
    assert_eq!(lines(&log), vec!["executing 10", "completed 10", "executing 20", "completed 20"]);
}

#[test]
fn cancelled_task_is_never_executed() {
    let log = new_log();
    let mut pool = ThreadPool::new(1);
    let a = recording(0, &log);
    let b = recording(1, &log);
    let c = recording(2, &log);
    pool.add_task(a.share());
    pool.add_task(b.share());
    pool.add_task(c.share());
    assert!(!pool.cancel_task(&b));
    for worker in pool.execute() {
        pool.run_worker(worker);
    }
    assert_eq!(lines(&log), vec!["executing 0", "completed 0", "executing 2", "completed 2"]);
}

#[test]
fn cancelling_a_task_in_flight_does_not_stop_it() {
    let log = new_log();
    let mut pool = ThreadPool::new(2);
    let a = recording(0, &log);
    pool.add_task(a.share());
    pool.execute();
    let taken = pool.take_task(0).unwrap();
    assert!(pool.cancel_task(&a));
    taken.run();
    pool.complete_task(0);
    assert!(!pool.cancel_task(&a));
    assert_eq!(lines(&log), vec!["executing 0", "completed 0"]);
}

#[test]
fn cancelling_an_unknown_task_is_no_error() {
    let log = new_log();
    let mut pool = ThreadPool::new(1);
    let a = recording(0, &log);
    let stranger = recording(0, &log);
    pool.add_task(a.share());
    assert!(!pool.cancel_task(&stranger));
    assert!(!pool.is_empty());
    assert!(!pool.cancel_task(&a));
    assert!(pool.is_empty());
    assert!(!pool.cancel_task(&a));
}

#[test]
fn execute_twice_starts_nothing_twice() {
    let mut pool = ThreadPool::new(3);
    assert_eq!(pool.execute(), vec![0, 1, 2]);
    assert_eq!(pool.execute(), Vec::<usize>::new());
}

#[test]
fn workers_are_restarted_once_their_context_has_ended() {
    let log = new_log();
    let mut pool = ThreadPool::new(2);
    assert_eq!(pool.terminate(), Vec::<usize>::new());
    assert_eq!(pool.execute(), vec![0, 1]);
    assert_eq!(pool.execute(), Vec::<usize>::new());
    pool.run_worker(0);
    assert_eq!(pool.execute(), vec![0]);
    pool.exited(0);
    pool.exited(1);
    pool.exited(7);
    pool.add_task(recording(5, &log));
    assert!(pool.take_task(0).is_none());
    assert!(pool.take_task(1).is_none());
    assert_eq!(pool.execute(), vec![0, 1]);
    assert_eq!(pool.execute(), Vec::<usize>::new());
    pool.run_worker(1);
    assert_eq!(lines(&log), vec!["executing 5", "completed 5"]);
    assert_eq!(pool.terminate(), vec![0, 1]);
    pool.joined(0);
    pool.joined(1);
    pool.joined(7);
    assert_eq!(pool.terminate(), Vec::<usize>::new());
    assert_eq!(pool.execute(), vec![0, 1]);
}

#[test]
fn a_task_added_after_the_queue_drained_runs_on_the_next_execute() {
    let log = new_log();
    let mut pool = ThreadPool::new(1);
    pool.add_task(recording(0, &log));
    for worker in pool.execute() {
        pool.run_worker(worker);
    }
    pool.add_task(recording(1, &log));
    assert!(!pool.is_empty());
    assert_eq!(lines(&log), vec!["executing 0", "completed 0"]);
    let restarted = pool.execute();
    assert_eq!(restarted, vec![0]);
    for worker in restarted {
        pool.run_worker(worker);
    }
    assert!(pool.is_empty());
    assert_eq!(
        lines(&log),
        vec!["executing 0", "completed 0", "executing 1", "completed 1"]
    );
}

#[test]
fn a_worker_whose_context_ended_over_a_task_works_again_after_execute() {
    let log = new_log();
    let mut pool = ThreadPool::new(1);
    let a = recording(0, &log);
    pool.add_task(a.share());
    pool.add_task(recording(1, &log));
    assert_eq!(pool.execute(), vec![0]);
    assert!(pool.take_task(0).unwrap().same_task(&a));
    assert!(pool.cancel_task(&a));
    pool.exited(0);
    assert!(!pool.cancel_task(&a));
    assert!(pool.take_task(0).is_none());
    assert_eq!(pool.execute(), vec![0]);
    pool.run_worker(0);
    assert_eq!(lines(&log), vec!["executing 1", "completed 1"]);
    assert!(pool.is_empty());
}

#[test]
fn tasks_submitted_after_terminate_wait_for_the_next_run() {
    let log = new_log();
    let mut pool = ThreadPool::new(1);
    pool.add_task(recording(0, &log));
    for worker in pool.execute() {
        pool.run_worker(worker);
    }
    for worker in pool.terminate() {
        pool.joined(worker);
    }
    pool.add_task(recording(1, &log));
    assert!(pool.take_task(0).is_none());
    pool.run_worker(0);
    assert!(!pool.is_empty());
    assert_eq!(lines(&log), vec!["executing 0", "completed 0"]);
    for worker in pool.execute() {
        pool.run_worker(worker);
    }
    assert!(pool.is_empty());
    assert_eq!(
        lines(&log),
        vec!["executing 0", "completed 0", "executing 1", "completed 1"]
    );
}

#[test]
fn terminate_leaves_the_queue_as_it_is() {
    let log = new_log();
    let mut pool = ThreadPool::new(1);
    pool.add_task(recording(0, &log));
    pool.execute();
    for worker in pool.terminate() {
        pool.joined(worker);
    }
    assert!(!pool.is_empty());
}

#[test]
fn a_pool_has_no_worker_beyond_its_size() {
    let log = new_log();
    let mut pool = ThreadPool::new(1);
    pool.add_task(recording(0, &log));
    pool.execute();
    assert!(pool.take_task(1).is_none());
    pool.complete_task(1);
    pool.run_worker(1);
    assert!(!pool.is_empty());
    assert!(lines(&log).is_empty());
}

#[test]
fn a_pool_without_workers_keeps_its_tasks() {
    let log = new_log();
    let mut pool = ThreadPool::new(0);
    pool.add_task(recording(0, &log));
    assert_eq!(pool.execute(), Vec::<usize>::new());
    assert!(!pool.is_empty());
}

#[test]
fn cooperative_pool_hands_out_jobs_in_submission_order() {
    let log = new_log();
    let mut pool = AsyncThreadPool::new();
    assert!(pool.is_empty());
    let tasks: Vec<TaskRef> = (0..5).map(|id| recording(id, &log)).collect();
    for task in &tasks {
        pool.add_task(task.share());
    }
    let jobs = pool.dispatch_all();
    assert!(pool.is_empty());
    assert_eq!(jobs.len(), 5);
    for (job, task) in jobs.iter().zip(tasks.iter()) {
        assert!(job.same_task(task));
    }
    for job in jobs {
        job.run();
    }
    for id in 0..5 {
        assert_eq!(count(&log, &format!("executing {}", id)), 1);
        assert_eq!(count(&log, &format!("completed {}", id)), 1);
    }
    assert!(pool.dispatch_all().is_empty());
}

#[test]
fn scheduler_gives_way_on_an_empty_queue_until_it_is_told_to_terminate() {
    let log = new_log();
    let mut pool = AsyncThreadPool::new();
    assert!(!pool.is_terminated());
    assert!(matches!(pool.execute(), SchedulerAction::Yield));
    assert!(matches!(pool.execute(), SchedulerAction::Yield));
    let a = recording(0, &log);
    let b = recording(1, &log);
    pool.add_task(a.share());
    pool.add_task(b.share());
    match pool.execute() {
        SchedulerAction::Spawn(job) => assert!(job.same_task(&a)),
        _ => panic!("a pending task is run as a job"),
    }
    match pool.execute() {
        SchedulerAction::Spawn(job) => assert!(job.same_task(&b)),
        _ => panic!("a pending task is run as a job"),
    }
    assert!(matches!(pool.execute(), SchedulerAction::Yield));
    let c = recording(2, &log);
    pool.add_task(c.share());
    match pool.execute() {
        SchedulerAction::Spawn(job) => {
            assert!(job.same_task(&c));
            job.run();
        }
        _ => panic!("a task that was added later is run as a job"),
    }
    pool.add_task(recording(3, &log));
    pool.terminate();
    assert!(pool.is_terminated());
    assert!(pool.is_empty());
    assert!(matches!(pool.execute(), SchedulerAction::Exit));
    assert!(!pool.is_terminated());
    assert!(matches!(pool.execute(), SchedulerAction::Yield));
    assert_eq!(lines(&log), vec!["executing 2", "completed 2"]);
}

#[test]
fn cooperative_pool_dispatches_one_job_at_a_time() {
    let log = new_log();
    let mut pool = AsyncThreadPool::new();
    assert!(pool.dispatch().is_none());
    let a = recording(0, &log);
    let b = recording(1, &log);
    pool.add_task(a.share());
    pool.add_task(b.share());
    assert!(pool.dispatch().unwrap().same_task(&a));
    assert!(pool.dispatch().unwrap().same_task(&b));
    assert!(pool.dispatch().is_none());
}

#[test]
fn cooperative_cancel_and_terminate_drop_pending_tasks_only() {
    let log = new_log();
    let mut pool = AsyncThreadPool::new();
    let a = recording(0, &log);
    let b = recording(1, &log);
    let c = recording(2, &log);
    pool.add_task(a.share());
    pool.add_task(b.share());
    pool.add_task(c.share());
    let job = pool.dispatch().unwrap();
    pool.cancel_task(&a);
    pool.cancel_task(&b);
    assert!(pool.dispatch().unwrap().same_task(&c));
    pool.add_task(b.share());
    pool.terminate();
    assert!(pool.is_empty());
    assert!(pool.dispatch_all().is_empty());
    job.run();
    assert_eq!(lines(&log), vec!["executing 0", "completed 0"]);
}

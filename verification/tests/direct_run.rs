use std::sync::{Arc, RwLock};

use mvsync::block::Signal;
use mvsync::queue::TaskObservation;
use mvsync::run::{run, run_action, run_all, run_all_round, run_round, run_step, RunAction, RunStep};
use mvsync::sync::{Semaphore, SemaphoreUsage};
use mvsync::task::{Task, TaskState};

fn obs(can_execute: bool, panicked: bool, cancelled: bool) -> TaskObservation {
    TaskObservation { can_execute, panicked, cancelled, preferred_thread: None }
}

#[test]
fn panics_and_cancellations_are_settled_first() {
    assert_eq!(run_action(&obs(false, true, true)), RunAction::FinishPanicked);
    assert_eq!(run_action(&obs(false, false, true)), RunAction::FinishCancelled);
    assert_eq!(run_action(&obs(true, false, false)), RunAction::Execute);
    assert_eq!(run_action(&obs(false, false, false)), RunAction::Defer);
}

#[test]
fn a_round_reports_progress() {
    let (actions, ran) = run_round(&vec![obs(false, false, false), obs(true, false, false)]);
    assert_eq!(actions, vec![RunAction::Defer, RunAction::Execute]);
    assert!(ran);
    let (actions, ran) = run_round(&vec![obs(false, false, false)]);
    assert_eq!(actions, vec![RunAction::Defer]);
    assert!(!ran);
    let (actions, ran) = run_round(&vec![]);
    assert!(actions.is_empty());
    assert!(!ran);
}

fn task(job: u32, dependency: TaskState) -> Task<u32> {
    Task::new(
        Arc::new(RwLock::new(TaskState::Pending)),
        job,
        Arc::new(RwLock::new(dependency)),
        [Arc::new(Signal::new()), Arc::new(Signal::new())],
    )
}

#[test]
fn running_directly_settles_starts_or_defers() {
    let (o, step) = run_step(task(1, TaskState::Panicked));
    assert!(o.panicked);
    match step {
        RunStep::Settle(t, s) => {
            assert_eq!(s, TaskState::Panicked);
            assert_eq!(t.execute().0, 1);
        }
        _ => panic!("a task whose dependency panicked is settled panicked"),
    }

    match run_step(task(2, TaskState::Cancelled)).1 {
        RunStep::Settle(t, s) => {
            assert_eq!(s, TaskState::Cancelled);
            assert_eq!(t.execute().0, 2);
        }
        _ => panic!("a cancelled task is settled cancelled"),
    }

    match run_step(task(3, TaskState::Ready)).1 {
        RunStep::Start(running) => assert_eq!(running.job, 3),
        _ => panic!("a ready task starts"),
    }

    let (o, step) = run_step(task(4, TaskState::Pending));
    assert!(!o.can_execute);
    match step {
        RunStep::Defer(t) => assert_eq!(t.execute().0, 4),
        _ => panic!("a task whose dependency is pending waits"),
    }
}

#[test]
fn run_settles_or_runs_a_task() {
    let ran = std::cell::Cell::new(0u32);
    let t = task(5, TaskState::Cancelled);
    let own = t.state();
    run(t, &|j: u32| ran.set(ran.get() + j));
    assert_eq!(*own.read().unwrap(), TaskState::Cancelled);
    assert_eq!(ran.get(), 0);

    let t = task(6, TaskState::Ready);
    let sig = t.execute().2;
    let t = Task::new(Arc::new(RwLock::new(TaskState::Pending)), 6u32, Arc::new(RwLock::new(TaskState::Ready)), sig.clone());
    run(t, &|j: u32| ran.set(ran.get() + j));
    assert_eq!(ran.get(), 6);
    assert!(sig[0].ready() && sig[1].ready());
}

#[test]
fn run_all_runs_tasks_in_dependency_order() {
    let order = std::cell::RefCell::new(Vec::new());
    let semaphore = Arc::new(Semaphore::new());
    let mut second = task(2, TaskState::Ready);
    second.bind_semaphore(semaphore.clone(), SemaphoreUsage::Wait);
    let mut first = task(1, TaskState::Ready);
    first.bind_semaphore(semaphore.clone(), SemaphoreUsage::Signal);
    let stuck = task(3, TaskState::Pending);
    run_all(vec![second, first, stuck], &|j: u32| order.borrow_mut().push(j));
    assert_eq!(*order.borrow(), vec![1, 2]);
}

#[test]
fn a_round_of_direct_running_reports_what_it_deferred() {
    let ran = std::cell::Cell::new(0u32);
    let (seen, left, progressed) =
        run_all_round(vec![task(1, TaskState::Pending), task(2, TaskState::Ready)], &|j: u32| ran.set(j));
    assert_eq!(seen.len(), 2);
    assert!(progressed);
    assert_eq!(ran.get(), 2);
    let left: Vec<u32> = left.into_iter().map(|t| t.execute().0).collect();
    assert_eq!(left, vec![1]);
    let (_, left, progressed) = run_all_round(vec![task(7, TaskState::Pending)], &|j: u32| ran.set(j));
    assert!(!progressed);
    assert_eq!(left.len(), 1);
}

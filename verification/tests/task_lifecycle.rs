use std::sync::{Arc, RwLock};

use mvsync::block::Signal;
use mvsync::sync::{Fence, Semaphore, SemaphoreUsage};
use mvsync::task::{
    cancellation_seen, continuation_step, panic_seen, execution_allowed, publish_result, settle, ContinuationStep, Task,
    TaskHandle, TaskResult, TaskState,
};
use mvsync::MVSyncSpecs;

fn cell(s: TaskState) -> Arc<RwLock<TaskState>> {
    Arc::new(RwLock::new(s))
}

fn task(job: u32, dependency: TaskState) -> Task<u32> {
    Task::new(cell(TaskState::Pending), job, cell(dependency), [Arc::new(Signal::new()), Arc::new(Signal::new())])
}

#[test]
fn task_state_replace_and_take() {
    let mut s = TaskState::Pending;
    assert!(!s.is_finished());
    s.replace(TaskState::Cancelled);
    assert_eq!(s, TaskState::Cancelled);
    assert_eq!(s.take(), TaskState::Cancelled);
    assert_eq!(s, TaskState::Cancelled);
    assert!(s.is_finished());
}

#[test]
fn settle_gives_the_result_of_each_state() {
    assert!(matches!(settle(TaskState::Ready, Some(7)), Some(TaskResult::Returned(7))));
    assert!(settle::<u32>(TaskState::Ready, None).is_none());
    assert!(settle::<u32>(TaskState::Pending, Some(3)).is_none());
    assert!(matches!(settle(TaskState::Panicked, Some(3)), Some(TaskResult::Panicked)));
    assert!(matches!(settle::<u32>(TaskState::Cancelled, None), Some(TaskResult::Cancelled)));
}

#[test]
fn continuation_follows_its_predecessor() {
    assert!(matches!(continuation_step(TaskState::Ready, TaskResult::Returned(5)), ContinuationStep::Run(5)));
    assert!(matches!(continuation_step::<u32>(TaskState::Ready, TaskResult::Cancelled), ContinuationStep::Idle));
    assert!(matches!(continuation_step::<u32>(TaskState::Panicked, TaskResult::Panicked), ContinuationStep::Panicked));
    assert!(matches!(continuation_step::<u32>(TaskState::Cancelled, TaskResult::Cancelled), ContinuationStep::Cancelled));
    assert!(matches!(continuation_step(TaskState::Pending, TaskResult::Returned(1)), ContinuationStep::Cancelled));
}

#[test]
fn execution_needs_every_semaphore_and_a_finished_dependency() {
    assert!(execution_allowed(&vec![], TaskState::Ready));
    assert!(execution_allowed(&vec![true, true], TaskState::Cancelled));
    assert!(!execution_allowed(&vec![true, false], TaskState::Ready));
    assert!(!execution_allowed(&vec![true], TaskState::Pending));
    assert!(cancellation_seen(TaskState::Ready, TaskState::Cancelled));
    assert!(cancellation_seen(TaskState::Cancelled, TaskState::Pending));
    assert!(!cancellation_seen(TaskState::Panicked, TaskState::Pending));
}

#[test]
fn a_task_waits_for_its_semaphores() {
    let mut t = task(1, TaskState::Ready);
    assert!(t.can_execute());
    let s = Arc::new(Semaphore::new());
    t.bind_semaphore(s.clone(), SemaphoreUsage::Wait);
    assert!(!t.can_execute());
    s.signal();
    assert!(t.can_execute());
    assert!(!t.is_panicked());
    assert!(!t.is_cancelled());
}

#[test]
fn a_task_with_a_pending_dependency_cannot_execute() {
    let t = task(1, TaskState::Pending);
    assert!(!t.can_execute());
    let p = task(2, TaskState::Panicked);
    assert!(p.is_panicked());
    let c = task(3, TaskState::Cancelled);
    assert!(c.is_cancelled());
}

#[test]
fn preferred_thread_is_set_and_removed() {
    let mut t = task(1, TaskState::Ready);
    assert!(t.get_preferred_thread().is_none());
    t.set_preferred_thread("io".to_string());
    assert_eq!(t.get_preferred_thread().map(|s| s.as_str()), Some("io"));
    t.remove_preferred_thread();
    assert!(t.get_preferred_thread().is_none());
}

#[test]
fn execute_hands_out_job_semaphores_and_fences() {
    let mut t = task(42, TaskState::Ready);
    let s = Arc::new(Semaphore::new());
    t.bind_semaphore(s.clone(), SemaphoreUsage::Signal);
    let f = Arc::new(Fence::new());
    assert!(!f.is_bound());
    t.bind_fence(f.clone());
    assert!(f.is_bound());
    let (job, sems, _signals, fences) = t.execute();
    assert_eq!(job, 42);
    assert_eq!(sems.len(), 1);
    assert!(*sems[0] == *s);
    assert_eq!(fences.len(), 1);
    assert_eq!(f.ready(), Ok(false));
    fences[0].wake();
    assert_eq!(f.ready(), Ok(true));
    assert_eq!(f.wait(), Ok(()));
    assert_eq!(f.ready(), Ok(false));
}

#[test]
fn a_handle_collects_a_published_value() {
    let buffer = Arc::new(RwLock::new(None));
    let state = cell(TaskState::Pending);
    let signal = Arc::new(Signal::new());
    let handle = TaskHandle::new(buffer.clone(), state.clone(), signal.clone());
    assert!(!handle.is_done());
    publish_result(&buffer, &state, 99u64);
    assert!(handle.is_done());
    signal.wake();
    assert!(matches!(handle.wait(), TaskResult::Returned(99)));
}

#[test]
fn cancelling_through_a_controller_is_seen_by_the_handle() {
    let buffer: Arc<RwLock<Option<u8>>> = Arc::new(RwLock::new(None));
    let state = cell(TaskState::Pending);
    let signal = Arc::new(Signal::new());
    let handle = TaskHandle::new(buffer, state, signal.clone());
    let controller = handle.make_controller();
    let copy = controller.clone();
    assert!(controller != copy);
    assert!(!controller.is_done());
    copy.cancel();
    assert!(handle.is_done());
    signal.wake();
    assert!(controller.is_done());
    controller.wait();
    signal.wake();
    assert!(matches!(handle.wait(), TaskResult::Cancelled));
}

#[test]
fn handle_cancel_marks_the_state() {
    let buffer: Arc<RwLock<Option<u8>>> = Arc::new(RwLock::new(None));
    let state = cell(TaskState::Pending);
    let handle = TaskHandle::new(buffer, state.clone(), Arc::new(Signal::new()));
    handle.cancel();
    assert_eq!(*state.read().unwrap(), TaskState::Cancelled);
    assert!(Arc::ptr_eq(&handle.state(), &state));
}

#[test]
fn default_specs_use_one_thread_and_one_worker() {
    let s = MVSyncSpecs::default();
    assert_eq!(s.thread_count, 1);
    assert_eq!(s.workers_per_thread, 1);
}

#[test]
fn new_task_cells_are_read_by_their_handle() {
    let (buffer, state, signal, handle) = mvsync::task::new_task_cells::<u32>();
    assert_eq!(*state.read().unwrap(), TaskState::Pending);
    assert!(buffer.read().unwrap().is_none());
    assert!(!handle.is_done());
    publish_result(&buffer, &state, 11);
    assert!(handle.is_done());
    signal.wake();
    assert!(matches!(handle.wait(), TaskResult::Returned(11)));
}

#[test]
fn a_panic_is_seen_only_in_a_panicked_dependency() {
    assert!(panic_seen(TaskState::Panicked));
    assert!(!panic_seen(TaskState::Cancelled));
    assert!(!panic_seen(TaskState::Ready));
    assert!(!panic_seen(TaskState::Pending));
}

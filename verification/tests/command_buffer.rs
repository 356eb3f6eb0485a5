use std::sync::{Arc, RwLock};

use mvsync::block::Signal;
use mvsync::command_buffers::buffer::{BufferedCommand, CommandBuffer, CommandBufferAllocationError};
use mvsync::command_buffers::types::EndCommand;
use mvsync::task::{Task, TaskController, TaskHandle, TaskResult, TaskState};

fn cell(s: TaskState) -> Arc<RwLock<TaskState>> {
    Arc::new(RwLock::new(s))
}

fn recorded(job: u32) -> (Task<u32>, TaskController) {
    let state = cell(TaskState::Pending);
    let signal = Arc::new(Signal::new());
    let controller = TaskController::new(state.clone(), signal.clone());
    let t = Task::new(state, job, cell(TaskState::Ready), [signal, Arc::new(Signal::new())]);
    (t, controller)
}

fn buffer() -> CommandBuffer<u32> {
    match CommandBuffer::new() {
        Ok(b) => b,
        Err(_) => panic!("allocation"),
    }
}

#[test]
fn new_commands_start_chains_and_chained_ones_extend_them() {
    let mut b = buffer();
    assert_eq!(b.chain_count(), 1);
    let (t, c) = recorded(1);
    b.add_task(t, c);
    assert_eq!(b.chain_count(), 1);
    let (t, c) = recorded(2);
    b.chain_task(t, c);
    assert_eq!(b.chain_count(), 1);
    let (t, c) = recorded(3);
    b.add_task(t, c);
    assert_eq!(b.chain_count(), 2);
    assert_eq!(b.get_controllers().len(), 1);
    assert_eq!(b.get_controllers().len(), 0);
}

#[test]
fn baking_keeps_the_order_and_links_consecutive_tasks() {
    let mut b = buffer();
    let (t, c) = recorded(1);
    b.add_task(t, c);
    let (t, c) = recorded(2);
    b.chain_task(t, c);
    let (t, c) = recorded(3);
    b.chain_task(t, c);
    let (t, c) = recorded(4);
    b.add_task(t, c);
    assert!(b.can_finish());
    b.finish();
    assert!(b.is_baked());
    assert!(!b.can_finish());
    let tasks = b.tasks();
    let jobs: Vec<u32> = tasks.into_iter().map(|t| t.execute().0).collect();
    assert_eq!(jobs, vec![1, 2, 3, 4]);
}

#[test]
fn chained_tasks_run_one_after_the_other() {
    let mut b = buffer();
    let (t, c) = recorded(1);
    b.add_task(t, c);
    let (t, c) = recorded(2);
    b.chain_task(t, c);
    b.finish();
    let mut tasks = b.tasks();
    let second = tasks.pop().unwrap();
    let first = tasks.pop().unwrap();
    assert!(!second.can_execute());
    let (_, sems, _, _) = first.execute();
    assert_eq!(sems.len(), 1);
    sems[0].signal();
    assert!(second.can_execute());
}

#[test]
fn a_link_makes_a_chain_wait_for_another() {
    let mut b = buffer();
    let (t, c) = recorded(1);
    b.add_task(t, c);
    let (t, c) = recorded(2);
    b.add_task(t, c);
    b.link_chains(0, 1);
    let fence = b.create_fence(1);
    b.finish();
    let mut tasks = b.tasks();
    let second = tasks.pop().unwrap();
    let first = tasks.pop().unwrap();
    assert!(first.can_execute());
    assert!(!second.can_execute());
    let (_, sems, _, _) = first.execute();
    sems[0].signal();
    assert!(second.can_execute());
    let (_, _, _, fences) = second.execute();
    assert_eq!(fences.len(), 1);
    assert_eq!(fence.ready(), Ok(false));
    fences[0].wake();
    assert_eq!(fence.ready(), Ok(true));
}

#[test]
fn a_fence_of_an_empty_chain_stays_unbound() {
    let mut b = buffer();
    let fence = b.create_fence(0);
    b.finish();
    assert_eq!(fence.ready(), Err(mvsync::sync::FenceError::Unbound));
}

#[test]
fn baking_adds_distinct_fresh_semaphores() {
    let mut b = buffer();
    let outside = Arc::new(mvsync::sync::Semaphore::new());
    let (mut t, c) = recorded(1);
    t.bind_semaphore(outside.clone(), mvsync::sync::SemaphoreUsage::Signal);
    b.add_task(t, c);
    for j in 2..5 {
        let (t, c) = recorded(j);
        b.chain_task(t, c);
    }
    let (t, c) = recorded(5);
    b.add_task(t, c);
    let (t, c) = recorded(6);
    b.chain_task(t, c);
    b.link_chains(0, 1);
    b.finish();
    let mut keys = Vec::new();
    for t in b.tasks() {
        let (_, sems, _, _) = t.execute();
        for s in sems {
            keys.push(s.key());
        }
    }
    // One outside semaphore (key 0), one link, and one per pair of consecutive tasks: 3 + 1.
    let mut fresh: Vec<u64> = keys.iter().copied().filter(|k| *k != 0).collect();
    assert_eq!(fresh.len(), 5);
    fresh.sort();
    fresh.dedup();
    assert_eq!(fresh.len(), 5);
    assert!(fresh.iter().all(|k| *k > outside.key()));
}

#[test]
fn out_of_bounds_links_and_fences_cannot_be_baked() {
    let mut b = buffer();
    b.link_chains(0, 3);
    assert!(!b.can_finish());
    let mut b = buffer();
    let _ = b.create_fence(1);
    assert!(!b.can_finish());
}

#[test]
fn allocation_error_has_its_message() {
    assert_eq!(CommandBufferAllocationError.message(), "Failed to allocate command buffer!");
}

#[test]
fn a_buffered_command_hands_back_its_parts() {
    let handle: TaskHandle<u8> = TaskHandle::new(Arc::new(RwLock::new(None)), cell(TaskState::Pending), Arc::new(Signal::new()));
    let cmd = BufferedCommand::new(7u32, handle);
    assert_eq!(*cmd.parent(), 7);
    let (p, h) = cmd.into_parts();
    assert_eq!(p, 7);
    assert!(!h.is_done());
}

#[test]
fn an_end_command_keeps_its_buffer_and_result() {
    let end = EndCommand::new(17u32, TaskResult::Returned(()));
    assert_eq!(*end.parent(), 17);
    assert!(matches!(end.response(), TaskResult::Returned(())));
    let end = EndCommand::new("buffer", TaskResult::<()>::Cancelled);
    assert_eq!(*end.parent(), "buffer");
    assert!(matches!(end.response(), TaskResult::Cancelled));
}

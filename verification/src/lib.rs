//! Simple asynchronous task manager.
//!
//! Tasks are spread over a fixed set of worker threads by a queue that only hands out tasks
//! that are ready to run, so that waiting tasks do not clog the workers. This crate holds the
//! verified core of the manager: tasks and their handles, the synchronisation objects, the
//! decisions of the queue and of the workers, command buffers, the timer and the clock.
use vstd::prelude::*;

pub mod shared;
pub mod block;
pub mod sync;
pub mod task;
pub mod queue;
pub mod command_buffers;
pub mod clock;
pub mod timer;
pub mod run;
pub mod utils;

verus! {

/// A marker trait for types that can be used with the task manager.
pub trait MVSynced: Send + Sync + 'static {}

impl<T> MVSynced for T where T: Send + Sync + 'static {}

/// Configuration of the task manager.
#[derive(Clone, Copy, PartialEq, Eq, Structural, Debug)]
pub struct MVSyncSpecs {
    /// How many threads run tasks. One more thread distributes the tasks between them and
    /// holds those that are not ready to run yet.
    pub thread_count: u32,
    /// How many asynchronous workers each thread runs. This does not make tasks faster; it
    /// only helps tasks that wait for events, such as network requests.
    pub workers_per_thread: u32,
}

impl Default for MVSyncSpecs {
    /// One thread with one worker.
    fn default() -> (s: MVSyncSpecs)
        ensures
            s.thread_count == 1,
            s.workers_per_thread == 1,
    {
        MVSyncSpecs { thread_count: 1, workers_per_thread: 1 }
    }
}

} // verus!

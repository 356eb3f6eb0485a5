//! Synchronisation objects that add control flow between tasks.
use vstd::prelude::*;
use std::sync::atomic::{AtomicBool, Ordering};
use std::sync::Arc;
use crate::block::Signal;
use crate::shared::next_id;

verus! {

/// A sync object used to add control flow to tasks. It is read from within the runtime: a
/// task that waits on a semaphore is not started before the semaphore is signaled.
///
/// If a semaphore is bound to several tasks, it is signaled as soon as the first of them
/// finishes.
pub struct Semaphore {
    id: u64,
    key: u64,
    signaled: AtomicBool,
}

impl Semaphore {
    pub closed spec fn spec_id(&self) -> u64 {
        self.id
    }

    /// The key that command buffers give the semaphores they create to order their tasks, so
    /// that each is told apart from every other; other semaphores have key 0.
    pub closed spec fn spec_key(&self) -> u64 {
        self.key
    }

    /// A semaphore that is not signaled yet, with a fresh id and key 0.
    pub fn new() -> (s: Semaphore)
        ensures
            s.spec_key() == 0,
    {
        Semaphore { id: next_id(), key: 0, signaled: AtomicBool::new(false) }
    }

    /// A semaphore that is not signaled yet, with a fresh id and the given key.
    pub(crate) fn keyed(key: u64) -> (s: Semaphore)
        ensures
            s.spec_key() == key,
    {
        Semaphore { id: next_id(), key, signaled: AtomicBool::new(false) }
    }

    /// The semaphore's key (see [`Semaphore::spec_key`]).
    pub fn key(&self) -> (r: u64)
        ensures
            r == self.spec_key(),
    {
        self.key
    }

    /// The id that tells this semaphore apart from the others.
    pub fn id(&self) -> (r: u64)
        ensures
            r == self.spec_id(),
    {
        self.id
    }

    /// Signals the semaphore; it stays signaled.
    pub fn signal(&self) {
        self.signaled.store(true, Ordering::SeqCst)
    }

    /// Whether the semaphore was signaled. Another thread may signal it at any time, so the
    /// answer is a snapshot.
    pub fn ready(&self) -> (r: bool) {
        self.signaled.load(Ordering::SeqCst)
    }
}

impl PartialEq for Semaphore {
    fn eq(&self, other: &Self) -> (r: bool) {
        self.id == other.id
    }
}

impl vstd::std_specs::cmp::PartialEqSpecImpl for Semaphore {
    open spec fn obeys_eq_spec() -> bool {
        true
    }

    open spec fn eq_spec(&self, other: &Self) -> bool {
        self.spec_id() == other.spec_id()
    }
}

impl Eq for Semaphore {}

/// A sync object used to wait for tasks from outside the runtime. It opens as soon as a task
/// it is bound to finishes; if it is bound to several tasks, the first of them to finish
/// opens it. A fence that is bound to no task cannot be checked or waited on (see
/// [`FenceError`]).
pub struct Fence {
    id: u64,
    signal: Arc<Signal>,
    bound: AtomicBool,
}

impl Fence {
    pub closed spec fn spec_id(&self) -> u64 {
        self.id
    }

    /// The signal that the tasks bound to the fence raise when they finish.
    pub closed spec fn spec_signal(&self) -> Arc<Signal> {
        self.signal
    }

    /// A closed fence, bound to no task, with a fresh id.
    pub fn new() -> (f: Fence) {
        Fence { id: next_id(), signal: Arc::new(Signal::new()), bound: AtomicBool::new(false) }
    }

    /// The id that tells this fence apart from the others.
    pub fn id(&self) -> (r: u64)
        ensures
            r == self.spec_id(),
    {
        self.id
    }

    /// The signal that the tasks bound to the fence raise when they finish.
    pub fn signal(&self) -> (r: Arc<Signal>)
        ensures
            r == self.spec_signal(),
    {
        self.signal.clone()
    }

    /// Records that the fence was bound to a task.
    pub fn mark_bound(&self) {
        self.bound.store(true, Ordering::SeqCst)
    }

    /// Whether the fence was bound to a task. Binding happens through the shared fence, so
    /// the answer is a snapshot.
    pub fn is_bound(&self) -> (r: bool) {
        self.bound.load(Ordering::SeqCst)
    }

    /// Whether the fence is open, i.e. a task it is bound to has finished. A fence bound to
    /// no task cannot be checked: that is reported as [`FenceError::Unbound`].
    pub fn ready(&self) -> (r: Result<bool, FenceError>) {
        fence_answer(self.is_bound(), self.signal.ready())
    }

    /// Blocks the current thread until a task the fence is bound to has finished. A fence
    /// bound to no task cannot be waited on: that is reported as [`FenceError::Unbound`], at
    /// once.
    pub fn wait(&self) -> (r: Result<(), FenceError>) {
        if !self.is_bound() {
            return Err(FenceError::Unbound);
        }
        self.signal.wait();
        Ok(())
    }
}

impl PartialEq for Fence {
    fn eq(&self, other: &Self) -> (r: bool) {
        self.id == other.id
    }
}

impl vstd::std_specs::cmp::PartialEqSpecImpl for Fence {
    open spec fn obeys_eq_spec() -> bool {
        true
    }

    open spec fn eq_spec(&self, other: &Self) -> bool {
        self.spec_id() == other.spec_id()
    }
}

impl Eq for Fence {}

/// Why a fence could not be checked or waited on.
#[derive(PartialEq, Eq, Structural, Clone, Copy, Debug)]
pub enum FenceError {
    /// The fence is bound to no task.
    Unbound,
}

impl FenceError {
    /// The message that describes the error.
    pub fn message(&self) -> (r: String)
        ensures
            r@ == "Checking unbound fence!"@,
    {
        "Checking unbound fence!".to_owned()
    }
}

/// What checking a fence answers, given whether it was seen bound and whether its signal was
/// seen raised: an unbound fence cannot be checked; a bound one is open when its signal is.
pub fn fence_answer(bound: bool, raised: bool) -> (r: Result<bool, FenceError>)
    ensures
        r == (if bound {
            Ok::<bool, FenceError>(raised)
        } else {
            Err::<bool, FenceError>(FenceError::Unbound)
        }),
{
    if bound {
        Ok(raised)
    } else {
        Err(FenceError::Unbound)
    }
}

/// How a task uses a semaphore that is bound to it.
#[derive(PartialEq, Eq, Structural, Clone, Copy, Debug)]
pub enum SemaphoreUsage {
    /// Wait for the semaphore to be signaled.
    Wait,
    /// Signal the semaphore upon completion.
    Signal,
}

} // verus!

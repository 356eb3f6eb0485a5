//! Tasks, their life-cycle states, and the handles through which their results are collected.
use vstd::prelude::*;
use std::sync::{Arc, RwLock};
use crate::MVSynced;
use crate::block::Signal;
use crate::sync::{Fence, Semaphore, SemaphoreUsage};
use crate::command_buffers::buffer::carries_key;
use crate::shared::{cell_new, cell_read, cell_take, cell_write, next_id};

verus! {

/// The life-cycle state of a task.
#[derive(PartialEq, Eq, Structural, Clone, Copy, Debug)]
pub enum TaskState {
    /// Not finished yet.
    Pending,
    /// Finished and its result was stored.
    Ready,
    /// The task, or one of its predecessors, panicked.
    Panicked,
    /// The task, or one of its predecessors, was cancelled.
    Cancelled,
}

impl TaskState {
    /// Overwrites the state.
    pub fn replace(&mut self, state: TaskState)
        ensures
            *final(self) == state,
    {
        *self = state;
    }

    /// Reads the state out; the state itself is left as it was.
    pub fn take(&mut self) -> (r: TaskState)
        ensures
            r == *old(self),
            *final(self) == *old(self),
    {
        *self
    }

    /// Whether a task in this state has finished (in any way).
    pub fn is_finished(&self) -> (r: bool)
        ensures
            r == (*self != TaskState::Pending),
    {
        !matches!(self, TaskState::Pending)
    }
}

/// The outcome of a finished task.
#[derive(Debug)]
pub enum TaskResult<T> {
    /// The task returned this value.
    Returned(T),
    /// The task or one of its predecessors panicked.
    Panicked,
    /// The task or one of its predecessors was cancelled.
    Cancelled,
}

/// The result that a handle hands out, given the state its task finished in and the value
/// it stored. There is none while the task is pending, nor for a `Ready` task that stored no
/// value.
pub open spec fn settled<T>(state: TaskState, value: Option<T>) -> Option<TaskResult<T>> {
    match state {
        TaskState::Pending => None,
        TaskState::Ready => match value {
            Some(v) => Some(TaskResult::Returned(v)),
            None => None,
        },
        TaskState::Panicked => Some(TaskResult::Panicked),
        TaskState::Cancelled => Some(TaskResult::Cancelled),
    }
}

/// The result that a handle hands out (see [`settled`]), given the state its task finished
/// in and the value it stored (taken only when the state is `Ready`).
pub fn settle<T>(state: TaskState, value: Option<T>) -> (r: Option<TaskResult<T>>)
    ensures
        r == settled(state, value),
{
    match state {
        TaskState::Pending => None,
        TaskState::Ready => match value {
            Some(v) => Some(TaskResult::Returned(v)),
            None => None,
        },
        TaskState::Panicked => Some(TaskResult::Panicked),
        TaskState::Cancelled => Some(TaskResult::Cancelled),
    }
}

/// The shared cells of a new task, and the handle that reads them: an empty buffer for the
/// value the task will return, its state (`Pending`), and the signal it raises when it
/// finishes.
pub fn new_task_cells<T: MVSynced>() -> (r: (Arc<RwLock<Option<T>>>, Arc<RwLock<TaskState>>, Arc<Signal>, TaskHandle<T>))
    ensures
        r.3.spec_buffer() == r.0,
        r.3.spec_state() == r.1,
        r.3.spec_signal() == r.2,
{
    let buffer: Arc<RwLock<Option<T>>> = Arc::new(cell_new(None));
    let state = Arc::new(cell_new(TaskState::Pending));
    let signal = Arc::new(Signal::new());
    let handle = TaskHandle::new(buffer.clone(), state.clone(), signal.clone());
    (buffer, state, signal, handle)
}

/// Publishes the value a finished task returned: stores it in the task's buffer, then marks
/// the task `Ready`, in this order, so that a handle that sees the task ready finds its value.
pub fn publish_result<T>(buffer: &RwLock<Option<T>>, state: &RwLock<TaskState>, value: T) {
    cell_write(buffer, Some(value));
    cell_write(state, TaskState::Ready);
}

/// A panic, and a cancellation, propagate along a chain of continuations: a continuation
/// whose predecessor panicked (was cancelled) does not run and ends panicked (cancelled), and
/// the handle of a task that ended so hands out exactly that.
pub proof fn law_failure_propagates<T>(predecessor: TaskResult<T>, value: Option<T>)
    ensures
        continuation_of(TaskState::Panicked, predecessor) is Panicked,
        continuation_of(TaskState::Cancelled, predecessor) is Cancelled,
        settled(TaskState::Panicked, value) == Some(TaskResult::<T>::Panicked),
        settled(TaskState::Cancelled, value) == Some(TaskResult::<T>::Cancelled),
{
}

/// A task that finished by publishing a value (see [`publish_result`]) is `Ready` with that
/// value stored, and its handle hands out exactly that value.
pub proof fn law_published_value_is_returned<T>(value: T)
    ensures
        settled(TaskState::Ready, Some(value)) == Some(TaskResult::Returned(value)),
        continuation_of(TaskState::Ready, TaskResult::Returned(value)) == ContinuationStep::Run(value),
{
}

/// What a continuation does once its predecessor has finished.
pub enum ContinuationStep<T> {
    /// Run the continuation on the predecessor's value, then store the result as `Ready`.
    Run(T),
    /// Become `Panicked` without running.
    Panicked,
    /// Become `Cancelled` without running.
    Cancelled,
    /// Do nothing: the predecessor was `Ready` but handed out no value.
    Idle,
}

/// The decision of a continuation, from the state its predecessor finished in and the result
/// the predecessor's handle handed out. A panic or a cancellation propagates; a predecessor
/// still pending counts as cancelled.
pub open spec fn continuation_of<T>(predecessor_state: TaskState, predecessor: TaskResult<T>) -> ContinuationStep<T> {
    match predecessor_state {
        TaskState::Ready => match predecessor {
            TaskResult::Returned(t) => ContinuationStep::Run(t),
            _ => ContinuationStep::Idle,
        },
        TaskState::Panicked => ContinuationStep::Panicked,
        TaskState::Cancelled => ContinuationStep::Cancelled,
        TaskState::Pending => ContinuationStep::Cancelled,
    }
}

/// The decision of a continuation (see [`continuation_of`]).
pub fn continuation_step<T>(predecessor_state: TaskState, predecessor: TaskResult<T>) -> (r:
    ContinuationStep<T>)
    ensures
        r == continuation_of(predecessor_state, predecessor),
{
    match predecessor_state {
        TaskState::Ready => match predecessor {
            TaskResult::Returned(t) => ContinuationStep::Run(t),
            _ => ContinuationStep::Idle,
        },
        TaskState::Panicked => ContinuationStep::Panicked,
        TaskState::Cancelled => ContinuationStep::Cancelled,
        TaskState::Pending => ContinuationStep::Cancelled,
    }
}

/// Whether a task may start: every semaphore it waits on is signaled (`wait_flags` holds
/// what each of them was seen to be) and the state it depends on is no longer pending.
pub fn execution_allowed(wait_flags: &Vec<bool>, dependency: TaskState) -> (r: bool)
    ensures
        r == ((forall|i: int| 0 <= i < wait_flags@.len() ==> #[trigger] wait_flags@[i])
            && dependency != TaskState::Pending),
{
    let mut i: usize = 0;
    while i < wait_flags.len()
        invariant
            i <= wait_flags@.len(),
            forall|j: int| 0 <= j < i ==> #[trigger] wait_flags@[j],
        decreases wait_flags@.len() - i,
    {
        if !wait_flags[i] {
            return false;
        }
        i = i + 1;
    }
    dependency.is_finished()
}

/// Whether a task counts as panicked, from the state it depends on.
pub fn panic_seen(dependency: TaskState) -> (r: bool)
    ensures
        r == (dependency == TaskState::Panicked),
{
    dependency == TaskState::Panicked
}

/// Whether a task counts as cancelled, from the state it depends on and its own state.
pub fn cancellation_seen(dependency: TaskState, own: TaskState) -> (r: bool)
    ensures
        r == (dependency == TaskState::Cancelled || own == TaskState::Cancelled),
{
    dependency == TaskState::Cancelled || own == TaskState::Cancelled
}

/// A task as the proofs see it.
pub struct TaskView<J> {
    pub id: u64,
    pub job: J,
    pub wait: Seq<Arc<Semaphore>>,
    pub signal: [Arc<Signal>; 2],
    pub semaphores: Seq<Arc<Semaphore>>,
    pub fences: Seq<Arc<Signal>>,
    pub preferred_thread: Option<Seq<char>>,
    pub own_state: Arc<RwLock<TaskState>>,
    pub dependency: Arc<RwLock<TaskState>>,
}

/// The tasks as the proofs see them.
pub open spec fn task_views<J>(ts: Seq<Task<J>>) -> Seq<TaskView<J>> {
    ts.map_values(|t: Task<J>| t@)
}

/// Signals everything a finished task signals: each of its semaphores, then its two signals
/// (its handle's and the runtime's), then the signals of the fences bound to it.
pub fn signal_finished(semaphores: &Vec<Arc<Semaphore>>, signals: &[Arc<Signal>; 2], fences: &Vec<Arc<Signal>>) {
    let mut i: usize = 0;
    while i < semaphores.len()
        invariant
            i <= semaphores@.len(),
        decreases semaphores@.len() - i,
    {
        semaphores[i].signal();
        i = i + 1;
    }
    signals[0].wake();
    signals[1].wake();
    let mut i: usize = 0;
    while i < fences.len()
        invariant
            i <= fences@.len(),
        decreases fences@.len() - i,
    {
        fences[i].wake();
        i = i + 1;
    }
}

/// A task that a worker thread runs: the state it writes, its work, and what it signals when
/// it finishes.
pub struct Running<J> {
    pub state: Arc<RwLock<TaskState>>,
    pub job: J,
    pub semaphores: Vec<Arc<Semaphore>>,
    pub signals: [Arc<Signal>; 2],
    pub fences: Vec<Arc<Signal>>,
}

/// A unit of work, `J`, with everything the runtime needs to schedule it: the semaphores it
/// waits on before it starts, the semaphores it signals when it finishes, the signals it
/// raises when it finishes (its handle's, the runtime's and those of the fences bound to it),
/// the thread it prefers, and the states it reads and writes.
///
/// Tasks are submitted to a queue, which runs them once they are ready.
#[verifier::reject_recursive_types(J)]
pub struct Task<J> {
    id: u64,
    inner: J,
    wait: Vec<Arc<Semaphore>>,
    signal: [Arc<Signal>; 2],
    semaphores: Vec<Arc<Semaphore>>,
    fences: Vec<Arc<Signal>>,
    preferred_thread: Option<String>,
    self_state: Arc<RwLock<TaskState>>,
    state: Arc<RwLock<TaskState>>,
}

impl<J> View for Task<J> {
    type V = TaskView<J>;

    closed spec fn view(&self) -> TaskView<J> {
        TaskView {
            id: self.id,
            job: self.inner,
            wait: self.wait@,
            signal: self.signal,
            semaphores: self.semaphores@,
            fences: self.fences@,
            preferred_thread: match self.preferred_thread {
                Some(s) => Some(s@),
                None => None,
            },
            own_state: self.self_state,
            dependency: self.state,
        }
    }
}

impl<J> Task<J> {
    /// A new task running `inner`, writing `self_state`, depending on `state` and raising
    /// `signal` when done. It waits on no semaphore, signals none, and prefers no thread.
    pub fn new(
        self_state: Arc<RwLock<TaskState>>,
        inner: J,
        state: Arc<RwLock<TaskState>>,
        signal: [Arc<Signal>; 2],
    ) -> (t: Task<J>)
        ensures
            t@.wait.len() == 0,
            t@.semaphores.len() == 0,
            t@.fences.len() == 0,
            t@.preferred_thread is None,
            t@.job == inner,
            t@.signal == signal,
            t@.own_state == self_state,
            t@.dependency == state,
    {
        Task {
            id: next_id(),
            inner,
            wait: Vec::new(),
            signal,
            semaphores: Vec::new(),
            fences: Vec::new(),
            preferred_thread: None,
            self_state,
            state,
        }
    }

    /// With `Wait`, the task will not start before `semaphore` is signaled; with `Signal`,
    /// the task signals `semaphore` when it finishes.
    pub fn bind_semaphore(&mut self, semaphore: Arc<Semaphore>, usage: SemaphoreUsage)
        ensures
            final(self)@ == (match usage {
                SemaphoreUsage::Wait => TaskView { wait: old(self)@.wait.push(semaphore), ..old(self)@ },
                SemaphoreUsage::Signal => TaskView {
                    semaphores: old(self)@.semaphores.push(semaphore),
                    ..old(self)@
                },
            }),
    {
        match usage {
            SemaphoreUsage::Wait => self.wait.push(semaphore),
            SemaphoreUsage::Signal => self.semaphores.push(semaphore),
        }
    }

    /// Makes `fence` open when the task finishes.
    pub fn bind_fence(&mut self, fence: Arc<Fence>)
        ensures
            final(self)@ == (TaskView { fences: old(self)@.fences.push(fence.spec_signal()), ..old(self)@ }),
    {
        fence.mark_bound();
        self.fences.push(fence.signal())
    }

    /// Makes the task prefer the worker thread labelled `thread`.
    pub fn set_preferred_thread(&mut self, thread: String)
        ensures
            final(self)@ == (TaskView { preferred_thread: Some(thread@), ..old(self)@ }),
    {
        self.preferred_thread = Some(thread);
    }

    /// Lets the task run on any worker thread.
    pub fn remove_preferred_thread(&mut self)
        ensures
            final(self)@ == (TaskView { preferred_thread: None, ..old(self)@ }),
    {
        self.preferred_thread = None;
    }

    /// The label of the thread the task prefers, if any.
    pub fn get_preferred_thread(&self) -> (r: Option<&String>)
        ensures
            match r {
                Some(s) => self@.preferred_thread == Some(s@),
                None => self@.preferred_thread is None,
            },
    {
        self.preferred_thread.as_ref()
    }

    /// The state the task writes when it finishes.
    pub fn state(&self) -> (r: Arc<RwLock<TaskState>>)
        ensures
            r == self@.own_state,
    {
        self.self_state.clone()
    }

    /// Whether the task may start now: every semaphore it waits on is signaled and the state
    /// it depends on is no longer pending. Other threads change both, so the answer is a
    /// snapshot, computed by [`execution_allowed`] from what was read.
    pub fn can_execute(&self) -> (r: bool) {
        let mut flags: Vec<bool> = Vec::new();
        let mut i: usize = 0;
        while i < self.wait.len()
            invariant
                i <= self.wait@.len(),
            decreases self.wait@.len() - i,
        {
            flags.push(self.wait[i].ready());
            i = i + 1;
        }
        execution_allowed(&flags, cell_read(&*self.state))
    }

    /// Whether the state the task depends on says that a predecessor panicked.
    pub fn is_panicked(&self) -> (r: bool) {
        panic_seen(cell_read(&*self.state))
    }

    /// Whether the task, or the task it depends on, was cancelled.
    pub fn is_cancelled(&self) -> (r: bool) {
        cancellation_seen(cell_read(&*self.state), cell_read(&*self.self_state))
    }

    /// The largest key among the semaphores the task waits on or signals (0 when there is
    /// none).
    pub fn max_key(&self) -> (r: u64)
        ensures
            forall|i: int| 0 <= i < self@.wait.len() ==> (#[trigger] self@.wait[i]).spec_key() <= r,
            forall|i: int| 0 <= i < self@.semaphores.len() ==> (#[trigger] self@.semaphores[i]).spec_key() <= r,
            r == 0 || carries_key(self@, r),
    {
        let mut best: u64 = 0;
        let mut i: usize = 0;
        while i < self.wait.len()
            invariant
                i <= self@.wait.len(),
                forall|j: int| 0 <= j < i ==> (#[trigger] self@.wait[j]).spec_key() <= best,
                best == 0 || carries_key(self@, best),
            decreases self@.wait.len() - i,
        {
            let k = self.wait[i].key();
            if k > best {
                best = k;
                assert(self@.wait[i as int].spec_key() == best);
            }
            i = i + 1;
        }
        let mut i: usize = 0;
        while i < self.semaphores.len()
            invariant
                i <= self@.semaphores.len(),
                forall|j: int| 0 <= j < self@.wait.len() ==> (#[trigger] self@.wait[j]).spec_key() <= best,
                forall|j: int| 0 <= j < i ==> (#[trigger] self@.semaphores[j]).spec_key() <= best,
                best == 0 || carries_key(self@, best),
            decreases self@.semaphores.len() - i,
        {
            let k = self.semaphores[i].key();
            if k > best {
                best = k;
                assert(self@.semaphores[i as int].spec_key() == best);
            }
            i = i + 1;
        }
        best
    }

    /// Settles the task without running it: its own state becomes `state`, and everything
    /// it signals on completion is signaled.
    pub fn finish_as(self, state: TaskState) {
        cell_write(&*self.self_state, state);
        signal_finished(&self.semaphores, &self.signal, &self.fences);
    }

    /// Takes the task apart for a worker thread: the state it writes, its work, and what it
    /// signals when it finishes.
    pub fn start(self) -> (r: Running<J>)
        ensures
            r.state == self@.own_state,
            r.job == self@.job,
            r.semaphores@ == self@.semaphores,
            r.signals == self@.signal,
            r.fences@ == self@.fences,
    {
        Running {
            state: self.self_state,
            job: self.inner,
            semaphores: self.semaphores,
            signals: self.signal,
            fences: self.fences,
        }
    }

    /// Takes the task apart for running: its work, the semaphores to signal when it is done,
    /// and the signals to raise when it is done (its handle's and the runtime's, then those of
    /// its fences).
    pub fn execute(self) -> (r: (J, Vec<Arc<Semaphore>>, [Arc<Signal>; 2], Vec<Arc<Signal>>))
        ensures
            r.0 == self@.job,
            r.1@ == self@.semaphores,
            r.2 == self@.signal,
            r.3@ == self@.fences,
    {
        (self.inner, self.semaphores, self.signal, self.fences)
    }
}

impl<J> PartialEq for Task<J> {
    fn eq(&self, other: &Self) -> (r: bool) {
        self.id == other.id
    }
}

impl<J> vstd::std_specs::cmp::PartialEqSpecImpl for Task<J> {
    open spec fn obeys_eq_spec() -> bool {
        true
    }

    open spec fn eq_spec(&self, other: &Self) -> bool {
        self@.id == other@.id
    }
}

impl<J> Eq for Task<J> {}

/// A controller through which a task can be cancelled, and its completion checked or awaited,
/// without access to its result.
pub struct TaskController {
    id: u64,
    state: Arc<RwLock<TaskState>>,
    signal: Arc<Signal>,
}

impl TaskController {
    pub closed spec fn spec_id(&self) -> u64 {
        self.id
    }

    pub closed spec fn spec_state(&self) -> Arc<RwLock<TaskState>> {
        self.state
    }

    pub closed spec fn spec_signal(&self) -> Arc<Signal> {
        self.signal
    }

    /// A controller over the task that writes `state` and raises `signal` when it finishes.
    pub fn new(state: Arc<RwLock<TaskState>>, signal: Arc<Signal>) -> (c: TaskController)
        ensures
            c.spec_state() == state,
            c.spec_signal() == signal,
    {
        TaskController { id: next_id(), state, signal }
    }

    /// Cancels the task.
    pub fn cancel(&self) {
        cell_write(&*self.state, TaskState::Cancelled)
    }

    /// Whether the task has finished executing.
    pub fn is_done(&self) -> (r: bool) {
        self.signal.ready()
    }

    /// Blocks until the task has finished executing.
    pub fn wait(&self) {
        self.signal.wait()
    }
}

impl Clone for TaskController {
    /// Another controller over the same task, with an id of its own.
    fn clone(&self) -> (c: TaskController)
        ensures
            c.spec_state() == self.spec_state(),
            c.spec_signal() == self.spec_signal(),
    {
        TaskController { id: next_id(), state: self.state.clone(), signal: self.signal.clone() }
    }
}

impl PartialEq for TaskController {
    fn eq(&self, other: &Self) -> (r: bool) {
        self.id == other.id
    }
}

impl vstd::std_specs::cmp::PartialEqSpecImpl for TaskController {
    open spec fn obeys_eq_spec() -> bool {
        true
    }

    open spec fn eq_spec(&self, other: &Self) -> bool {
        self.spec_id() == other.spec_id()
    }
}

impl Eq for TaskController {}

/// A handle through which the result of a task that has no successor is collected once the
/// task has finished.
#[verifier::reject_recursive_types(T)]
pub struct TaskHandle<T: MVSynced> {
    id: u64,
    inner: Arc<RwLock<Option<T>>>,
    state: Arc<RwLock<TaskState>>,
    signal: Arc<Signal>,
}

impl<T: MVSynced> TaskHandle<T> {
    pub closed spec fn spec_id(&self) -> u64 {
        self.id
    }

    pub closed spec fn spec_state(&self) -> Arc<RwLock<TaskState>> {
        self.state
    }

    pub closed spec fn spec_signal(&self) -> Arc<Signal> {
        self.signal
    }

    pub closed spec fn spec_buffer(&self) -> Arc<RwLock<Option<T>>> {
        self.inner
    }

    /// A handle on the task that stores its value in `inner`, writes `state` and raises
    /// `signal` when it finishes.
    pub fn new(inner: Arc<RwLock<Option<T>>>, state: Arc<RwLock<TaskState>>, signal: Arc<Signal>) -> (h:
        TaskHandle<T>)
        ensures
            h.spec_buffer() == inner,
            h.spec_state() == state,
            h.spec_signal() == signal,
    {
        TaskHandle { id: next_id(), inner, state, signal }
    }

    /// The state the task writes when it finishes.
    pub fn state(&self) -> (r: Arc<RwLock<TaskState>>)
        ensures
            r == self.spec_state(),
    {
        self.state.clone()
    }

    /// Cancels the task.
    pub fn cancel(&self) {
        cell_write(&*self.state, TaskState::Cancelled)
    }

    /// Whether the task has finished executing, judged by its state.
    pub fn is_done(&self) -> (r: bool) {
        cell_read(&*self.state).is_finished()
    }

    /// Blocks until the task has finished, then hands out its result: the value it returned,
    /// or that it (or a predecessor) panicked or was cancelled. The result is computed by
    /// [`settle`]; a task whose state is still pending, or that is `Ready` without a value,
    /// broke the runtime's protocol and is reported as cancelled.
    pub fn wait(self) -> (r: TaskResult<T>) {
        self.signal.wait();
        let state = cell_read(&*self.state);
        let value = if state == TaskState::Ready {
            cell_take(&*self.inner)
        } else {
            None
        };
        match settle(state, value) {
            Some(result) => result,
            None => TaskResult::Cancelled,
        }
    }

    /// A controller over the same task, which can cancel it or wait for it but not collect
    /// its result.
    pub fn make_controller(&self) -> (c: TaskController)
        ensures
            c.spec_state() == self.spec_state(),
            c.spec_signal() == self.spec_signal(),
    {
        TaskController::new(self.state.clone(), self.signal.clone())
    }
}

impl<T: MVSynced> PartialEq for TaskHandle<T> {
    fn eq(&self, other: &Self) -> (r: bool) {
        self.id == other.id
    }
}

impl<T: MVSynced> vstd::std_specs::cmp::PartialEqSpecImpl for TaskHandle<T> {
    open spec fn obeys_eq_spec() -> bool {
        true
    }

    open spec fn eq_spec(&self, other: &Self) -> bool {
        self.spec_id() == other.spec_id()
    }
}

impl<T: MVSynced> Eq for TaskHandle<T> {}

} // verus!

//! The queue: how tasks are submitted, how the queue thread hands ready tasks to worker
//! threads round after round, and what a worker thread does with a task it polled.
//!
//! Starting the threads, their endless loops, receiving from the channels and polling the
//! futures are left to the runtime that drives these functions.
use vstd::prelude::*;
use std::sync::atomic::{AtomicU32, Ordering};
use std::sync::Arc;
use crossbeam_channel::Sender;
use crate::block::Signal;
use crate::command_buffers::buffer::CommandBuffer;
use crate::shared::{channel_send, next_id};
use crate::task::{task_views, Running, Task, TaskState, TaskView};

verus! {

/// What the queue knows of a worker thread when it dispatches: its label, if it has one,
/// and how many of its workers are free.
pub struct ThreadInfo {
    pub label: Option<String>,
    pub free_workers: u32,
}

/// What the queue has seen of a task when it dispatches it.
pub struct TaskObservation {
    /// Every semaphore it waits on was signaled and its dependency is not pending.
    pub can_execute: bool,
    /// Its dependency panicked.
    pub panicked: bool,
    /// It, or its dependency, was cancelled.
    pub cancelled: bool,
    /// The label of the thread it prefers, if any.
    pub preferred_thread: Option<String>,
}

/// What the queue does with a task.
#[derive(PartialEq, Eq, Structural, Clone, Copy, Debug)]
pub enum Dispatch {
    /// Keep the task for a later round.
    Keep,
    /// Forget the task's preferred thread, which names no thread, and keep the task.
    Unpin,
    /// Mark the task panicked, signal what it signals on completion, and drop it.
    FinishPanicked,
    /// Mark the task cancelled, signal what it signals on completion, and drop it.
    FinishCancelled,
    /// Hand the task to the worker thread with this index.
    Send(usize),
}

/// A worker thread as the proofs see it.
pub struct ThreadView {
    pub label: Option<Seq<char>>,
    pub free_workers: u32,
}

/// A task as the proofs see it.
pub struct ObservationView {
    pub can_execute: bool,
    pub panicked: bool,
    pub cancelled: bool,
    pub preferred_thread: Option<Seq<char>>,
}

pub open spec fn label_view(label: Option<String>) -> Option<Seq<char>> {
    match label {
        Some(s) => Some(s@),
        None => None,
    }
}

impl View for ThreadInfo {
    type V = ThreadView;

    open spec fn view(&self) -> ThreadView {
        ThreadView { label: label_view(self.label), free_workers: self.free_workers }
    }
}

impl View for TaskObservation {
    type V = ObservationView;

    open spec fn view(&self) -> ObservationView {
        ObservationView {
            can_execute: self.can_execute,
            panicked: self.panicked,
            cancelled: self.cancelled,
            preferred_thread: label_view(self.preferred_thread),
        }
    }
}

pub open spec fn threads_view(threads: Seq<ThreadInfo>) -> Seq<ThreadView> {
    threads.map_values(|t: ThreadInfo| t@)
}

pub open spec fn observations_view(tasks: Seq<TaskObservation>) -> Seq<ObservationView> {
    tasks.map_values(|t: TaskObservation| t@)
}

/// `i` is the first thread labelled `label`.
pub open spec fn is_first_labelled(threads: Seq<ThreadView>, label: Seq<char>, i: int) -> bool {
    &&& 0 <= i < threads.len()
    &&& threads[i].label == Some(label)
    &&& forall|j: int| 0 <= j < i ==> threads[j].label != Some(label)
}

/// No thread is labelled `label`.
pub open spec fn none_labelled(threads: Seq<ThreadView>, label: Seq<char>) -> bool {
    forall|j: int| 0 <= j < threads.len() ==> threads[j].label != Some(label)
}

/// `i` is the last of the threads with the most free workers.
pub open spec fn is_last_most_free(threads: Seq<ThreadView>, i: int) -> bool {
    &&& 0 <= i < threads.len()
    &&& forall|j: int| 0 <= j < threads.len() ==> threads[j].free_workers <= threads[i].free_workers
    &&& forall|j: int| i < j < threads.len() ==> threads[j].free_workers < threads[i].free_workers
}

/// The thread the queue picks for a task: the first one with the task's preferred label if
/// it prefers one, otherwise the last of those with the most free workers.
pub open spec fn is_target(threads: Seq<ThreadView>, preferred: Option<Seq<char>>, i: int) -> bool {
    match preferred {
        Some(l) => is_first_labelled(threads, l, i),
        None => is_last_most_free(threads, i),
    }
}

/// The thread the queue picks for a task, if there is one.
pub open spec fn target_of(threads: Seq<ThreadView>, preferred: Option<Seq<char>>) -> Option<int> {
    if exists|i: int| is_target(threads, preferred, i) {
        Some(choose|i: int| is_target(threads, preferred, i))
    } else {
        None
    }
}

/// What the queue does with one task, given the worker threads as they are now.
pub open spec fn dispatch_of(task: ObservationView, threads: Seq<ThreadView>) -> Dispatch {
    if !task.can_execute {
        Dispatch::Keep
    } else if task.panicked {
        Dispatch::FinishPanicked
    } else if task.cancelled {
        Dispatch::FinishCancelled
    } else {
        match target_of(threads, task.preferred_thread) {
            Some(i) => if threads[i].free_workers > 0 {
                Dispatch::Send(i as usize)
            } else {
                Dispatch::Keep
            },
            None => if task.preferred_thread is Some {
                Dispatch::Unpin
            } else {
                Dispatch::Keep
            },
        }
    }
}

/// There is at most one thread that the queue would pick.
pub proof fn lemma_target_unique(threads: Seq<ThreadView>, preferred: Option<Seq<char>>, i: int, j: int)
    requires
        is_target(threads, preferred, i),
        is_target(threads, preferred, j),
    ensures
        i == j,
{
    match preferred {
        Some(l) => {
            if i < j {
                assert(threads[i].label != Some(l));
            } else if j < i {
                assert(threads[j].label != Some(l));
            }
        },
        None => {
            if i < j {
                assert(threads[j].free_workers < threads[i].free_workers);
                assert(threads[i].free_workers <= threads[j].free_workers);
            } else if j < i {
                assert(threads[i].free_workers < threads[j].free_workers);
                assert(threads[j].free_workers <= threads[i].free_workers);
            }
        },
    }
}

/// The queue picks `i` whenever `i` is a thread it may pick.
pub proof fn lemma_target_of(threads: Seq<ThreadView>, preferred: Option<Seq<char>>, i: int)
    requires
        is_target(threads, preferred, i),
    ensures
        target_of(threads, preferred) == Some(i),
{
    let c = choose|k: int| is_target(threads, preferred, k);
    lemma_target_unique(threads, preferred, i, c);
}

/// The worker threads after the queue acted on `d`: a thread that is handed a task has one
/// free worker less.
pub open spec fn after_dispatch(threads: Seq<ThreadView>, d: Dispatch) -> Seq<ThreadView> {
    match d {
        Dispatch::Send(i) => threads.update(
            i as int,
            ThreadView { free_workers: (threads[i as int].free_workers - 1) as u32, ..threads[i as int] },
        ),
        _ => threads,
    }
}

/// The first thread labelled `label`, if any.
fn find_labelled(threads: &Vec<ThreadInfo>, label: &String) -> (r: Option<usize>)
    ensures
        match r {
            Some(i) => is_first_labelled(threads_view(threads@), label@, i as int),
            None => none_labelled(threads_view(threads@), label@),
        },
{
    let ghost tv = threads_view(threads@);
    let mut i: usize = 0;
    while i < threads.len()
        invariant
            i <= threads@.len(),
            tv == threads_view(threads@),
            forall|j: int| 0 <= j < i ==> tv[j].label != Some(label@),
        decreases threads@.len() - i,
    {
        let found = match &threads[i].label {
            Some(l) => l.eq(label),
            None => false,
        };
        assert(tv[i as int] == threads@[i as int]@);
        assert(found == (tv[i as int].label == Some(label@))) by {
            match threads@[i as int].label {
                Some(l) => {
                    if l@ == label@ {
                    } else {
                        assert(Some(l@) != Some(label@));
                    }
                },
                None => {},
            }
        }
        if found {
            return Some(i);
        }
        i = i + 1;
    }
    None
}

/// The last of the threads with the most free workers, if there is any thread.
fn most_free(threads: &Vec<ThreadInfo>) -> (r: Option<usize>)
    ensures
        match r {
            Some(i) => is_last_most_free(threads_view(threads@), i as int),
            None => threads@.len() == 0,
        },
{
    if threads.len() == 0 {
        return None;
    }
    let ghost tv = threads_view(threads@);
    let mut best: usize = 0;
    let mut i: usize = 1;
    while i < threads.len()
        invariant
            1 <= i <= threads@.len(),
            best < i,
            tv == threads_view(threads@),
            forall|j: int| 0 <= j < i ==> tv[j].free_workers <= tv[best as int].free_workers,
            forall|j: int| best < j < i ==> tv[j].free_workers < tv[best as int].free_workers,
        decreases threads@.len() - i,
    {
        assert(tv[i as int] == threads@[i as int]@);
        assert(tv[best as int] == threads@[best as int]@);
        if threads[i].free_workers >= threads[best].free_workers {
            best = i;
        }
        i = i + 1;
    }
    Some(best)
}

/// What the queue does with one task: a task that cannot execute yet is kept; one whose
/// dependency panicked or that was cancelled is finished as such; otherwise it goes to the
/// thread it prefers, or to the last of the threads with the most free workers, provided that
/// thread has a free worker. A preferred label that names no thread is forgotten.
pub fn dispatch(task: &TaskObservation, threads: &Vec<ThreadInfo>) -> (d: Dispatch)
    ensures
        d == dispatch_of(task@, threads_view(threads@)),
        d matches Dispatch::Send(i) ==> i < threads@.len() && threads@[i as int].free_workers > 0,
{
    let ghost tv = threads_view(threads@);
    if !task.can_execute {
        return Dispatch::Keep;
    }
    if task.panicked {
        return Dispatch::FinishPanicked;
    }
    if task.cancelled {
        return Dispatch::FinishCancelled;
    }
    let target = match &task.preferred_thread {
        Some(label) => find_labelled(threads, label),
        None => most_free(threads),
    };
    match target {
        Some(i) => {
            assert(tv[i as int] == threads@[i as int]@);
            proof {
                lemma_target_of(tv, task@.preferred_thread, i as int);
            }
            if threads[i].free_workers > 0 {
                Dispatch::Send(i)
            } else {
                Dispatch::Keep
            }
        },
        None => {
            assert(!exists|k: int| is_target(tv, task@.preferred_thread, k));
            if task.preferred_thread.is_some() {
                Dispatch::Unpin
            } else {
                Dispatch::Keep
            }
        },
    }
}

/// The decisions of one round of the queue over `tasks`, in order, and the worker threads
/// after it: each task is dispatched against the threads as the earlier decisions of the
/// round left them.
pub open spec fn schedule_of(tasks: Seq<ObservationView>, threads: Seq<ThreadView>) -> (Seq<Dispatch>, Seq<ThreadView>)
    decreases tasks.len(),
{
    if tasks.len() == 0 {
        (Seq::empty(), threads)
    } else {
        let (ds, ts) = schedule_of(tasks.drop_last(), threads);
        let d = dispatch_of(tasks.last(), ts);
        (ds.push(d), after_dispatch(ts, d))
    }
}

/// One round of the queue: dispatches every task in order, taking a free worker from each
/// thread it hands a task to.
pub fn schedule(tasks: &Vec<TaskObservation>, threads: &mut Vec<ThreadInfo>) -> (ds: Vec<Dispatch>)
    ensures
        (ds@, threads_view(final(threads)@)) == schedule_of(observations_view(tasks@), threads_view(old(threads)@)),
        final(threads)@.len() == old(threads)@.len(),
        forall|k: int| 0 <= k < ds@.len() ==> (#[trigger] ds@[k] matches Dispatch::Send(i) ==> i < old(threads)@.len()),
{
    let ghost ov = observations_view(tasks@);
    let mut ds: Vec<Dispatch> = Vec::new();
    let mut k: usize = 0;
    while k < tasks.len()
        invariant
            k <= tasks@.len(),
            ov == observations_view(tasks@),
            (ds@, threads_view(threads@)) == schedule_of(ov.take(k as int), threads_view(old(threads)@)),
            threads@.len() == old(threads)@.len(),
            forall|j: int| 0 <= j < ds@.len() ==> (#[trigger] ds@[j] matches Dispatch::Send(i) ==> i < old(threads)@.len()),
        decreases tasks@.len() - k,
    {
        let ghost before = threads_view(threads@);
        let d = dispatch(&tasks[k], threads);
        assert(ov.take(k + 1).drop_last() == ov.take(k as int));
        assert(ov.take(k + 1).last() == tasks@[k as int]@);
        match d {
            Dispatch::Send(i) => {
                assert(before[i as int] == threads@[i as int]@);
                let label = threads[i].label.clone();
                let free = threads[i].free_workers - 1;
                threads.set(i, ThreadInfo { label, free_workers: free });
                assert(threads_view(threads@) == after_dispatch(before, d));
            },
            _ => {},
        }
        ds.push(d);
        k = k + 1;
    }
    assert(ov.take(tasks@.len() as int) == ov);
    ds
}

/// A round decides once for every task.
proof fn lemma_schedule_len(tasks: Seq<ObservationView>, threads: Seq<ThreadView>)
    ensures
        schedule_of(tasks, threads).0.len() == tasks.len(),
    decreases tasks.len(),
{
    if tasks.len() > 0 {
        lemma_schedule_len(tasks.drop_last(), threads);
    }
}

/// How many tasks of a round went to thread `i`.
pub open spec fn sends_to(ds: Seq<Dispatch>, i: int) -> int
    decreases ds.len(),
{
    if ds.len() == 0 {
        0
    } else {
        sends_to(ds.drop_last(), i) + if ds.last() == Dispatch::Send(i as usize) {
            1int
        } else {
            0
        }
    }
}

/// One round of the queue hands a thread exactly as many tasks as it takes free workers from
/// it, and never more than it had: every task goes to a thread that had a free worker, each
/// takes one, and the threads keep their labels.
pub proof fn law_round_accounts_for_workers(tasks: Seq<ObservationView>, threads: Seq<ThreadView>, i: int)
    requires
        0 <= i < threads.len(),
        threads.len() <= usize::MAX,
    ensures
        schedule_of(tasks, threads).1.len() == threads.len(),
        schedule_of(tasks, threads).1[i].label == threads[i].label,
        schedule_of(tasks, threads).1[i].free_workers == threads[i].free_workers - sends_to(
            schedule_of(tasks, threads).0,
            i,
        ),
        sends_to(schedule_of(tasks, threads).0, i) <= threads[i].free_workers,
        schedule_of(tasks, threads).0.len() == tasks.len(),
    decreases tasks.len(),
{
    if tasks.len() > 0 {
        law_round_accounts_for_workers(tasks.drop_last(), threads, i);
        let (ds, ts) = schedule_of(tasks.drop_last(), threads);
        let d = dispatch_of(tasks.last(), ts);
        match d {
            Dispatch::Send(j) => {
                let pref = tasks.last().preferred_thread;
                let c = choose|k: int| is_target(ts, pref, k);
                assert(target_of(ts, pref) == Some(c));
                assert(0 <= c < ts.len());
                assert(j as int == c);
                assert(ds.push(d).drop_last() == ds);
            },
            _ => {
                assert(ds.push(d).drop_last() == ds);
            },
        }
    }
}

/// A task that prefers a labelled thread is only ever handed to a thread with that label,
/// and only to the first such thread.
pub proof fn law_preferred_thread_respected(task: ObservationView, threads: Seq<ThreadView>, l: Seq<char>)
    requires
        task.preferred_thread == Some(l),
        dispatch_of(task, threads) is Send,
        threads.len() <= usize::MAX,
    ensures
        is_first_labelled(threads, l, dispatch_of(task, threads)->Send_0 as int),
{
    let c = choose|k: int| is_target(threads, task.preferred_thread, k);
    assert(target_of(threads, task.preferred_thread) is Some);
    assert(is_target(threads, task.preferred_thread, c));
}

/// A task that waits on a semaphore not yet signaled, or on a dependency still pending, is
/// neither handed to a worker nor finished: it stays queued.
pub proof fn law_waiting_tasks_stay_queued(task: ObservationView, threads: Seq<ThreadView>)
    requires
        !task.can_execute,
    ensures
        dispatch_of(task, threads) == Dispatch::Keep,
{
}

/// A round never hands out, nor settles, a task that cannot start: every task that waits on
/// a semaphore not yet signaled, or on a dependency still pending, is kept for a later round.
pub proof fn law_round_keeps_waiting_tasks(tasks: Seq<ObservationView>, threads: Seq<ThreadView>, k: int)
    requires
        0 <= k < tasks.len(),
        !tasks[k].can_execute,
    ensures
        schedule_of(tasks, threads).0.len() == tasks.len(),
        schedule_of(tasks, threads).0[k] == Dispatch::Keep,
    decreases tasks.len(),
{
    lemma_schedule_len(tasks, threads);
    let n = tasks.len();
    let (ds, ts) = schedule_of(tasks.drop_last(), threads);
    lemma_schedule_len(tasks.drop_last(), threads);
    if k < n - 1 {
        law_round_keeps_waiting_tasks(tasks.drop_last(), threads, k);
        assert(ds.push(dispatch_of(tasks.last(), ts))[k] == ds[k]);
    } else {
        assert(tasks.last() == tasks[k]);
    }
}

/// A round never hands to a worker a task that it saw cancelled, or whose dependency it saw
/// panicked: such a task is kept if it cannot start yet, and otherwise settled — as panicked
/// when its dependency panicked, as cancelled when it was cancelled and its dependency did not
/// panic.
pub proof fn law_round_never_sends_failed_tasks(tasks: Seq<ObservationView>, threads: Seq<ThreadView>, k: int)
    requires
        0 <= k < tasks.len(),
        tasks[k].panicked || tasks[k].cancelled,
    ensures
        schedule_of(tasks, threads).0.len() == tasks.len(),
        !(schedule_of(tasks, threads).0[k] is Send),
        tasks[k].can_execute && tasks[k].panicked ==> schedule_of(tasks, threads).0[k] == Dispatch::FinishPanicked,
        tasks[k].can_execute && !tasks[k].panicked ==> schedule_of(tasks, threads).0[k] == Dispatch::FinishCancelled,
        !tasks[k].can_execute ==> schedule_of(tasks, threads).0[k] == Dispatch::Keep,
    decreases tasks.len(),
{
    lemma_schedule_len(tasks, threads);
    let n = tasks.len();
    let (ds, ts) = schedule_of(tasks.drop_last(), threads);
    lemma_schedule_len(tasks.drop_last(), threads);
    if k < n - 1 {
        law_round_never_sends_failed_tasks(tasks.drop_last(), threads, k);
        assert(ds.push(dispatch_of(tasks.last(), ts))[k] == ds[k]);
    } else {
        assert(tasks.last() == tasks[k]);
    }
}

/// Some thread has the most free workers, and the last such thread is one the queue may pick.
proof fn lemma_most_free_exists(threads: Seq<ThreadView>)
    requires
        threads.len() > 0,
    ensures
        exists|i: int| is_last_most_free(threads, i),
    decreases threads.len(),
{
    let n = threads.len();
    if n == 1 {
        assert(is_last_most_free(threads, 0));
    } else {
        let pre = threads.drop_last();
        lemma_most_free_exists(pre);
        let i0 = choose|i: int| is_last_most_free(pre, i);
        assert(forall|j: int| 0 <= j < n - 1 ==> pre[j] == threads[j]);
        if threads[n - 1].free_workers >= threads[i0].free_workers {
            assert(is_last_most_free(threads, n - 1));
        } else {
            assert(is_last_most_free(threads, i0));
        }
    }
}

/// A task that can start, whose dependency did not panic and that was not cancelled, goes to
/// a worker as soon as one it may use is free: with no preferred thread, as soon as any thread
/// has a free worker it goes to a thread with the most free workers; with a preferred thread,
/// as soon as the first thread with that label has a free worker it goes there.
pub proof fn law_ready_task_goes_to_a_free_worker(task: ObservationView, threads: Seq<ThreadView>)
    requires
        task.can_execute,
        !task.panicked,
        !task.cancelled,
        threads.len() <= usize::MAX,
        match task.preferred_thread {
            None => exists|j: int| 0 <= j < threads.len() && (#[trigger] threads[j]).free_workers > 0,
            Some(l) => exists|i: int| is_first_labelled(threads, l, i) && (#[trigger] threads[i]).free_workers > 0,
        },
    ensures
        dispatch_of(task, threads) matches Dispatch::Send(i) && is_target(threads, task.preferred_thread, i as int)
            && threads[i as int].free_workers > 0,
{
    match task.preferred_thread {
        None => {
            let j = choose|j: int| 0 <= j < threads.len() && (#[trigger] threads[j]).free_workers > 0;
            lemma_most_free_exists(threads);
            let i = choose|i: int| is_last_most_free(threads, i);
            lemma_target_of(threads, task.preferred_thread, i);
            assert(threads[j].free_workers <= threads[i].free_workers);
        },
        Some(l) => {
            let i = choose|i: int| is_first_labelled(threads, l, i) && (#[trigger] threads[i]).free_workers > 0;
            lemma_target_of(threads, task.preferred_thread, i);
        },
    }
}

/// What a worker thread saw when it polled one of its tasks.
#[derive(PartialEq, Eq, Structural, Clone, Copy, Debug)]
pub enum PollOutcome {
    /// The task is not done yet.
    Pending,
    /// The task completed.
    Ready,
    /// The task panicked while it was polled.
    Panicked,
}

/// What a worker thread does with a task after polling it.
#[derive(PartialEq, Eq, Structural, Clone, Copy, Debug)]
pub enum WorkerAction {
    /// Keep the task and poll it again later.
    Keep,
    /// Drop the task after signalling what it signals on completion; mark it panicked if
    /// `mark_panicked`, and give its worker back to the thread if `release_worker`.
    Finish { mark_panicked: bool, release_worker: bool },
}

/// The decision of a worker thread after one poll (see [`after_poll`]).
pub open spec fn after_poll_of(outcome: PollOutcome, cancelled: bool) -> WorkerAction {
    match outcome {
        PollOutcome::Pending => if cancelled {
            WorkerAction::Finish { mark_panicked: false, release_worker: false }
        } else {
            WorkerAction::Keep
        },
        PollOutcome::Panicked => WorkerAction::Finish { mark_panicked: true, release_worker: false },
        PollOutcome::Ready => WorkerAction::Finish { mark_panicked: false, release_worker: true },
    }
}

/// The decision of a worker thread after one poll: a completed task gives its worker back; a
/// task that panicked is marked panicked; a pending task is dropped if it was cancelled and
/// kept otherwise. Every finished task has its semaphores and signals signaled.
pub fn after_poll(outcome: PollOutcome, cancelled: bool) -> (a: WorkerAction)
    ensures
        a == after_poll_of(outcome, cancelled),
{
    match outcome {
        PollOutcome::Pending => if cancelled {
            WorkerAction::Finish { mark_panicked: false, release_worker: false }
        } else {
            WorkerAction::Keep
        },
        PollOutcome::Panicked => WorkerAction::Finish { mark_panicked: true, release_worker: false },
        PollOutcome::Ready => WorkerAction::Finish { mark_panicked: false, release_worker: true },
    }
}

/// How a queue or worker thread takes tasks from its channel.
#[derive(PartialEq, Eq, Structural, Clone, Copy, Debug)]
pub enum Receive {
    /// Block until a task arrives: the thread holds none.
    Block,
    /// Take every task that has arrived, without blocking: the thread holds some already.
    Drain,
}

/// How a thread that holds `held` tasks takes more: it blocks only when it holds none.
pub fn receive_mode(held: usize) -> (r: Receive)
    ensures
        r == (if held == 0 {
            Receive::Block
        } else {
            Receive::Drain
        }),
{
    if held == 0 {
        Receive::Block
    } else {
        Receive::Drain
    }
}

/// Whether the queue thread sleeps on its signal after a round: while it still holds tasks
/// that could not be handed out.
pub fn queue_should_sleep(kept: usize) -> (r: bool)
    ensures
        r == (kept > 0),
{
    kept > 0
}

/// Whether a worker thread sleeps on its signal after polling: while it still runs tasks and
/// no new task is waiting in its channel.
pub fn worker_should_sleep(running: usize, channel_empty: bool) -> (r: bool)
    ensures
        r == (running > 0 && channel_empty),
{
    running > 0 && channel_empty
}

/// A worker thread as the queue holds it: the channel that hands it tasks, its label, the
/// count of its free workers (which it raises itself when a task completes), and the signal
/// that wakes it.
#[verifier::reject_recursive_types(J)]
pub struct WorkerThread<J> {
    id: u64,
    sender: Sender<Task<J>>,
    label: Option<String>,
    free_workers: Arc<AtomicU32>,
    signal: Arc<Signal>,
}

impl<J> WorkerThread<J> {
    /// The thread's label, if it has one.
    pub closed spec fn spec_label(&self) -> Option<Seq<char>> {
        label_view(self.label)
    }

    /// A thread without a label, reached through `sender`, counting its free workers in
    /// `free_workers` and woken by `signal`.
    pub fn new(sender: Sender<Task<J>>, free_workers: Arc<AtomicU32>, signal: Arc<Signal>) -> (w: WorkerThread<J>)
        ensures
            w.spec_label() is None,
    {
        WorkerThread { id: next_id(), sender, label: None, free_workers, signal }
    }

    /// Labels the thread.
    pub fn label(&mut self, label: String)
        ensures
            final(self).spec_label() == Some(label@),
    {
        self.label = Some(label);
    }

    /// The thread's label, if it has one.
    pub fn get_label(&self) -> (r: Option<&String>)
        ensures
            match r {
                Some(l) => self.spec_label() == Some(l@),
                None => self.spec_label() is None,
            },
    {
        self.label.as_ref()
    }

    /// How many of the thread's workers are free. The thread frees workers itself, so the
    /// answer is a snapshot.
    pub fn free_workers(&self) -> (r: u32) {
        self.free_workers.load(Ordering::Relaxed)
    }

    /// Hands `task` to the thread: once the thread has it, one of its workers is taken and the
    /// thread is woken. If the thread is gone (its end of the channel was dropped), nothing
    /// is taken and the task is handed back.
    pub fn send(&self, task: Task<J>) -> (r: Option<Task<J>>)
        ensures
            r matches Some(t) ==> t == task,
    {
        let back = channel_send(&self.sender, task);
        if back.is_none() {
            self.free_workers.fetch_sub(1, Ordering::SeqCst);
            self.signal.wake();
        }
        back
    }
}

/// What the queue sees of a task now: whether it can start, whether its dependency panicked
/// or it was cancelled (looked at only when it can start), and the thread it prefers. Other
/// threads change the first three, so they are a snapshot.
pub fn observe<J>(task: &Task<J>) -> (o: TaskObservation)
    ensures
        o@.preferred_thread == task@.preferred_thread,
        o.panicked ==> o.can_execute,
        o.cancelled ==> o.can_execute,
{
    let can_execute = task.can_execute();
    let panicked = can_execute && task.is_panicked();
    let cancelled = can_execute && task.is_cancelled();
    let preferred_thread = match task.get_preferred_thread() {
        Some(l) => Some(l.clone()),
        None => None,
    };
    TaskObservation { can_execute, panicked, cancelled, preferred_thread }
}

/// What the queue sees of its worker threads now: their labels, and how many workers each has
/// free (a snapshot).
pub fn thread_infos<J>(threads: &Vec<WorkerThread<J>>) -> (r: Vec<ThreadInfo>)
    ensures
        r@.len() == threads@.len(),
        forall|i: int| 0 <= i < r@.len() ==> (#[trigger] r@[i])@.label == threads@[i].spec_label(),
{
    let mut r: Vec<ThreadInfo> = Vec::new();
    let mut i: usize = 0;
    while i < threads.len()
        invariant
            i <= threads@.len(),
            r@.len() == i,
            forall|j: int| 0 <= j < i ==> (#[trigger] r@[j])@.label == threads@[j].spec_label(),
        decreases threads@.len() - i,
    {
        let label = match threads[i].get_label() {
            Some(l) => Some(l.clone()),
            None => None,
        };
        let free_workers = threads[i].free_workers();
        r.push(ThreadInfo { label, free_workers });
        i = i + 1;
    }
    r
}

/// The tasks that a round keeps, in order, given what it decided for each: those it keeps as
/// they are, and those whose preferred thread it forgets.
pub open spec fn kept_of<J>(tasks: Seq<TaskView<J>>, ds: Seq<Dispatch>) -> Seq<TaskView<J>>
    decreases tasks.len(),
{
    if tasks.len() == 0 {
        Seq::empty()
    } else {
        let rest = kept_of(tasks.drop_last(), ds.drop_last());
        match ds.last() {
            Dispatch::Keep => rest.push(tasks.last()),
            Dispatch::Unpin => rest.push(TaskView { preferred_thread: None, ..tasks.last() }),
            _ => rest,
        }
    }
}

/// What a round does with a task it does not keep.
#[verifier::reject_recursive_types(J)]
pub enum RoundAction<J> {
    /// Hand the task to the worker thread with this index.
    Send(usize, Task<J>),
    /// Settle the task in this state without running it: its own state becomes this one, and
    /// everything it signals on completion is signaled (see [`Task::finish_as`]).
    Settle(Task<J>, TaskState),
}

/// A round action as the proofs see it.
pub enum ActionView<J> {
    Send(usize, TaskView<J>),
    Settle(TaskView<J>, TaskState),
}

pub open spec fn action_view<J>(a: RoundAction<J>) -> ActionView<J> {
    match a {
        RoundAction::Send(i, t) => ActionView::Send(i, t@),
        RoundAction::Settle(t, s) => ActionView::Settle(t@, s),
    }
}

pub open spec fn action_views<J>(actions: Seq<RoundAction<J>>) -> Seq<ActionView<J>> {
    actions.map_values(|a: RoundAction<J>| action_view(a))
}

/// The actions of a round, in order, given what it decided for each task: a task to send goes
/// to its thread, a task whose dependency panicked is settled `Panicked`, a cancelled one is
/// settled `Cancelled`.
pub open spec fn actions_of<J>(tasks: Seq<TaskView<J>>, ds: Seq<Dispatch>) -> Seq<ActionView<J>>
    decreases tasks.len(),
{
    if tasks.len() == 0 {
        Seq::empty()
    } else {
        let rest = actions_of(tasks.drop_last(), ds.drop_last());
        match ds.last() {
            Dispatch::Send(i) => rest.push(ActionView::Send(i, tasks.last())),
            Dispatch::FinishPanicked => rest.push(ActionView::Settle(tasks.last(), TaskState::Panicked)),
            Dispatch::FinishCancelled => rest.push(ActionView::Settle(tasks.last(), TaskState::Cancelled)),
            _ => rest,
        }
    }
}

/// A round loses no task: each task is either kept or acted on.
pub proof fn law_round_loses_no_task<J>(tasks: Seq<TaskView<J>>, ds: Seq<Dispatch>)
    ensures
        kept_of(tasks, ds).len() + actions_of(tasks, ds).len() == tasks.len(),
    decreases tasks.len(),
{
    if tasks.len() > 0 {
        law_round_loses_no_task(tasks.drop_last(), ds.drop_last());
    }
}

/// Sorts the tasks of a round by the decisions `ds`, one per task, in order: the tasks it
/// keeps (with their preferred thread forgotten where the decision says so), and the actions
/// for the others — a send to the chosen thread, or a settling as panicked or cancelled.
pub fn plan_dispatch<J>(tasks: Vec<Task<J>>, ds: &Vec<Dispatch>) -> (r: (Vec<Task<J>>, Vec<RoundAction<J>>))
    requires
        ds@.len() == tasks@.len(),
    ensures
        task_views(r.0@) == kept_of(task_views(tasks@), ds@),
        action_views(r.1@) == actions_of(task_views(tasks@), ds@),
{
    let ghost tvs = task_views(tasks@);
    let n = tasks.len();
    let mut rest = tasks;
    let mut kept: Vec<Task<J>> = Vec::new();
    let mut actions: Vec<RoundAction<J>> = Vec::new();
    let mut k: usize = 0;
    while k < n
        invariant
            k <= n,
            n == tvs.len(),
            ds@.len() == n,
            rest@.len() == n - k,
            forall|j: int| 0 <= j < n - k ==> (#[trigger] rest@[j])@ == tvs[j + k],
            task_views(kept@) == kept_of(tvs.take(k as int), ds@.take(k as int)),
            action_views(actions@) == actions_of(tvs.take(k as int), ds@.take(k as int)),
        decreases n - k,
    {
        let mut task = rest.remove(0);
        let d = ds[k];
        let ghost kb = task_views(kept@);
        let ghost ab = action_views(actions@);
        proof {
            assert(tvs.take(k + 1).drop_last() =~= tvs.take(k as int));
            assert(ds@.take(k + 1).drop_last() =~= ds@.take(k as int));
            assert(tvs.take(k + 1).last() == task@);
            assert(ds@.take(k + 1).last() == d);
        }
        match d {
            Dispatch::Keep => {
                kept.push(task);
                assert(task_views(kept@) =~= kb.push(tvs[k as int]));
                assert(action_views(actions@) =~= ab);
            },
            Dispatch::Unpin => {
                task.remove_preferred_thread();
                kept.push(task);
                assert(task_views(kept@) =~= kb.push(TaskView { preferred_thread: None, ..tvs[k as int] }));
                assert(action_views(actions@) =~= ab);
            },
            Dispatch::FinishPanicked => {
                actions.push(RoundAction::Settle(task, TaskState::Panicked));
                assert(task_views(kept@) =~= kb);
                assert(action_views(actions@) =~= ab.push(ActionView::Settle(tvs[k as int], TaskState::Panicked)));
            },
            Dispatch::FinishCancelled => {
                actions.push(RoundAction::Settle(task, TaskState::Cancelled));
                assert(task_views(kept@) =~= kb);
                assert(action_views(actions@) =~= ab.push(ActionView::Settle(tvs[k as int], TaskState::Cancelled)));
            },
            Dispatch::Send(t) => {
                actions.push(RoundAction::Send(t, task));
                assert(task_views(kept@) =~= kb);
                assert(action_views(actions@) =~= ab.push(ActionView::Send(t, tvs[k as int])));
            },
        }
        k = k + 1;
    }
    assert(tvs.take(n as int) =~= tvs);
    assert(ds@.take(n as int) =~= ds@);
    (kept, actions)
}

/// A copy of what the queue saw of its worker threads.
fn copy_infos(infos: &Vec<ThreadInfo>) -> (r: Vec<ThreadInfo>)
    ensures
        r@.len() == infos@.len(),
        threads_view(r@) == threads_view(infos@),
{
    let mut r: Vec<ThreadInfo> = Vec::new();
    let mut i: usize = 0;
    while i < infos.len()
        invariant
            i <= infos@.len(),
            r@.len() == i,
            forall|j: int| 0 <= j < i ==> (#[trigger] r@[j])@ == infos@[j]@,
        decreases infos@.len() - i,
    {
        let label = match &infos[i].label {
            Some(l) => Some(l.clone()),
            None => None,
        };
        r.push(ThreadInfo { label, free_workers: infos[i].free_workers });
        i = i + 1;
    }
    assert(threads_view(r@) =~= threads_view(infos@));
    r
}

/// One round of the queue thread: what it saw, what it decided, and what it does.
#[verifier::reject_recursive_types(J)]
pub struct Round<J> {
    /// What it saw of each task it holds, in order.
    pub observations: Vec<TaskObservation>,
    /// What it saw of the worker threads before deciding.
    pub threads: Vec<ThreadInfo>,
    /// What it decided for each task, in order.
    pub decisions: Vec<Dispatch>,
    /// The tasks it keeps for a later round, in order.
    pub kept: Vec<Task<J>>,
    /// What it does with the other tasks, in order: sends and settlings for the runtime to
    /// carry out.
    pub actions: Vec<RoundAction<J>>,
}

/// One round of the queue over the tasks it holds: it looks at every task and every worker
/// thread, decides for each task in order (see [`schedule`]), and sorts the tasks by those
/// decisions (see [`plan_dispatch`]). Other threads change what it looks at; the round hands
/// back what it saw, and everything else follows from that exactly.
pub fn dispatch_round<J>(tasks: Vec<Task<J>>, threads: &Vec<WorkerThread<J>>) -> (r: Round<J>)
    ensures
        r.observations@.len() == tasks@.len(),
        forall|i: int| 0 <= i < r.observations@.len() ==> (#[trigger] r.observations@[i])@.preferred_thread
            == tasks@[i]@.preferred_thread,
        r.threads@.len() == threads@.len(),
        forall|i: int| 0 <= i < r.threads@.len() ==> (#[trigger] r.threads@[i])@.label == threads@[i].spec_label(),
        r.decisions@ == schedule_of(observations_view(r.observations@), threads_view(r.threads@)).0,
        forall|k: int| 0 <= k < r.decisions@.len() ==> (#[trigger] r.decisions@[k] matches Dispatch::Send(i) ==> i
            < threads@.len()),
        task_views(r.kept@) == kept_of(task_views(tasks@), r.decisions@),
        action_views(r.actions@) == actions_of(task_views(tasks@), r.decisions@),
{
    let mut observations: Vec<TaskObservation> = Vec::new();
    let mut i: usize = 0;
    while i < tasks.len()
        invariant
            i <= tasks@.len(),
            observations@.len() == i,
            forall|j: int| 0 <= j < i ==> (#[trigger] observations@[j])@.preferred_thread == tasks@[j]@.preferred_thread,
        decreases tasks@.len() - i,
    {
        observations.push(observe(&tasks[i]));
        i = i + 1;
    }
    let seen = thread_infos(threads);
    let mut infos = copy_infos(&seen);
    let decisions = schedule(&observations, &mut infos);
    proof {
        lemma_schedule_len(observations_view(observations@), threads_view(seen@));
    }
    let (kept, actions) = plan_dispatch(tasks, &decisions);
    Round { observations, threads: seen, decisions, kept, actions }
}

/// What a worker thread does with a task after polling it.
#[verifier::reject_recursive_types(J)]
pub enum WorkerStep<J> {
    /// Keep the task and poll it again later.
    Keep(Running<J>),
    /// Drop the task after signaling what it signals on completion; mark it panicked if
    /// `mark_panicked`, and give its worker back to the thread if `release_worker`.
    Finish { running: Running<J>, mark_panicked: bool, release_worker: bool },
}

/// The decision of a worker thread after polling a running task (see [`after_poll`]), with the
/// task: a task that is still pending and was not cancelled is kept to be polled again; any
/// other task is to be finished — marked panicked if it panicked, its worker given back if it
/// completed.
pub fn after_polled<J>(running: Running<J>, outcome: PollOutcome, cancelled: bool) -> (r: WorkerStep<J>)
    ensures
        r == (match after_poll_of(outcome, cancelled) {
            WorkerAction::Keep => WorkerStep::Keep(running),
            WorkerAction::Finish { mark_panicked, release_worker } => WorkerStep::Finish {
                running,
                mark_panicked,
                release_worker,
            },
        }),
{
    match after_poll(outcome, cancelled) {
        WorkerAction::Keep => WorkerStep::Keep(running),
        WorkerAction::Finish { mark_panicked, release_worker } => WorkerStep::Finish {
            running,
            mark_panicked,
            release_worker,
        },
    }
}

/// The queue: the channel through which tasks reach the queue thread, and the signal that
/// wakes that thread. The queue thread holds back the tasks that are not ready to run and
/// spreads the others over the worker threads (see [`dispatch_round`]).
#[verifier::reject_recursive_types(J)]
pub struct Queue<J> {
    id: u64,
    sender: Sender<Task<J>>,
    signal: Arc<Signal>,
}

/// The tasks after each was made to prefer the thread labelled `thread`.
pub open spec fn pinned_to<J>(tasks: Seq<TaskView<J>>, thread: Seq<char>) -> Seq<TaskView<J>> {
    tasks.map_values(|t: TaskView<J>| TaskView { preferred_thread: Some(thread), ..t })
}

/// Makes every task prefer the thread labelled `thread`, keeping their order.
pub fn pin_all<J>(tasks: Vec<Task<J>>, thread: &str) -> (r: Vec<Task<J>>)
    ensures
        task_views(r@) == pinned_to(task_views(tasks@), thread@),
{
    let ghost tvs = task_views(tasks@);
    let n = tasks.len();
    let mut rest = tasks;
    let mut out: Vec<Task<J>> = Vec::new();
    let mut k: usize = 0;
    while k < n
        invariant
            k <= n,
            n == tvs.len(),
            rest@.len() == n - k,
            forall|j: int| 0 <= j < n - k ==> (#[trigger] rest@[j])@ == tvs[j + k],
            task_views(out@) == pinned_to(tvs.take(k as int), thread@),
        decreases n - k,
    {
        let mut task = rest.remove(0);
        let label = thread.to_owned();
        task.set_preferred_thread(label);
        let ghost before = task_views(out@);
        assert(task@ == TaskView { preferred_thread: Some(thread@), ..tvs[k as int] });
        out.push(task);
        assert(tvs.take(k + 1) =~= tvs.take(k as int).push(tvs[k as int]));
        assert(task_views(out@) =~= before.push(task@));
        assert(task_views(out@) =~= pinned_to(tvs.take(k + 1), thread@));
        k = k + 1;
    }
    assert(tvs.take(n as int) =~= tvs);
    out
}

impl<J> Queue<J> {
    /// A queue whose tasks go through `sender` to the queue thread, which `signal` wakes.
    pub fn new(sender: Sender<Task<J>>, signal: Arc<Signal>) -> (q: Queue<J>)
        ensures
            q.spec_sender() == sender,
            q.spec_signal() == signal,
    {
        Queue { id: next_id(), sender, signal }
    }

    /// Hands the tasks, in order, to the queue thread, then wakes it. If the queue thread is
    /// gone, it stops at the first task that cannot be handed over and reports `false`.
    fn send_all(&self, tasks: Vec<Task<J>>) -> (sent: bool) {
        let n = tasks.len();
        let mut rest = tasks;
        let mut k: usize = 0;
        while k < n
            invariant
                k <= n,
                rest@.len() == n - k,
            decreases n - k,
        {
            let task = rest.remove(0);
            if channel_send(&self.sender, task).is_some() {
                return false;
            }
            k = k + 1;
        }
        self.signal.wake();
        true
    }

    /// Submits a task: it goes to the back of the queue, and runs on a free worker once it is
    /// ready. Reports `false` if the queue thread is gone.
    pub fn submit(&self, task: Task<J>) -> (sent: bool) {
        if channel_send(&self.sender, task).is_some() {
            return false;
        }
        self.signal.wake();
        true
    }

    /// Submits tasks, in order (see [`Queue::submit`]).
    pub fn submit_all(&self, tasks: Vec<Task<J>>) -> (sent: bool) {
        self.send_all(tasks)
    }

    /// Submits a task that prefers the thread labelled `thread`.
    pub fn submit_on(&self, task: Task<J>, thread: &str) -> (sent: bool) {
        let mut task = task;
        task.set_preferred_thread(thread.to_owned());
        self.submit(task)
    }

    /// Submits tasks, in order, each preferring the thread labelled `thread`.
    pub fn submit_all_on(&self, tasks: Vec<Task<J>>, thread: &str) -> (sent: bool) {
        self.send_all(pin_all(tasks, thread))
    }

    /// Submits the tasks of a baked command buffer, in the order they were recorded. Tasks
    /// that wait for others are held back until those finish, so they do not clog the queue.
    pub fn submit_command_buffer(&self, command_buffer: CommandBuffer<J>) -> (sent: bool)
        requires
            command_buffer@.baked is Some,
    {
        self.send_all(command_buffer.tasks())
    }

    /// Submits the tasks of baked command buffers, buffer after buffer.
    pub fn submit_command_buffers(&self, command_buffers: Vec<CommandBuffer<J>>) -> (sent: bool)
        requires
            forall|i: int| 0 <= i < command_buffers@.len() ==> (#[trigger] command_buffers@[i])@.baked is Some,
    {
        let n = command_buffers.len();
        let mut rest = command_buffers;
        let mut all: Vec<Task<J>> = Vec::new();
        let mut k: usize = 0;
        while k < n
            invariant
                k <= n,
                rest@.len() == n - k,
                forall|i: int| 0 <= i < rest@.len() ==> (#[trigger] rest@[i])@.baked is Some,
            decreases n - k,
        {
            let buffer = rest.remove(0);
            let mut ts = buffer.tasks();
            all.append(&mut ts);
            k = k + 1;
        }
        self.send_all(all)
    }
}

impl<J> PartialEq for Queue<J> {
    fn eq(&self, other: &Self) -> (r: bool) {
        self.id == other.id
    }
}

impl<J> vstd::std_specs::cmp::PartialEqSpecImpl for Queue<J> {
    open spec fn obeys_eq_spec() -> bool {
        true
    }

    open spec fn eq_spec(&self, other: &Self) -> bool {
        self.spec_id() == other.spec_id()
    }
}

impl<J> Queue<J> {
    pub closed spec fn spec_id(&self) -> u64 {
        self.id
    }

    /// The channel through which the queue's tasks reach the queue thread.
    pub closed spec fn spec_sender(&self) -> Sender<Task<J>> {
        self.sender
    }

    /// The signal that wakes the queue thread.
    pub closed spec fn spec_signal(&self) -> Arc<Signal> {
        self.signal
    }
}

impl<J> Eq for Queue<J> {}

} // verus!

use std::sync::atomic::{AtomicU32, Ordering};
use std::sync::{Arc, RwLock};

use crossbeam_channel::unbounded;
use mvsync::block::Signal;
use mvsync::command_buffers::buffer::CommandBuffer;
use mvsync::queue::{
    after_polled, dispatch_round, observe, pin_all, plan_dispatch, thread_infos, Dispatch, PollOutcome, Queue,
    RoundAction, WorkerStep, WorkerThread,
};
use mvsync::sync::{Semaphore, SemaphoreUsage};
use mvsync::task::{signal_finished, Task, TaskController, TaskState};

fn cell(s: TaskState) -> Arc<RwLock<TaskState>> {
    Arc::new(RwLock::new(s))
}

fn signals() -> [Arc<Signal>; 2] {
    [Arc::new(Signal::new()), Arc::new(Signal::new())]
}

fn task(job: u32, dependency: TaskState) -> Task<u32> {
    Task::new(cell(TaskState::Pending), job, cell(dependency), signals())
}

fn read(c: &Arc<RwLock<TaskState>>) -> TaskState {
    *c.read().unwrap()
}

/// A worker thread with `free` free workers, and the receiving end of its channel.
fn worker(free: u32) -> (WorkerThread<u32>, crossbeam_channel::Receiver<Task<u32>>, Arc<AtomicU32>, Arc<Signal>) {
    let (sender, receiver) = unbounded();
    let counter = Arc::new(AtomicU32::new(free));
    let signal = Arc::new(Signal::new());
    (WorkerThread::new(sender, counter.clone(), signal.clone()), receiver, counter, signal)
}

#[test]
fn worker_thread_labels_and_counts() {
    let (mut w, _r, counter, _s) = worker(3);
    assert!(w.get_label().is_none());
    w.label("io".to_string());
    assert_eq!(w.get_label().map(|l| l.as_str()), Some("io"));
    assert_eq!(w.free_workers(), 3);
    counter.store(5, Ordering::SeqCst);
    assert_eq!(w.free_workers(), 5);
}

#[test]
fn sending_takes_a_worker_and_wakes_the_thread() {
    let (w, r, counter, signal) = worker(2);
    assert!(w.send(task(7, TaskState::Ready)).is_none());
    assert_eq!(counter.load(Ordering::SeqCst), 1);
    assert!(signal.ready());
    let got = r.try_recv().unwrap();
    assert_eq!(got.execute().0, 7);
}

#[test]
fn sending_to_a_gone_thread_hands_the_task_back() {
    let (w, r, counter, signal) = worker(2);
    drop(r);
    let back = w.send(task(9, TaskState::Ready));
    assert_eq!(back.map(|t| t.execute().0), Some(9));
    assert_eq!(counter.load(Ordering::SeqCst), 2);
    assert!(!signal.ready());
}

#[test]
fn observe_reads_flags_and_preferred_thread() {
    let mut t = task(1, TaskState::Ready);
    t.set_preferred_thread("gpu".to_string());
    let o = observe(&t);
    assert!(o.can_execute);
    assert!(!o.panicked);
    assert!(!o.cancelled);
    assert_eq!(o.preferred_thread.as_deref(), Some("gpu"));

    let o = observe(&task(2, TaskState::Pending));
    assert!(!o.can_execute);
    assert!(o.preferred_thread.is_none());

    let o = observe(&task(3, TaskState::Panicked));
    assert!(o.can_execute && o.panicked && !o.cancelled);

    let o = observe(&task(4, TaskState::Cancelled));
    assert!(o.can_execute && !o.panicked && o.cancelled);
}

#[test]
fn thread_infos_reads_labels_and_free_workers() {
    let (mut a, _ra, _ca, _sa) = worker(1);
    let (b, _rb, _cb, _sb) = worker(4);
    a.label("main".to_string());
    let infos = thread_infos(&vec![a, b]);
    assert_eq!(infos.len(), 2);
    assert_eq!(infos[0].label.as_deref(), Some("main"));
    assert_eq!(infos[0].free_workers, 1);
    assert!(infos[1].label.is_none());
    assert_eq!(infos[1].free_workers, 4);
}

/// Carries out the actions of a round, as the queue thread does.
fn perform(actions: Vec<RoundAction<u32>>, threads: &Vec<WorkerThread<u32>>) {
    for action in actions {
        match action {
            RoundAction::Send(i, t) => assert!(threads[i].send(t).is_none()),
            RoundAction::Settle(t, s) => t.finish_as(s),
        }
    }
}

#[test]
fn plan_dispatch_keeps_unpins_settles_and_sends() {
    let keep = task(1, TaskState::Pending);
    let mut unpin = task(2, TaskState::Ready);
    unpin.set_preferred_thread("nowhere".to_string());
    let panicked = task(3, TaskState::Panicked);
    let cancelled = task(4, TaskState::Cancelled);
    let sent = task(5, TaskState::Ready);

    let ds = vec![
        Dispatch::Keep,
        Dispatch::Unpin,
        Dispatch::FinishPanicked,
        Dispatch::FinishCancelled,
        Dispatch::Send(1),
    ];
    let (kept, actions) = plan_dispatch(vec![keep, unpin, panicked, cancelled, sent], &ds);
    assert_eq!(kept.len(), 2);
    assert!(kept[1].get_preferred_thread().is_none());
    let jobs: Vec<u32> = kept.into_iter().map(|t| t.execute().0).collect();
    assert_eq!(jobs, vec![1, 2]);
    let acts: Vec<(u32, String)> = actions
        .into_iter()
        .map(|a| match a {
            RoundAction::Send(i, t) => (t.execute().0, format!("send {}", i)),
            RoundAction::Settle(t, s) => (t.execute().0, format!("settle {:?}", s)),
        })
        .collect();
    assert_eq!(
        acts,
        vec![
            (3, "settle Panicked".to_string()),
            (4, "settle Cancelled".to_string()),
            (5, "send 1".to_string()),
        ]
    );
}

#[test]
fn settling_and_sending_take_effect() {
    let (w, r, counter, _s) = worker(1);
    let threads = vec![w];
    let panicked = task(3, TaskState::Panicked);
    let panicked_state = panicked.state();
    let cancelled = task(4, TaskState::Cancelled);
    let cancelled_state = cancelled.state();
    let ds = vec![Dispatch::FinishPanicked, Dispatch::FinishCancelled, Dispatch::Send(0)];
    let (kept, actions) = plan_dispatch(vec![panicked, cancelled, task(5, TaskState::Ready)], &ds);
    assert!(kept.is_empty());
    perform(actions, &threads);
    assert_eq!(read(&panicked_state), TaskState::Panicked);
    assert_eq!(read(&cancelled_state), TaskState::Cancelled);
    assert_eq!(r.try_recv().unwrap().execute().0, 5);
    assert_eq!(counter.load(Ordering::SeqCst), 0);
}

#[test]
fn a_round_sends_ready_tasks_to_the_freest_thread() {
    let (a, ra, ca, _sa) = worker(1);
    let (b, rb, cb, _sb) = worker(2);
    let threads = vec![a, b];
    let tasks = vec![task(1, TaskState::Ready), task(2, TaskState::Pending), task(3, TaskState::Ready)];
    let round = dispatch_round(tasks, &threads);
    assert_eq!(round.decisions, vec![Dispatch::Send(1), Dispatch::Keep, Dispatch::Send(1)]);
    assert_eq!(round.threads[0].free_workers, 1);
    assert_eq!(round.threads[1].free_workers, 2);
    assert!(round.observations[0].can_execute && !round.observations[1].can_execute);
    perform(round.actions, &threads);
    let kept = round.kept;
    // The waiting task stays; the first ready task goes to the thread with two free workers,
    // the next to the last of the threads with the most free workers (now both have one).
    let kept: Vec<u32> = kept.into_iter().map(|t| t.execute().0).collect();
    assert_eq!(kept, vec![2]);
    assert_eq!(rb.try_recv().unwrap().execute().0, 1);
    assert_eq!(rb.try_recv().unwrap().execute().0, 3);
    assert!(ra.try_recv().is_err());
    assert_eq!(ca.load(Ordering::SeqCst), 1);
    assert_eq!(cb.load(Ordering::SeqCst), 0);
}

#[test]
fn a_round_respects_labels_and_settles_failures() {
    let (mut a, ra, _ca, _sa) = worker(1);
    let (b, rb, _cb, _sb) = worker(5);
    a.label("render".to_string());
    let threads = vec![a, b];
    let mut pinned = task(1, TaskState::Ready);
    pinned.set_preferred_thread("render".to_string());
    let mut lost = task(2, TaskState::Ready);
    lost.set_preferred_thread("audio".to_string());
    let failed = task(3, TaskState::Panicked);
    let failed_state = failed.state();
    let round = dispatch_round(vec![pinned, lost, failed], &threads);
    assert_eq!(round.decisions, vec![Dispatch::Send(0), Dispatch::Unpin, Dispatch::FinishPanicked]);
    perform(round.actions, &threads);
    let kept = round.kept;
    assert_eq!(ra.try_recv().unwrap().execute().0, 1);
    assert!(rb.try_recv().is_err());
    assert_eq!(kept.len(), 1);
    assert!(kept[0].get_preferred_thread().is_none());
    assert_eq!(read(&failed_state), TaskState::Panicked);
}

#[test]
fn a_round_keeps_tasks_waiting_on_a_semaphore() {
    let (w, r, _c, _s) = worker(3);
    let semaphore = Arc::new(Semaphore::new());
    let mut t = task(4, TaskState::Ready);
    t.bind_semaphore(semaphore.clone(), SemaphoreUsage::Wait);
    let threads = vec![w];
    let round = dispatch_round(vec![t], &threads);
    assert_eq!(round.decisions, vec![Dispatch::Keep]);
    assert!(round.actions.is_empty());
    let kept = round.kept;
    assert_eq!(kept.len(), 1);
    assert!(r.try_recv().is_err());
    semaphore.signal();
    let round = dispatch_round(kept, &threads);
    perform(round.actions, &threads);
    assert!(round.kept.is_empty());
    assert_eq!(r.try_recv().unwrap().execute().0, 4);
}

#[test]
fn signal_finished_signals_everything() {
    let s1 = Arc::new(Semaphore::new());
    let s2 = Arc::new(Semaphore::new());
    let sig = signals();
    let fence_signal = Arc::new(Signal::new());
    signal_finished(&vec![s1.clone(), s2.clone()], &sig, &vec![fence_signal.clone()]);
    assert!(s1.ready() && s2.ready());
    assert!(sig[0].ready() && sig[1].ready());
    assert!(fence_signal.ready());
}

#[test]
fn finish_as_settles_a_task_without_running_it() {
    let mut t = task(1, TaskState::Ready);
    let after = Arc::new(Semaphore::new());
    t.bind_semaphore(after.clone(), SemaphoreUsage::Signal);
    let own = t.state();
    t.finish_as(TaskState::Cancelled);
    assert_eq!(read(&own), TaskState::Cancelled);
    assert!(after.ready());
}

#[test]
fn after_polled_keeps_pending_and_finishes_the_rest() {
    match after_polled(task(1, TaskState::Ready).start(), PollOutcome::Pending, false) {
        WorkerStep::Keep(r) => assert_eq!(r.job, 1),
        _ => panic!("a pending task is kept"),
    }
    match after_polled(task(2, TaskState::Ready).start(), PollOutcome::Ready, false) {
        WorkerStep::Finish { running, mark_panicked, release_worker } => {
            assert_eq!(running.job, 2);
            assert!(!mark_panicked && release_worker);
        }
        _ => panic!("a completed task is finished"),
    }
    match after_polled(task(3, TaskState::Ready).start(), PollOutcome::Panicked, false) {
        WorkerStep::Finish { running, mark_panicked, release_worker } => {
            assert_eq!(running.job, 3);
            assert!(mark_panicked && !release_worker);
        }
        _ => panic!("a panicked task is finished"),
    }
    match after_polled(task(4, TaskState::Ready).start(), PollOutcome::Pending, true) {
        WorkerStep::Finish { running, mark_panicked, release_worker } => {
            assert_eq!(running.job, 4);
            assert!(!mark_panicked && !release_worker);
        }
        _ => panic!("a cancelled pending task is finished"),
    }
}

#[test]
fn pin_all_makes_every_task_prefer_the_thread() {
    let pinned = pin_all(vec![task(1, TaskState::Ready), task(2, TaskState::Ready)], "net");
    assert_eq!(pinned.len(), 2);
    for t in &pinned {
        assert_eq!(t.get_preferred_thread().map(|l| l.as_str()), Some("net"));
    }
    let jobs: Vec<u32> = pinned.into_iter().map(|t| t.execute().0).collect();
    assert_eq!(jobs, vec![1, 2]);
}

#[test]
fn submitting_sends_in_order_and_wakes_the_queue() {
    let (sender, receiver) = unbounded();
    let signal = Arc::new(Signal::new());
    let queue = Queue::new(sender, signal.clone());
    assert!(queue.submit(task(1, TaskState::Ready)));
    assert!(signal.ready());
    assert!(queue.submit_all(vec![task(2, TaskState::Ready), task(3, TaskState::Ready)]));
    assert!(queue.submit_on(task(4, TaskState::Ready), "gpu"));
    assert!(queue.submit_all_on(vec![task(5, TaskState::Ready)], "cpu"));
    let got: Vec<(u32, Option<String>)> = receiver
        .try_iter()
        .map(|t| {
            let label = t.get_preferred_thread().cloned();
            (t.execute().0, label)
        })
        .collect();
    assert_eq!(
        got,
        vec![
            (1, None),
            (2, None),
            (3, None),
            (4, Some("gpu".to_string())),
            (5, Some("cpu".to_string())),
        ]
    );
}

#[test]
fn submitting_to_a_gone_queue_reports_it() {
    let (sender, receiver) = unbounded();
    drop(receiver);
    let signal = Arc::new(Signal::new());
    let queue = Queue::new(sender, signal.clone());
    assert!(!queue.submit(task(1, TaskState::Ready)));
    assert!(!queue.submit_all(vec![task(2, TaskState::Ready)]));
    assert!(!signal.ready());
}

fn controller() -> TaskController {
    TaskController::new(cell(TaskState::Pending), Arc::new(Signal::new()))
}

#[test]
fn submitting_a_command_buffer_sends_its_tasks_in_order() {
    let (sender, receiver) = unbounded();
    let queue = Queue::new(sender, Arc::new(Signal::new()));
    let mut first = CommandBuffer::new().ok().unwrap();
    first.add_task(task(1, TaskState::Ready), controller());
    first.chain_task(task(2, TaskState::Ready), controller());
    first.finish();
    let mut second = CommandBuffer::new().ok().unwrap();
    second.add_task(task(3, TaskState::Ready), controller());
    second.finish();
    let mut third = CommandBuffer::new().ok().unwrap();
    third.add_task(task(4, TaskState::Ready), controller());
    third.finish();
    assert!(queue.submit_command_buffer(first));
    assert!(queue.submit_command_buffers(vec![second, third]));
    let jobs: Vec<u32> = receiver.try_iter().map(|t| t.execute().0).collect();
    assert_eq!(jobs, vec![1, 2, 3, 4]);
}

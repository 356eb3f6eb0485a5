use mvsync::queue::{
    after_poll, dispatch, queue_should_sleep, receive_mode, schedule, worker_should_sleep, Dispatch, PollOutcome, Receive,
    TaskObservation, ThreadInfo, WorkerAction,
};

fn thread(label: Option<&str>, free: u32) -> ThreadInfo {
    ThreadInfo { label: label.map(|l| l.to_string()), free_workers: free }
}

fn ready_task(pref: Option<&str>) -> TaskObservation {
    TaskObservation {
        can_execute: true,
        panicked: false,
        cancelled: false,
        preferred_thread: pref.map(|l| l.to_string()),
    }
}

#[test]
fn waiting_task_is_kept() {
    let threads = vec![thread(None, 3)];
    let mut t = ready_task(None);
    t.can_execute = false;
    t.panicked = true;
    assert_eq!(dispatch(&t, &threads), Dispatch::Keep);
}

#[test]
fn panicked_and_cancelled_tasks_are_finished() {
    let threads = vec![thread(None, 3)];
    let mut t = ready_task(None);
    t.panicked = true;
    t.cancelled = true;
    assert_eq!(dispatch(&t, &threads), Dispatch::FinishPanicked);
    t.panicked = false;
    assert_eq!(dispatch(&t, &threads), Dispatch::FinishCancelled);
}

#[test]
fn ties_go_to_the_last_most_free_thread() {
    let threads = vec![thread(None, 2), thread(None, 5), thread(None, 5), thread(None, 1)];
    assert_eq!(dispatch(&ready_task(None), &threads), Dispatch::Send(2));
}

#[test]
fn preferred_label_goes_to_first_labelled_thread() {
    let threads = vec![thread(Some("io"), 0), thread(Some("gpu"), 1), thread(Some("gpu"), 4)];
    assert_eq!(dispatch(&ready_task(Some("gpu")), &threads), Dispatch::Send(1));
    assert_eq!(dispatch(&ready_task(Some("io")), &threads), Dispatch::Keep);
}

#[test]
fn unknown_label_is_forgotten() {
    let threads = vec![thread(Some("io"), 2)];
    assert_eq!(dispatch(&ready_task(Some("net")), &threads), Dispatch::Unpin);
}

#[test]
fn no_threads_keeps_the_task() {
    let threads: Vec<ThreadInfo> = Vec::new();
    assert_eq!(dispatch(&ready_task(None), &threads), Dispatch::Keep);
}

#[test]
fn a_round_uses_up_free_workers() {
    let mut threads = vec![thread(None, 1), thread(None, 2)];
    let tasks = vec![ready_task(None), ready_task(None), ready_task(None), ready_task(None)];
    let ds = schedule(&tasks, &mut threads);
    assert_eq!(ds, vec![Dispatch::Send(1), Dispatch::Send(1), Dispatch::Send(0), Dispatch::Keep]);
    assert_eq!(threads[0].free_workers, 0);
    assert_eq!(threads[1].free_workers, 0);
}

#[test]
fn worker_decisions() {
    assert_eq!(after_poll(PollOutcome::Pending, false), WorkerAction::Keep);
    assert_eq!(
        after_poll(PollOutcome::Pending, true),
        WorkerAction::Finish { mark_panicked: false, release_worker: false }
    );
    assert_eq!(
        after_poll(PollOutcome::Panicked, false),
        WorkerAction::Finish { mark_panicked: true, release_worker: false }
    );
    assert_eq!(
        after_poll(PollOutcome::Ready, true),
        WorkerAction::Finish { mark_panicked: false, release_worker: true }
    );
}

#[test]
fn a_round_keeps_waiting_tasks_among_ready_ones() {
    let mut threads = vec![thread(None, 5)];
    let mut waiting = ready_task(None);
    waiting.can_execute = false;
    let mut waiting_pinned = ready_task(Some("io"));
    waiting_pinned.can_execute = false;
    let tasks = vec![waiting, ready_task(None), waiting_pinned];
    let ds = schedule(&tasks, &mut threads);
    assert_eq!(ds, vec![Dispatch::Keep, Dispatch::Send(0), Dispatch::Keep]);
    assert_eq!(threads[0].free_workers, 4);
}

#[test]
fn a_ready_task_finds_the_one_free_worker() {
    let threads = vec![thread(None, 0), thread(Some("gpu"), 0), thread(None, 1), thread(None, 0)];
    assert_eq!(dispatch(&ready_task(None), &threads), Dispatch::Send(2));
    let threads = vec![thread(Some("gpu"), 2), thread(Some("gpu"), 0)];
    assert_eq!(dispatch(&ready_task(Some("gpu")), &threads), Dispatch::Send(0));
}

#[test]
fn threads_block_only_when_they_hold_nothing_and_sleep_while_stuck() {
    assert_eq!(receive_mode(0), Receive::Block);
    assert_eq!(receive_mode(3), Receive::Drain);
    assert!(queue_should_sleep(1));
    assert!(!queue_should_sleep(0));
    assert!(worker_should_sleep(2, true));
    assert!(!worker_should_sleep(2, false));
    assert!(!worker_should_sleep(0, true));
}

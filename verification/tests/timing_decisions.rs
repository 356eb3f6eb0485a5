use mvsync::clock::{tick_due, wait_plan, Clock, ClockWait};
use mvsync::timer::{timer_step, Sleep, SleepPoll, TimerAction, TimerQueue};
use mvsync::utils::{async_yield, Yield};

#[test]
fn a_disabled_clock_is_never_ready() {
    let mut c = Clock::new_disabled(60);
    assert!(!c.is_enabled());
    assert!(!c.ready());
    assert_eq!(c.begin_wait(), ClockWait::Disabled);
    c.enable();
    assert!(c.is_enabled());
    c.disable();
    assert!(!c.is_enabled());
}

#[test]
fn a_fresh_slow_clock_is_not_ready() {
    let mut c = Clock::new(1);
    assert!(c.is_enabled());
    assert!(!c.ready());
    c.tick();
    assert!(matches!(c.begin_wait(), ClockWait::Sleep(_)));
}

#[test]
fn ticks_are_due_after_their_length() {
    assert!(tick_due(16_666_000, 16_666));
    assert!(!tick_due(16_665_999, 16_666));
    assert_eq!(wait_plan(false, 0, 10), ClockWait::Disabled);
    assert_eq!(wait_plan(true, 10_000, 10), ClockWait::Ticked);
    assert_eq!(wait_plan(true, 4_000, 10), ClockWait::Sleep(6_000));
}

#[test]
fn a_sleep_registers_then_waits_for_its_instant() {
    let mut s = Sleep::new(100);
    assert!(!s.started());
    assert_eq!(s.poll_step(1_000), SleepPoll::Register(1_100));
    assert!(s.started());
    assert_eq!(s.poll_step(1_099), SleepPoll::Pending);
    assert_eq!(s.poll_step(1_100), SleepPoll::Ready);
}

#[test]
fn the_timer_queue_hands_out_the_earliest_first() {
    let mut q: TimerQueue<&str> = TimerQueue::new();
    assert_eq!(q.peek(), None);
    assert_eq!(q.pop(), None);
    q.push(30, "c");
    q.push(10, "a");
    q.push(20, "b");
    assert_eq!(q.len(), 3);
    assert_eq!(q.peek(), Some(10));
    assert_eq!(q.pop(), Some((10, "a")));
    assert_eq!(q.pop(), Some((20, "b")));
    assert_eq!(q.pop(), Some((30, "c")));
    assert_eq!(q.len(), 0);
}

#[test]
fn the_timer_fires_waits_or_idles() {
    assert_eq!(timer_step(Some(5), 7), TimerAction::Fire);
    assert_eq!(timer_step(Some(5), 5), TimerAction::Fire);
    assert_eq!(timer_step(Some(9), 5), TimerAction::WaitFor(4));
    assert_eq!(timer_step(None, 5), TimerAction::WaitIdle);
}

#[test]
fn a_yield_gives_way_once() {
    let mut y: Yield = async_yield();
    assert!(!y.poll_step());
    assert!(y.poll_step());
    assert!(y.poll_step());
    let mut z = Yield::new();
    assert!(!z.poll_step());
}

struct NoWake;

impl std::task::Wake for NoWake {
    fn wake(self: std::sync::Arc<Self>) {}
}

fn poll_once<F: std::future::Future + Unpin>(f: &mut F) -> bool {
    let waker = std::task::Waker::from(std::sync::Arc::new(NoWake));
    let mut cx = std::task::Context::from_waker(&waker);
    std::pin::Pin::new(f).poll(&mut cx).is_ready()
}

#[test]
fn a_sleep_completes_after_its_duration() {
    let start = std::time::Instant::now();
    let mut long = mvsync::utils::async_sleep(std::time::Duration::from_secs(60));
    assert!(!poll_once(&mut long));
    let mut short = mvsync::utils::async_sleep_ms(5);
    let mut done = poll_once(&mut short);
    while !done && start.elapsed() < std::time::Duration::from_secs(10) {
        done = poll_once(&mut short);
    }
    assert!(done);
    assert!(start.elapsed() >= std::time::Duration::from_millis(5));
    assert!(!poll_once(&mut long));
}

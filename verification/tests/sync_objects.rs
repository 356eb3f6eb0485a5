use std::sync::Arc;
use std::task::{Wake, Waker};

use mvsync::block::{Signal, SignalFuture, SignalPoll};
use mvsync::sync::{fence_answer, Fence, FenceError, Semaphore};

struct Noop;

impl Wake for Noop {
    fn wake(self: Arc<Self>) {}
}

#[test]
fn a_signal_is_raised_and_consumed() {
    let s = Signal::new();
    assert!(!s.ready());
    s.wake();
    assert!(s.ready());
    s.wait();
    assert!(!s.ready());
}

#[test]
fn a_signal_future_registers_once() {
    let s = Signal::new();
    let mut f = SignalFuture::new(&s);
    assert!(!f.started());
    assert_eq!(f.step(false), SignalPoll::Register);
    assert!(f.started());
    assert_eq!(f.step(false), SignalPoll::Pending);
    assert_eq!(f.step(true), SignalPoll::Ready);
}

#[test]
fn a_signal_future_completes_after_wake() {
    let s = Signal::new();
    let mut f = SignalFuture::new(&s);
    let waker = Waker::from(Arc::new(Noop));
    assert!(!f.poll_ready(waker.clone()));
    s.wake();
    assert!(f.poll_ready(waker));
}

#[test]
fn a_semaphore_stays_signaled() {
    let s = Semaphore::new();
    assert!(!s.ready());
    s.signal();
    assert!(s.ready());
    s.signal();
    assert!(s.ready());
}

#[test]
fn semaphores_and_fences_differ_by_id() {
    let a = Semaphore::new();
    let b = Semaphore::new();
    assert!(a != b);
    assert!(a == a);
    assert_ne!(a.id(), b.id());
    let f = Fence::new();
    let g = Fence::new();
    assert!(f != g);
    assert_ne!(f.id(), g.id());
}

#[test]
fn a_fence_opens_when_its_signal_is_raised() {
    let f = Fence::new();
    f.mark_bound();
    assert_eq!(f.ready(), Ok(false));
    f.signal().wake();
    assert_eq!(f.ready(), Ok(true));
    assert_eq!(f.wait(), Ok(()));
}

#[test]
fn an_unbound_fence_cannot_be_checked() {
    let f = Fence::new();
    assert!(!f.is_bound());
    assert_eq!(f.ready(), Err(FenceError::Unbound));
    assert_eq!(f.wait(), Err(FenceError::Unbound));
    assert_eq!(FenceError::Unbound.message(), "Checking unbound fence!");
    assert_eq!(fence_answer(false, true), Err(FenceError::Unbound));
    assert_eq!(fence_answer(true, false), Ok(false));
    assert_eq!(fence_answer(true, true), Ok(true));
}

#[test]
fn semaphores_made_directly_have_key_zero() {
    assert_eq!(Semaphore::new().key(), 0);
}

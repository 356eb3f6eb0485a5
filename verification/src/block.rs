//! The blocking signal that tasks use to announce that they finished, and the decision that a
//! future waiting on such a signal takes each time it is polled.
use vstd::prelude::*;
use std::sync::{Condvar, Mutex};
use std::task::Waker;
use crate::shared::{
    condvar_new, condvar_notify_all, condvar_wait_while, guard_set, mutex_lock, mutex_new, mutex_push,
    mutex_read, mutex_replace, waker_wake,
};

verus! {

/// A one-shot, resettable flag that threads can block on and futures can await.
///
/// `wake` raises the flag and wakes everything that waits on it; `wait` blocks until the flag
/// is raised and lowers it again.
pub struct Signal {
    ready: Mutex<bool>,
    condition: Condvar,
    wakers: Mutex<Vec<Waker>>,
}

impl Signal {
    /// A lowered signal with nobody waiting on it.
    pub fn new() -> (s: Signal) {
        let wakers: Vec<Waker> = Vec::with_capacity(1);
        Signal { ready: mutex_new(false), condition: condvar_new(), wakers: mutex_new(wakers) }
    }

    /// Whether the flag is raised. Other threads raise and lower it, so the answer is a
    /// snapshot.
    pub fn ready(&self) -> (r: bool) {
        mutex_read(&self.ready)
    }

    /// Blocks the current thread until the flag is raised, then lowers it.
    pub fn wait(&self) {
        let guard = mutex_lock(&self.ready);
        let mut guard = condvar_wait_while(&self.condition, guard);
        guard_set(&mut guard, false);
    }

    /// Raises the flag, wakes every future registered on it, in the order they registered, and
    /// every blocked thread.
    pub fn wake(&self) {
        let _ = mutex_replace(&self.ready, true);
        let wakers = mutex_replace(&self.wakers, Vec::new());
        let n = wakers.len();
        let mut wakers = wakers;
        let mut i: usize = 0;
        while i < n
            invariant
                i <= n,
                wakers.len() == n - i,
            decreases n - i,
        {
            let w = wakers.remove(0);
            waker_wake(w);
            i = i + 1;
        }
        condvar_notify_all(&self.condition);
    }

    /// Registers a waker that the next `wake` wakes.
    pub fn register(&self, waker: Waker) {
        mutex_push(&self.wakers, waker)
    }
}

/// Whether a thread blocked on a signal keeps waiting, given whether the flag is raised: it
/// waits while the flag is lowered.
pub fn still_waiting(ready: bool) -> (r: bool)
    ensures
        r == !ready,
{
    !ready
}

/// What a future that waits on a [`Signal`] does when it is polled.
#[derive(PartialEq, Eq, Structural, Clone, Copy, Debug)]
pub enum SignalPoll {
    /// The signal is raised: the future completes.
    Ready,
    /// First poll of a future whose signal is lowered: register the waker and stay pending.
    Register,
    /// A later poll of a future whose signal is lowered: stay pending.
    Pending,
}

/// The state of a future that waits on a [`Signal`]: whether it registered its waker yet.
pub struct SignalFuture<'a> {
    signal: &'a Signal,
    started: bool,
}

impl<'a> SignalFuture<'a> {
    /// A future on `signal` that has not been polled yet.
    pub fn new(signal: &'a Signal) -> (f: SignalFuture<'a>)
        ensures
            !f.is_started(),
            f.spec_signal() == signal,
    {
        SignalFuture { signal, started: false }
    }

    pub closed spec fn is_started(&self) -> bool {
        self.started
    }

    /// The signal the future waits on.
    pub closed spec fn spec_signal(&self) -> &'a Signal {
        self.signal
    }

    /// Whether the future has registered its waker.
    pub fn started(&self) -> (r: bool)
        ensures
            r == self.is_started(),
    {
        self.started
    }

    /// The decision of one poll, given whether the signal was seen raised: complete when it
    /// is, register once otherwise. The future is marked started exactly when it registers.
    pub fn step(&mut self, ready: bool) -> (p: SignalPoll)
        ensures
            p == (if ready {
                SignalPoll::Ready
            } else if !old(self).is_started() {
                SignalPoll::Register
            } else {
                SignalPoll::Pending
            }),
            final(self).is_started() == (old(self).is_started() || !ready),
            final(self).spec_signal() == old(self).spec_signal(),
    {
        if ready {
            SignalPoll::Ready
        } else if !self.started {
            self.started = true;
            SignalPoll::Register
        } else {
            SignalPoll::Pending
        }
    }

    /// Polls the future once: completes when the signal is raised; on the first pending poll
    /// it registers `waker` on the signal. A signal raised while the waker was being registered
    /// is seen by a second look, so no wake-up is lost.
    pub fn poll_ready(&mut self, waker: Waker) -> (done: bool)
        ensures
            final(self).spec_signal() == old(self).spec_signal(),
            old(self).is_started() ==> final(self).is_started(),
            !done ==> final(self).is_started(),
    {
        let ready = self.signal.ready();
        match self.step(ready) {
            SignalPoll::Ready => true,
            SignalPoll::Register => {
                self.signal.register(waker);
                self.signal.ready()
            },
            SignalPoll::Pending => false,
        }
    }
}

} // verus!

//! Sleeping futures and the timer that wakes them.
//!
//! Instants are counted in nanoseconds from a fixed instant that the timer chooses; the
//! timer thread, its lock and its condition variable live with the runtime that drives these
//! decisions.
use vstd::prelude::*;

verus! {

/// What a sleeping future does when it is polled.
#[derive(PartialEq, Eq, Structural, Clone, Copy, Debug)]
pub enum SleepPoll {
    /// First poll: register with the timer to be woken at this instant, and stay pending.
    Register(u128),
    /// The instant to wake up has come: the future completes.
    Ready,
    /// The instant to wake up has not come yet: stay pending.
    Pending,
}

/// A future that completes once a duration has passed after it was first polled.
pub struct Sleep {
    duration: u128,
    when: u128,
    started: bool,
}

impl Sleep {
    pub closed spec fn duration(&self) -> u128 {
        self.duration
    }

    pub closed spec fn wake_at(&self) -> u128 {
        self.when
    }

    pub closed spec fn is_started(&self) -> bool {
        self.started
    }

    /// A sleep of `duration` nanoseconds that has not started yet.
    pub fn new(duration: u128) -> (s: Sleep)
        ensures
            s.duration() == duration,
            !s.is_started(),
    {
        Sleep { duration, when: 0, started: false }
    }

    /// Whether the sleep has started, i.e. was polled once.
    pub fn started(&self) -> (r: bool)
        ensures
            r == self.is_started(),
    {
        self.started
    }

    /// One poll at instant `now`: the first poll fixes the instant to wake up at, `now` plus
    /// the duration, and asks to be registered with the timer; later polls complete once that
    /// instant has come.
    pub fn poll_step(&mut self, now: u128) -> (p: SleepPoll)
        requires
            !old(self).is_started() ==> now + old(self).duration() <= u128::MAX,
        ensures
            final(self).is_started(),
            final(self).duration() == old(self).duration(),
            !old(self).is_started() ==> final(self).wake_at() == now + old(self).duration() && p
                == SleepPoll::Register(final(self).wake_at()),
            old(self).is_started() ==> final(self).wake_at() == old(self).wake_at() && p == (if now
                >= old(self).wake_at() {
                SleepPoll::Ready
            } else {
                SleepPoll::Pending
            }),
    {
        if !self.started {
            self.when = now + self.duration;
            self.started = true;
            SleepPoll::Register(self.when)
        } else if now >= self.when {
            SleepPoll::Ready
        } else {
            SleepPoll::Pending
        }
    }
}

/// The wakers waiting for their instants, `W` being what wakes a sleeping future. It hands
/// them out earliest instant first.
#[verifier::reject_recursive_types(W)]
pub struct TimerQueue<W> {
    entries: Vec<(u128, W)>,
}

/// `t` is the earliest instant in `entries`.
pub open spec fn is_earliest<W>(entries: Seq<(u128, W)>, t: u128) -> bool {
    &&& exists|i: int| 0 <= i < entries.len() && (#[trigger] entries[i]).0 == t
    &&& forall|j: int| 0 <= j < entries.len() ==> t <= (#[trigger] entries[j]).0
}

impl<W> View for TimerQueue<W> {
    type V = Seq<(u128, W)>;

    closed spec fn view(&self) -> Seq<(u128, W)> {
        self.entries@
    }
}

impl<W> TimerQueue<W> {
    /// An empty queue.
    pub fn new() -> (q: TimerQueue<W>)
        ensures
            q@.len() == 0,
    {
        TimerQueue { entries: Vec::new() }
    }

    /// How many wakers wait.
    pub fn len(&self) -> (r: usize)
        ensures
            r == self@.len(),
    {
        self.entries.len()
    }

    /// Adds a waker to wake at instant `when`.
    pub fn push(&mut self, when: u128, waker: W)
        ensures
            final(self)@ == old(self)@.push((when, waker)),
    {
        self.entries.push((when, waker));
    }

    /// The index of an entry with the earliest instant.
    fn earliest_index(&self) -> (r: usize)
        requires
            self@.len() > 0,
        ensures
            r < self@.len(),
            forall|j: int| 0 <= j < self@.len() ==> self@[r as int].0 <= (#[trigger] self@[j]).0,
    {
        let mut best: usize = 0;
        let mut i: usize = 1;
        while i < self.entries.len()
            invariant
                1 <= i <= self@.len(),
                best < i,
                forall|j: int| 0 <= j < i ==> self@[best as int].0 <= (#[trigger] self@[j]).0,
            decreases self@.len() - i,
        {
            if self.entries[i].0 < self.entries[best].0 {
                best = i;
            }
            i = i + 1;
        }
        best
    }

    /// The earliest instant a waker waits for, if any waker waits.
    pub fn peek(&self) -> (r: Option<u128>)
        ensures
            match r {
                Some(t) => is_earliest(self@, t),
                None => self@.len() == 0,
            },
    {
        if self.entries.len() == 0 {
            return None;
        }
        let i = self.earliest_index();
        let t = self.entries[i].0;
        assert(self@[i as int].0 == t);
        Some(t)
    }

    /// Takes out a waker with the earliest instant, if any waker waits.
    pub fn pop(&mut self) -> (r: Option<(u128, W)>)
        ensures
            match r {
                Some(e) => exists|i: int|
                    0 <= i < old(self)@.len() && #[trigger] old(self)@[i] == e && final(self)@ == old(
                        self,
                    )@.remove(i) && is_earliest(old(self)@, e.0),
                None => old(self)@.len() == 0 && final(self)@.len() == 0,
            },
    {
        if self.entries.len() == 0 {
            return None;
        }
        let i = self.earliest_index();
        let e = self.entries.remove(i);
        assert(old(self)@[i as int] == e);
        Some(e)
    }
}

/// The timer hands wakers out in the order of their instants: once an entry with the
/// earliest instant is taken out, no entry left waits for an earlier instant, so the next
/// one taken out (with nothing added in between) waits for the same instant or a later one.
pub proof fn law_pops_come_in_order<W>(entries: Seq<(u128, W)>, i: int, first: u128, next: u128)
    requires
        0 <= i < entries.len(),
        entries[i].0 == first,
        is_earliest(entries, first),
        is_earliest(entries.remove(i), next),
    ensures
        first <= next,
{
    let rest = entries.remove(i);
    let j = choose|j: int| 0 <= j < rest.len() && (#[trigger] rest[j]).0 == next;
    if j < i {
        assert(rest[j] == entries[j]);
    } else {
        assert(rest[j] == entries[j + 1]);
    }
}

/// What the timer thread does next.
#[derive(PartialEq, Eq, Structural, Clone, Copy, Debug)]
pub enum TimerAction {
    /// Take out the earliest waker and wake it.
    Fire,
    /// Wait this many nanoseconds, or until a waker is added.
    WaitFor(u128),
    /// Wait until a waker is added.
    WaitIdle,
}

/// The decision of the timer thread, from the earliest instant a waker waits for and the
/// current instant: wake it if its instant has come, otherwise wait until it comes; with no
/// waker, wait for one.
pub fn timer_step(next: Option<u128>, now: u128) -> (a: TimerAction)
    ensures
        a == match next {
            Some(t) => if now >= t {
                TimerAction::Fire
            } else {
                TimerAction::WaitFor((t - now) as u128)
            },
            None => TimerAction::WaitIdle,
        },
{
    match next {
        Some(t) => if now >= t {
            TimerAction::Fire
        } else {
            TimerAction::WaitFor(t - now)
        },
        None => TimerAction::WaitIdle,
    }
}

} // verus!

//! A clock that ticks a fixed number of times per second.
use vstd::prelude::*;
use std::time::Instant;
use crate::shared::{elapsed_nanos, instant_now};

verus! {

/// The length of one tick, in microseconds, of a clock that ticks `tps` times per second.
pub open spec fn tick_length(tps: u16) -> u64 {
    (1_000_000int / (tps as int)) as u64
}

/// Whether a tick is due once `elapsed` nanoseconds have passed since the last one.
pub open spec fn is_due(elapsed: u128, tick_micros: u64) -> bool {
    elapsed >= tick_micros as int * 1000
}

/// What waiting for the next tick takes.
#[derive(PartialEq, Eq, Structural, Clone, Copy, Debug)]
pub enum ClockWait {
    /// The clock is disabled: there is nothing to wait for.
    Disabled,
    /// The tick was due: the clock ticked at once.
    Ticked,
    /// The tick is due in this many nanoseconds; tick once they have passed.
    Sleep(u128),
}

/// A clock that ticks `tps` times per second while it is enabled.
pub struct Clock {
    last_tick: Instant,
    tick: u64,
    enabled: bool,
}

impl Clock {
    /// The length of one tick, in microseconds.
    pub closed spec fn tick_micros(&self) -> u64 {
        self.tick
    }

    pub closed spec fn enabled(&self) -> bool {
        self.enabled
    }

    /// The instant of the last tick.
    pub closed spec fn last_tick(&self) -> Instant {
        self.last_tick
    }

    /// An enabled clock ticking `tps` times per second, whose last tick is now.
    pub fn new(tps: u16) -> (c: Clock)
        requires
            tps > 0,
        ensures
            c.enabled(),
            c.tick_micros() == tick_length(tps),
    {
        Clock { last_tick: instant_now(), tick: 1_000_000 / tps as u64, enabled: true }
    }

    /// A disabled clock ticking `tps` times per second once enabled, whose last tick is now.
    pub fn new_disabled(tps: u16) -> (c: Clock)
        requires
            tps > 0,
        ensures
            !c.enabled(),
            c.tick_micros() == tick_length(tps),
    {
        Clock { last_tick: instant_now(), tick: 1_000_000 / tps as u64, enabled: false }
    }

    /// Whether the clock is enabled.
    pub fn is_enabled(&self) -> (r: bool)
        ensures
            r == self.enabled(),
    {
        self.enabled
    }

    /// Enables the clock.
    pub fn enable(&mut self)
        ensures
            final(self).enabled(),
            final(self).tick_micros() == old(self).tick_micros(),
            final(self).last_tick() == old(self).last_tick(),
    {
        self.enabled = true;
    }

    /// Disables the clock.
    pub fn disable(&mut self)
        ensures
            !final(self).enabled(),
            final(self).tick_micros() == old(self).tick_micros(),
            final(self).last_tick() == old(self).last_tick(),
    {
        self.enabled = false;
    }

    /// Whether the next tick is due: the clock is enabled and a tick length has passed since
    /// the last tick (judged by [`tick_due`] on the time that passed).
    pub fn ready(&self) -> (r: bool)
        ensures
            !self.enabled() ==> !r,
    {
        if !self.enabled {
            return false;
        }
        tick_due(elapsed_nanos(&self.last_tick), self.tick)
    }

    /// Ticks the clock: an enabled clock's last tick becomes now; a disabled clock is left
    /// as it is.
    pub fn tick(&mut self)
        ensures
            final(self).enabled() == old(self).enabled(),
            final(self).tick_micros() == old(self).tick_micros(),
            !old(self).enabled() ==> final(self).last_tick() == old(self).last_tick(),
    {
        if !self.enabled {
            return ;
        }
        self.last_tick = instant_now();
    }

    /// Starts waiting for the next tick (judged by [`wait_plan`] on the time that passed):
    /// a disabled clock does nothing; a clock whose tick is due ticks at once; otherwise the
    /// caller sleeps for the time that is left and then ticks the clock.
    pub fn begin_wait(&mut self) -> (w: ClockWait)
        ensures
            final(self).enabled() == old(self).enabled(),
            final(self).tick_micros() == old(self).tick_micros(),
            !old(self).enabled() ==> w == ClockWait::Disabled && final(self).last_tick() == old(
                self,
            ).last_tick(),
            old(self).enabled() ==> w != ClockWait::Disabled,
            w is Sleep ==> final(self).last_tick() == old(self).last_tick(),
    {
        let w = if self.enabled {
            wait_plan(true, elapsed_nanos(&self.last_tick), self.tick)
        } else {
            ClockWait::Disabled
        };
        if w == ClockWait::Ticked {
            self.last_tick = instant_now();
        }
        w
    }
}

/// Whether a tick is due once `elapsed` nanoseconds have passed since the last one, for ticks
/// of `tick_micros` microseconds.
pub fn tick_due(elapsed: u128, tick_micros: u64) -> (r: bool)
    ensures
        r == is_due(elapsed, tick_micros),
{
    elapsed >= tick_micros as u128 * 1000
}

/// What waiting for the next tick takes, once `elapsed` nanoseconds have passed since the last
/// one: nothing for a disabled clock, an immediate tick when the tick is due, and otherwise a
/// sleep for the rest of the tick.
pub fn wait_plan(enabled: bool, elapsed: u128, tick_micros: u64) -> (w: ClockWait)
    ensures
        w == (if !enabled {
            ClockWait::Disabled
        } else if is_due(elapsed, tick_micros) {
            ClockWait::Ticked
        } else {
            ClockWait::Sleep((tick_micros as int * 1000 - elapsed) as u128)
        }),
{
    if !enabled {
        ClockWait::Disabled
    } else if tick_due(elapsed, tick_micros) {
        ClockWait::Ticked
    } else {
        ClockWait::Sleep(tick_micros as u128 * 1000 - elapsed)
    }
}

} // verus!

//! Small async utilities.
use vstd::prelude::*;
use std::time::Duration;
use futures_timer::Delay;

verus! {

#[verifier::external_type_specification]
#[verifier::external_body]
pub struct ExDelay(Delay);

/// A future that completes once `duration` has passed: this calls
/// `futures_timer::Delay::new`, whose timer runs on a helper thread of that crate. Nothing is
/// proved of it.
#[verifier::external_body]
pub fn async_sleep(duration: Duration) -> (d: Delay) {
    Delay::new(duration)
}

/// Calls `std::time::Duration::from_millis`; the duration is opaque to the proofs.
#[verifier::external_body]
fn duration_from_millis(ms: u64) -> (d: Duration) {
    Duration::from_millis(ms)
}

/// A future that completes once `ms` milliseconds have passed.
pub fn async_sleep_ms(ms: u64) -> (d: Delay) {
    async_sleep(duration_from_millis(ms))
}

/// A future that gives way to other futures once: its first poll wakes it again and stays
/// pending, its second poll completes.
pub struct Yield {
    set: bool,
}

impl Yield {
    pub closed spec fn is_set(&self) -> bool {
        self.set
    }

    /// A future that has not given way yet.
    pub fn new() -> (y: Yield)
        ensures
            !y.is_set(),
    {
        Yield { set: false }
    }

    /// One poll: completes if the future already gave way; otherwise it gives way now (the
    /// caller wakes it again) and stays pending.
    pub fn poll_step(&mut self) -> (ready: bool)
        ensures
            ready == old(self).is_set(),
            final(self).is_set(),
    {
        if self.set {
            true
        } else {
            self.set = true;
            false
        }
    }
}

/// A future that gives way to the other futures of its thread once before it completes.
pub fn async_yield() -> (y: Yield)
    ensures
        !y.is_set(),
{
    Yield::new()
}

} // verus!

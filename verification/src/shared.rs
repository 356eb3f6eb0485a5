//! Thin access to the process-wide pieces that the runtime shares between threads:
//! locks, condition variables, wakers, the monotonic clock and the global id counter.
//!
//! Everything read through these items may be changed by another thread at any time, so
//! their contracts promise nothing about the values they hand back; the decisions that the
//! runtime takes on such values are made by verified functions that take them as arguments.
use vstd::prelude::*;
use std::sync::{Condvar, Mutex, MutexGuard, RwLock};
use std::task::Waker;
use std::time::Instant;
use mvutils::utils::Recover;
use crossbeam_channel::Sender;

verus! {

#[verifier::external_type_specification]
#[verifier::external_body]
#[verifier::reject_recursive_types(T)]
pub struct ExRwLock<T: ?Sized>(RwLock<T>);

#[verifier::external_type_specification]
#[verifier::external_body]
#[verifier::reject_recursive_types(T)]
pub struct ExMutex<T: ?Sized>(Mutex<T>);

#[verifier::external_type_specification]
#[verifier::external_body]
#[verifier::reject_recursive_types(T)]
pub struct ExMutexGuard<'a, T: ?Sized + 'a>(MutexGuard<'a, T>);

#[verifier::external_type_specification]
#[verifier::external_body]
pub struct ExCondvar(Condvar);

#[verifier::external_type_specification]
#[verifier::external_body]
#[verifier::reject_recursive_types(T)]
pub struct ExSender<T>(Sender<T>);

#[verifier::external_type_specification]
#[verifier::external_body]
pub struct ExWaker(Waker);

#[verifier::external_type_specification]
#[verifier::external_body]
pub struct ExInstant(Instant);

/// Calls `mvutils::utils::next_id("MVSync")`, the process-wide counter that numbers every
/// runtime object. The value depends on how many ids were handed out before, so nothing is
/// promised of it.
#[verifier::external_body]
pub(crate) fn next_id() -> (id: u64) {
    mvutils::utils::next_id("MVSync")
}

/// Calls `std::sync::RwLock::new`; the lock is opaque to the proofs.
#[verifier::external_body]
pub(crate) fn cell_new<T>(value: T) -> (cell: RwLock<T>) {
    RwLock::new(value)
}

/// Calls `std::sync::RwLock::read` (a poisoned lock is recovered with `mvutils`' `Recover`)
/// and copies the value out. Other threads write the cell, so nothing is promised of it.
#[verifier::external_body]
pub(crate) fn cell_read<T: Copy>(cell: &RwLock<T>) -> (value: T) {
    *cell.read().recover()
}

/// Calls `std::sync::RwLock::write` (recovering a poisoned lock) and stores `value`.
#[verifier::external_body]
pub(crate) fn cell_write<T>(cell: &RwLock<T>, value: T) {
    *cell.write().recover() = value;
}

/// Calls `std::sync::RwLock::write` (recovering a poisoned lock) and takes the value out,
/// leaving `None`. Other threads fill the cell, so nothing is promised of the value.
#[verifier::external_body]
pub(crate) fn cell_take<T>(cell: &RwLock<Option<T>>) -> (value: Option<T>) {
    cell.write().recover().take()
}

/// Calls `std::sync::Mutex::new`; the mutex is opaque to the proofs.
#[verifier::external_body]
pub(crate) fn mutex_new<T>(value: T) -> (m: Mutex<T>) {
    Mutex::new(value)
}

/// Calls `std::sync::Mutex::lock` (recovering a poisoned lock) and copies the value out.
/// Other threads write the mutex, so nothing is promised of it.
#[verifier::external_body]
pub(crate) fn mutex_read<T: Copy>(m: &Mutex<T>) -> (value: T) {
    *m.lock().recover()
}

/// Calls `std::sync::Mutex::lock` (recovering a poisoned lock) and replaces the value by
/// `value`, handing back the value it held, of which nothing is promised.
#[verifier::external_body]
pub(crate) fn mutex_replace<T>(m: &Mutex<T>, value: T) -> (previous: T) {
    std::mem::replace(&mut *m.lock().recover(), value)
}

/// Calls `std::sync::Mutex::lock` (recovering a poisoned lock) and pushes `value` onto the
/// vector it guards.
#[verifier::external_body]
pub(crate) fn mutex_push<T>(m: &Mutex<Vec<T>>, value: T) {
    m.lock().recover().push(value)
}

/// Calls `crossbeam_channel::Sender::send`. On an unbounded channel it never blocks; it fails
/// only when every receiver of the channel was dropped, and then hands the message back, which
/// this returns. Whether the receivers are still alive depends on other threads, so nothing
/// is promised of which way it goes.
#[verifier::external_body]
pub(crate) fn channel_send<T>(sender: &Sender<T>, msg: T) -> (returned: Option<T>)
    ensures
        returned matches Some(m) ==> m == msg,
{
    match sender.send(msg) {
        Ok(()) => None,
        Err(e) => Some(e.0),
    }
}

/// Calls `std::sync::Condvar::new`.
#[verifier::external_body]
pub(crate) fn condvar_new() -> (c: Condvar) {
    Condvar::new()
}

/// Calls `std::sync::Mutex::lock` (recovering a poisoned lock) and hands out the guard; the
/// lock is held until the guard is dropped.
#[verifier::external_body]
pub(crate) fn mutex_lock<'a, T>(m: &'a Mutex<T>) -> (guard: MutexGuard<'a, T>) {
    m.lock().recover()
}

/// Calls `std::sync::Condvar::wait_while` on `guard`, waiting while the library's
/// `still_waiting` says so of the guarded flag (recovering a poisoned lock), and hands the
/// guard back. The flag is set by other threads, so nothing is promised of it.
#[verifier::external_body]
pub(crate) fn condvar_wait_while<'a>(c: &Condvar, guard: MutexGuard<'a, bool>) -> (back: MutexGuard<'a, bool>) {
    c.wait_while(guard, |ready| crate::block::still_waiting(*ready)).recover()
}

/// Writes `value` through `guard` (`std::ops::DerefMut::deref_mut` of `MutexGuard`).
#[verifier::external_body]
pub(crate) fn guard_set<'a, T>(guard: &mut MutexGuard<'a, T>, value: T) {
    **guard = value;
}

/// Calls `std::sync::Condvar::notify_all`.
#[verifier::external_body]
pub(crate) fn condvar_notify_all(c: &Condvar) {
    c.notify_all()
}

/// Calls `std::task::Waker::wake`.
#[verifier::external_body]
pub(crate) fn waker_wake(w: Waker) {
    w.wake()
}

/// Calls `std::time::Instant::now`; the instant is opaque to the proofs.
#[verifier::external_body]
pub(crate) fn instant_now() -> (now: Instant) {
    Instant::now()
}

/// Calls `std::time::Instant::elapsed` and converts the duration with `as_nanos`. The value
/// depends on the clock, so nothing is promised of it.
#[verifier::external_body]
pub(crate) fn elapsed_nanos(since: &Instant) -> (nanos: u128) {
    since.elapsed().as_nanos()
}

} // verus!

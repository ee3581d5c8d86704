//! The outside items the mock relies on: std's clock and durations, the
//! tokio-timer wheel that sleeps, and futures tasks that get woken.
use crate::mock::InTask;
use crate::script::MAX_NANOS;
use futures::task::Task;
use futures::Future;
use std::time::{Duration, Instant};
use tokio_timer::{Sleep, Timer, TimerError};
use vstd::prelude::*;

verus! {

#[verifier::external_type_specification]
#[verifier::external_body]
pub struct ExInstant(Instant);

#[verifier::external_type_specification]
#[verifier::external_body]
pub struct ExTimer(Timer);

#[verifier::external_type_specification]
#[verifier::external_body]
pub struct ExSleep(Sleep);

#[verifier::external_type_specification]
#[verifier::external_body]
pub struct ExTimerError(TimerError);

#[verifier::external_type_specification]
#[verifier::external_body]
pub struct ExTask(Task);

/// The length of a `Duration` in whole nanoseconds.
pub uninterp spec fn nanos_of(d: Duration) -> nat;

/// `Duration::as_nanos` returns the total number of nanoseconds in the
/// duration; no duration exceeds `Duration::MAX` (u64::MAX seconds and
/// 999,999,999 nanoseconds).
pub assume_specification[ Duration::as_nanos ](d: &Duration) -> (n: u128)
    ensures
        n == nanos_of(*d),
        n <= MAX_NANOS,
;

/// `Duration::from_nanos` builds the duration of exactly `nanos` nanoseconds.
pub assume_specification[ Duration::from_nanos ](nanos: u64) -> (d: Duration)
    ensures
        nanos_of(d) == nanos,
;

/// `Instant::now` reads the monotonic clock; nothing is promised of the value.
pub assume_specification[ Instant::now ]() -> Instant;

/// `Instant::elapsed` measures the time since the instant; it depends on the
/// clock, so nothing is promised of the value.
pub assume_specification[ Instant::elapsed ](i: &Instant) -> Duration;

/// Builds a tokio-timer wheel with `tokio_timer::wheel()`, its
/// `tick_duration` and `max_timeout` settings and `build`, which spawns the
/// wheel's worker thread. Nothing is promised of the handle, which is opaque.
#[verifier::external_body]
pub(crate) fn new_timer(tick_duration: Duration, max_timeout: Duration) -> Timer {
    tokio_timer::wheel().tick_duration(tick_duration).max_timeout(max_timeout).build()
}

/// `tokio_timer::Timer::sleep` makes a future that completes once `duration`
/// has passed; creating it does not wait. It adds `duration` to
/// `Instant::now()`, which panics past the platform's range of instants; the
/// mock only asks for at most `u64::MAX` nanoseconds (about 584 years).
pub assume_specification[ Timer::sleep ](t: &Timer, duration: Duration) -> Sleep
    requires
        nanos_of(duration) <= 0xffff_ffff_ffff_ffff,
;

/// `tokio_timer::Sleep::is_expired` tells whether the sleep's instant has come
/// (within the timer's tolerance); it reads the clock and needs no task, so
/// nothing is promised of the value.
pub assume_specification[ tokio_timer::Sleep::is_expired ](s: &tokio_timer::Sleep) -> bool;

/// `futures::task::Task::notify` asks the executor to poll the task again.
pub assume_specification[ Task::notify ](t: &Task);

/// `futures::task::is_in_task` tells whether a futures task is being polled
/// on this thread; it depends on the calling context, so nothing is promised.
pub assume_specification[ futures::task::is_in_task ]() -> bool;

/// Calls `futures::task::current`, the handle of the task being polled. It
/// panics outside a task; the `InTask` argument shows that one is running.
#[verifier::external_body]
pub(crate) fn current_task(_cx: &InTask) -> Task {
    futures::task::current()
}

/// Calls `Future::poll` on a tokio-timer `Sleep`: `Ok(true)` when the sleep
/// has expired, `Ok(false)` when the current task will be notified later,
/// or the timer's error. The outcome depends on the clock, so nothing is
/// promised of it. Polling may register the current task, which the
/// `InTask` argument shows to exist.
#[verifier::external_body]
pub(crate) fn poll_sleep(sleep: &mut Sleep, _cx: &InTask) -> Result<bool, TimerError> {
    match sleep.poll() {
        Ok(futures::Async::Ready(())) => Ok(true),
        Ok(futures::Async::NotReady) => Ok(false),
        Err(e) => Err(e),
    }
}

/// Calls `Future::wait` on a tokio-timer `Sleep`: blocks the calling thread
/// until the sleep completes or the timer fails. Nothing is promised of the
/// outcome, which depends on the clock and the timer's load.
#[verifier::external_body]
pub(crate) fn wait_sleep(sleep: Sleep) -> Result<(), TimerError> {
    sleep.wait()
}

} // verus!

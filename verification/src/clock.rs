//! Time since the program started.
use std::time::Instant;
use vstd::prelude::*;

verus! {

/// A point in time of the system's monotonic clock.
#[verifier::external_type_specification]
#[verifier::external_body]
pub struct ExInstant(std::time::Instant);

/// `Instant::elapsed`, in whole seconds: whatever time has passed.
#[verifier::external_body]
fn elapsed_secs(start: &Instant) -> u64 {
    start.elapsed().as_secs()
}

/// A clock that counts seconds from a start and does not run back.
#[derive(Debug)]
pub struct Clock {
    start: Instant,
    last: u64,
}

impl Clock {
    /// The last reading.
    pub closed spec fn reading(&self) -> u64 {
        self.last
    }

    /// When the clock was started.
    pub closed spec fn started(&self) -> Instant {
        self.start
    }

    /// A clock that was started at `start` and not read yet.
    pub fn new(start: Instant) -> (r: Self)
        ensures
            r.reading() == 0,
            r.started() == start,
    {
        Clock { start, last: 0 }
    }
}

/// The seconds that have passed since the clock was started: never less than at the
/// reading before.
pub fn now_secs(clock: &mut Clock) -> (r: u64)
    ensures
        r == final(clock).reading(),
        r >= old(clock).reading(),
        final(clock).started() == old(clock).started(),
{
    let passed: u64 = elapsed_secs(&clock.start);
    if passed > clock.last {
        clock.last = passed;
    }
    clock.last
}

} // verus!

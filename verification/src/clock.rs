//! The clock: nanoseconds since the program started.
use std::time::{Duration, Instant};
use vstd::prelude::*;

verus! {

/// An instant of `std::time`.
#[verifier::external_type_specification]
#[verifier::external_body]
pub struct ExInstant(Instant);

/// `Instant::now`. Nothing is claimed of the instant, which only the machine's clock tells.
pub assume_specification [ Instant::now ]() -> (r: Instant);

/// `Instant::elapsed`. Nothing is claimed of the duration, which only the machine's clock tells.
pub assume_specification [ Instant::elapsed ](start: &Instant) -> (r: Duration);

/// The nanoseconds in a duration.
pub uninterp spec fn duration_nanos(duration: Duration) -> u128;

/// `Duration::as_nanos`: all nanoseconds in the duration, which depend on the duration alone.
pub assume_specification [ Duration::as_nanos ](duration: &Duration) -> (r: u128)
    ensures
        r == duration_nanos(*duration),
;

/// A number of nanoseconds, or the highest number that can be counted where there are more.
pub open spec fn counted(nanos: u128) -> u64 {
    if nanos <= u64::MAX {
        nanos as u64
    } else {
        u64::MAX
    }
}

/// A number of nanoseconds, or the highest number that can be counted where there are more.
pub fn count_nanos(nanos: u128) -> (r: u64)
    ensures
        r == counted(nanos),
{
    if nanos > u64::MAX as u128 {
        u64::MAX
    } else {
        nanos as u64
    }
}

#[derive(Debug)]
pub struct Clock {
    start: Instant,
}

impl Clock {
    /// A clock that starts at the instant of the call, which only the machine's clock tells.
    pub fn start() -> Clock {
        Clock { start: Instant::now() }
    }

    /// The nanoseconds since the clock was started, as far as they can be counted: those of the
    /// duration that has elapsed. Which duration that is, is up to the machine's clock.
    pub fn now(&self) -> (r: u64)
        ensures
            exists|elapsed: Duration| r == counted(#[trigger] duration_nanos(elapsed)),
    {
        let elapsed: Duration = self.start.elapsed();
        let nanos: u128 = elapsed.as_nanos();
        count_nanos(nanos)
    }
}

} // verus!

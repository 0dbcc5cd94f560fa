use std::time::Instant;
use vstd::prelude::*;

verus! {

/// std's `Instant`, a reading of the monotonic clock, held opaque.
#[verifier::external_type_specification]
#[verifier::external_body]
pub struct ExInstant(Instant);

/// Relies on std's `Instant::now`: reads the monotonic clock.
pub assume_specification[ Instant::now ]() -> Instant;

/// Relies on std's `Instant::elapsed`: the time since the instant.
pub assume_specification[ Instant::elapsed ](i: &Instant) -> core::time::Duration;

/// Relies on std's `Duration::as_nanos`: the whole nanoseconds in the duration.
pub assume_specification[ core::time::Duration::as_nanos ](d: &core::time::Duration) -> u128;

/// `n` nanoseconds as a `u64`, saturating at `u64::MAX`.
pub open spec fn saturated_nanos(n: u128) -> u64 {
    if n > u64::MAX as u128 {
        u64::MAX
    } else {
        n as u64
    }
}

/// The run's clock: nanoseconds since it was started.
pub struct Clock {
    origin: Instant,
}

impl Clock {
    /// Starts a clock at the present instant.
    pub fn start() -> (r: Clock) {
        Clock { origin: Instant::now() }
    }

    /// Nanoseconds since the clock started, saturating at `u64::MAX`.
    pub fn now_nanos(&self) -> (r: u64) {
        let n: u128 = self.origin.elapsed().as_nanos();
        to_u64_saturating(n)
    }
}

/// `n` as a `u64`, saturating at `u64::MAX`.
pub fn to_u64_saturating(n: u128) -> (r: u64)
    ensures
        r == saturated_nanos(n),
{
    if n > u64::MAX as u128 {
        u64::MAX
    } else {
        n as u64
    }
}

} // verus!

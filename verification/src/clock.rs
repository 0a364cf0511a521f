//! Reading the monotonic clock.
//!
//! The store and dispatcher take the current time as a plain millisecond
//! count and are verified for every value of it; this module supplies that
//! count. Nothing can be promised of a clock reading, so the wrappers carry
//! no postconditions and every caller's contract holds whatever they return.

use vstd::prelude::*;

verus! {

#[verifier::external_type_specification]
#[verifier::external_body]
pub struct ExInstant(tokio::time::Instant);

/// Relies on `tokio::time::Instant::now`: reads the monotonic clock.
#[verifier::external_body]
fn instant_now() -> tokio::time::Instant {
    tokio::time::Instant::now()
}

/// Relies on `tokio::time::Instant::elapsed` (which saturates at zero rather
/// than panic) and `Duration::as_millis`: the whole milliseconds since
/// `start`, saturating at `u64::MAX`.
#[verifier::external_body]
fn millis_since(start: &tokio::time::Instant) -> u64 {
    u64::try_from(start.elapsed().as_millis()).unwrap_or(u64::MAX)
}

/// A millisecond clock anchored at its creation: `now_ms` counts milliseconds
/// since `new`, monotonically, which is what the store's expiry arithmetic
/// needs of an absolute time.
pub struct Clock {
    start: tokio::time::Instant,
}

impl Clock {
    /// Anchors a clock at the present instant.
    pub fn new() -> Clock {
        Clock { start: instant_now() }
    }

    /// Milliseconds elapsed since the clock was anchored.
    pub fn now_ms(&self) -> u64 {
        millis_since(&self.start)
    }
}

} // verus!

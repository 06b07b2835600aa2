//! The clock the timings of a debug log are read from.

use vstd::prelude::*;

verus! {

/// A moment of the machine's monotonic clock, which nothing is claimed of.
#[verifier::external_type_specification]
#[verifier::external_body]
pub struct ExInstant(std::time::Instant);

/// `std::time::Instant::now`: the present moment, of which nothing is claimed.
pub assume_specification[ std::time::Instant::now ]() -> std::time::Instant
;

/// `std::time::Instant::elapsed`: the time since a moment, of which nothing is
/// claimed.
pub assume_specification[ std::time::Instant::elapsed ](
    started: &std::time::Instant,
) -> std::time::Duration
;

} // verus!

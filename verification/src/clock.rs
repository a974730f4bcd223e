//! Trusted declarations for the wall clock.  The timer gate needs to know
//! whether a sixtieth of a second has elapsed; everything about that
//! reading is opaque, so none of these items promises anything about the
//! values, and the timer contract holds whatever the clock returns.

use vstd::prelude::*;
use std::time::{Duration, Instant};

verus! {

/// `std::time::Instant`, a monotonic clock reading, declared so it can be
/// stored in a field and passed around; its inside stays opaque.
#[verifier::external_type_specification]
#[verifier::external_body]
pub struct ExInstant(Instant);

/// Relies on `std::time::Instant::now`: a reading of the monotonic clock.
/// Nothing can be promised of the value.
pub assume_specification[ Instant::now ]() -> Instant;

/// Relies on `std::time::Instant::saturating_duration_since`: the time
/// elapsed from `earlier` to `this`, zero if `earlier` is later.  It never
/// panics.  Nothing is promised of the value.
pub assume_specification[ Instant::saturating_duration_since ](
    this: &Instant,
    earlier: Instant,
) -> Duration;

/// Relies on `std::time::Duration::as_nanos`: the duration as a whole
/// number of nanoseconds.  Nothing is promised of the value.
pub assume_specification[ Duration::as_nanos ](this: &Duration) -> u128;

} // verus!

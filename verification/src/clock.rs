//! Monotonic time, read through `std::time::Instant`.
//!
//! Time stamps kept by the library are whole nanoseconds counted from an
//! `Instant` taken when the owning value was created; durations are whole
//! nanoseconds as well.
use std::time::Instant;
use vstd::prelude::*;

verus! {

#[verifier::external_type_specification]
#[verifier::external_body]
pub struct ExInstant(Instant);

/// Calls `Instant::now`.
///
/// The value depends on the moment of the call, so nothing is claimed of it.
#[verifier::external_body]
pub(crate) fn instant_now() -> Instant {
    Instant::now()
}

/// Calls `Instant::elapsed` on `origin` and gives the elapsed time in whole
/// nanoseconds (`Duration::as_nanos`).
///
/// The value depends on the moment of the call, so nothing is claimed of it.
#[verifier::external_body]
pub(crate) fn nanos_since(origin: &Instant) -> u128 {
    origin.elapsed().as_nanos()
}

} // verus!

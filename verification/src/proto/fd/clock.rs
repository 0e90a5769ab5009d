//! Readings of the monotonic clock. What these return depends on the time
//! at which they are called, so no contract states their results.
use vstd::prelude::*;
use std::time::Instant;

verus! {

/// `std::time::Instant`, a point of the monotonic clock; its value is not
/// visible to proofs.
#[verifier::external_type_specification]
#[verifier::external_body]
pub struct ExInstant(Instant);

/// Calls `Instant::now`: the current point of the monotonic clock. Nothing
/// is claimed of the result, which depends on the time of the call.
#[verifier::external_body]
pub(crate) fn instant_now() -> Instant {
    Instant::now()
}

/// Calls `Instant::checked_sub` with a duration of `secs` seconds (made by
/// `Duration::from_secs`): the point that lies that long before `t`, or
/// `None` when the clock cannot represent it. Nothing is claimed of the
/// result: instants are not visible to proofs.
#[verifier::external_body]
pub(crate) fn instant_checked_sub_secs(t: Instant, secs: u64) -> Option<Instant> {
    t.checked_sub(std::time::Duration::from_secs(secs))
}

/// Calls `Instant::elapsed` on `t` and converts the duration with
/// `Duration::as_millis`: the whole milliseconds elapsed since `t`. Nothing
/// is claimed of the result, which depends on the time of the call.
#[verifier::external_body]
pub(crate) fn elapsed_millis(t: &Instant) -> u128 {
    t.elapsed().as_millis()
}

} // verus!

use vstd::prelude::*;

verus! {

#[verifier::external_type_specification]
#[verifier::external_body]
pub struct ExInstant(std::time::Instant);

/// Relies on std::time::Instant::now: a reading of the monotonic clock.
pub assume_specification[ std::time::Instant::now ]() -> std::time::Instant;

/// Relies on std::time::Instant::elapsed: whole milliseconds since `start`.
#[verifier::external_body]
pub(crate) fn elapsed_ms(start: &std::time::Instant) -> (ms: u64) {
    start.elapsed().as_millis() as u64
}

} // verus!

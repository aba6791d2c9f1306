//! Time conversions for the frame clock.
use vstd::prelude::*;

verus! {

/// Whole milliseconds in a count of microseconds, computed as
/// `micros * 1_000 / 1_000_000`; the product must fit in a `u64`.
pub fn micros_to_millis(micros: u64) -> (millis: u64)
    requires
        micros * 1_000 <= u64::MAX,
    ensures
        millis == micros / 1_000,
{
    let r = micros * 1_000 / 1_000_000;
    assert(micros * 1_000 / 1_000_000 == micros / 1_000) by (nonlinear_arith);
    r
}

} // verus!

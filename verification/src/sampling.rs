//! Random draws, the only place where the library meets its generators.
use vstd::prelude::*;
use crate::fixed::{Fixed, SCALE};

verus! {

/// Calls `fastrand::i64` on the half-open range `low..high`, which draws
/// from the calling thread's generator. Trusted: the result lies in the
/// range. The outside function panics on an empty range, which the
/// precondition rules out.
#[verifier::external_body]
fn draw_between(low: i64, high: i64) -> (r: i64)
    requires
        low < high,
    ensures
        low <= r < high,
{
    fastrand::i64(low..high)
}

/// Calls `rand::Rng::gen_range` on `rand::thread_rng()` with the half-open
/// range `0..bound`. Trusted: the result lies in the range. The outside
/// function panics on an empty range, which the precondition rules out.
#[verifier::external_body]
fn draw_below(bound: i64) -> (r: i64)
    requires
        0 < bound,
    ensures
        0 <= r < bound,
{
    rand::Rng::gen_range(&mut rand::thread_rng(), 0..bound)
}

/// Whether a scalar lies in `[0, 1)`, the range of a uniform draw.
pub open spec fn is_unit_draw(value: Fixed) -> bool {
    0 <= value.raw < SCALE
}

/// A draw from `[0, 1)` on the raw grid, from the thread's fast generator.
pub fn uniform() -> (r: Fixed)
    ensures
        is_unit_draw(r),
{
    Fixed::from_raw(draw_between(0, SCALE))
}

/// A draw from `[0, 1)` on the raw grid, from the thread's seeded generator;
/// the coin that decides between reflection and refraction.
pub fn coin() -> (r: Fixed)
    ensures
        is_unit_draw(r),
{
    Fixed::from_raw(draw_below(SCALE))
}

} // verus!

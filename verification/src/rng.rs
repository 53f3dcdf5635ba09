//! The library's single source of randomness: the seedable generator that
//! macroquad re-exports. Verified code never depends on which value comes
//! back, only on its range; every caller states what holds of any outcome.

use vstd::prelude::*;

verus! {

/// Relies on `macroquad::rand::gen_range` (quad_rand's generator): for
/// `low < high` it returns `low + trunc((high - low) * r)` for some real
/// `r` in `[0, 1)`, computed in double precision; with both bounds well
/// below 2^52 that value always lies in the closed interval
/// `[low, high]` (truncation toward zero can land on `high` when the
/// range spans zero). The call never panics.
#[verifier::external_body]
pub(crate) fn random_in(low: i64, high: i64) -> (r: i64)
    requires
        low < high,
        -1_000_000_000 <= low,
        high <= 1_000_000_000,
    ensures
        low <= r <= high,
{
    macroquad::rand::gen_range(low, high)
}

} // verus!

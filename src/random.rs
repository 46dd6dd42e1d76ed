//! Uniform integer draws from the process-wide generator.

use vstd::prelude::*;

verus! {

/// Largest bound that `random_below` takes. Up to it the generator's scaling of a
/// 32-bit draw into the range is exact, so the result stays under the bound.
pub const RANDOM_BOUND_LIMIT: usize = 1048576;

/// Relies on macroquad::rand::gen_range on `usize`: it scales a 32-bit draw `k`
/// to `low + (high - low) * k / 2^32` and truncates, which for `low = 0` and a
/// bound up to `2^20` is computed exactly and lies in `[0, bound)`.
#[verifier::external_body]
pub(crate) fn random_below(bound: usize) -> (r: usize)
    requires
        0 < bound <= RANDOM_BOUND_LIMIT,
    ensures
        r < bound,
{
    macroquad::rand::gen_range(0usize, bound)
}

} // verus!

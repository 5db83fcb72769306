//! Small shared helpers of the renderer.

use vstd::prelude::*;

use crate::rng::{rng_next, rng_range, Prng};
use crate::scalar::{rat_lt, rat_wf, Q, Rat};

verus! {

/// `x` clamped into `[min, max]`.
pub open spec fn rat_clamp(x: Rat, min: Rat, max: Rat) -> Rat {
    if rat_lt(x, min) {
        min
    } else if rat_lt(max, x) {
        max
    } else {
        x
    }
}

/// Clamps `x` into `[min, max]`.
#[inline]
pub fn clamp(x: Q, min: Q, max: Q) -> (r: Q)
    ensures
        r@ == rat_clamp(x@, min@, max@),
{
    if x.lt(&min) {
        min
    } else if x.gt(&max) {
        max
    } else {
        x
    }
}

/// One value drawn as `lo + (hi - lo) * u` with `u` a unit draw of the
/// generator.  The contract pins the drawn fraction exactly; while every
/// intermediate fraction stays in the representation the draw lies in
/// `[lo, hi)`, but a step that has to be rounded onto the grid can carry
/// the result one grid step outside a range with off-grid endpoints.
#[inline]
pub fn rand_range(rng: &mut Prng, lo: Q, hi: Q) -> (r: Q)
    ensures
        final(rng)@ == rng_next(old(rng)@),
        r@ == rng_range(old(rng)@, lo@, hi@),
        rat_wf(r@),
{
    let u = rng.next_unit();
    lo + (hi - lo) * u
}

} // verus!

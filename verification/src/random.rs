//! The source of randomness: a generator of the `rand` crate, and the one
//! draw that the library takes from it.

use rand::Rng;
use rand::XorShiftRng;
use vstd::prelude::*;

verus! {

/// `rand::XorShiftRng`, the generator from which every random draw of this
/// library is taken. Nothing is known of its state.
#[verifier::external_type_specification]
#[verifier::external_body]
pub struct ExXorShiftRng(XorShiftRng);

/// Calls `rand::Rng::gen_range(0, bound)` on `rng`.
///
/// The outside function panics unless `0 < bound` and returns a value of the
/// half-open range `[0, bound)`; which one depends on the generator's state,
/// so nothing more is claimed.
#[verifier::external_body]
pub(crate) fn random_below(rng: &mut XorShiftRng, bound: usize) -> (index: usize)
    requires
        0 < bound,
    ensures
        index < bound,
{
    rng.gen_range(0, bound)
}

} // verus!

use vstd::prelude::*;
use rand::Rng;
use rand::SeedableRng;

verus! {

#[verifier::external_type_specification]
#[verifier::external_body]
pub struct ExSmallRng(rand::rngs::SmallRng);

/// Relies on rand::Rng::gen_range over `0..bound`: the sample always lies in
/// the half-open range, and the call panics only when the range is empty.
#[verifier::external_body]
pub(crate) fn draw_below(rng: &mut rand::rngs::SmallRng, bound: usize) -> (r: usize)
    requires
        bound >= 1,
    ensures
        r < bound,
{
    rng.gen_range(0..bound)
}

/// Relies on rand::SeedableRng::from_entropy to seed a fresh generator from
/// operating-system randomness; nothing is claimed about the values it yields.
#[verifier::external_body]
pub(crate) fn fresh_small_rng() -> rand::rngs::SmallRng {
    rand::rngs::SmallRng::from_entropy()
}

} // verus!

use vstd::prelude::*;

verus! {

#[verifier::external_type_specification]
#[verifier::external_body]
pub struct ExStdRng(rand::rngs::StdRng);

/// Relies on rand's `SeedableRng::from_seed` for `StdRng`: builds a random
/// generator from the 32-byte seed the host environment supplies.
#[verifier::external_body]
pub fn rng_from_seed(seed: [u8; 32]) -> rand::rngs::StdRng {
    <rand::rngs::StdRng as rand::SeedableRng>::from_seed(seed)
}

/// Relies on rand's `Rng::gen_range`: the sample lies in the given range,
/// here one decimal digit.  Nothing else is promised of a random value.
#[verifier::external_body]
pub fn gen_digit(rng: &mut rand::rngs::StdRng) -> (d: u8)
    ensures
        d < 10,
{
    rand::Rng::gen_range(rng, 0..10u8)
}

} // verus!

use rand::rngs::StdRng;
use rand::Rng;
use vstd::prelude::*;

verus! {

#[verifier::external_type_specification]
#[verifier::external_body]
pub struct ExStdRng(StdRng);

/// Relies on `rand::Rng::gen_range` over `lo..hi`: a value in that range.
/// It panics on an empty range, which `requires` leaves out.
#[verifier::external_body]
pub(crate) fn random_in(rng: &mut StdRng, lo: i32, hi: i32) -> (r: i32)
    requires
        lo < hi,
    ensures
        lo <= r < hi,
{
    rng.gen_range(lo..hi)
}

/// Relies on `rand::Rng::gen::<bool>`: a coin flip, of which nothing is promised.
#[verifier::external_body]
pub(crate) fn random_bool(rng: &mut StdRng) -> bool {
    rng.gen::<bool>()
}

} // verus!

use rand::rngs::ThreadRng;
use rand::Rng;
use vstd::prelude::*;

verus! {

/// The thread-local random number generator of `rand`, carried through
/// opaquely.
#[verifier::external_type_specification]
#[verifier::external_body]
pub struct ExThreadRng(ThreadRng);

/// Calls `rand::Rng::random_range` on the half-open range `low..high` of
/// `u64`.  The crate documents (and its source shows) that the sample lies
/// in the range and that an empty range panics; which value comes back is
/// left to chance, so nothing more is promised.
#[verifier::external_body]
pub(crate) fn random_in(rng: &mut ThreadRng, low: u64, high: u64) -> (r: u64)
    requires
        low < high,
    ensures
        low <= r < high,
{
    rng.random_range(low..high)
}

} // verus!

use rand::Rng;
use vstd::prelude::*;

verus! {

/// Relies on rand's `Rng::gen_range` on the thread-local generator
/// (`rand::thread_rng`): it returns a number of the half-open range
/// `0..bound`, and panics only on an empty range, which `bound > 0` rules out.
/// Nothing more is known of the number drawn.
#[verifier::external_body]
pub(crate) fn random_below(bound: usize) -> (r: usize)
    requires
        bound > 0,
    ensures
        r < bound,
{
    rand::thread_rng().gen_range(0..bound)
}

} // verus!

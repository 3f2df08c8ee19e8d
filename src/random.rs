use rand::Rng;
use vstd::prelude::*;

verus! {

/// A number drawn uniformly from `0..=max` by the thread's generator.
///
/// Relies on `rand::Rng::gen_range` on `rand::thread_rng()`: a value inside the
/// inclusive range, which is never empty here.
#[verifier::external_body]
pub(crate) fn random_upto(max: usize) -> (r: usize)
    ensures
        r <= max,
{
    rand::thread_rng().gen_range(0..=max)
}

} // verus!

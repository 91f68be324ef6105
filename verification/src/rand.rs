//! Random draws.

use vstd::prelude::*;
use ::rand::Rng;

verus! {

/// Calls `Rng::gen_range` of the `rand` crate on the thread-local generator
/// with the half-open range `min..max`. The crate documents that the value
/// lies in that range and that it panics on an empty range, which the
/// precondition excludes. Nothing is said of which value is drawn.
#[verifier::external_body]
fn sample_index(min: usize, max: usize) -> (r: usize)
    requires
        min < max,
    ensures
        min <= r < max,
{
    let mut rng = ::rand::thread_rng();
    rng.gen_range(min..max)
}

/// A uniformly drawn index in `min..max`; `min` is included and `max` is not.
pub fn randidx(min: usize, max: usize) -> (r: usize)
    requires
        min < max,
    ensures
        min <= r < max,
{
    sample_index(min, max)
}

} // verus!

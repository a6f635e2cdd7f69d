//! The uniform integer sampler used for tie-breaking.

use vstd::prelude::*;
use rand::Rng;

verus! {

/// Relies on `rand::Rng::gen_range` over `rand::thread_rng`: a uniformly
/// sampled integer in `0..n`. The range is nonempty (`n > 0` is required
/// here), so the call cannot panic; nothing more than the bound is assumed
/// of the result, which is random.
#[verifier::external_body]
pub(crate) fn sample_index(n: usize) -> (r: usize)
    requires
        n > 0,
    ensures
        r < n,
{
    rand::thread_rng().gen_range(0..n)
}

} // verus!

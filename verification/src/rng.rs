//! The library's one source of randomness: an index drawn below a bound.

use vstd::prelude::*;

verus! {

/// Relies on rand's `Rng::gen_range` over the range `0..n`: for a non-empty
/// range it returns a value of that range, drawn from the thread-local
/// generator. Nothing more is promised of the draw; `n >= 1` keeps the range
/// non-empty, on which alone `gen_range` panics.
#[verifier::external_body]
pub(crate) fn random_below(n: usize) -> (r: usize)
    requires
        n >= 1,
    ensures
        r < n,
{
    rand::Rng::gen_range(&mut rand::thread_rng(), 0..n)
}

} // verus!

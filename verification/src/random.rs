//! Trusted access to the process-wide random number generator: the only
//! source of randomness the mutation strategies draw from.
use vstd::prelude::*;

verus! {

/// Relies on rand::random_range over `0..n`: a value drawn below `n` from
/// the thread-local generator. The draw is not a function of `n`, so
/// nothing beyond the bound is stated.
#[verifier::external_body]
pub(crate) fn rand_below(n: usize) -> (r: usize)
    requires
        1 <= n,
    ensures
        r < n,
{
    rand::random_range(0..n)
}

/// Relies on rand::seq::index::sample: exactly `k` distinct indices drawn
/// from `0..n` without repetition, in random order.
#[verifier::external_body]
pub(crate) fn sample_indices(n: usize, k: usize) -> (r: Vec<usize>)
    requires
        k <= n,
    ensures
        r@.len() == k,
        forall|i: int| 0 <= i < r@.len() ==> r@[i] < n,
        forall|i: int, j: int| 0 <= i < j < r@.len() ==> r@[i] != r@[j],
{
    rand::seq::index::sample(&mut rand::rng(), n, k).into_vec()
}

} // verus!

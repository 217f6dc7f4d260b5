//! Random sampling, through the `rand` crate.
use vstd::prelude::*;

use rand::seq::IteratorRandom;

verus! {

/// Relies on rand's `IteratorRandom::choose_multiple` over the range
/// `0..length`, drawing from `thread_rng`: reservoir sampling keeps
/// `min(amount, length)` of the indices, each at most once, chosen uniformly
/// at random. (rand panics only where the operating system cannot seed
/// `thread_rng`.)
#[verifier::external_body]
pub(crate) fn sample_indices(length: usize, amount: usize) -> (r: Vec<usize>)
    ensures
        r@.len() == (if amount < length {
            amount
        } else {
            length
        }),
        forall|k: int| 0 <= k < r@.len() ==> r@[k] < length,
        r@.no_duplicates(),
{
    (0..length).choose_multiple(&mut rand::thread_rng(), amount)
}

} // verus!

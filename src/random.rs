//! Random choice of mine positions, through the `rand` crate.

use rand::rngs::ThreadRng;
use rand::seq::IteratorRandom;
use vstd::prelude::*;

verus! {

#[verifier::external_type_specification]
#[verifier::external_body]
pub struct ExThreadRng(rand::rngs::ThreadRng);

/// Relies on `rand::thread_rng`: a handle on the thread-local generator.
#[verifier::external_body]
pub(crate) fn thread_rng() -> (r: ThreadRng) {
    rand::thread_rng()
}

/// Relies on `rand::seq::IteratorRandom::choose_multiple` (reservoir
/// sampling): it returns `amount` elements of `pool`, taking each position
/// of `pool` at most once. Its buffer is allocated for `amount` elements, so
/// `amount` is kept within the pool's length.
#[verifier::external_body]
pub(crate) fn choose_multiple(pool: Vec<usize>, rng: &mut ThreadRng, amount: usize) -> (r: Vec<usize>)
    requires
        amount <= pool@.len(),
    ensures
        r@.len() == amount,
        forall|k: int| 0 <= k < r@.len() ==> pool@.contains(#[trigger] r@[k]),
        pool@.no_duplicates() ==> r@.no_duplicates(),
{
    pool.into_iter().choose_multiple(rng, amount)
}

} // verus!

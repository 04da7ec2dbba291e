//! Draws from the thread-local random generator of rand.
use vstd::prelude::*;
use rand::seq::SliceRandom;

verus! {

/// Relies on rand's `seq::index::sample` with `thread_rng()`: `amount` distinct indices, each
/// below `length`, in random order (it panics only when `amount > length`).
#[verifier::external_body]
pub(crate) fn sample_distinct(length: usize, amount: usize) -> (r: Vec<usize>)
    requires
        amount <= length,
    ensures
        r@.len() == amount,
        r@.no_duplicates(),
        forall|k: int| 0 <= k < r@.len() ==> r@[k] < length,
{
    rand::seq::index::sample(&mut rand::thread_rng(), length, amount).into_vec()
}

/// Relies on rand's `SliceRandom::choose` with `thread_rng()`: one element of the slice,
/// picked uniformly (it returns `None` only for an empty slice).
#[verifier::external_body]
pub(crate) fn choose_one(items: &Vec<(usize, usize)>) -> (r: (usize, usize))
    requires
        items@.len() > 0,
    ensures
        items@.contains(r),
{
    *items.choose(&mut rand::thread_rng()).unwrap()
}

} // verus!

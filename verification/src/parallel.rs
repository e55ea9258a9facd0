//! The thread pool that the convolutions run on.

use rayon::iter::{IntoParallelRefIterator, ParallelIterator};
use vstd::prelude::*;

verus! {

/// `rayon::current_num_threads`: how many threads the current pool has.
///
/// The number depends on the machine and on how the pool was built. It is
/// claimed only that it does not pass rayon's own limit on a pool, which is the
/// largest number of 16 bits at most (`rayon_core::max_num_threads`).
#[verifier::external_body]
pub(crate) fn pool_threads() -> (r: usize)
    ensures
        r <= 0xffff,
{
    rayon::current_num_threads()
}

/// `par_iter().map(f).collect()` of rayon on a vector: `f` is applied to every
/// item, on the threads of the current pool, and the results come back in the
/// order of the items.
#[verifier::external_body]
pub(crate) fn par_map<X: Sync, Y: Send, F: Fn(&X) -> Y + Sync + Send>(items: &Vec<X>, f: F) -> (r:
    Vec<Y>)
    requires
        forall|i: int| 0 <= i < items@.len() ==> call_requires(f, (&#[trigger] items@[i],)),
    ensures
        r@.len() == items@.len(),
        forall|i: int|
            0 <= i < items@.len() ==> call_ensures(f, (&items@[i],), #[trigger] r@[i]),
{
    items.par_iter().map(f).collect()
}

} // verus!

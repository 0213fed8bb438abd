//! Work on the positions of a vector, in parallel.

use rayon::iter::{IntoParallelIterator, ParallelIterator};
use vstd::prelude::*;

verus! {

/// Calls `f` on `0..n` and collects the results in this order, with rayon's parallel iterator
/// over a range, `ParallelIterator::map` and `ParallelIterator::collect`. Claimed of them: `f` is
/// called on nothing but the numbers of the range, and the collected vector holds at each
/// position what a call of `f` on that position returned.
#[verifier::external_body]
pub(crate) fn par_map<T: Send, F: Fn(usize) -> T + Sync + Send>(n: usize, f: F) -> (r: Vec<T>)
    requires
        forall|i: usize| i < n ==> #[trigger] f.requires((i,)),
    ensures
        r@.len() == n,
        forall|i: usize| i < n ==> #[trigger] f.ensures((i,), r@[i as int]),
{
    (0..n).into_par_iter().map(f).collect()
}

} // verus!

//! Independent work items, run on the `rayon` thread pool.

use rayon::iter::{IntoParallelIterator, ParallelIterator};
use vstd::prelude::*;

verus! {

/// `rayon`'s `into_par_iter().map(f).collect()` on the range `0..n`: the
/// results of `f` on `0`, `1`, ..., `n - 1`, in that order, whichever
/// thread computed which.
#[verifier::external_body]
pub(crate) fn par_collect<T: Send, F: Fn(usize) -> T + Sync + Send>(n: usize, f: F) -> (r: Vec<T>)
    requires
        forall|i: usize| i < n ==> call_requires(f, (i,)),
    ensures
        r@.len() == n,
        forall|i: int| 0 <= i < n ==> call_ensures(f, (i as usize,), #[trigger] r@[i]),
{
    (0..n).into_par_iter().map(f).collect()
}

} // verus!

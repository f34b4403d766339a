//! Handing the pixels of a pass out to rayon's workers.

use rayon::iter::{IntoParallelIterator, ParallelIterator};
use vstd::prelude::*;

verus! {

/// Hands the numbers below `total` to rayon's workers: `into_par_iter` on
/// the range, `map` with `step`, and `collect`, which gives the results in
/// the order of the range. Each result is one that `step` ensures for its
/// number.
#[verifier::external_body]
pub(crate) fn map_in_parallel<T, F>(total: usize, step: F) -> (made: Vec<T>) where
    T: Send,
    F: Fn(usize) -> T + Sync + Send,

    requires
        forall|i: usize| i < total ==> #[trigger] step.requires((i,)),
    ensures
        made@.len() == total,
        forall|i: int| 0 <= i < total ==> step.ensures((i as usize,), #[trigger] made@[i]),
{
    (0..total).into_par_iter().map(step).collect()
}

} // verus!

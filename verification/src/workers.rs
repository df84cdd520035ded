//! The pool of workers that a search hands its divisor indices to. The pool is
//! rayon's; what it returns is taken on trust.

use crate::calc::{merged_outcome, probe, SearchOutcome};
use crate::natural::{integer, integers, Natural};
use rayon::iter::{IntoParallelRefIterator, ParallelIterator};
use vstd::prelude::*;

verus! {

/// rayon's `map` and `reduce` on the parallel iterator of a list (`par_iter`):
/// every index of the list is tried by some worker with [`probe`], and the
/// outcomes are merged with [`SearchOutcome::merge`], starting from
/// [`SearchOutcome::idle`]. rayon leaves open how the merges are grouped; merging
/// is associative and the idle outcome is neutral to it, so the result is the
/// outcomes merged in the order of the list.
#[verifier::external_body]
pub(crate) fn probe_all(number: &Natural, indices: &Vec<Natural>) -> (merged: SearchOutcome)
    requires
        forall|i: int| 0 <= i < indices@.len() ==> integer(#[trigger] indices@[i]) >= 1,
    ensures
        merged == merged_outcome(integer(*number), integers(indices@)),
{
    indices
        .par_iter()
        .map(|index| probe(number, index))
        .reduce(|| SearchOutcome::idle(), |left, right| left.merge(right))
}

} // verus!

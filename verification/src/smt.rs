//! Batch acceptance for sparse-Merkle-tree openings.
//!
//! The opening check itself belongs to an outside collaborator consumed
//! through a `verify(context, root, opening) -> bool` contract; running it
//! is the harness's job.  What this crate owns is the batch rule, the same
//! all-or-nothing rule as for proof transcripts: every opening of the
//! batch must pass, and the first failure decides.

use vstd::prelude::*;

verus! {

/// Whether a batch of openings is accepted, given the collaborator's
/// verdict for each opening in input order: exactly when every verdict is
/// positive.
pub fn smt_batch_accepts(verdicts: &Vec<bool>) -> (r: bool)
    ensures
        r == (forall|i: int| 0 <= i < verdicts@.len() ==> #[trigger] verdicts@[i]),
{
    let n = verdicts.len();
    let mut i: usize = 0;
    while i < n
        invariant
            0 <= i <= n,
            n == verdicts@.len(),
            forall|j: int| 0 <= j < i ==> #[trigger] verdicts@[j],
        decreases n - i,
    {
        if !verdicts[i] {
            return false;
        }
        i = i + 1;
    }
    true
}

} // verus!

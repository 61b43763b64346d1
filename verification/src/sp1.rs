//! Verification of wrapped SNARK proofs.
//!
//! A batch may hold proofs produced by the wrapped-SNARK toolchain instead
//! of raw curve transcripts.  Each such proof is checked by the
//! toolchain's own verifier against its embedded Groth16 verifying key;
//! the batch rule — all or nothing, first failure reported — is the same
//! as for raw transcripts and is verified here.

use vstd::prelude::*;
use vstd::utf8::is_ascii_chars;
use crate::types::{Sp1Groth16Proof, Sp1Groth16ProofBatch};
use crate::errors::VerifyError;

verus! {

/// What the wrapped-SNARK verifier returns for given proof bytes, public
/// values and verifying-key hash, checked against the toolchain's embedded
/// Groth16 verifying key.
pub uninterp spec fn sp1_verdict(proof: Seq<u8>, public_values: Seq<u8>, vk_hash: Seq<char>) -> bool;

/// Relies on `sp1_verifier::Groth16Verifier::verify`, called with the
/// crate's embedded `GROTH16_VK_BYTES` verifying key: a deterministic
/// function of the three arguments that accepts exactly the proofs valid
/// for that key.  The verifier slices the hash string at a byte offset, so
/// the string must be ASCII for the call not to panic.
#[verifier::external_body]
fn sp1_groth16_verify(p: &Sp1Groth16Proof) -> (r: bool)
    requires
        is_ascii_chars(p.vk_hash@),
    ensures
        r == sp1_verdict(p.proof@, p.public_values@, p.vk_hash@),
{
    sp1_verifier::Groth16Verifier::verify(
        &p.proof,
        &p.public_values,
        &p.vk_hash,
        &sp1_verifier::GROTH16_VK_BYTES,
    ).is_ok()
}

/// Whether one wrapped entry is acceptable: its verifying-key hash is an
/// ASCII string (as every hex digest is) and the wrapped-SNARK verifier
/// accepts it.
pub open spec fn sp1_entry_ok(p: Sp1Groth16Proof) -> bool {
    is_ascii_chars(p.vk_hash@) && sp1_verdict(p.proof@, p.public_values@, p.vk_hash@)
}

/// Verify a batch of wrapped proofs, all or nothing.
///
/// Accepts exactly when every entry is accepted by the wrapped-SNARK
/// verifier.  On rejection the failure reported is `VerificationFailed`,
/// at the first failing entry in input order; no entry after it is
/// examined.
pub fn verify_sp1_batch(batch: &Sp1Groth16ProofBatch) -> (r: Result<(), VerifyError>)
    ensures
        r is Ok <==> (forall|i: int|
            0 <= i < batch.proofs@.len() ==> #[trigger] sp1_entry_ok(batch.proofs@[i])),
        r matches Err(e) ==> e == VerifyError::VerificationFailed && (exists|k: int|
            0 <= k < batch.proofs@.len() && !(#[trigger] sp1_entry_ok(batch.proofs@[k])) && (
            forall|j: int| 0 <= j < k ==> #[trigger] sp1_entry_ok(batch.proofs@[j]))),
{
    let n = batch.proofs.len();
    let mut i: usize = 0;
    while i < n
        invariant
            0 <= i <= n,
            n == batch.proofs@.len(),
            forall|j: int| 0 <= j < i ==> #[trigger] sp1_entry_ok(batch.proofs@[j]),
        decreases n - i,
    {
        let entry = &batch.proofs[i];
        if !entry.vk_hash.as_str().is_ascii() {
            proof {
                assert(!is_ascii_chars(batch.proofs@[i as int].vk_hash@));
                assert(!sp1_entry_ok(batch.proofs@[i as int]));
            }
            return Err(VerifyError::VerificationFailed);
        }
        if !sp1_groth16_verify(entry) {
            proof {
                assert(!sp1_entry_ok(batch.proofs@[i as int]));
            }
            return Err(VerifyError::VerificationFailed);
        }
        proof {
            assert(sp1_entry_ok(batch.proofs@[i as int]));
        }
        i = i + 1;
    }
    Ok(())
}

} // verus!

//! The proof-transcript containers that cross the crate's boundary.
//!
//! A transcript arrives as plain byte strings: fixed-width compressed
//! points, big-endian public inputs, and, for the wrapped flavour, an
//! opaque proof blob with its verifying-key hash.  The structs here carry
//! those bytes; the verifiers interpret them.

use vstd::prelude::*;
use crate::bytes_be::{be_nat, strip_leading_zeros};

verus! {

/// A Groth16 proof transcript over BLS12-381: four G1 points (the proof's
/// `a`, the key's `alpha`, the expected accumulated point, and the proof's
/// `c`), four G2 points (`b`, `beta`, `gamma`, `delta`), the public inputs
/// as big-endian integers, and the key's input-commitment points.
#[derive(Debug, PartialEq, Eq)]
pub struct ArkworksGroth16Proof {
    pub g1_affine_points_serialized: Vec<[u8; 48]>,
    pub g2_affine_points_serialized: Vec<[u8; 96]>,
    pub public_inputs_serialized: Vec<Vec<u8>>,
    pub ics_input: Vec<Vec<u8>>,
}

/// An ordered batch of Groth16 proof transcripts, accepted all or nothing.
#[derive(Debug, PartialEq, Eq)]
pub struct ArkworksGroth16ProofBatch {
    pub proofs: Vec<ArkworksGroth16Proof>,
}

/// A proof produced by the wrapped-SNARK toolchain: opaque proof bytes,
/// the committed public values, and the verifying-key hash.
#[derive(Debug, PartialEq, Eq)]
pub struct Sp1Groth16Proof {
    pub proof: Vec<u8>,
    pub public_values: Vec<u8>,
    pub vk_hash: String,
}

/// An ordered batch of wrapped proofs, accepted all or nothing.
#[derive(Debug, PartialEq, Eq)]
pub struct Sp1Groth16ProofBatch {
    pub proofs: Vec<Sp1Groth16Proof>,
}

/// One node of a mock Merkle authentication path.
pub type MockNode = Vec<u8>;

/// A batch of mock Merkle authentication paths.
pub struct MockMerkleProofBatch {
    pub proofs: Vec<Vec<MockNode>>,
}

/// A sparse-Merkle-tree opening to be checked against a root.
pub struct SmtOpeningInput {
    pub proof_serialized: Vec<u8>,
    pub root: [u8; 32],
    pub context: String,
}

/// A batch of sparse-Merkle-tree openings, accepted all or nothing.
pub struct SmtOpeningBatch {
    pub proofs: Vec<SmtOpeningInput>,
}

impl ArkworksGroth16Proof {
    /// The public inputs as big-endian integers in minimal form: values
    /// unchanged, leading zero bytes dropped.
    pub fn deserialize_public_inputs(&self) -> (r: Vec<Vec<u8>>)
        ensures
            r@.len() == self.public_inputs_serialized@.len(),
            forall|i: int|
                0 <= i < r@.len() ==> be_nat(#[trigger] r@[i]@) == be_nat(
                    self.public_inputs_serialized@[i]@,
                ),
            forall|i: int| 0 <= i < r@.len() ==> (#[trigger] r@[i]@.len() > 0 ==> r@[i]@[0] != 0),
    {
        let n = self.public_inputs_serialized.len();
        let mut r: Vec<Vec<u8>> = Vec::new();
        let mut i: usize = 0;
        while i < n
            invariant
                0 <= i <= n,
                n == self.public_inputs_serialized@.len(),
                r@.len() == i,
                forall|j: int|
                    0 <= j < i ==> be_nat(#[trigger] r@[j]@) == be_nat(
                        self.public_inputs_serialized@[j]@,
                    ),
                forall|j: int|
                    0 <= j < i ==> (#[trigger] r@[j]@.len() > 0 ==> r@[j]@[0] != 0),
            decreases n - i,
        {
            r.push(strip_leading_zeros(&self.public_inputs_serialized[i]));
            i = i + 1;
        }
        r
    }
}

} // verus!

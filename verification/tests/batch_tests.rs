//! Batch semantics: all-or-nothing acceptance with fail-fast rejection.

use groth16_batch::errors::VerifyError;
use groth16_batch::smt::smt_batch_accepts;
use groth16_batch::sp1::verify_sp1_batch;
use groth16_batch::types::{
    ArkworksGroth16Proof, ArkworksGroth16ProofBatch, Sp1Groth16Proof, Sp1Groth16ProofBatch,
};
use groth16_batch::verify::verify_batch;

fn g1(k: u64) -> [u8; 48] {
    bls12_381::G1Affine::from(bls12_381::G1Affine::generator() * bls12_381::Scalar::from(k))
        .to_compressed()
}

fn g2(k: u64) -> [u8; 96] {
    bls12_381::G2Affine::from(bls12_381::G2Affine::generator() * bls12_381::Scalar::from(k))
        .to_compressed()
}

fn valid_entry() -> ArkworksGroth16Proof {
    ArkworksGroth16Proof {
        g1_affine_points_serialized: vec![g1(2), g1(1), g1(3), g1(1)],
        g2_affine_points_serialized: vec![g2(3), g2(2), g2(1), g2(1)],
        public_inputs_serialized: vec![vec![2u8]],
        ics_input: vec![g1(1).to_vec(), g1(1).to_vec()],
    }
}

#[test]
fn batch_of_valid_proofs_accepts() {
    let batch = ArkworksGroth16ProofBatch {
        proofs: vec![valid_entry(), valid_entry(), valid_entry()],
    };
    assert_eq!(verify_batch(&batch), Ok(()));
}

#[test]
fn empty_batch_accepts() {
    let batch = ArkworksGroth16ProofBatch { proofs: Vec::new() };
    assert_eq!(verify_batch(&batch), Ok(()));
}

#[test]
fn one_corrupted_entry_rejects_the_batch_at_every_position() {
    for k in 0..3usize {
        let mut proofs = vec![valid_entry(), valid_entry(), valid_entry()];
        proofs[k].public_inputs_serialized[0][0] = 5;
        let batch = ArkworksGroth16ProofBatch { proofs };
        assert_eq!(
            verify_batch(&batch),
            Err(VerifyError::VerificationFailed),
            "corrupt entry at {}",
            k
        );
    }
}

#[test]
fn batch_reports_the_first_failure() {
    // a malformed entry before an invalid one decides the error
    let mut first_bad = valid_entry();
    first_bad.ics_input[0] = vec![1u8; 48];
    let mut second_bad = valid_entry();
    second_bad.public_inputs_serialized[0][0] = 5;
    let batch = ArkworksGroth16ProofBatch { proofs: vec![first_bad, second_bad] };
    assert_eq!(verify_batch(&batch), Err(VerifyError::MalformedPoint));
}

#[test]
fn deserialize_public_inputs_strips_leading_zeros() {
    let mut entry = valid_entry();
    entry.public_inputs_serialized = vec![vec![0, 0, 2], vec![0; 5], vec![9]];
    let inputs = entry.deserialize_public_inputs();
    assert_eq!(inputs, vec![vec![2u8], Vec::new(), vec![9u8]]);
}

#[test]
fn sp1_batch_rejects_garbage_proof() {
    let batch = Sp1Groth16ProofBatch {
        proofs: vec![Sp1Groth16Proof {
            proof: vec![1, 2, 3],
            public_values: vec![4, 5],
            vk_hash: String::from("0x0000000000000000000000000000000000000000000000000000000000000000"),
        }],
    };
    assert_eq!(verify_sp1_batch(&batch), Err(VerifyError::VerificationFailed));
}

#[test]
fn sp1_batch_rejects_non_ascii_hash_without_panicking() {
    let batch = Sp1Groth16ProofBatch {
        proofs: vec![Sp1Groth16Proof {
            proof: vec![0; 300],
            public_values: vec![],
            vk_hash: String::from("aé"),
        }],
    };
    assert_eq!(verify_sp1_batch(&batch), Err(VerifyError::VerificationFailed));
}

#[test]
fn sp1_empty_batch_accepts() {
    let batch = Sp1Groth16ProofBatch { proofs: Vec::new() };
    assert_eq!(verify_sp1_batch(&batch), Ok(()));
}

#[test]
fn smt_batch_is_all_or_nothing() {
    assert!(smt_batch_accepts(&Vec::new()));
    assert!(smt_batch_accepts(&vec![true, true, true]));
    assert!(!smt_batch_accepts(&vec![true, false, true]));
    assert!(!smt_batch_accepts(&vec![false]));
}

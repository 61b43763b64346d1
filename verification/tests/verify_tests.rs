//! The whole verification protocol: acceptance, tampering, determinism.
//!
//! The valid transcript is built so that every pairing input is a nonzero
//! point: with generators G and H, the four pairs are
//! (-2G, 3H), (G, 2H), (3G, H), (G, H), whose exponents sum to
//! -6 + 2 + 3 + 1 = 0, so the product is the identity.  The accumulated
//! point 3G comes from commitments [G, G] and the single public input 2.

use groth16_batch::errors::VerifyError;
use groth16_batch::verify::{verify_groth16_proof, verify_groth16_proof_deterministic};

fn g1(k: u64) -> [u8; 48] {
    bls12_381::G1Affine::from(bls12_381::G1Affine::generator() * bls12_381::Scalar::from(k))
        .to_compressed()
}

fn g2(k: u64) -> [u8; 96] {
    bls12_381::G2Affine::from(bls12_381::G2Affine::generator() * bls12_381::Scalar::from(k))
        .to_compressed()
}

struct Transcript {
    g1s: Vec<[u8; 48]>,
    g2s: Vec<[u8; 96]>,
    inputs: Vec<Vec<u8>>,
    ics: Vec<Vec<u8>>,
}

fn valid_transcript() -> Transcript {
    Transcript {
        // a, alpha, expected vk_x, c
        g1s: vec![g1(2), g1(1), g1(3), g1(1)],
        // b, beta, gamma, delta
        g2s: vec![g2(3), g2(2), g2(1), g2(1)],
        inputs: vec![vec![2u8]],
        ics: vec![g1(1).to_vec(), g1(1).to_vec()],
    }
}

fn run(t: &Transcript) -> Result<(), VerifyError> {
    verify_groth16_proof(&t.g1s, &t.g2s, &t.inputs, &t.ics)
}

#[test]
fn valid_proof_accepts() {
    assert_eq!(run(&valid_transcript()), Ok(()));
}

#[test]
fn tampered_a_rejects() {
    for pos in [0usize, 1, 23, 47] {
        let mut t = valid_transcript();
        t.g1s[0][pos] = t.g1s[0][pos].wrapping_add(1);
        assert!(run(&t).is_err(), "flip at {}", pos);
    }
}

#[test]
fn tampered_b_rejects() {
    for pos in [0usize, 17, 95] {
        let mut t = valid_transcript();
        t.g2s[0][pos] = t.g2s[0][pos].wrapping_add(1);
        assert!(run(&t).is_err(), "flip at {}", pos);
    }
}

#[test]
fn tampered_c_rejects() {
    for pos in [0usize, 30, 47] {
        let mut t = valid_transcript();
        t.g1s[3][pos] = t.g1s[3][pos].wrapping_add(1);
        assert!(run(&t).is_err(), "flip at {}", pos);
    }
}

#[test]
fn tampered_public_input_rejects() {
    let mut t = valid_transcript();
    t.inputs[0][0] = 3;
    assert_eq!(run(&t), Err(VerifyError::VerificationFailed));
}

#[test]
fn mismatched_accumulated_point_rejects() {
    let mut t = valid_transcript();
    t.g1s[2] = g1(4);
    assert_eq!(run(&t), Err(VerifyError::VerificationFailed));
}

#[test]
fn shape_mismatch_between_inputs_and_commitments_rejects() {
    let mut t = valid_transcript();
    t.ics.pop();
    assert_eq!(run(&t), Err(VerifyError::ShapeMismatch));
    let mut t2 = valid_transcript();
    t2.inputs.clear();
    assert_eq!(run(&t2), Err(VerifyError::ShapeMismatch));
}

#[test]
fn wrong_point_counts_reject() {
    let mut t = valid_transcript();
    t.g1s.pop();
    assert_eq!(run(&t), Err(VerifyError::MalformedPoint));
    let mut t2 = valid_transcript();
    t2.g2s.push(g2(1));
    assert_eq!(run(&t2), Err(VerifyError::MalformedPoint));
}

#[test]
fn garbage_point_bytes_reject() {
    let mut t = valid_transcript();
    t.ics[1] = vec![0u8; 48];
    assert_eq!(run(&t), Err(VerifyError::MalformedPoint));
}

#[test]
fn verification_is_deterministic() {
    let t = valid_transcript();
    let (a, b) = verify_groth16_proof_deterministic(&t.g1s, &t.g2s, &t.inputs, &t.ics);
    assert_eq!(a, b);
    assert_eq!(a, Ok(()));
    let mut bad = valid_transcript();
    bad.inputs[0][0] = 9;
    assert_eq!(run(&bad), run(&bad));
}

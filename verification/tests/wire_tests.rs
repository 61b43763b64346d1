//! The batch container decoder against the serialization convention.

use groth16_batch::errors::VerifyError;
use groth16_batch::wire::decode_batch;

fn g1(k: u64) -> [u8; 48] {
    bls12_381::G1Affine::from(bls12_381::G1Affine::generator() * bls12_381::Scalar::from(k))
        .to_compressed()
}

fn g2(k: u64) -> [u8; 96] {
    bls12_381::G2Affine::from(bls12_381::G2Affine::generator() * bls12_381::Scalar::from(k))
        .to_compressed()
}

/// One serialized proof record, laid out with the standard length-prefixed
/// convention.
fn proof_record() -> Vec<u8> {
    let g1s: Vec<[u8; 48]> = vec![g1(2), g1(1), g1(3), g1(1)];
    let g2s: Vec<[u8; 96]> = vec![g2(3), g2(2), g2(1), g2(1)];
    let inputs: Vec<Vec<u8>> = vec![vec![2u8]];
    let ics: Vec<Vec<u8>> = vec![g1(1).to_vec(), g1(1).to_vec()];
    let mut blob = borsh::to_vec(&g1s).unwrap();
    blob.extend(borsh::to_vec(&g2s).unwrap());
    blob.extend(borsh::to_vec(&inputs).unwrap());
    blob.extend(borsh::to_vec(&ics).unwrap());
    blob
}

fn batch_blob(n: u32) -> Vec<u8> {
    let mut blob = n.to_le_bytes().to_vec();
    for _ in 0..n {
        blob.extend(proof_record());
    }
    blob
}

#[test]
fn decode_reads_the_borsh_layout() {
    let batch = decode_batch(&batch_blob(2)).unwrap();
    assert_eq!(batch.proofs.len(), 2);
    let p = &batch.proofs[0];
    assert_eq!(p.g1_affine_points_serialized, vec![g1(2), g1(1), g1(3), g1(1)]);
    assert_eq!(p.g2_affine_points_serialized, vec![g2(3), g2(2), g2(1), g2(1)]);
    assert_eq!(p.public_inputs_serialized, vec![vec![2u8]]);
    assert_eq!(p.ics_input, vec![g1(1).to_vec(), g1(1).to_vec()]);
}

#[test]
fn decode_empty_batch() {
    let batch = decode_batch(&batch_blob(0)).unwrap();
    assert!(batch.proofs.is_empty());
}

#[test]
fn decoded_batch_verifies() {
    let batch = decode_batch(&batch_blob(3)).unwrap();
    assert_eq!(groth16_batch::verify::verify_batch(&batch), Ok(()));
}

#[test]
fn decode_rejects_truncation_and_trailing_bytes() {
    let blob = batch_blob(1);
    for cut in [0usize, 3, 4, 20, blob.len() - 1] {
        let truncated = blob[..cut].to_vec();
        assert_eq!(decode_batch(&truncated), Err(VerifyError::MalformedPoint), "cut {}", cut);
    }
    let mut trailing = blob.clone();
    trailing.push(0);
    assert_eq!(decode_batch(&trailing), Err(VerifyError::MalformedPoint));
}

#[test]
fn decode_rejects_overlong_counts() {
    let mut blob = batch_blob(1);
    // claim five records where only one follows
    blob[0] = 5;
    assert_eq!(decode_batch(&blob), Err(VerifyError::MalformedPoint));
}

#[test]
fn decode_sp1_batch_reads_the_borsh_layout() {
    let entries = vec![
        (vec![1u8, 2, 3], vec![4u8, 5], "0xabc123".to_string()),
        (Vec::new(), vec![9u8], String::new()),
    ];
    let mut blob = (entries.len() as u32).to_le_bytes().to_vec();
    for (proof, pv, hash) in &entries {
        blob.extend(borsh::to_vec(proof).unwrap());
        blob.extend(borsh::to_vec(pv).unwrap());
        blob.extend(borsh::to_vec(hash).unwrap());
    }
    let batch = groth16_batch::wire::decode_sp1_batch(&blob).unwrap();
    assert_eq!(batch.proofs.len(), 2);
    assert_eq!(batch.proofs[0].proof, vec![1, 2, 3]);
    assert_eq!(batch.proofs[0].public_values, vec![4, 5]);
    assert_eq!(batch.proofs[0].vk_hash, "0xabc123");
    assert_eq!(batch.proofs[1].vk_hash, "");
}

#[test]
fn decode_sp1_batch_rejects_bad_utf8_and_truncation() {
    // one record whose hash row is not valid UTF-8
    let mut blob = 1u32.to_le_bytes().to_vec();
    blob.extend(borsh::to_vec(&vec![1u8]).unwrap());
    blob.extend(borsh::to_vec(&vec![2u8]).unwrap());
    blob.extend(borsh::to_vec(&vec![0xffu8, 0xfe]).unwrap());
    assert_eq!(
        groth16_batch::wire::decode_sp1_batch(&blob),
        Err(VerifyError::MalformedPoint)
    );
    let mut short = 1u32.to_le_bytes().to_vec();
    short.push(7);
    assert_eq!(
        groth16_batch::wire::decode_sp1_batch(&short),
        Err(VerifyError::MalformedPoint)
    );
}

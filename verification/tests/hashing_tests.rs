//! Digest helpers against the hash libraries and the container framing.

use groth16_batch::hashing::{
    compute_digest, compute_guest_commitment, frame_bytes, merkle_chain_root,
    mock_merkle_batch_roots, Sha3HasherSp1,
};
use groth16_batch::types::MockMerkleProofBatch;
use sha2::Digest;
use sha3::Digest as Sha3Digest;

#[test]
fn compute_digest_is_sha256() {
    let data = b"Hello, Prover!".to_vec();
    let expected = sha2::Sha256::digest(&data).to_vec();
    assert_eq!(compute_digest(&data), expected);
}

#[test]
fn framing_matches_the_container_serialization() {
    let data = vec![7u8, 8, 9];
    assert_eq!(frame_bytes(&data), borsh::to_vec(&data).unwrap());
    let empty: Vec<u8> = Vec::new();
    assert_eq!(frame_bytes(&empty), borsh::to_vec(&empty).unwrap());
}

#[test]
fn guest_commitment_replays_the_guest_program() {
    let input = String::from("Hello, Prover!");
    // the guest serializes the input, then digests its framed bytes nine times
    let mut output = borsh::to_vec(&input).unwrap();
    for _ in 0..9 {
        output = sha2::Sha256::digest(&borsh::to_vec(&output).unwrap()).to_vec();
    }
    let ours = compute_guest_commitment(&input.as_bytes().to_vec());
    assert_eq!(ours, output);
}

#[test]
fn merkle_chain_folds_left_to_right() {
    let nodes = vec![vec![1u8, 2, 3], vec![4, 5, 6], vec![7, 8, 9], vec![10, 11, 12]];
    let mut current = nodes[0].clone();
    for sibling in &nodes[1..] {
        let mut combined = current.clone();
        combined.extend_from_slice(sibling);
        current = sha2::Sha256::digest(&combined).to_vec();
    }
    assert_eq!(merkle_chain_root(&nodes), current);
}

#[test]
fn merkle_batch_folds_every_path() {
    let path = vec![vec![1u8, 2, 3], vec![4, 5, 6], vec![7, 8, 9], vec![10, 11, 12]];
    let batch = MockMerkleProofBatch { proofs: vec![path.clone(), path.clone()] };
    let roots = mock_merkle_batch_roots(&batch);
    assert_eq!(roots.len(), 2);
    assert_eq!(roots[0], roots[1]);
    assert_eq!(roots[0], merkle_chain_root(&path));
    let single = MockMerkleProofBatch { proofs: vec![vec![vec![42u8]]] };
    assert_eq!(mock_merkle_batch_roots(&single), vec![vec![42u8]]);
}

#[test]
fn sha3_hasher_key_hash_merge() {
    let data = b"leaf data".to_vec();
    let key = Sha3HasherSp1::key("poem", &data);
    let mut h = sha3::Sha3_384::new();
    h.update("poem".as_bytes());
    h.update(&data);
    assert_eq!(key.to_vec(), h.finalize().to_vec());

    let hash = Sha3HasherSp1::hash(&data);
    let mut h2 = sha3::Sha3_384::new();
    h2.update([0x00u8]);
    h2.update(&data);
    assert_eq!(hash.to_vec(), h2.finalize().to_vec());

    let merged = Sha3HasherSp1::merge(&key, &hash);
    let mut h3 = sha3::Sha3_384::new();
    h3.update(key);
    h3.update(hash);
    assert_eq!(merged.to_vec(), h3.finalize().to_vec());
}

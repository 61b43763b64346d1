//! The point codec against the curve library's own serialization.

use groth16_batch::codec::{decode_g1, decode_g2, encode_g1, encode_g2};
use groth16_batch::errors::VerifyError;

fn g1(k: u64) -> bls12_381::G1Affine {
    bls12_381::G1Affine::from(bls12_381::G1Affine::generator() * bls12_381::Scalar::from(k))
}

fn g2(k: u64) -> bls12_381::G2Affine {
    bls12_381::G2Affine::from(bls12_381::G2Affine::generator() * bls12_381::Scalar::from(k))
}

#[test]
fn g1_decode_matches_curve_library() {
    let p = g1(1);
    let bytes = p.to_compressed().to_vec();
    let q = decode_g1(&bytes).unwrap();
    assert!(!q.infinity);
    let unc = p.to_uncompressed();
    assert_eq!(&q.x[..], &unc[0..48]);
    assert_eq!(&q.y[..], &unc[48..96]);
}

#[test]
fn g1_round_trip_generator_and_negation() {
    for p in [g1(1), g1(7), -g1(7), g1(123456789)] {
        let bytes = p.to_compressed().to_vec();
        let q = decode_g1(&bytes).unwrap();
        let enc = encode_g1(&q);
        assert_eq!(enc, bytes);
    }
}

#[test]
fn g1_round_trip_infinity() {
    let bytes = bls12_381::G1Affine::identity().to_compressed().to_vec();
    assert_eq!(bytes[0], 0xc0);
    let q = decode_g1(&bytes).unwrap();
    assert!(q.infinity);
    assert!(q.x.iter().all(|b| *b == 0));
    assert_eq!(encode_g1(&q), bytes);
}

#[test]
fn g1_decode_rejects_wrong_length() {
    assert_eq!(decode_g1(&vec![0x80u8; 47]), Err(VerifyError::MalformedPoint));
    assert_eq!(decode_g1(&vec![0x80u8; 49]), Err(VerifyError::MalformedPoint));
    assert_eq!(decode_g1(&Vec::new()), Err(VerifyError::MalformedPoint));
}

#[test]
fn g1_decode_rejects_missing_compression_flag() {
    let p = g1(1);
    let mut bytes = p.to_compressed().to_vec();
    bytes[0] &= 0x7f;
    assert_eq!(decode_g1(&bytes), Err(VerifyError::MalformedPoint));
}

#[test]
fn g1_decode_rejects_noncanonical_infinity() {
    let mut bytes = vec![0u8; 48];
    bytes[0] = 0xc0;
    bytes[17] = 1;
    assert_eq!(decode_g1(&bytes), Err(VerifyError::MalformedPoint));
    let mut sorted = vec![0u8; 48];
    sorted[0] = 0xe0;
    assert_eq!(decode_g1(&sorted), Err(VerifyError::MalformedPoint));
}

#[test]
fn g1_decode_rejects_oversized_coordinate() {
    // the field modulus itself is not a valid coordinate
    let mut bytes = groth16_batch::bytes_be::modulus_bytes();
    bytes[0] |= 0x80;
    assert_eq!(decode_g1(&bytes), Err(VerifyError::MalformedPoint));
}

#[test]
fn g1_decode_agrees_with_curve_library_on_arbitrary_x() {
    // for a spread of x-coordinates, decoding fails exactly when the curve
    // library's own decompression fails
    for seed in 0u8..32 {
        let mut bytes = [0u8; 48];
        bytes[0] = 0x80;
        bytes[47] = seed;
        bytes[13] = seed.wrapping_mul(37);
        let ours = decode_g1(&bytes.to_vec());
        let theirs = bls12_381::G1Affine::from_compressed_unchecked(&bytes);
        assert_eq!(ours.is_ok(), bool::from(theirs.is_some()));
        if let Ok(q) = ours {
            let unc = theirs.unwrap().to_uncompressed();
            assert_eq!(&q.y[..], &unc[48..96]);
        }
    }
}

#[test]
fn g2_round_trip_points() {
    for p in [g2(1), g2(5), -g2(5)] {
        let bytes = p.to_compressed().to_vec();
        let q = decode_g2(&bytes).unwrap();
        let unc = p.to_uncompressed();
        assert_eq!(&q.x_c1[..], &unc[0..48]);
        assert_eq!(&q.x_c0[..], &unc[48..96]);
        assert_eq!(&q.y_c1[..], &unc[96..144]);
        assert_eq!(&q.y_c0[..], &unc[144..192]);
        assert_eq!(encode_g2(&q), bytes);
    }
}

#[test]
fn g2_round_trip_infinity() {
    let bytes = bls12_381::G2Affine::identity().to_compressed().to_vec();
    let q = decode_g2(&bytes).unwrap();
    assert!(q.infinity);
    assert_eq!(encode_g2(&q), bytes);
}

#[test]
fn g2_decode_rejects_wrong_length() {
    assert_eq!(decode_g2(&vec![0x80u8; 95]), Err(VerifyError::MalformedPoint));
    assert_eq!(decode_g2(&vec![0x80u8; 48]), Err(VerifyError::MalformedPoint));
}

#[test]
fn verified_round_trip_carriers() {
    let p = decode_g1(&g1(29).to_compressed().to_vec()).unwrap();
    let back = groth16_batch::codec::g1_codec_round_trip(&p).unwrap();
    assert_eq!(back.x, p.x);
    assert_eq!(back.y, p.y);
    assert_eq!(back.infinity, p.infinity);
    let q = decode_g2(&g2(31).to_compressed().to_vec()).unwrap();
    let back2 = groth16_batch::codec::g2_codec_round_trip(&q).unwrap();
    assert_eq!(back2.x_c0, q.x_c0);
    assert_eq!(back2.y_c1, q.y_c1);
    assert_eq!(back2.infinity, q.infinity);
}

//! Byte-level field arithmetic and point negation.

use groth16_batch::bytes_be::{
    be_eq, be_is_zero, be_lt, half_modulus_bytes, modulus_bytes, strip_leading_zeros,
    sub_from_modulus,
};
use groth16_batch::codec::decode_g1;
use groth16_batch::point::{negate_g1_affine, G1Point};

#[test]
fn negation_matches_curve_library() {
    let p = bls12_381::G1Affine::generator();
    let decoded = decode_g1(&p.to_compressed().to_vec()).unwrap();
    let negated = negate_g1_affine(&decoded);
    let expected = (-p).to_uncompressed();
    assert_eq!(&negated.x[..], &expected[0..48]);
    assert_eq!(&negated.y[..], &expected[48..96]);
}

#[test]
fn negation_is_an_involution() {
    let p = bls12_381::G1Affine::from(
        bls12_381::G1Affine::generator() * bls12_381::Scalar::from(42u64),
    );
    let decoded = decode_g1(&p.to_compressed().to_vec()).unwrap();
    let twice = negate_g1_affine(&negate_g1_affine(&decoded));
    assert_eq!(twice.x, decoded.x);
    assert_eq!(twice.y, decoded.y);
    assert_eq!(twice.infinity, decoded.infinity);
}

#[test]
fn negation_fixes_the_identity() {
    let zero = G1Point::zero();
    let negated = negate_g1_affine(&zero);
    assert!(negated.infinity);
    assert!(negated.x.iter().all(|b| *b == 0));
    assert!(negated.y.iter().all(|b| *b == 0));
}

#[test]
fn subtraction_from_modulus_is_exact() {
    // p - 1 ends in ...aaaa, one less than the modulus' last byte
    let mut one = vec![0u8; 48];
    one[47] = 1;
    let r = sub_from_modulus(&one);
    let mut expected = modulus_bytes();
    expected[47] = 0xaa;
    assert_eq!(r, expected);
    // (p - 1) / 2 doubles back: p - half - 1 == half
    let half = half_modulus_bytes();
    let mut half_plus_one = half.clone();
    half_plus_one[47] += 1;
    assert_eq!(sub_from_modulus(&half_plus_one), half);
}

#[test]
fn byte_comparison_and_zero_test() {
    let m = modulus_bytes();
    let h = half_modulus_bytes();
    assert!(be_lt(&h, &m));
    assert!(!be_lt(&m, &h));
    assert!(!be_lt(&m, &m));
    assert!(be_eq(&m, &m));
    assert!(!be_eq(&m, &h));
    assert!(be_is_zero(&vec![0u8; 48]));
    assert!(!be_is_zero(&m));
}

#[test]
fn stripping_preserves_the_value() {
    let stripped = strip_leading_zeros(&vec![0, 0, 0, 7, 9]);
    assert_eq!(stripped, vec![7, 9]);
    let zeros = strip_leading_zeros(&vec![0, 0, 0]);
    assert_eq!(zeros, Vec::<u8>::new());
}

#[test]
fn decimal_parsing_small_values() {
    let r = groth16_batch::bytes_be::parse_biguint_to_fq("255");
    assert_eq!(r.len(), 48);
    assert!(r[..47].iter().all(|b| *b == 0));
    assert_eq!(r[47], 0xff);
    let r2 = groth16_batch::bytes_be::parse_biguint_to_fq("65537");
    assert_eq!(&r2[45..], &[0x01, 0x00, 0x01]);
    let r3 = groth16_batch::bytes_be::parse_biguint_to_fq("0");
    assert!(r3.iter().all(|b| *b == 0));
}

#[test]
fn decimal_parsing_wide_value() {
    let r = groth16_batch::bytes_be::parse_biguint_to_fq(
        "40773308728712381898158697079375793952996147561422085865644600677067161140363426656252116303229871146343",
    );
    let expected: [u8; 48] = [
        0x00, 0x00, 0x00, 0x00, 0x01, 0x23, 0x45, 0x67, 0x89, 0xab, 0xcd, 0xef, 0x01, 0x23, 0x45,
        0x67, 0x89, 0xab, 0xcd, 0xef, 0x01, 0x23, 0x45, 0x67, 0x89, 0xab, 0xcd, 0xef, 0x01, 0x23,
        0x45, 0x67, 0x89, 0xab, 0xcd, 0xef, 0x01, 0x23, 0x45, 0x67, 0x89, 0xab, 0xcd, 0xef, 0x01,
        0x23, 0x45, 0x67,
    ];
    assert_eq!(&r[..], &expected[..]);
}

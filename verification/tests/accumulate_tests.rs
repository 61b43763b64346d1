//! The public-input accumulator: exact values, shape errors, and
//! order-independence of the commitment/input pairs.

use groth16_batch::accumulate::{accumulate, accumulate_swap_pairs};
use groth16_batch::codec::{decode_g1, encode_g1};
use groth16_batch::errors::VerifyError;
use groth16_batch::point::G1Point;

fn g1(k: u64) -> bls12_381::G1Affine {
    bls12_381::G1Affine::from(bls12_381::G1Affine::generator() * bls12_381::Scalar::from(k))
}

fn pt(p: &bls12_381::G1Affine) -> G1Point {
    decode_g1(&p.to_compressed().to_vec()).unwrap()
}

#[test]
fn accumulate_known_value() {
    // vk_x = ic0 + 2 * ic1 with ic0 = 3 G, ic1 = 5 G gives 13 G
    let ics = vec![pt(&g1(3)), pt(&g1(5))];
    let inputs = vec![vec![2u8]];
    let vkx = accumulate(&ics, &inputs).unwrap();
    assert_eq!(encode_g1(&vkx), g1(13).to_compressed().to_vec());
}

#[test]
fn accumulate_constant_term_only() {
    let ics = vec![pt(&g1(9))];
    let inputs: Vec<Vec<u8>> = Vec::new();
    let vkx = accumulate(&ics, &inputs).unwrap();
    assert_eq!(encode_g1(&vkx), g1(9).to_compressed().to_vec());
}

#[test]
fn accumulate_accepts_padded_scalars() {
    // leading zero bytes do not change the value
    let ics = vec![pt(&g1(3)), pt(&g1(5))];
    let inputs = vec![vec![0u8, 0, 0, 0, 0, 0, 0, 0, 0, 0, 2]];
    let vkx = accumulate(&ics, &inputs).unwrap();
    assert_eq!(encode_g1(&vkx), g1(13).to_compressed().to_vec());
}

#[test]
fn shape_mismatch_rejected_for_all_length_combinations() {
    let mk_ics = |n: usize| (0..n).map(|i| pt(&g1(i as u64 + 1))).collect::<Vec<_>>();
    let mk_inputs = |n: usize| vec![vec![1u8]; n];
    for n_ics in 0..4usize {
        for n_inputs in 0..4usize {
            let r = accumulate(&mk_ics(n_ics), &mk_inputs(n_inputs));
            if n_ics == n_inputs + 1 {
                assert!(r.is_ok(), "ics {} inputs {}", n_ics, n_inputs);
            } else {
                assert!(
                    matches!(r, Err(VerifyError::ShapeMismatch)),
                    "ics {} inputs {}",
                    n_ics,
                    n_inputs
                );
            }
        }
    }
}

#[test]
fn oversized_scalar_rejected() {
    let ics = vec![pt(&g1(3)), pt(&g1(5))];
    let mut wide = vec![0xffu8; 65];
    wide[0] = 1;
    let r = accumulate(&ics, &vec![wide]);
    assert!(matches!(r, Err(VerifyError::MalformedPoint)));
}

#[test]
fn swapping_a_pair_together_keeps_the_point() {
    // ic0 + 2*A + 7*B == ic0 + 7*B + 2*A
    let ics = vec![pt(&g1(1)), pt(&g1(4)), pt(&g1(9))];
    let inputs = vec![vec![2u8], vec![7u8]];
    let swapped_ics = vec![pt(&g1(1)), pt(&g1(9)), pt(&g1(4))];
    let swapped_inputs = vec![vec![7u8], vec![2u8]];
    let a = accumulate(&ics, &inputs).unwrap();
    let b = accumulate(&swapped_ics, &swapped_inputs).unwrap();
    assert_eq!(encode_g1(&a), encode_g1(&b));
    // 1 + 8 + 63 = 72
    assert_eq!(encode_g1(&a), g1(72).to_compressed().to_vec());
    // the verified carrier computes both orders and proves them equal
    let (first, second) = accumulate_swap_pairs(&ics, &inputs, 1, 2);
    assert_eq!(encode_g1(&first), encode_g1(&second));
    assert_eq!(encode_g1(&first), g1(72).to_compressed().to_vec());
}

#[test]
fn swapping_distant_pairs_keeps_the_point() {
    // 1 + 2*4 + 5*6 + 7*9 = 102, in any pair order
    let ics = vec![pt(&g1(1)), pt(&g1(4)), pt(&g1(6)), pt(&g1(9))];
    let inputs = vec![vec![2u8], vec![5u8], vec![7u8]];
    let (first, second) = accumulate_swap_pairs(&ics, &inputs, 1, 3);
    assert_eq!(encode_g1(&first), encode_g1(&second));
    assert_eq!(encode_g1(&first), g1(102).to_compressed().to_vec());
}

#[test]
fn swapping_commitments_without_their_scalars_moves_the_point() {
    // 1 + 2*4 + 7*9 = 72 but 1 + 2*9 + 7*4 = 47
    let ics = vec![pt(&g1(1)), pt(&g1(4)), pt(&g1(9))];
    let inputs = vec![vec![2u8], vec![7u8]];
    let crossed_ics = vec![pt(&g1(1)), pt(&g1(9)), pt(&g1(4))];
    let a = accumulate(&ics, &inputs).unwrap();
    let b = accumulate(&crossed_ics, &inputs).unwrap();
    assert_ne!(encode_g1(&a), encode_g1(&b));
    assert_eq!(encode_g1(&b), g1(47).to_compressed().to_vec());
}

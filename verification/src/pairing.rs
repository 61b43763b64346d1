//! The Groth16 pairing equation.
//!
//! Acceptance of a proof comes down to whether the product of four pairings
//! `e(-A, B) * e(alpha, beta) * e(vk_x, gamma) * e(C, delta)` is the
//! identity of the target group.  The whole computation — Miller loops and
//! final exponentiation — happens in the curve library behind one trusted
//! wrapper; its boolean outcome is a function of the eight point values
//! alone, named by [`pairing_product_identity`].

use vstd::prelude::*;
use crate::point::{G1Point, G2Point, G1View, G2View};
use crate::curve::to_bls_g1;

verus! {

/// What the pairing computation returns: whether
/// `e(a1, b1) * e(a2, b2) * e(a3, b3) * e(a4, b4)` is the identity of the
/// target group.
pub uninterp spec fn pairing_product_identity(
    a1: G1View,
    b1: G2View,
    a2: G1View,
    b2: G2View,
    a3: G1View,
    b3: G2View,
    a4: G1View,
    b4: G2View,
) -> bool;

/// Relies on `bls12_381::G2Affine::from_uncompressed_unchecked`, which
/// builds the affine point with the given big-endian coordinates.  Used
/// only inside the pairing wrapper below; it promises nothing on its own.
#[verifier::external_body]
fn to_bls_g2(p: &G2Point) -> bls12_381::G2Affine
    requires
        p.wf(),
{
    if p.infinity {
        return bls12_381::G2Affine::identity();
    }
    let mut bytes = [0u8; 192];
    bytes[0..48].copy_from_slice(p.x_c1.as_slice());
    bytes[48..96].copy_from_slice(p.x_c0.as_slice());
    bytes[96..144].copy_from_slice(p.y_c1.as_slice());
    bytes[144..192].copy_from_slice(p.y_c0.as_slice());
    bls12_381::G2Affine::from_uncompressed_unchecked(&bytes).unwrap()
}

/// Relies on `bls12_381::multi_miller_loop` and
/// `MillerLoopResult::final_exponentiation`: the product of the four
/// pairings over the given pairs, compared against `Gt::identity()`.  The
/// outcome depends on the eight point values alone.
#[verifier::external_body]
pub(crate) fn pairing_check(
    a1: &G1Point,
    b1: &G2Point,
    a2: &G1Point,
    b2: &G2Point,
    a3: &G1Point,
    b3: &G2Point,
    a4: &G1Point,
    b4: &G2Point,
) -> (r: bool)
    requires
        a1.wf(),
        b1.wf(),
        a2.wf(),
        b2.wf(),
        a3.wf(),
        b3.wf(),
        a4.wf(),
        b4.wf(),
    ensures
        r == pairing_product_identity(a1@, b1@, a2@, b2@, a3@, b3@, a4@, b4@),
{
    let g1 = [to_bls_g1(a1), to_bls_g1(a2), to_bls_g1(a3), to_bls_g1(a4)];
    let g2 = [
        bls12_381::G2Prepared::from(to_bls_g2(b1)),
        bls12_381::G2Prepared::from(to_bls_g2(b2)),
        bls12_381::G2Prepared::from(to_bls_g2(b3)),
        bls12_381::G2Prepared::from(to_bls_g2(b4)),
    ];
    let terms = [(&g1[0], &g2[0]), (&g1[1], &g2[1]), (&g1[2], &g2[2]), (&g1[3], &g2[3])];
    let gt = bls12_381::multi_miller_loop(&terms).final_exponentiation();
    gt == bls12_381::Gt::identity()
}

} // verus!

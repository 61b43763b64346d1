//! Group operations of G1, delegated to the curve library.
//!
//! The verifier never computes a group law itself: addition and scalar
//! multiplication go through trusted wrappers whose results are named by
//! the uninterpreted functions below.  What the wrappers do promise — and
//! what the curve library documents — is that on points of the curve the
//! operation is the abelian group law: results stay on the curve, addition
//! commutes, and it associates.

use vstd::prelude::*;
use crate::bytes_be::be_nat;
use crate::point::{G1Point, G1View, g1_on_curve, g1_curve_eq};

verus! {

/// The order of the BLS12-381 scalar field.
pub open spec fn r_nat() -> nat {
    0x73eda753299d7d483339d80809a1d80553bda402fffe5bfeffffffff00000001nat
}

/// What the curve library's point addition returns: the sum, in the curve
/// group, of two points of the curve.
pub uninterp spec fn g1_add_pt(a: G1View, b: G1View) -> G1View;

/// What the curve library's scalar multiplication returns: the multiple
/// `[k] a` of a point of the curve, for a scalar already reduced modulo the
/// scalar-field order.
pub uninterp spec fn g1_mul_pt(a: G1View, k: nat) -> G1View;

/// Associativity of the group law, anchored at a call that returned
/// `r = a + b`: adding any further point of the curve to `r` is the same as
/// adding the sum of `b` and that point to `a`.
pub open spec fn g1_add_assoc_fact(a: G1View, b: G1View, r: G1View) -> bool {
    forall|c: G1View|
        g1_on_curve(c) ==> g1_add_pt(r, c) == g1_add_pt(a, #[trigger] g1_add_pt(b, c))
}

/// Relies on `bls12_381::G1Affine::from_uncompressed_unchecked`, which
/// builds the affine point with the given big-endian coordinates.  Used
/// only inside the other trusted wrappers; it promises nothing on its own.
#[verifier::external_body]
pub(crate) fn to_bls_g1(p: &G1Point) -> bls12_381::G1Affine
    requires
        p.wf(),
{
    if p.infinity {
        return bls12_381::G1Affine::identity();
    }
    let mut bytes = [0u8; 96];
    bytes[0..48].copy_from_slice(p.x.as_slice());
    bytes[48..96].copy_from_slice(p.y.as_slice());
    bls12_381::G1Affine::from_uncompressed_unchecked(&bytes).unwrap()
}

/// Relies on `bls12_381::G1Affine::to_uncompressed`, which lays a point's
/// coordinates out as big-endian bytes, and `is_identity`.  Used only
/// inside the other trusted wrappers; it promises nothing on its own.
#[verifier::external_body]
pub(crate) fn from_bls_g1(p: &bls12_381::G1Affine) -> G1Point {
    if bool::from(p.is_identity()) {
        return G1Point { x: vec![0u8; 48], y: vec![0u8; 48], infinity: true };
    }
    let unc = p.to_uncompressed();
    G1Point { x: unc[0..48].to_vec(), y: unc[48..96].to_vec(), infinity: false }
}

/// The curve library's affine G1 type, declared so that the wrappers above
/// may pass it between each other.
#[verifier::external_type_specification]
#[verifier::external_body]
pub struct ExG1Affine(bls12_381::G1Affine);

/// The curve library's affine G2 type, declared for the pairing wrapper.
#[verifier::external_type_specification]
#[verifier::external_body]
pub struct ExG2Affine(bls12_381::G2Affine);

/// Relies on `bls12_381`'s G1 addition (`G1Projective + G1Projective`,
/// complete formulas): for two points of the curve the result is their sum
/// in the curve group, which stays on the curve; the group is abelian, so
/// the same call also yields the sum the other way around, and sums
/// associate (`g1_add_assoc_fact`).
#[verifier::external_body]
pub(crate) fn g1_add_points(p: &G1Point, q: &G1Point) -> (r: G1Point)
    requires
        p.wf(),
        q.wf(),
        g1_on_curve(p@),
        g1_on_curve(q@),
    ensures
        r.wf(),
        g1_on_curve(r@),
        r@ == g1_add_pt(p@, q@),
        r@ == g1_add_pt(q@, p@),
        g1_add_assoc_fact(p@, q@, r@),
{
    let a = bls12_381::G1Projective::from(to_bls_g1(p));
    let b = bls12_381::G1Projective::from(to_bls_g1(q));
    let s = bls12_381::G1Affine::from(a + b);
    from_bls_g1(&s)
}

/// Relies on `bls12_381::Scalar::from_bytes_wide`, which reduces a 512-bit
/// little-endian integer modulo the scalar-field order, and on the curve
/// library's scalar multiplication `G1Affine * Scalar`: the result is the
/// scalar multiple `[k mod r] p` in the curve group, a point of the curve.
#[verifier::external_body]
pub(crate) fn g1_mul_scalar(p: &G1Point, k: &Vec<u8>) -> (r: G1Point)
    requires
        p.wf(),
        g1_on_curve(p@),
        k@.len() <= 64,
    ensures
        r.wf(),
        g1_on_curve(r@),
        r@ == g1_mul_pt(p@, be_nat(k@) % r_nat()),
{
    let mut wide = [0u8; 64];
    for (i, b) in k.iter().rev().enumerate() {
        wide[i] = *b;
    }
    let s = bls12_381::Scalar::from_bytes_wide(&wide);
    let prod = to_bls_g1(p) * s;
    from_bls_g1(&bls12_381::G1Affine::from(prod))
}

/// Add two G1 points given by their affine coordinates.  The coordinates
/// must name points of the curve: feeding this the raw coordinates of a
/// point that was never validated is exactly the mistake the type-level
/// split between byte strings and [`G1Point`] is there to prevent.
pub fn add_g1_as_coordinates(p_x: Vec<u8>, p_y: Vec<u8>, q_x: Vec<u8>, q_y: Vec<u8>) -> (r: G1Point)
    requires
        p_x@.len() == 48,
        p_y@.len() == 48,
        q_x@.len() == 48,
        q_y@.len() == 48,
        be_nat(p_x@) < crate::bytes_be::p_nat(),
        be_nat(p_y@) < crate::bytes_be::p_nat(),
        be_nat(q_x@) < crate::bytes_be::p_nat(),
        be_nat(q_y@) < crate::bytes_be::p_nat(),
        g1_curve_eq(be_nat(p_x@), be_nat(p_y@)),
        g1_curve_eq(be_nat(q_x@), be_nat(q_y@)),
    ensures
        r.wf(),
        g1_on_curve(r@),
        r@ == g1_add_pt(
            G1View { x: be_nat(p_x@), y: be_nat(p_y@), inf: false },
            G1View { x: be_nat(q_x@), y: be_nat(q_y@), inf: false },
        ),
{
    let p = G1Point { x: p_x, y: p_y, infinity: false };
    let q = G1Point { x: q_x, y: q_y, infinity: false };
    g1_add_points(&p, &q)
}

/// Multiply the G1 point with the given affine coordinates by a scalar,
/// supplied as a big-endian integer of at most 64 bytes and reduced modulo
/// the scalar-field order.
pub fn scalar_mul(p_x: Vec<u8>, p_y: Vec<u8>, k: Vec<u8>) -> (r: G1Point)
    requires
        p_x@.len() == 48,
        p_y@.len() == 48,
        be_nat(p_x@) < crate::bytes_be::p_nat(),
        be_nat(p_y@) < crate::bytes_be::p_nat(),
        g1_curve_eq(be_nat(p_x@), be_nat(p_y@)),
        k@.len() <= 64,
    ensures
        r.wf(),
        g1_on_curve(r@),
        r@ == g1_mul_pt(
            G1View { x: be_nat(p_x@), y: be_nat(p_y@), inf: false },
            be_nat(k@) % r_nat(),
        ),
{
    let p = G1Point { x: p_x, y: p_y, infinity: false };
    g1_mul_scalar(&p, &k)
}

} // verus!

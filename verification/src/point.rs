//! Affine points of the two pairing groups.
//!
//! A point carries its coordinates as 48-byte big-endian field elements and
//! an explicit point-at-infinity marker.  The zero point is canonical: the
//! marker set and every coordinate byte zero.  Decoding is "unchecked" with
//! respect to subgroup membership, but every point built by this crate's
//! decoder does satisfy the curve equation, and that fact is tracked in the
//! contracts so that the group laws relied on downstream actually apply.

use vstd::prelude::*;
use vstd::arithmetic::div_mod::{lemma_small_mod, lemma_mod_self_0};
use crate::bytes_be::{be_nat, p_nat, be_is_zero, sub_from_modulus, clone_bytes, be_eq};

verus! {

/// The mathematical value of a G1 point: coordinates as naturals.
pub ghost struct G1View {
    pub x: nat,
    pub y: nat,
    pub inf: bool,
}

/// The mathematical value of a G2 point: coordinates in the quadratic
/// extension, each as a pair of naturals `c0 + c1 * u`.
pub ghost struct G2View {
    pub x_c0: nat,
    pub x_c1: nat,
    pub y_c0: nat,
    pub y_c1: nat,
    pub inf: bool,
}

/// An affine point of G1.
#[derive(Debug, PartialEq, Eq)]
pub struct G1Point {
    pub x: Vec<u8>,
    pub y: Vec<u8>,
    pub infinity: bool,
}

/// An affine point of G2.
#[derive(Debug, PartialEq, Eq)]
pub struct G2Point {
    pub x_c0: Vec<u8>,
    pub x_c1: Vec<u8>,
    pub y_c0: Vec<u8>,
    pub y_c1: Vec<u8>,
    pub infinity: bool,
}

impl View for G1Point {
    type V = G1View;

    open spec fn view(&self) -> G1View {
        G1View { x: be_nat(self.x@), y: be_nat(self.y@), inf: self.infinity }
    }
}

impl View for G2Point {
    type V = G2View;

    open spec fn view(&self) -> G2View {
        G2View {
            x_c0: be_nat(self.x_c0@),
            x_c1: be_nat(self.x_c1@),
            y_c0: be_nat(self.y_c0@),
            y_c1: be_nat(self.y_c1@),
            inf: self.infinity,
        }
    }
}

/// The G1 curve equation `y^2 = x^3 + 4` over the base field.
pub open spec fn g1_curve_eq(x: nat, y: nat) -> bool {
    (y * y) % p_nat() == (x * x * x + 4) % p_nat()
}

/// A G1 value is a point of the curve: in range, canonical at infinity, and
/// on the curve when finite.
pub open spec fn g1_on_curve(v: G1View) -> bool {
    &&& v.x < p_nat()
    &&& v.y < p_nat()
    &&& if v.inf {
        v.x == 0 && v.y == 0
    } else {
        g1_curve_eq(v.x, v.y)
    }
}

impl G1Point {
    /// Byte-level well-formedness: fixed widths, coordinates below the
    /// modulus, and the zero point held canonically.
    pub open spec fn wf(&self) -> bool {
        &&& self.x@.len() == 48
        &&& self.y@.len() == 48
        &&& be_nat(self.x@) < p_nat()
        &&& be_nat(self.y@) < p_nat()
        &&& (self.infinity ==> be_nat(self.x@) == 0 && be_nat(self.y@) == 0)
    }

    /// The point at infinity, in its canonical form.
    pub fn zero() -> (r: G1Point)
        ensures
            r.wf(),
            r@ == (G1View { x: 0, y: 0, inf: true }),
            g1_on_curve(r@),
    {
        let x: Vec<u8> = vec![0u8; 48];
        let y: Vec<u8> = vec![0u8; 48];
        proof {
            crate::bytes_be::lemma_be_nat_zero(x@);
            crate::bytes_be::lemma_be_nat_zero(y@);
            crate::bytes_be::lemma_be_nat_bound(x@);
            lemma_p_nat_big();
        }
        G1Point { x, y, infinity: true }
    }

    /// A structural copy.
    pub fn duplicate(&self) -> (r: G1Point)
        ensures
            r.x@ =~= self.x@,
            r.y@ =~= self.y@,
            r.infinity == self.infinity,
            r@ == self@,
    {
        G1Point { x: clone_bytes(&self.x), y: clone_bytes(&self.y), infinity: self.infinity }
    }

    /// Equality of points as values.
    pub fn same_point(&self, other: &G1Point) -> (r: bool)
        requires
            self.wf(),
            other.wf(),
        ensures
            r == (self@ == other@),
    {
        let r = be_eq(&self.x, &other.x) && be_eq(&self.y, &other.y) && self.infinity
            == other.infinity;
        proof {
            if self@ == other@ {
                crate::bytes_be::lemma_be_nat_inj(self.x@, other.x@);
                crate::bytes_be::lemma_be_nat_inj(self.y@, other.y@);
            }
        }
        r
    }
}

/// Multiplication in the quadratic extension `Fq[u]/(u^2 + 1)`, first
/// component: `(a0 + a1 u)(b0 + b1 u) = (a0 b0 - a1 b1) + (a0 b1 + a1 b0) u`.
pub open spec fn fq2_mul_c0(a0: nat, a1: nat, b0: nat, b1: nat) -> nat {
    ((((a0 * b0) as int) - ((a1 * b1) as int)) % (p_nat() as int)) as nat
}

/// Multiplication in the quadratic extension, second component.
pub open spec fn fq2_mul_c1(a0: nat, a1: nat, b0: nat, b1: nat) -> nat {
    (a0 * b1 + a1 * b0) % p_nat()
}

/// Whether an Fq2 element is the lexicographically larger of itself and its
/// negation: decided by `c1`, and by `c0` when `c1` is zero.
pub open spec fn fq2_is_larger(c0: nat, c1: nat) -> bool {
    c1 > crate::bytes_be::half_nat() || (c1 == 0 && c0 > crate::bytes_be::half_nat())
}

/// The G2 curve equation `y^2 = x^3 + 4 (u + 1)` over the quadratic
/// extension.
pub open spec fn g2_curve_eq(x0: nat, x1: nat, y0: nat, y1: nat) -> bool {
    let x2_0 = fq2_mul_c0(x0, x1, x0, x1);
    let x2_1 = fq2_mul_c1(x0, x1, x0, x1);
    let x3_0 = fq2_mul_c0(x2_0, x2_1, x0, x1);
    let x3_1 = fq2_mul_c1(x2_0, x2_1, x0, x1);
    let y2_0 = fq2_mul_c0(y0, y1, y0, y1);
    let y2_1 = fq2_mul_c1(y0, y1, y0, y1);
    y2_0 == (x3_0 + 4) % p_nat() && y2_1 == (x3_1 + 4) % p_nat()
}

/// A G2 value is a point of the curve: in range, canonical at infinity, and
/// on the curve when finite.
pub open spec fn g2_on_curve(v: G2View) -> bool {
    &&& v.x_c0 < p_nat()
    &&& v.x_c1 < p_nat()
    &&& v.y_c0 < p_nat()
    &&& v.y_c1 < p_nat()
    &&& if v.inf {
        v.x_c0 == 0 && v.x_c1 == 0 && v.y_c0 == 0 && v.y_c1 == 0
    } else {
        g2_curve_eq(v.x_c0, v.x_c1, v.y_c0, v.y_c1)
    }
}

impl G2Point {
    /// The point at infinity, in its canonical form.
    pub fn zero() -> (r: G2Point)
        ensures
            r.wf(),
            r@ == (G2View { x_c0: 0, x_c1: 0, y_c0: 0, y_c1: 0, inf: true }),
            g2_on_curve(r@),
    {
        let x_c0: Vec<u8> = vec![0u8; 48];
        let x_c1: Vec<u8> = vec![0u8; 48];
        let y_c0: Vec<u8> = vec![0u8; 48];
        let y_c1: Vec<u8> = vec![0u8; 48];
        proof {
            crate::bytes_be::lemma_be_nat_zero(x_c0@);
            crate::bytes_be::lemma_be_nat_zero(x_c1@);
            crate::bytes_be::lemma_be_nat_zero(y_c0@);
            crate::bytes_be::lemma_be_nat_zero(y_c1@);
            lemma_p_nat_big();
        }
        G2Point { x_c0, x_c1, y_c0, y_c1, infinity: true }
    }

    /// Byte-level well-formedness, as for G1.
    pub open spec fn wf(&self) -> bool {
        &&& self.x_c0@.len() == 48
        &&& self.x_c1@.len() == 48
        &&& self.y_c0@.len() == 48
        &&& self.y_c1@.len() == 48
        &&& be_nat(self.x_c0@) < p_nat()
        &&& be_nat(self.x_c1@) < p_nat()
        &&& be_nat(self.y_c0@) < p_nat()
        &&& be_nat(self.y_c1@) < p_nat()
        &&& (self.infinity ==> be_nat(self.x_c0@) == 0 && be_nat(self.x_c1@) == 0 && be_nat(
            self.y_c0@,
        ) == 0 && be_nat(self.y_c1@) == 0)
    }
}

/// The modulus is a large number; in particular nonzero.
pub proof fn lemma_p_nat_big()
    ensures
        p_nat() > 4,
{
    crate::bytes_be::lemma_be_nat_skip_head(crate::bytes_be::modulus_seq(), 0);
    crate::bytes_be::lemma_pow256_pos(47);
    assert((0x1a as nat) * crate::bytes_be::pow256(47) >= 0x1a) by (nonlinear_arith)
        requires
            crate::bytes_be::pow256(47) >= 1,
    ;
}

/// Negation in the curve group, as a value: the y-coordinate is replaced by
/// its additive inverse in the base field; the point at infinity is fixed.
pub open spec fn negate_spec(v: G1View) -> G1View {
    G1View { x: v.x, y: (((p_nat() - v.y) % p_nat() as int) as nat), inf: v.inf }
}

/// Negating a point of the curve lands on the curve again:
/// `(p - y)^2 = y^2 (mod p)`.
pub proof fn lemma_negate_on_curve(v: G1View)
    requires
        g1_on_curve(v),
    ensures
        g1_on_curve(negate_spec(v)),
{
    lemma_p_nat_big();
    let p = p_nat() as int;
    let y = v.y as int;
    let ny = (p - y) % p;
    if v.inf {
        lemma_mod_self_0(p);
        assert(ny == 0);
    } else {
        if y == 0 {
            lemma_mod_self_0(p);
            assert(ny == 0);
        } else {
            lemma_small_mod((p - y) as nat, p as nat);
            assert(ny == p - y);
            assert((p - y) * (p - y) == y * y + p * (p - 2 * y)) by (nonlinear_arith);
            vstd::arithmetic::div_mod::lemma_mod_multiples_vanish(p - 2 * y, y * y, p);
            assert((ny * ny) % p == (y * y) % p);
        }
        assert(negate_spec(v).y * negate_spec(v).y % p_nat() == v.y * v.y % p_nat());
        vstd::arithmetic::div_mod::lemma_mod_bound(p - y, p);
    }
}

/// Negation is an involution, and fixes the identity.
///
/// For every in-range point value `v`, negating twice gives back `v`; and
/// the canonical zero point is its own negation.
pub proof fn lemma_negate_involution(v: G1View)
    requires
        v.y < p_nat(),
    ensures
        negate_spec(negate_spec(v)) == v,
        negate_spec(G1View { x: 0, y: 0, inf: true }) == (G1View { x: 0, y: 0, inf: true }),
{
    lemma_p_nat_big();
    let p = p_nat() as int;
    let y = v.y as int;
    if y == 0 {
        lemma_mod_self_0(p);
    } else {
        lemma_small_mod((p - y) as nat, p as nat);
        lemma_small_mod(v.y, p as nat);
    }
    lemma_mod_self_0(p);
}

/// Point negation: the point at infinity is returned unchanged; otherwise
/// the y-coordinate becomes `(p - y) mod p`.
pub fn negate_g1_affine(p: &G1Point) -> (r: G1Point)
    requires
        p.wf(),
    ensures
        r.wf(),
        r@ == negate_spec(p@),
        g1_on_curve(p@) ==> g1_on_curve(r@),
{
    proof {
        lemma_p_nat_big();
        if g1_on_curve(p@) {
            lemma_negate_on_curve(p@);
        }
    }
    if p.infinity || be_is_zero(&p.y) {
        proof {
            lemma_mod_self_0(p_nat() as int);
        }
        p.duplicate()
    } else {
        let ny = sub_from_modulus(&p.y);
        proof {
            lemma_small_mod((p_nat() - be_nat(p.y@)) as nat, p_nat());
        }
        G1Point { x: clone_bytes(&p.x), y: ny, infinity: false }
    }
}

/// The coordinates of a finite point, as big-endian field elements.
pub fn extract_g1_coordinates(p: &G1Point) -> (r: (Vec<u8>, Vec<u8>))
    requires
        !p.infinity,
    ensures
        r.0@ =~= p.x@,
        r.1@ =~= p.y@,
{
    (clone_bytes(&p.x), clone_bytes(&p.y))
}

} // verus!

//! The compressed point codec.
//!
//! A G1 point is 48 bytes: the big-endian x-coordinate with three flag bits
//! packed into the top of the first byte (compressed marker, infinity
//! marker, and the sign of the y-coordinate).  A G2 point is 96 bytes laid
//! out the same way over the quadratic-extension x-coordinate (`c1` then
//! `c0`).  The point at infinity is the canonical string: both markers set
//! and every other bit zero.
//!
//! Encoding and the whole byte-level shape of decoding are verified here;
//! only the square-root that recovers a y-coordinate from an x-coordinate
//! is delegated to the curve library, behind a trusted wrapper.

use vstd::prelude::*;
use crate::bytes_be::{
    copy_range, be_nat, p_nat, y_is_larger_root, be_lt, be_is_zero, clone_bytes, modulus_bytes,
    half_modulus_bytes, lemma_be_nat_zero, lemma_be_nat_skip_head, lemma_be_nat_bound,
    lemma_pow256_pos, pow256, modulus_seq,
};
use crate::point::{
    G1Point, G2Point, G1View, G2View, g1_curve_eq, g1_on_curve, g2_curve_eq, g2_on_curve,
    fq2_is_larger,
};
use crate::errors::VerifyError;

verus! {

/// The compressed-form marker: the top bit of the leading byte.
pub open spec fn flag_compressed(b0: u8) -> bool {
    b0 / 128 == 1
}

/// The point-at-infinity marker: the second bit of the leading byte.
pub open spec fn flag_infinity(b0: u8) -> bool {
    (b0 / 64) % 2 == 1
}

/// The y-coordinate sign marker: the third bit of the leading byte.
pub open spec fn flag_sort(b0: u8) -> bool {
    (b0 / 32) % 2 == 1
}

/// The x-coordinate bytes of a compressed G1 string: flags masked away.
pub open spec fn g1_masked_x(b: Seq<u8>) -> Seq<u8> {
    b.update(0, (b[0] % 32) as u8)
}

/// What the curve library's y-recovery returns for a G1 x-coordinate and a
/// requested sign: the matching root of `x^3 + 4`, if one exists.
pub uninterp spec fn g1_decompress(x: nat, sort: bool) -> Option<nat>;

/// Completeness of y-recovery: whenever some in-range `y` satisfies the
/// curve equation for `x` and has the requested sign, the recovery returns
/// exactly that `y` (and, at a call whose outcome is `found`, succeeded).
pub open spec fn g1_root_complete(x: nat, sort: bool, found: bool) -> bool {
    forall|y: nat|
        (y < p_nat() && g1_curve_eq(x, y) && y_is_larger_root(y) == sort) ==> (g1_decompress(
            x,
            sort,
        ) == Some(y) && found)
}

/// The whole G1 decoder, as a value-level function of the input bytes.
pub open spec fn decode_g1_spec(b: Seq<u8>) -> Option<G1View> {
    if b.len() != 48 || !flag_compressed(b[0]) {
        None
    } else if flag_infinity(b[0]) {
        if !flag_sort(b[0]) && be_nat(g1_masked_x(b)) == 0 {
            Some(G1View { x: 0, y: 0, inf: true })
        } else {
            None
        }
    } else if be_nat(g1_masked_x(b)) >= p_nat() {
        None
    } else {
        match g1_decompress(be_nat(g1_masked_x(b)), flag_sort(b[0])) {
            Some(y) => Some(G1View { x: be_nat(g1_masked_x(b)), y, inf: false }),
            None => None,
        }
    }
}

/// The G1 encoder, as a value-level function: x-coordinate bytes with the
/// flag bits added onto the first byte, or the canonical infinity string.
pub open spec fn encode_g1_bytes(x: Seq<u8>, sign: bool, inf: bool) -> Seq<u8> {
    if inf {
        seq![0xc0u8] + Seq::new(47, |i: int| 0u8)
    } else {
        x.update(0, (x[0] + 128 + if sign { 32int } else { 0int }) as u8)
    }
}

/// A field element below the modulus leaves the top three bits of its
/// leading byte clear.
pub proof fn lemma_top_byte_small(s: Seq<u8>)
    requires
        s.len() == 48,
        be_nat(s) < p_nat(),
    ensures
        s[0] < 32,
{
    if s[0] >= 32 {
        lemma_be_nat_skip_head(s, 0);
        lemma_be_nat_skip_head(modulus_seq(), 0);
        lemma_be_nat_bound(modulus_seq().skip(1));
        lemma_pow256_pos(47);
        let w = pow256(47);
        assert(be_nat(s) >= 32 * w) by (nonlinear_arith)
            requires
                be_nat(s) == (s[0] as nat) * w + be_nat(s.skip(1)),
                s[0] >= 32,
                w >= 1,
        ;
        assert(p_nat() < 27 * w) by (nonlinear_arith)
            requires
                p_nat() == 0x1a * w + be_nat(modulus_seq().skip(1)),
                be_nat(modulus_seq().skip(1)) < w,
        ;
    }
}

/// Relies on `bls12_381::G1Affine::from_compressed_unchecked`, which
/// recovers `y = sqrt(x^3 + 4)` and negates it so that its lexicographic
/// sign (`y > (p - 1) / 2`) matches the requested flag, failing exactly
/// when `x^3 + 4` has no square root; and on `G1Affine::to_uncompressed`,
/// which lays the recovered coordinate out as 48 big-endian bytes.
#[verifier::external_body]
fn g1_y_from_x(x: &Vec<u8>, sort: bool) -> (r: Option<Vec<u8>>)
    requires
        x@.len() == 48,
        be_nat(x@) < p_nat(),
    ensures
        r is Some <==> g1_decompress(be_nat(x@), sort) is Some,
        r is Some ==> g1_decompress(be_nat(x@), sort) == Some(be_nat(r->0@)),
        r is Some ==> r->0@.len() == 48 && be_nat(r->0@) < p_nat(),
        r is Some ==> g1_curve_eq(be_nat(x@), be_nat(r->0@)),
        r is Some && be_nat(r->0@) > 0 ==> y_is_larger_root(be_nat(r->0@)) == sort,
        g1_root_complete(be_nat(x@), sort, r is Some),
{
    let mut bytes = [0u8; 48];
    bytes.copy_from_slice(x.as_slice());
    bytes[0] |= 0b1000_0000u8 | (if sort { 0b0010_0000u8 } else { 0u8 });
    let p = bls12_381::G1Affine::from_compressed_unchecked(&bytes);
    if bool::from(p.is_some()) {
        let unc = p.unwrap().to_uncompressed();
        Some(unc[48..96].to_vec())
    } else {
        None
    }
}

/// Decode a compressed G1 point.  Fails with `MalformedPoint` when the
/// input is not 48 bytes, the flag bits are inconsistent, the point at
/// infinity is not in its canonical form, the x-coordinate is not below
/// the field modulus, or no y-coordinate matches.
pub fn decode_g1(bytes: &Vec<u8>) -> (r: Result<G1Point, VerifyError>)
    ensures
        match r {
            Ok(q) => {
                &&& q.wf()
                &&& g1_on_curve(q@)
                &&& decode_g1_spec(bytes@) == Some(q@)
            },
            Err(e) => e == VerifyError::MalformedPoint && decode_g1_spec(bytes@) is None,
        },
        (bytes@.len() == 48 && flag_compressed(bytes@[0]) && !flag_infinity(bytes@[0]) && be_nat(
            g1_masked_x(bytes@),
        ) < p_nat()) ==> g1_root_complete(
            be_nat(g1_masked_x(bytes@)),
            flag_sort(bytes@[0]),
            r is Ok,
        ),
{
    if bytes.len() != 48 {
        return Err(VerifyError::MalformedPoint);
    }
    let b0 = bytes[0];
    if b0 / 128 != 1 {
        return Err(VerifyError::MalformedPoint);
    }
    let inf = (b0 / 64) % 2 == 1;
    let sort = (b0 / 32) % 2 == 1;
    let mut x = clone_bytes(bytes);
    x.set(0, b0 % 32);
    proof {
        assert(x@ =~= g1_masked_x(bytes@));
    }
    if inf {
        if sort || !be_is_zero(&x) {
            return Err(VerifyError::MalformedPoint);
        }
        let z = G1Point::zero();
        return Ok(z);
    }
    let m = modulus_bytes();
    if !be_lt(&x, &m) {
        return Err(VerifyError::MalformedPoint);
    }
    match g1_y_from_x(&x, sort) {
        Some(y) => {
            let q = G1Point { x, y, infinity: false };
            Ok(q)
        },
        None => Err(VerifyError::MalformedPoint),
    }
}

/// Encode a G1 point into its 48-byte compressed form.
pub fn encode_g1(p: &G1Point) -> (r: Vec<u8>)
    requires
        p.wf(),
    ensures
        r@.len() == 48,
        r@ =~= encode_g1_bytes(p.x@, y_is_larger_root(be_nat(p.y@)), p.infinity),
{
    if p.infinity {
        let mut out: Vec<u8> = vec![0u8; 48];
        out.set(0, 0xc0u8);
        proof {
            assert(out@ =~= encode_g1_bytes(p.x@, y_is_larger_root(be_nat(p.y@)), true));
        }
        out
    } else {
        let h = half_modulus_bytes();
        let sign = be_lt(&h, &p.y);
        let mut out = clone_bytes(&p.x);
        proof {
            lemma_top_byte_small(p.x@);
        }
        let b0 = out[0];
        out.set(0, b0 + 128 + if sign { 32u8 } else { 0u8 });
        out
    }
}

/// What the curve library's y-recovery returns for a G2 x-coordinate
/// `x_c0 + x_c1 u` and a requested sign: the matching root of
/// `x^3 + 4 (u + 1)`, if one exists, as the pair `(y_c0, y_c1)`.
pub uninterp spec fn g2_decompress(x_c0: nat, x_c1: nat, sort: bool) -> Option<(nat, nat)>;

/// Completeness of G2 y-recovery, as for G1.
pub open spec fn g2_root_complete(x_c0: nat, x_c1: nat, sort: bool, found: bool) -> bool {
    forall|y0: nat, y1: nat|
        (y0 < p_nat() && y1 < p_nat() && g2_curve_eq(x_c0, x_c1, y0, y1) && fq2_is_larger(y0, y1)
            == sort) ==> (g2_decompress(x_c0, x_c1, sort) == Some((y0, y1)) && found)
}

/// The x-coordinate components of a compressed G2 string: `c1` first with
/// the flags masked away, then `c0`.
pub open spec fn g2_x_c1_bytes(b: Seq<u8>) -> Seq<u8> {
    g1_masked_x(b.subrange(0, 48))
}

pub open spec fn g2_x_c0_bytes(b: Seq<u8>) -> Seq<u8> {
    b.subrange(48, 96)
}

/// The whole G2 decoder, as a value-level function of the input bytes.
pub open spec fn decode_g2_spec(b: Seq<u8>) -> Option<G2View> {
    if b.len() != 96 || !flag_compressed(b[0]) {
        None
    } else if flag_infinity(b[0]) {
        if !flag_sort(b[0]) && be_nat(g2_x_c1_bytes(b)) == 0 && be_nat(g2_x_c0_bytes(b)) == 0 {
            Some(G2View { x_c0: 0, x_c1: 0, y_c0: 0, y_c1: 0, inf: true })
        } else {
            None
        }
    } else if be_nat(g2_x_c1_bytes(b)) >= p_nat() || be_nat(g2_x_c0_bytes(b)) >= p_nat() {
        None
    } else {
        match g2_decompress(be_nat(g2_x_c0_bytes(b)), be_nat(g2_x_c1_bytes(b)), flag_sort(b[0])) {
            Some(y) => Some(
                G2View {
                    x_c0: be_nat(g2_x_c0_bytes(b)),
                    x_c1: be_nat(g2_x_c1_bytes(b)),
                    y_c0: y.0,
                    y_c1: y.1,
                    inf: false,
                },
            ),
            None => None,
        }
    }
}

/// The G2 encoder, as a value-level function.
pub open spec fn encode_g2_bytes(x_c1: Seq<u8>, x_c0: Seq<u8>, sign: bool, inf: bool) -> Seq<u8> {
    if inf {
        seq![0xc0u8] + Seq::new(95, |i: int| 0u8)
    } else {
        x_c1.update(0, (x_c1[0] + 128 + if sign { 32int } else { 0int }) as u8) + x_c0
    }
}

/// Relies on `bls12_381::G2Affine::from_compressed_unchecked`, which
/// recovers `y = sqrt(x^3 + 4(u + 1))` in the quadratic extension and
/// negates it so that its lexicographic sign matches the requested flag,
/// failing exactly when no square root exists; and on
/// `G2Affine::to_uncompressed`, which lays the recovered coordinate out as
/// big-endian bytes, `c1` before `c0`.
#[verifier::external_body]
fn g2_y_from_x(x_c0: &Vec<u8>, x_c1: &Vec<u8>, sort: bool) -> (r: Option<(Vec<u8>, Vec<u8>)>)
    requires
        x_c0@.len() == 48,
        x_c1@.len() == 48,
        be_nat(x_c0@) < p_nat(),
        be_nat(x_c1@) < p_nat(),
    ensures
        r is Some <==> g2_decompress(be_nat(x_c0@), be_nat(x_c1@), sort) is Some,
        r is Some ==> g2_decompress(be_nat(x_c0@), be_nat(x_c1@), sort) == Some(
            (be_nat((r->0).0@), be_nat((r->0).1@)),
        ),
        r is Some ==> (r->0).0@.len() == 48 && be_nat((r->0).0@) < p_nat(),
        r is Some ==> (r->0).1@.len() == 48 && be_nat((r->0).1@) < p_nat(),
        r is Some ==> g2_curve_eq(be_nat(x_c0@), be_nat(x_c1@), be_nat((r->0).0@), be_nat((r->0).1@)),
        r is Some && (be_nat((r->0).0@) > 0 || be_nat((r->0).1@) > 0) ==> fq2_is_larger(
            be_nat((r->0).0@),
            be_nat((r->0).1@),
        ) == sort,
        g2_root_complete(be_nat(x_c0@), be_nat(x_c1@), sort, r is Some),
{
    let mut bytes = [0u8; 96];
    bytes[0..48].copy_from_slice(x_c1.as_slice());
    bytes[48..96].copy_from_slice(x_c0.as_slice());
    bytes[0] |= 0b1000_0000u8 | (if sort { 0b0010_0000u8 } else { 0u8 });
    let p = bls12_381::G2Affine::from_compressed_unchecked(&bytes);
    if bool::from(p.is_some()) {
        let unc = p.unwrap().to_uncompressed();
        Some((unc[144..192].to_vec(), unc[96..144].to_vec()))
    } else {
        None
    }
}

/// Decode a compressed G2 point.  Fails with `MalformedPoint` exactly as
/// the G1 decoder does.
pub fn decode_g2(bytes: &Vec<u8>) -> (r: Result<G2Point, VerifyError>)
    ensures
        match r {
            Ok(q) => {
                &&& q.wf()
                &&& g2_on_curve(q@)
                &&& decode_g2_spec(bytes@) == Some(q@)
            },
            Err(e) => e == VerifyError::MalformedPoint && decode_g2_spec(bytes@) is None,
        },
        (bytes@.len() == 96 && flag_compressed(bytes@[0]) && !flag_infinity(bytes@[0]) && be_nat(
            g2_x_c1_bytes(bytes@),
        ) < p_nat() && be_nat(g2_x_c0_bytes(bytes@)) < p_nat()) ==> g2_root_complete(
            be_nat(g2_x_c0_bytes(bytes@)),
            be_nat(g2_x_c1_bytes(bytes@)),
            flag_sort(bytes@[0]),
            r is Ok,
        ),
{
    if bytes.len() != 96 {
        return Err(VerifyError::MalformedPoint);
    }
    let b0 = bytes[0];
    if b0 / 128 != 1 {
        return Err(VerifyError::MalformedPoint);
    }
    let inf = (b0 / 64) % 2 == 1;
    let sort = (b0 / 32) % 2 == 1;
    let mut x_c1 = copy_range(bytes, 0, 48);
    x_c1.set(0, b0 % 32);
    let x_c0 = copy_range(bytes, 48, 96);
    proof {
        assert(x_c1@ =~= g2_x_c1_bytes(bytes@));
        assert(x_c0@ =~= g2_x_c0_bytes(bytes@));
    }
    if inf {
        if sort || !be_is_zero(&x_c1) || !be_is_zero(&x_c0) {
            return Err(VerifyError::MalformedPoint);
        }
        let z = G2Point::zero();
        return Ok(z);
    }
    let m = modulus_bytes();
    if !be_lt(&x_c1, &m) || !be_lt(&x_c0, &m) {
        return Err(VerifyError::MalformedPoint);
    }
    match g2_y_from_x(&x_c0, &x_c1, sort) {
        Some(y) => {
            let (y_c0, y_c1) = y;
            let q = G2Point { x_c0, x_c1, y_c0, y_c1, infinity: false };
            Ok(q)
        },
        None => Err(VerifyError::MalformedPoint),
    }
}

/// Encode a G2 point into its 96-byte compressed form.
pub fn encode_g2(p: &G2Point) -> (r: Vec<u8>)
    requires
        p.wf(),
    ensures
        r@.len() == 96,
        r@ =~= encode_g2_bytes(
            p.x_c1@,
            p.x_c0@,
            fq2_is_larger(be_nat(p.y_c0@), be_nat(p.y_c1@)),
            p.infinity,
        ),
{
    if p.infinity {
        let mut out: Vec<u8> = vec![0u8; 96];
        out.set(0, 0xc0u8);
        proof {
            assert(out@ =~= encode_g2_bytes(
                p.x_c1@,
                p.x_c0@,
                fq2_is_larger(be_nat(p.y_c0@), be_nat(p.y_c1@)),
                true,
            ));
        }
        out
    } else {
        let h = half_modulus_bytes();
        let c1_larger = be_lt(&h, &p.y_c1);
        let c1_zero = be_is_zero(&p.y_c1);
        let c0_larger = be_lt(&h, &p.y_c0);
        let sign = c1_larger || (c1_zero && c0_larger);
        let mut out = clone_bytes(&p.x_c1);
        proof {
            lemma_top_byte_small(p.x_c1@);
        }
        let b0 = out[0];
        out.set(0, b0 + 128 + if sign { 32u8 } else { 0u8 });
        let mut rest = clone_bytes(&p.x_c0);
        out.append(&mut rest);
        out
    }
}

/// Round trip of the G2 codec, as for G1.
pub fn g2_codec_round_trip(p: &G2Point) -> (r: Result<G2Point, VerifyError>)
    requires
        p.wf(),
        g2_on_curve(p@),
    ensures
        r is Ok,
        match r {
            Ok(q) => q@ == p@,
            Err(_) => false,
        },
{
    let enc = encode_g2(p);
    let ghost sign = fq2_is_larger(be_nat(p.y_c0@), be_nat(p.y_c1@));
    proof {
        if p.infinity {
            assert(enc@[0] == 0xc0);
            assert(g2_x_c1_bytes(enc@) =~= Seq::new(48, |i: int| 0u8));
            assert(g2_x_c0_bytes(enc@) =~= Seq::new(48, |i: int| 0u8));
            lemma_be_nat_zero(g2_x_c1_bytes(enc@));
            lemma_be_nat_zero(g2_x_c0_bytes(enc@));
        } else {
            lemma_top_byte_small(p.x_c1@);
            let b0 = enc@[0];
            assert(b0 == p.x_c1@[0] + 128 + if sign { 32int } else { 0int });
            assert(flag_compressed(b0));
            assert(!flag_infinity(b0));
            assert(flag_sort(b0) == sign);
            assert(g2_x_c1_bytes(enc@) =~= p.x_c1@);
            assert(g2_x_c0_bytes(enc@) =~= p.x_c0@);
        }
    }
    let r = decode_g2(&enc);
    proof {
        if !p.infinity {
            // the point's own y-coordinate witnesses a matching root
            assert(g2_decompress(be_nat(p.x_c0@), be_nat(p.x_c1@), sign) == Some(
                (be_nat(p.y_c0@), be_nat(p.y_c1@)),
            ) && r is Ok);
        }
    }
    r
}

/// Round trip of the G1 codec: decoding an encoded point of the curve
/// gives the point back, for every such point.  This function carries the
/// law as its contract; its body is nothing but the two codec calls.
pub fn g1_codec_round_trip(p: &G1Point) -> (r: Result<G1Point, VerifyError>)
    requires
        p.wf(),
        g1_on_curve(p@),
    ensures
        r is Ok,
        match r {
            Ok(q) => q@ == p@,
            Err(_) => false,
        },
{
    let enc = encode_g1(p);
    let ghost sign = y_is_larger_root(be_nat(p.y@));
    proof {
        if p.infinity {
            assert(enc@[0] == 0xc0);
            assert(flag_compressed(0xc0u8));
            assert(flag_infinity(0xc0u8));
            assert(!flag_sort(0xc0u8));
            assert(g1_masked_x(enc@) =~= Seq::new(48, |i: int| 0u8));
            lemma_be_nat_zero(g1_masked_x(enc@));
        } else {
            lemma_top_byte_small(p.x@);
            let b0 = enc@[0];
            assert(b0 == p.x@[0] + 128 + if sign { 32int } else { 0int });
            assert(flag_compressed(b0));
            assert(!flag_infinity(b0));
            assert(flag_sort(b0) == sign);
            assert(g1_masked_x(enc@) =~= p.x@);
        }
    }
    let r = decode_g1(&enc);
    proof {
        if !p.infinity {
            // the point's own y-coordinate witnesses a matching root
            assert(g1_decompress(be_nat(p.x@), sign) == Some(be_nat(p.y@)) && r is Ok);
        }
    }
    r
}

} // verus!

//! The Groth16 verification protocol and the all-or-nothing batch.
//!
//! A transcript runs through the fixed pipeline: decode every point,
//! accumulate the public inputs into `vk_x`, cross-check `vk_x` against the
//! point supplied in the transcript, then test the pairing equation
//! `e(-A, B) * e(alpha, beta) * e(vk_x, gamma) * e(C, delta) = 1`.  The
//! whole outcome is a value-level function of the input bytes,
//! [`verify_groth16_spec`], so verification is deterministic by contract.

use vstd::prelude::*;
use crate::bytes_be::be_nat;
use crate::point::{G1Point, G2Point, G1View, G2View, g1_on_curve, g2_on_curve, negate_spec,
    negate_g1_affine};
use crate::codec::{decode_g1, decode_g2, decode_g1_spec, decode_g2_spec};
use crate::accumulate::{accumulate, accumulate_spec, scalar_vals, scalars_in_window, g1_views};
use crate::pairing::{pairing_check, pairing_product_identity};
use crate::errors::VerifyError;

verus! {

/// The byte rows of a vector of 48-byte arrays.
pub open spec fn rows48(s: Seq<[u8; 48]>) -> Seq<Seq<u8>> {
    Seq::new(s.len(), |i: int| s[i]@)
}

/// The byte rows of a vector of 96-byte arrays.
pub open spec fn rows96(s: Seq<[u8; 96]>) -> Seq<Seq<u8>> {
    Seq::new(s.len(), |i: int| s[i]@)
}

/// The byte rows of a vector of byte vectors.
pub open spec fn rows_vec(s: Seq<Vec<u8>>) -> Seq<Seq<u8>> {
    Seq::new(s.len(), |i: int| s[i]@)
}

/// The values of a sequence of big-endian byte rows.
pub open spec fn vals_of(s: Seq<Seq<u8>>) -> Seq<nat> {
    Seq::new(s.len(), |i: int| be_nat(s[i]))
}

/// Whether every row decodes as a G1 point.
pub open spec fn all_decode_g1(s: Seq<Seq<u8>>) -> bool {
    forall|i: int| 0 <= i < s.len() ==> #[trigger] decode_g1_spec(s[i]) is Some
}

/// Whether every row decodes as a G2 point.
pub open spec fn all_decode_g2(s: Seq<Seq<u8>>) -> bool {
    forall|i: int| 0 <= i < s.len() ==> #[trigger] decode_g2_spec(s[i]) is Some
}

/// The decoded G1 points of a sequence of rows that all decode.
pub open spec fn decoded_g1(s: Seq<Seq<u8>>) -> Seq<G1View> {
    Seq::new(s.len(), |i: int| decode_g1_spec(s[i])->0)
}

/// The decoded G2 points of a sequence of rows that all decode.
pub open spec fn decoded_g2(s: Seq<Seq<u8>>) -> Seq<G2View> {
    Seq::new(s.len(), |i: int| decode_g2_spec(s[i])->0)
}

/// The verification protocol, as a value-level function of the transcript
/// bytes.  The four G1 rows are `a`, `alpha`, the expected accumulated
/// point, and `c`; the four G2 rows are `b`, `beta`, `gamma`, `delta`.
pub open spec fn verify_groth16_spec(
    g1r: Seq<Seq<u8>>,
    g2r: Seq<Seq<u8>>,
    ins: Seq<Seq<u8>>,
    icr: Seq<Seq<u8>>,
) -> Result<(), VerifyError> {
    if g1r.len() != 4 || g2r.len() != 4 {
        Err(VerifyError::MalformedPoint)
    } else if !all_decode_g1(g1r) || !all_decode_g2(g2r) || !all_decode_g1(icr) {
        Err(VerifyError::MalformedPoint)
    } else if icr.len() != ins.len() + 1 {
        Err(VerifyError::ShapeMismatch)
    } else if !scalars_in_window(vals_of(ins)) {
        Err(VerifyError::MalformedPoint)
    } else {
        let g1s = decoded_g1(g1r);
        let g2s = decoded_g2(g2r);
        let vkx = accumulate_spec(decoded_g1(icr), vals_of(ins));
        if vkx != g1s[2] {
            Err(VerifyError::VerificationFailed)
        } else if pairing_product_identity(
            negate_spec(g1s[0]),
            g2s[0],
            g1s[1],
            g2s[1],
            vkx,
            g2s[2],
            g1s[3],
            g2s[3],
        ) {
            Ok(())
        } else {
            Err(VerifyError::VerificationFailed)
        }
    }
}

/// The bytes of a 48-byte array, as a vector.
fn array48_to_vec(a: &[u8; 48]) -> (r: Vec<u8>)
    ensures
        r@ =~= a@,
{
    let mut r: Vec<u8> = Vec::new();
    let mut i: usize = 0;
    while i < 48
        invariant
            0 <= i <= 48,
            r@ =~= a@.take(i as int),
        decreases 48 - i,
    {
        r.push(a[i]);
        proof {
            assert(r@ =~= a@.take(i + 1));
        }
        i = i + 1;
    }
    proof {
        assert(a@.take(48) =~= a@);
    }
    r
}

/// The bytes of a 96-byte array, as a vector.
fn array96_to_vec(a: &[u8; 96]) -> (r: Vec<u8>)
    ensures
        r@ =~= a@,
{
    let mut r: Vec<u8> = Vec::new();
    let mut i: usize = 0;
    while i < 96
        invariant
            0 <= i <= 96,
            r@ =~= a@.take(i as int),
        decreases 96 - i,
    {
        r.push(a[i]);
        proof {
            assert(r@ =~= a@.take(i + 1));
        }
        i = i + 1;
    }
    proof {
        assert(a@.take(96) =~= a@);
    }
    r
}

/// Verify one Groth16 proof transcript.
///
/// Returns `Ok(())` exactly when every point decodes, the shape agrees, the
/// accumulated `vk_x` equals the point supplied in the transcript, and the
/// pairing equation holds — that is, exactly when [`verify_groth16_spec`]
/// of the input bytes says so.
#[verifier::rlimit(100)]
pub fn verify_groth16_proof(
    g1_affine_points_serialized: &Vec<[u8; 48]>,
    g2_affine_points_serialized: &Vec<[u8; 96]>,
    public_inputs: &Vec<Vec<u8>>,
    ics_serialized: &Vec<Vec<u8>>,
) -> (r: Result<(), VerifyError>)
    ensures
        r == verify_groth16_spec(
            rows48(g1_affine_points_serialized@),
            rows96(g2_affine_points_serialized@),
            rows_vec(public_inputs@),
            rows_vec(ics_serialized@),
        ),
{
    let ghost g1r = rows48(g1_affine_points_serialized@);
    let ghost g2r = rows96(g2_affine_points_serialized@);
    let ghost ins = rows_vec(public_inputs@);
    let ghost icr = rows_vec(ics_serialized@);
    if g1_affine_points_serialized.len() != 4 || g2_affine_points_serialized.len() != 4 {
        return Err(VerifyError::MalformedPoint);
    }
    let mut g1_pts: Vec<G1Point> = Vec::new();
    let mut i: usize = 0;
    while i < 4
        invariant
            0 <= i <= 4,
            g1_affine_points_serialized@.len() == 4,
            g1r == rows48(g1_affine_points_serialized@),
            g1_pts@.len() == i,
            forall|j: int|
                0 <= j < i ==> #[trigger] decode_g1_spec(g1r[j]) == Some(g1_pts@[j]@)
                    && g1_pts@[j].wf() && g1_on_curve(g1_pts@[j]@),
        decreases 4 - i,
    {
        let row = array48_to_vec(&g1_affine_points_serialized[i]);
        match decode_g1(&row) {
            Ok(p) => {
                g1_pts.push(p);
            },
            Err(_) => {
                proof {
                    assert(decode_g1_spec(g1r[i as int]) is None);
                }
                return Err(VerifyError::MalformedPoint);
            },
        }
        i = i + 1;
    }
    let mut g2_pts: Vec<G2Point> = Vec::new();
    let mut i2: usize = 0;
    while i2 < 4
        invariant
            0 <= i2 <= 4,
            g2_affine_points_serialized@.len() == 4,
            g2r == rows96(g2_affine_points_serialized@),
            g1r == rows48(g1_affine_points_serialized@),
            g1_affine_points_serialized@.len() == 4,
            all_decode_g1(g1r),
            g2_pts@.len() == i2,
            forall|j: int|
                0 <= j < i2 ==> #[trigger] decode_g2_spec(g2r[j]) == Some(g2_pts@[j]@)
                    && g2_pts@[j].wf() && g2_on_curve(g2_pts@[j]@),
        decreases 4 - i2,
    {
        let row = array96_to_vec(&g2_affine_points_serialized[i2]);
        match decode_g2(&row) {
            Ok(p) => {
                g2_pts.push(p);
            },
            Err(_) => {
                proof {
                    assert(decode_g2_spec(g2r[i2 as int]) is None);
                }
                return Err(VerifyError::MalformedPoint);
            },
        }
        i2 = i2 + 1;
    }
    let mut ic_pts: Vec<G1Point> = Vec::new();
    let mut i3: usize = 0;
    let icn = ics_serialized.len();
    while i3 < icn
        invariant
            0 <= i3 <= icn,
            icn == ics_serialized@.len(),
            icr == rows_vec(ics_serialized@),
            ic_pts@.len() == i3,
            forall|j: int|
                0 <= j < i3 ==> #[trigger] decode_g1_spec(icr[j]) == Some(ic_pts@[j]@)
                    && ic_pts@[j].wf() && g1_on_curve(ic_pts@[j]@),
        decreases icn - i3,
    {
        match decode_g1(&ics_serialized[i3]) {
            Ok(p) => {
                ic_pts.push(p);
            },
            Err(_) => {
                proof {
                    assert(decode_g1_spec(icr[i3 as int]) is None);
                }
                return Err(VerifyError::MalformedPoint);
            },
        }
        i3 = i3 + 1;
    }
    proof {
        assert(all_decode_g1(g1r));
        assert(all_decode_g2(g2r));
        assert(all_decode_g1(icr));
        assert forall|k: int| 0 <= k < ic_pts@.len() implies (#[trigger] ic_pts@[k]).wf()
            && g1_on_curve(ic_pts@[k]@) by {
            assert(decode_g1_spec(icr[k]) == Some(ic_pts@[k]@));
        }
        assert(scalar_vals(public_inputs@) =~= vals_of(ins));
        assert(g1_views(ic_pts@) =~= decoded_g1(icr));
        assert(decoded_g1(g1r)[0] == g1_pts@[0]@);
        assert(decoded_g1(g1r)[1] == g1_pts@[1]@);
        assert(decoded_g1(g1r)[2] == g1_pts@[2]@);
        assert(decoded_g1(g1r)[3] == g1_pts@[3]@);
        assert(decoded_g2(g2r)[0] == g2_pts@[0]@);
        assert(decoded_g2(g2r)[1] == g2_pts@[1]@);
        assert(decoded_g2(g2r)[2] == g2_pts@[2]@);
        assert(decoded_g2(g2r)[3] == g2_pts@[3]@);
    }
    let vk_x = match accumulate(&ic_pts, public_inputs) {
        Ok(v) => v,
        Err(e) => {
            return Err(e);
        },
    };
    proof {
        assert(decoded_g1(g1r)[2] == g1_pts@[2]@);
    }
    if !vk_x.same_point(&g1_pts[2]) {
        return Err(VerifyError::VerificationFailed);
    }
    let neg_a = negate_g1_affine(&g1_pts[0]);
    let ok = pairing_check(
        &neg_a,
        &g2_pts[0],
        &g1_pts[1],
        &g2_pts[1],
        &vk_x,
        &g2_pts[2],
        &g1_pts[3],
        &g2_pts[3],
    );
    if ok {
        Ok(())
    } else {
        Err(VerifyError::VerificationFailed)
    }
}

/// Verification is deterministic: two calls on the same bytes return the
/// same outcome.  Both components of the result are computed by separate
/// calls of the verifier.
pub fn verify_groth16_proof_deterministic(
    g1_affine_points_serialized: &Vec<[u8; 48]>,
    g2_affine_points_serialized: &Vec<[u8; 96]>,
    public_inputs: &Vec<Vec<u8>>,
    ics_serialized: &Vec<Vec<u8>>,
) -> (r: (Result<(), VerifyError>, Result<(), VerifyError>))
    ensures
        r.0 == r.1,
{
    let first = verify_groth16_proof(
        g1_affine_points_serialized,
        g2_affine_points_serialized,
        public_inputs,
        ics_serialized,
    );
    let second = verify_groth16_proof(
        g1_affine_points_serialized,
        g2_affine_points_serialized,
        public_inputs,
        ics_serialized,
    );
    (first, second)
}

/// The outcome of one batch entry, as a value-level function.
pub open spec fn entry_spec(p: crate::types::ArkworksGroth16Proof) -> Result<(), VerifyError> {
    verify_groth16_spec(
        rows48(p.g1_affine_points_serialized@),
        rows96(p.g2_affine_points_serialized@),
        rows_vec(p.public_inputs_serialized@),
        rows_vec(p.ics_input@),
    )
}

/// Verify a batch of proof transcripts, all or nothing.
///
/// Accepts exactly when every entry verifies.  On rejection the reported
/// error is that of the first failing entry, in input order, and no entry
/// after it is examined.
pub fn verify_batch(batch: &crate::types::ArkworksGroth16ProofBatch) -> (r: Result<
    (),
    VerifyError,
>)
    ensures
        r is Ok <==> (forall|i: int|
            0 <= i < batch.proofs@.len() ==> #[trigger] entry_spec(batch.proofs@[i]) is Ok),
        r matches Err(e) ==> exists|k: int|
            0 <= k < batch.proofs@.len() && #[trigger] entry_spec(batch.proofs@[k]) == Err::<
                (),
                VerifyError,
            >(e) && (forall|j: int| 0 <= j < k ==> #[trigger] entry_spec(batch.proofs@[j]) is Ok),
{
    let n = batch.proofs.len();
    let mut i: usize = 0;
    while i < n
        invariant
            0 <= i <= n,
            n == batch.proofs@.len(),
            forall|j: int| 0 <= j < i ==> #[trigger] entry_spec(batch.proofs@[j]) is Ok,
        decreases n - i,
    {
        let entry = &batch.proofs[i];
        let out = verify_groth16_proof(
            &entry.g1_affine_points_serialized,
            &entry.g2_affine_points_serialized,
            &entry.public_inputs_serialized,
            &entry.ics_input,
        );
        match out {
            Ok(_) => {
                proof {
                    assert(entry_spec(batch.proofs@[i as int]) is Ok);
                }
            },
            Err(e) => {
                proof {
                    assert(entry_spec(batch.proofs@[i as int]) == Err::<(), VerifyError>(e));
                }
                return Err(e);
            },
        }
        i = i + 1;
    }
    Ok(())
}

} // verus!

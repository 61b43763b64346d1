//! The batch container format.
//!
//! A batch travels as one binary record: a 32-bit little-endian count of
//! proof records, then each record's four sequences in order — fixed-width
//! G1 rows, fixed-width G2 rows, variable-width public inputs, and
//! variable-width commitment rows — every sequence prefixed with its own
//! 32-bit little-endian count, and every variable-width row with its
//! length.  The decoder is verified against the value-level parser
//! [`parse_batch_spec`]: it accepts exactly the byte strings that parser
//! accepts, consuming the whole input, and returns exactly the rows the
//! parser reads.

use vstd::prelude::*;
use vstd::utf8::encode_utf8;
use crate::bytes_be::{copy_range, clone_bytes};
use crate::errors::VerifyError;
use crate::types::{ArkworksGroth16Proof, ArkworksGroth16ProofBatch, Sp1Groth16Proof,
    Sp1Groth16ProofBatch};
use crate::verify::{rows48, rows96, rows_vec};

verus! {

/// The 32-bit little-endian integer at `pos`.
pub open spec fn le32_at(b: Seq<u8>, pos: int) -> int {
    (b[pos] as int) + 256 * (b[pos + 1] as int) + 65536 * (b[pos + 2] as int) + 16777216 * (b[pos
        + 3] as int)
}

/// The rows of one parsed proof record.
pub ghost struct ProofRows {
    pub g1_rows: Seq<Seq<u8>>,
    pub g2_rows: Seq<Seq<u8>>,
    pub input_rows: Seq<Seq<u8>>,
    pub ic_rows: Seq<Seq<u8>>,
}

/// Parse `count` rows of fixed width `w` from `pos`: the rows and the
/// position after them, or nothing if the bytes run out.
pub open spec fn parse_fixed_rows(b: Seq<u8>, pos: int, count: int, w: int) -> Option<
    (Seq<Seq<u8>>, int),
>
    decreases count,
{
    if count <= 0 {
        Some((Seq::empty(), pos))
    } else if 0 <= pos && pos + w <= b.len() {
        match parse_fixed_rows(b, pos + w, count - 1, w) {
            Some(rest) => Some((seq![b.subrange(pos, pos + w)] + rest.0, rest.1)),
            None => None,
        }
    } else {
        None
    }
}

/// Parse `count` length-prefixed rows from `pos`.
pub open spec fn parse_var_rows(b: Seq<u8>, pos: int, count: int) -> Option<(Seq<Seq<u8>>, int)>
    decreases count,
{
    if count <= 0 {
        Some((Seq::empty(), pos))
    } else if 0 <= pos && pos + 4 <= b.len() && pos + 4 + le32_at(b, pos) <= b.len() {
        let n = le32_at(b, pos);
        match parse_var_rows(b, pos + 4 + n, count - 1) {
            Some(rest) => Some((seq![b.subrange(pos + 4, pos + 4 + n)] + rest.0, rest.1)),
            None => None,
        }
    } else {
        None
    }
}

/// Parse one proof record at `pos`: four counted sequences in order.
pub open spec fn parse_proof_at(b: Seq<u8>, pos: int) -> Option<(ProofRows, int)> {
    if !(0 <= pos && pos + 4 <= b.len()) {
        None
    } else {
        match parse_fixed_rows(b, pos + 4, le32_at(b, pos), 48) {
            Some(g1) => if g1.1 + 4 <= b.len() {
                match parse_fixed_rows(b, g1.1 + 4, le32_at(b, g1.1), 96) {
                    Some(g2) => if g2.1 + 4 <= b.len() {
                        match parse_var_rows(b, g2.1 + 4, le32_at(b, g2.1)) {
                            Some(ins) => if ins.1 + 4 <= b.len() {
                                match parse_var_rows(b, ins.1 + 4, le32_at(b, ins.1)) {
                                    Some(ics) => Some(
                                        (
                                            ProofRows {
                                                g1_rows: g1.0,
                                                g2_rows: g2.0,
                                                input_rows: ins.0,
                                                ic_rows: ics.0,
                                            },
                                            ics.1,
                                        ),
                                    ),
                                    None => None,
                                }
                            } else {
                                None
                            },
                            None => None,
                        }
                    } else {
                        None
                    },
                    None => None,
                }
            } else {
                None
            },
            None => None,
        }
    }
}

/// Parse `count` proof records from `pos`.
pub open spec fn parse_proofs(b: Seq<u8>, pos: int, count: int) -> Option<(Seq<ProofRows>, int)>
    decreases count,
{
    if count <= 0 {
        Some((Seq::empty(), pos))
    } else {
        match parse_proof_at(b, pos) {
            Some(p) => match parse_proofs(b, p.1, count - 1) {
                Some(rest) => Some((seq![p.0] + rest.0, rest.1)),
                None => None,
            },
            None => None,
        }
    }
}

/// The whole container: a count, that many records, and nothing left over.
pub open spec fn parse_batch_spec(b: Seq<u8>) -> Option<Seq<ProofRows>> {
    if b.len() < 4 {
        None
    } else {
        match parse_proofs(b, 4, le32_at(b, 0)) {
            Some(p) => if p.1 == b.len() {
                Some(p.0)
            } else {
                None
            },
            None => None,
        }
    }
}

/// The rows a proof transcript value holds.
pub open spec fn proof_rows_of(p: ArkworksGroth16Proof) -> ProofRows {
    ProofRows {
        g1_rows: rows48(p.g1_affine_points_serialized@),
        g2_rows: rows96(p.g2_affine_points_serialized@),
        input_rows: rows_vec(p.public_inputs_serialized@),
        ic_rows: rows_vec(p.ics_input@),
    }
}

/// The rows of a sequence of proof transcripts.
pub open spec fn proofs_rows(s: Seq<ArkworksGroth16Proof>) -> Seq<ProofRows> {
    Seq::new(s.len(), |i: int| proof_rows_of(s[i]))
}

/// The rows a whole batch value holds.
pub open spec fn batch_rows_of(batch: ArkworksGroth16ProofBatch) -> Seq<ProofRows> {
    proofs_rows(batch.proofs@)
}

/// Read the 32-bit little-endian integer at `pos`.
fn read_le32(b: &Vec<u8>, pos: usize) -> (r: usize)
    requires
        pos + 4 <= b@.len(),
    ensures
        r == le32_at(b@, pos as int),
        r < 0x1_0000_0000,
{
    proof {
        assert(usize::MAX >= 0xffff_ffff);
    }
    let _len = b.len();
    (b[pos] as usize) + 256 * (b[pos + 1] as usize) + 65536 * (b[pos + 2] as usize) + 16777216 * (
    b[pos + 3] as usize)
}

/// The bytes at `from..from + 48`, as a fixed array.
fn copy_array48(b: &Vec<u8>, from: usize) -> (r: [u8; 48])
    requires
        from + 48 <= b@.len(),
    ensures
        r@ =~= b@.subrange(from as int, from as int + 48),
{
    let _len = b.len();
    let mut r = [0u8; 48];
    let mut i: usize = 0;
    while i < 48
        invariant
            0 <= i <= 48,
            from + 48 <= b@.len(),
            b@.len() <= usize::MAX,
            forall|k: int| 0 <= k < i ==> r@[k] == b@[from + k],
        decreases 48 - i,
    {
        r[i] = b[from + i];
        i = i + 1;
    }
    r
}

/// The bytes at `from..from + 96`, as a fixed array.
fn copy_array96(b: &Vec<u8>, from: usize) -> (r: [u8; 96])
    requires
        from + 96 <= b@.len(),
    ensures
        r@ =~= b@.subrange(from as int, from as int + 96),
{
    let _len = b.len();
    let mut r = [0u8; 96];
    let mut i: usize = 0;
    while i < 96
        invariant
            0 <= i <= 96,
            from + 96 <= b@.len(),
            b@.len() <= usize::MAX,
            forall|k: int| 0 <= k < i ==> r@[k] == b@[from + k],
        decreases 96 - i,
    {
        r[i] = b[from + i];
        i = i + 1;
    }
    r
}

/// Decode a counted run of 48-byte rows.
fn decode_rows48(b: &Vec<u8>, pos: usize, count: usize) -> (r: Result<
    (Vec<[u8; 48]>, usize),
    VerifyError,
>)
    requires
        pos <= b@.len(),
    ensures
        (r matches Ok(ok) ==> parse_fixed_rows(b@, pos as int, count as int, 48) == Some(
            (rows48(ok.0@), ok.1 as int),
        ) && ok.1 <= b@.len()),
        r is Err ==> parse_fixed_rows(b@, pos as int, count as int, 48) is None && r == Err::<
            (Vec<[u8; 48]>, usize),
            VerifyError,
        >(VerifyError::MalformedPoint),
{
    let mut rows: Vec<[u8; 48]> = Vec::new();
    let mut cur = pos;
    let mut k: usize = 0;
    while k < count
        invariant
            0 <= k <= count,
            pos <= cur <= b@.len(),
            rows@.len() == k,
            parse_fixed_rows(b@, pos as int, count as int, 48) == (match parse_fixed_rows(
                b@,
                cur as int,
                count - k,
                48,
            ) {
                Some(rest) => Some::<(Seq<Seq<u8>>, int)>((rows48(rows@) + rest.0, rest.1)),
                None => None::<(Seq<Seq<u8>>, int)>,
            }),
        decreases count - k,
    {
        if b.len() - cur < 48 {
            return Err(VerifyError::MalformedPoint);
        }
        let row = copy_array48(b, cur);
        let ghost old_rows = rows@;
        rows.push(row);
        proof {
            assert(rows48(rows@) =~= rows48(old_rows) + seq![b@.subrange(
                cur as int,
                cur as int + 48,
            )]);
            let rest_opt = parse_fixed_rows(b@, cur as int + 48, count - k - 1, 48);
            if rest_opt is Some {
                assert((rows48(old_rows) + (seq![b@.subrange(cur as int, cur as int + 48)] + (
                rest_opt->0).0)) =~= (rows48(rows@) + (rest_opt->0).0));
            }
        }
        cur = cur + 48;
        k = k + 1;
    }
    proof {
        assert(rows48(rows@) + Seq::<Seq<u8>>::empty() =~= rows48(rows@));
    }
    Ok((rows, cur))
}

/// Decode a counted run of 96-byte rows.
fn decode_rows96(b: &Vec<u8>, pos: usize, count: usize) -> (r: Result<
    (Vec<[u8; 96]>, usize),
    VerifyError,
>)
    requires
        pos <= b@.len(),
    ensures
        (r matches Ok(ok) ==> parse_fixed_rows(b@, pos as int, count as int, 96) == Some(
            (rows96(ok.0@), ok.1 as int),
        ) && ok.1 <= b@.len()),
        r is Err ==> parse_fixed_rows(b@, pos as int, count as int, 96) is None && r == Err::<
            (Vec<[u8; 96]>, usize),
            VerifyError,
        >(VerifyError::MalformedPoint),
{
    let mut rows: Vec<[u8; 96]> = Vec::new();
    let mut cur = pos;
    let mut k: usize = 0;
    while k < count
        invariant
            0 <= k <= count,
            pos <= cur <= b@.len(),
            rows@.len() == k,
            parse_fixed_rows(b@, pos as int, count as int, 96) == (match parse_fixed_rows(
                b@,
                cur as int,
                count - k,
                96,
            ) {
                Some(rest) => Some::<(Seq<Seq<u8>>, int)>((rows96(rows@) + rest.0, rest.1)),
                None => None::<(Seq<Seq<u8>>, int)>,
            }),
        decreases count - k,
    {
        if b.len() - cur < 96 {
            return Err(VerifyError::MalformedPoint);
        }
        let row = copy_array96(b, cur);
        let ghost old_rows = rows@;
        rows.push(row);
        proof {
            assert(rows96(rows@) =~= rows96(old_rows) + seq![b@.subrange(
                cur as int,
                cur as int + 96,
            )]);
            let rest_opt = parse_fixed_rows(b@, cur as int + 96, count - k - 1, 96);
            if rest_opt is Some {
                assert((rows96(old_rows) + (seq![b@.subrange(cur as int, cur as int + 96)] + (
                rest_opt->0).0)) =~= (rows96(rows@) + (rest_opt->0).0));
            }
        }
        cur = cur + 96;
        k = k + 1;
    }
    proof {
        assert(rows96(rows@) + Seq::<Seq<u8>>::empty() =~= rows96(rows@));
    }
    Ok((rows, cur))
}

/// Decode a counted run of length-prefixed rows.
fn decode_var_rows(b: &Vec<u8>, pos: usize, count: usize) -> (r: Result<
    (Vec<Vec<u8>>, usize),
    VerifyError,
>)
    requires
        pos <= b@.len(),
    ensures
        (r matches Ok(ok) ==> parse_var_rows(b@, pos as int, count as int) == Some(
            (rows_vec(ok.0@), ok.1 as int),
        ) && ok.1 <= b@.len() && ok.0@.len() == count),
        r is Err ==> parse_var_rows(b@, pos as int, count as int) is None && r == Err::<
            (Vec<Vec<u8>>, usize),
            VerifyError,
        >(VerifyError::MalformedPoint),
{
    let mut rows: Vec<Vec<u8>> = Vec::new();
    let mut cur = pos;
    let mut k: usize = 0;
    while k < count
        invariant
            0 <= k <= count,
            pos <= cur <= b@.len(),
            rows@.len() == k,
            parse_var_rows(b@, pos as int, count as int) == (match parse_var_rows(
                b@,
                cur as int,
                count - k,
            ) {
                Some(rest) => Some::<(Seq<Seq<u8>>, int)>((rows_vec(rows@) + rest.0, rest.1)),
                None => None::<(Seq<Seq<u8>>, int)>,
            }),
        decreases count - k,
    {
        if b.len() - cur < 4 {
            return Err(VerifyError::MalformedPoint);
        }
        let n = read_le32(b, cur);
        if n > b.len() - cur - 4 {
            return Err(VerifyError::MalformedPoint);
        }
        let row = copy_range(b, cur + 4, cur + 4 + n);
        let ghost old_rows = rows@;
        rows.push(row);
        proof {
            assert(rows_vec(rows@) =~= rows_vec(old_rows) + seq![b@.subrange(
                cur + 4,
                cur + 4 + n,
            )]);
            let rest_opt = parse_var_rows(b@, cur as int + 4 + n, count - k - 1);
            if rest_opt is Some {
                assert((rows_vec(old_rows) + (seq![b@.subrange(cur + 4, cur + 4 + n)] + (
                rest_opt->0).0)) =~= (rows_vec(rows@) + (rest_opt->0).0));
            }
        }
        cur = cur + 4 + n;
        k = k + 1;
    }
    proof {
        assert(rows_vec(rows@) + Seq::<Seq<u8>>::empty() =~= rows_vec(rows@));
    }
    Ok((rows, cur))
}

/// Decode one proof record.
fn decode_proof_at(b: &Vec<u8>, pos: usize) -> (r: Result<
    (ArkworksGroth16Proof, usize),
    VerifyError,
>)
    requires
        pos <= b@.len(),
    ensures
        (r matches Ok(ok) ==> parse_proof_at(b@, pos as int) == Some(
            (proof_rows_of(ok.0), ok.1 as int),
        ) && ok.1 <= b@.len()),
        r is Err ==> parse_proof_at(b@, pos as int) is None && r == Err::<
            (ArkworksGroth16Proof, usize),
            VerifyError,
        >(VerifyError::MalformedPoint),
{
    if b.len() - pos < 4 {
        return Err(VerifyError::MalformedPoint);
    }
    let n1 = read_le32(b, pos);
    let (g1_rows, p1) = match decode_rows48(b, pos + 4, n1) {
        Ok(v) => v,
        Err(e) => {
            return Err(e);
        },
    };
    if b.len() - p1 < 4 {
        return Err(VerifyError::MalformedPoint);
    }
    let n2 = read_le32(b, p1);
    let (g2_rows, p2) = match decode_rows96(b, p1 + 4, n2) {
        Ok(v) => v,
        Err(e) => {
            return Err(e);
        },
    };
    if b.len() - p2 < 4 {
        return Err(VerifyError::MalformedPoint);
    }
    let n3 = read_le32(b, p2);
    let (input_rows, p3) = match decode_var_rows(b, p2 + 4, n3) {
        Ok(v) => v,
        Err(e) => {
            return Err(e);
        },
    };
    if b.len() - p3 < 4 {
        return Err(VerifyError::MalformedPoint);
    }
    let n4 = read_le32(b, p3);
    let (ic_rows, p4) = match decode_var_rows(b, p3 + 4, n4) {
        Ok(v) => v,
        Err(e) => {
            return Err(e);
        },
    };
    let proof = ArkworksGroth16Proof {
        g1_affine_points_serialized: g1_rows,
        g2_affine_points_serialized: g2_rows,
        public_inputs_serialized: input_rows,
        ics_input: ic_rows,
    };
    Ok((proof, p4))
}

/// Decode a whole batch container.  Succeeds exactly when
/// [`parse_batch_spec`] accepts the bytes, and then carries exactly the
/// rows that parser reads; every failure is `MalformedPoint`.
pub fn decode_batch(b: &Vec<u8>) -> (r: Result<ArkworksGroth16ProofBatch, VerifyError>)
    ensures
        (r matches Ok(batch) ==> parse_batch_spec(b@) == Some(batch_rows_of(batch))),
        r is Err ==> parse_batch_spec(b@) is None && r == Err::<
            ArkworksGroth16ProofBatch,
            VerifyError,
        >(VerifyError::MalformedPoint),
{
    if b.len() < 4 {
        return Err(VerifyError::MalformedPoint);
    }
    let count = read_le32(b, 0);
    let mut proofs: Vec<ArkworksGroth16Proof> = Vec::new();
    let mut cur: usize = 4;
    let mut k: usize = 0;
    while k < count
        invariant
            0 <= k <= count,
            cur <= b@.len(),
            proofs@.len() == k,
            count == le32_at(b@, 0),
            b@.len() >= 4,
            parse_proofs(b@, 4, count as int) == (match parse_proofs(
                b@,
                cur as int,
                count - k,
            ) {
                Some(rest) => Some::<(Seq<ProofRows>, int)>(
                    (proofs_rows(proofs@) + rest.0, rest.1),
                ),
                None => None::<(Seq<ProofRows>, int)>,
            }),
        decreases count - k,
    {
        let (proof, next) = match decode_proof_at(b, cur) {
            Ok(v) => v,
            Err(e) => {
                return Err(e);
            },
        };
        let ghost old_proofs = proofs@;
        proofs.push(proof);
        proof {
            let old_rows = proofs_rows(old_proofs);
            let new_rows = proofs_rows(proofs@);
            assert(new_rows =~= old_rows + seq![proof_rows_of(proofs@[k as int])]);
            let rest_opt = parse_proofs(b@, next as int, count - k - 1);
            if rest_opt is Some {
                assert((old_rows + (seq![proof_rows_of(proofs@[k as int])] + (rest_opt->0).0)) =~= (
                new_rows + (rest_opt->0).0));
            }
        }
        cur = next;
        k = k + 1;
    }
    if cur != b.len() {
        return Err(VerifyError::MalformedPoint);
    }
    proof {
        let rows = proofs_rows(proofs@);
        assert(rows + Seq::<ProofRows>::empty() =~= rows);
    }
    Ok(ArkworksGroth16ProofBatch { proofs })
}

/// Parse `count` wrapped-proof records from `pos`: each record is three
/// length-prefixed rows — proof bytes, public values, verifying-key hash.
pub open spec fn parse_sp1_proofs(b: Seq<u8>, pos: int, count: int) -> Option<
    (Seq<Seq<Seq<u8>>>, int),
>
    decreases count,
{
    if count <= 0 {
        Some((Seq::empty(), pos))
    } else {
        match parse_var_rows(b, pos, 3) {
            Some(p) => match parse_sp1_proofs(b, p.1, count - 1) {
                Some(rest) => Some((seq![p.0] + rest.0, rest.1)),
                None => None,
            },
            None => None,
        }
    }
}

/// The whole wrapped-proof container: a count, that many records, and
/// nothing left over.
pub open spec fn parse_sp1_spec(b: Seq<u8>) -> Option<Seq<Seq<Seq<u8>>>> {
    if b.len() < 4 {
        None
    } else {
        match parse_sp1_proofs(b, 4, le32_at(b, 0)) {
            Some(p) => if p.1 == b.len() {
                Some(p.0)
            } else {
                None
            },
            None => None,
        }
    }
}

/// The byte rows a sequence of wrapped proofs holds; the hash string
/// appears as its UTF-8 bytes.
pub open spec fn sp1_rows_of(s: Seq<Sp1Groth16Proof>) -> Seq<Seq<Seq<u8>>> {
    Seq::new(s.len(), |i: int| seq![s[i].proof@, s[i].public_values@, encode_utf8(s[i].vk_hash@)])
}

/// Whether a byte string is the UTF-8 encoding of some character sequence,
/// anchored at a conversion call whose success is `ok`.
pub open spec fn utf8_well_formed(v: Seq<u8>, ok: bool) -> bool {
    ok <==> exists|s: Seq<char>| encode_utf8(s) == v
}

/// Relies on `String::from_utf8`: it succeeds exactly when the bytes are
/// valid UTF-8, and then returns the string those bytes encode.
#[verifier::external_body]
fn bytes_to_string(v: Vec<u8>) -> (r: Option<String>)
    ensures
        r is Some ==> encode_utf8(r->0@) == v@,
        utf8_well_formed(v@, r is Some),
{
    String::from_utf8(v).ok()
}

/// Decode a wrapped-proof batch container.  Succeeds exactly when
/// [`parse_sp1_spec`] accepts the bytes and every hash row is valid UTF-8,
/// and then carries exactly the rows that parser reads; every failure is
/// `MalformedPoint`.
pub fn decode_sp1_batch(b: &Vec<u8>) -> (r: Result<Sp1Groth16ProofBatch, VerifyError>)
    ensures
        (r matches Ok(batch) ==> parse_sp1_spec(b@) == Some(sp1_rows_of(batch.proofs@))),
        r is Err ==> r == Err::<Sp1Groth16ProofBatch, VerifyError>(VerifyError::MalformedPoint) && (
        parse_sp1_spec(b@) is None || (exists|i: int|
            0 <= i < parse_sp1_spec(b@)->0.len() && !utf8_well_formed(
                #[trigger] parse_sp1_spec(b@)->0[i][2],
                true,
            ))),
{
    if b.len() < 4 {
        return Err(VerifyError::MalformedPoint);
    }
    let count = read_le32(b, 0);
    let mut proofs: Vec<Sp1Groth16Proof> = Vec::new();
    let mut cur: usize = 4;
    let mut k: usize = 0;
    while k < count
        invariant
            0 <= k <= count,
            cur <= b@.len(),
            proofs@.len() == k,
            count == le32_at(b@, 0),
            b@.len() >= 4,
            parse_sp1_proofs(b@, 4, count as int) == (match parse_sp1_proofs(
                b@,
                cur as int,
                count - k,
            ) {
                Some(rest) => Some::<(Seq<Seq<Seq<u8>>>, int)>(
                    (sp1_rows_of(proofs@) + rest.0, rest.1),
                ),
                None => None::<(Seq<Seq<Seq<u8>>>, int)>,
            }),
        decreases count - k,
    {
        let (rows, next) = match decode_var_rows(b, cur, 3) {
            Ok(v) => v,
            Err(e) => {
                return Err(e);
            },
        };
        let proof_bytes = clone_bytes(&rows[0]);
        let public_values = clone_bytes(&rows[1]);
        let hash_bytes = clone_bytes(&rows[2]);
        let vk_hash = match bytes_to_string(hash_bytes) {
            Some(s) => s,
            None => {
                proof {
                    let full = parse_sp1_proofs(b@, 4, count as int);
                    if full is Some {
                        let rest = parse_sp1_proofs(b@, cur as int, count - k);
                        assert(rest is Some);
                        assert((rest->0).0[0] == rows_vec(rows@));
                        assert((full->0).0[k as int] == rows_vec(rows@));
                        assert(parse_sp1_spec(b@) is Some ==> parse_sp1_spec(b@)->0 == (
                        full->0).0);
                        if parse_sp1_spec(b@) is Some {
                            assert(parse_sp1_spec(b@)->0[k as int][2] == rows@[2]@);
                            assert(!utf8_well_formed(parse_sp1_spec(b@)->0[k as int][2], true));
                        }
                    }
                }
                return Err(VerifyError::MalformedPoint);
            },
        };
        let entry = Sp1Groth16Proof { proof: proof_bytes, public_values, vk_hash };
        let ghost old_proofs = proofs@;
        proofs.push(entry);
        proof {
            assert(sp1_rows_of(proofs@) =~= sp1_rows_of(old_proofs) + seq![rows_vec(rows@)]) by {
                assert(seq![proofs@[k as int].proof@, proofs@[k as int].public_values@,
                    encode_utf8(proofs@[k as int].vk_hash@)] =~= rows_vec(rows@));
            }
            let rest_opt = parse_sp1_proofs(b@, next as int, count - k - 1);
            if rest_opt is Some {
                assert((sp1_rows_of(old_proofs) + (seq![rows_vec(rows@)] + (rest_opt->0).0)) =~= (
                sp1_rows_of(proofs@) + (rest_opt->0).0));
            }
        }
        cur = next;
        k = k + 1;
    }
    if cur != b.len() {
        return Err(VerifyError::MalformedPoint);
    }
    proof {
        let rows = sp1_rows_of(proofs@);
        assert(rows + Seq::<Seq<Seq<u8>>>::empty() =~= rows);
    }
    Ok(Sp1Groth16ProofBatch { proofs })
}

} // verus!

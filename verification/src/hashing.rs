//! Digest-based helpers that travel with the verifier: the guest program's
//! iterated commitment, mock Merkle path folding, and the sparse-Merkle
//! hasher.
//!
//! The digests themselves are outside calls; their results are named by
//! uninterpreted functions, and everything around them — framing,
//! concatenation, iteration — is verified byte arithmetic.

use vstd::prelude::*;
use vstd::utf8::encode_utf8;
use crate::bytes_be::clone_bytes;
use crate::types::MockMerkleProofBatch;

verus! {

/// What the SHA-256 digest of a byte string is.
pub uninterp spec fn sha256_of(data: Seq<u8>) -> Seq<u8>;

/// What the SHA3-384 digest of a byte string is.
pub uninterp spec fn sha3_384_of(data: Seq<u8>) -> Seq<u8>;

/// Relies on `sha2::Sha256` (`Digest::digest`): the 32-byte digest, a
/// function of the input bytes alone.
#[verifier::external_body]
fn sha256_digest(data: &Vec<u8>) -> (r: Vec<u8>)
    ensures
        r@ == sha256_of(data@),
        r@.len() == 32,
{
    <sha2::Sha256 as sha2::Digest>::digest(data.as_slice()).to_vec()
}

/// Relies on `sha3::Sha3_384` (`Digest::digest`): the 48-byte digest, a
/// function of the input bytes alone.
#[verifier::external_body]
fn sha3_384_digest(data: &Vec<u8>) -> (r: [u8; 48])
    ensures
        r@ == sha3_384_of(data@),
{
    let mut out = [0u8; 48];
    out.copy_from_slice(&<sha3::Sha3_384 as sha3::Digest>::digest(data.as_slice()));
    out
}

/// One concatenation of byte strings.
pub fn concat_bytes(a: &Vec<u8>, b: &Vec<u8>) -> (r: Vec<u8>)
    requires
        a@.len() + b@.len() <= usize::MAX,
    ensures
        r@ =~= a@ + b@,
{
    let mut r = clone_bytes(a);
    let n = b.len();
    let mut i: usize = 0;
    while i < n
        invariant
            0 <= i <= n,
            n == b@.len(),
            a@.len() + b@.len() <= usize::MAX,
            r@ =~= a@ + b@.take(i as int),
        decreases n - i,
    {
        r.push(b[i]);
        proof {
            assert(r@ =~= a@ + b@.take(i + 1));
        }
        i = i + 1;
    }
    proof {
        assert(b@.take(n as int) =~= b@);
    }
    r
}

/// The SHA-256 digest of a byte string: the guest program's basic
/// primitive.
pub fn compute_digest(input: &Vec<u8>) -> (r: Vec<u8>)
    ensures
        r@ == sha256_of(input@),
        r@.len() == 32,
{
    sha256_digest(input)
}

/// A byte string framed with its little-endian 32-bit length, the way the
/// batch container serializes variable-width fields.
pub open spec fn frame_spec(s: Seq<u8>) -> Seq<u8> {
    seq![
        (s.len() % 256) as u8,
        ((s.len() / 256) % 256) as u8,
        ((s.len() / 65536) % 256) as u8,
        ((s.len() / 16777216) % 256) as u8,
    ] + s
}

/// Frame a byte string with its little-endian 32-bit length.
pub fn frame_bytes(v: &Vec<u8>) -> (r: Vec<u8>)
    requires
        v@.len() < 0x1_0000_0000,
    ensures
        r@ =~= frame_spec(v@),
{
    let n = v.len();
    let mut r: Vec<u8> = Vec::new();
    r.push((n % 256) as u8);
    r.push(((n / 256) % 256) as u8);
    r.push(((n / 65536) % 256) as u8);
    r.push(((n / 16777216) % 256) as u8);
    let mut rest = clone_bytes(v);
    r.append(&mut rest);
    proof {
        assert(r@ =~= frame_spec(v@));
    }
    r
}

/// The guest program's commitment after `n` rounds: each round frames the
/// running bytes with their length and digests the result.
pub open spec fn iterated_commitment_spec(s: Seq<u8>, n: nat) -> Seq<u8>
    decreases n,
{
    if n == 0 {
        s
    } else {
        sha256_of(frame_spec(iterated_commitment_spec(s, (n - 1) as nat)))
    }
}

/// The guest program's output for a framed input: nine rounds of
/// frame-then-digest over the input's own frame.
pub fn compute_guest_commitment(input: &Vec<u8>) -> (r: Vec<u8>)
    requires
        input@.len() + 4 < 0x1_0000_0000,
    ensures
        r@ == iterated_commitment_spec(frame_spec(input@), 9),
{
    let mut out = frame_bytes(input);
    let mut round: usize = 0;
    while round < 9
        invariant
            0 <= round <= 9,
            out@ == iterated_commitment_spec(frame_spec(input@), round as nat),
            round > 0 ==> out@.len() == 32,
            out@.len() < 0x1_0000_0000,
            input@.len() + 4 < 0x1_0000_0000,
        decreases 9 - round,
    {
        let framed = frame_bytes(&out);
        out = sha256_digest(&framed);
        round = round + 1;
    }
    out
}

/// The root of a mock Merkle authentication path after folding the nodes
/// up to position `i`: each step digests the running hash concatenated
/// with the next sibling.
pub open spec fn chain_spec(nodes: Seq<Seq<u8>>, i: int) -> Seq<u8>
    decreases i,
{
    if i <= 0 {
        nodes[0]
    } else {
        sha256_of(chain_spec(nodes, i - 1) + nodes[i])
    }
}

/// Fold one mock Merkle authentication path into its root hash.
pub fn merkle_chain_root(nodes: &Vec<Vec<u8>>) -> (r: Vec<u8>)
    requires
        nodes@.len() >= 1,
        forall|i: int| 0 <= i < nodes@.len() ==> (#[trigger] nodes@[i])@.len() <= 0x1000_0000,
    ensures
        r@ == chain_spec(crate::verify::rows_vec(nodes@), nodes@.len() - 1),
{
    let n = nodes.len();
    let mut current = clone_bytes(&nodes[0]);
    let mut i: usize = 1;
    while i < n
        invariant
            1 <= i <= n,
            n == nodes@.len(),
            forall|k: int| 0 <= k < nodes@.len() ==> (#[trigger] nodes@[k])@.len() <= 0x1000_0000,
            current@ == chain_spec(crate::verify::rows_vec(nodes@), i - 1),
            i > 1 ==> current@.len() == 32,
        decreases n - i,
    {
        let combined = concat_bytes(&current, &nodes[i]);
        current = sha256_digest(&combined);
        i = i + 1;
    }
    current
}

/// Fold every path of a mock Merkle batch into its root, in input order.
pub fn mock_merkle_batch_roots(batch: &MockMerkleProofBatch) -> (r: Vec<Vec<u8>>)
    requires
        forall|i: int| 0 <= i < batch.proofs@.len() ==> (#[trigger] batch.proofs@[i])@.len() >= 1,
        forall|i: int, j: int|
            0 <= i < batch.proofs@.len() && 0 <= j < batch.proofs@[i]@.len() ==> (
            #[trigger] batch.proofs@[i]@[j])@.len() <= 0x1000_0000,
    ensures
        r@.len() == batch.proofs@.len(),
        forall|i: int|
            0 <= i < r@.len() ==> (#[trigger] r@[i])@ == chain_spec(
                crate::verify::rows_vec(batch.proofs@[i]@),
                batch.proofs@[i]@.len() - 1,
            ),
{
    let n = batch.proofs.len();
    let mut r: Vec<Vec<u8>> = Vec::new();
    let mut i: usize = 0;
    while i < n
        invariant
            0 <= i <= n,
            n == batch.proofs@.len(),
            forall|k: int|
                0 <= k < batch.proofs@.len() ==> (#[trigger] batch.proofs@[k])@.len() >= 1,
            forall|k: int, j: int|
                0 <= k < batch.proofs@.len() && 0 <= j < batch.proofs@[k]@.len() ==> (
                #[trigger] batch.proofs@[k]@[j])@.len() <= 0x1000_0000,
            r@.len() == i,
            forall|k: int|
                0 <= k < i ==> (#[trigger] r@[k])@ == chain_spec(
                    crate::verify::rows_vec(batch.proofs@[k]@),
                    batch.proofs@[k]@.len() - 1,
                ),
        decreases n - i,
    {
        r.push(merkle_chain_root(&batch.proofs[i]));
        i = i + 1;
    }
    r
}

/// The sparse-Merkle hasher of the coprocessor, over SHA3-384.
pub struct Sha3HasherSp1;

/// The execution environment that selects that hasher.
pub struct Sha3Context;

impl Sha3HasherSp1 {
    /// A domain-separated key: the digest of the context string's UTF-8
    /// bytes followed by the data.
    pub fn key(context: &str, data: &[u8]) -> (r: [u8; 48])
        requires
            encode_utf8(context@).len() + data@.len() <= usize::MAX,
        ensures
            r@ == sha3_384_of(encode_utf8(context@) + data@),
    {
        let c = vstd::slice::slice_to_vec(context.as_bytes());
        let d = vstd::slice::slice_to_vec(data);
        let joined = concat_bytes(&c, &d);
        sha3_384_digest(&joined)
    }

    /// A data hash: the digest of the data behind the zero prefix byte.
    pub fn hash(data: &[u8]) -> (r: [u8; 48])
        requires
            data@.len() + 1 <= usize::MAX,
        ensures
            r@ == sha3_384_of(seq![0u8] + data@),
    {
        let prefix: Vec<u8> = vec![0u8];
        let d = vstd::slice::slice_to_vec(data);
        proof {
            assert(prefix@ =~= seq![0u8]);
        }
        let joined = concat_bytes(&prefix, &d);
        sha3_384_digest(&joined)
    }

    /// A node hash: the digest of two child hashes, left then right.
    pub fn merge(a: &[u8; 48], b: &[u8; 48]) -> (r: [u8; 48])
        ensures
            r@ == sha3_384_of(a@ + b@),
    {
        let av = vstd::slice::slice_to_vec(a.as_slice());
        let bv = vstd::slice::slice_to_vec(b.as_slice());
        let joined = concat_bytes(&av, &bv);
        sha3_384_digest(&joined)
    }
}

} // verus!

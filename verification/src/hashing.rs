//! Content hashing for blocks: a canonical, order-preserving serialization of
//! the logical fields `(timestamp, payload, predecessor_hash)` is digested
//! with SHA-256 and the digest is hex-encoded. The block's own hash field is
//! never part of the input.

use vstd::prelude::*;
use crate::codec::u64_be;

verus! {

/// The SHA-256 digest of a byte sequence. The digest is a function of the
/// input bytes alone; its definition is the outside crate's.
pub uninterp spec fn sha256_of(s: Seq<u8>) -> Seq<u8>;

/// Relies on sha2::Sha256 (through the Digest trait): a 32-byte digest
/// determined by the input bytes alone.
#[verifier::external_body]
fn sha256(input: &Vec<u8>) -> (r: Vec<u8>)
    ensures
        r@ == sha256_of(input@),
        r@.len() == 32,
{
    <sha2::Sha256 as sha2::Digest>::digest(input.as_slice()).to_vec()
}

/// The ASCII code of the lowercase hex digit for a value below 16.
pub open spec fn hex_digit(n: u8) -> u8 {
    if n < 10 {
        (48 + n) as u8
    } else {
        (87 + n) as u8
    }
}

/// Lowercase hex encoding of a byte sequence: two digits for each byte.
pub open spec fn hex_of(s: Seq<u8>) -> Seq<u8> {
    Seq::new(2 * s.len(), |i: int| if i % 2 == 0 { hex_digit(s[i / 2] / 16) } else { hex_digit(s[i / 2] % 16) })
}

/// Hex-encode a byte sequence as ASCII bytes.
pub fn hex_encode(input: &Vec<u8>) -> (r: Vec<u8>)
    ensures
        r@ == hex_of(input@),
{
    let mut out: Vec<u8> = Vec::new();
    let mut i: usize = 0;
    while i < input.len()
        invariant
            i <= input@.len(),
            out@ == hex_of(input@.subrange(0, i as int)),
        decreases input@.len() - i,
    {
        let b = input[i];
        let hi: u8 = b / 16;
        let lo: u8 = b % 16;
        out.push(if hi < 10 { 48 + hi } else { 87 + hi });
        out.push(if lo < 10 { 48 + lo } else { 87 + lo });
        i = i + 1;
        proof {
            assert(out@ =~= hex_of(input@.subrange(0, i as int)));
        }
    }
    proof {
        assert(input@.subrange(0, input@.len() as int) =~= input@);
    }
    out
}

/// The canonical hash input: big-endian timestamp, big-endian payload length,
/// the payload bytes, then the predecessor hash bytes.
pub open spec fn hash_input(timestamp: u64, payload: Seq<u8>, prev_hash: Seq<u8>) -> Seq<u8> {
    u64_be(timestamp) + u64_be(payload.len() as u64) + payload + prev_hash
}

/// The content hash of a block's logical fields: the hex-encoded SHA-256
/// digest of their canonical serialization.
pub open spec fn hash_of(timestamp: u64, payload: Seq<u8>, prev_hash: Seq<u8>) -> Seq<u8> {
    hex_of(sha256_of(hash_input(timestamp, payload, prev_hash)))
}

/// Compute the content hash of the given block fields.
pub fn compute_hash(timestamp: u64, payload: &Vec<u8>, prev_hash: &Vec<u8>) -> (r: Vec<u8>)
    ensures
        r@ == hash_of(timestamp, payload@, prev_hash@),
{
    let mut input = crate::codec::u64_be_bytes(timestamp);
    let len_bytes = crate::codec::u64_be_bytes(payload.len() as u64);
    crate::codec::push_all(&mut input, &len_bytes);
    crate::codec::push_all(&mut input, payload);
    crate::codec::push_all(&mut input, prev_hash);
    proof {
        assert(input@ =~= hash_input(timestamp, payload@, prev_hash@));
    }
    let digest = sha256(&input);
    hex_encode(&digest)
}

} // verus!

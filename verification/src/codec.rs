//! The persisted layout of a block and the byte-level helpers it rests on.
//!
//! A block is serialized as a fixed 32-byte header of four big-endian 64-bit
//! integers (timestamp, payload length, predecessor-hash length, self-hash
//! length) followed by the three variable-length fields. Decoding is strict:
//! a record decodes only if its length is exactly what the header announces,
//! so every valid record has exactly one encoding and the round trip is
//! byte-identical in both directions.

use vstd::prelude::*;
use crate::block::{Block, BlockView};

verus! {

/// The eight big-endian bytes of a 64-bit integer.
pub open spec fn u64_be(x: u64) -> Seq<u8> {
    seq![
        ((x >> 56) & 0xff) as u8,
        ((x >> 48) & 0xff) as u8,
        ((x >> 40) & 0xff) as u8,
        ((x >> 32) & 0xff) as u8,
        ((x >> 24) & 0xff) as u8,
        ((x >> 16) & 0xff) as u8,
        ((x >> 8) & 0xff) as u8,
        (x & 0xff) as u8,
    ]
}

/// The 64-bit integer read from eight big-endian bytes.
pub open spec fn be_u64(s: Seq<u8>) -> u64
    recommends
        s.len() == 8,
{
    ((s[0] as u64) << 56) | ((s[1] as u64) << 48) | ((s[2] as u64) << 40) | ((s[3] as u64) << 32)
        | ((s[4] as u64) << 24) | ((s[5] as u64) << 16) | ((s[6] as u64) << 8) | (s[7] as u64)
}

/// Reading back the eight big-endian bytes of an integer gives the integer.
pub proof fn lemma_be_round_trip(x: u64)
    ensures
        be_u64(u64_be(x)) == x,
{
    assert((((((x >> 56) & 0xff) as u8) as u64) << 56) | (((((x >> 48) & 0xff) as u8) as u64)
        << 48) | (((((x >> 40) & 0xff) as u8) as u64) << 40) | (((((x >> 32) & 0xff) as u8)
        as u64) << 32) | (((((x >> 24) & 0xff) as u8) as u64) << 24) | (((((x >> 16) & 0xff)
        as u8) as u64) << 16) | (((((x >> 8) & 0xff) as u8) as u64) << 8) | (((x & 0xff) as u8)
        as u64) == x) by (bit_vector);
}

/// Re-encoding the integer read from eight bytes gives the same eight bytes.
pub proof fn lemma_be_round_trip_bytes(s: Seq<u8>)
    requires
        s.len() == 8,
    ensures
        u64_be(be_u64(s)) == s,
{
    let b0 = s[0] as u64;
    let b1 = s[1] as u64;
    let b2 = s[2] as u64;
    let b3 = s[3] as u64;
    let b4 = s[4] as u64;
    let b5 = s[5] as u64;
    let b6 = s[6] as u64;
    let b7 = s[7] as u64;
    let x = (b0 << 56) | (b1 << 48) | (b2 << 40) | (b3 << 32) | (b4 << 24) | (b5 << 16) | (b6
        << 8) | b7;
    assert(((x >> 56) & 0xff == b0) && ((x >> 48) & 0xff == b1) && ((x >> 40) & 0xff == b2) && ((x
        >> 32) & 0xff == b3) && ((x >> 24) & 0xff == b4) && ((x >> 16) & 0xff == b5) && ((x >> 8)
        & 0xff == b6) && (x & 0xff == b7)) by (bit_vector)
        requires
            b0 < 256 && b1 < 256 && b2 < 256 && b3 < 256 && b4 < 256 && b5 < 256 && b6 < 256 && b7
                < 256,
            x == (b0 << 56) | (b1 << 48) | (b2 << 40) | (b3 << 32) | (b4 << 24) | (b5 << 16) | (b6
                << 8) | b7,
    ;
    assert(u64_be(be_u64(s)) =~= s);
}

/// Write the eight big-endian bytes of an integer.
pub fn u64_be_bytes(x: u64) -> (r: Vec<u8>)
    ensures
        r@ == u64_be(x),
{
    let mut v: Vec<u8> = Vec::new();
    v.push(((x >> 56) & 0xff) as u8);
    v.push(((x >> 48) & 0xff) as u8);
    v.push(((x >> 40) & 0xff) as u8);
    v.push(((x >> 32) & 0xff) as u8);
    v.push(((x >> 24) & 0xff) as u8);
    v.push(((x >> 16) & 0xff) as u8);
    v.push(((x >> 8) & 0xff) as u8);
    v.push((x & 0xff) as u8);
    proof {
        assert(v@ =~= u64_be(x));
    }
    v
}

/// Read the big-endian integer stored at `off`.
pub fn read_u64_be(v: &Vec<u8>, off: usize) -> (r: u64)
    requires
        off + 8 <= v@.len(),
    ensures
        r == be_u64(v@.subrange(off as int, off as int + 8)),
{
    let n = v.len();
    assert(off + 8 <= n);
    ((v[off] as u64) << 56) | ((v[off + 1] as u64) << 48) | ((v[off + 2] as u64) << 40) | ((v[off
        + 3] as u64) << 32) | ((v[off + 4] as u64) << 24) | ((v[off + 5] as u64) << 16) | ((v[off
        + 6] as u64) << 8) | (v[off + 7] as u64)
}

/// Append a copy of every byte of `src` to `dst`.
pub fn push_all(dst: &mut Vec<u8>, src: &Vec<u8>)
    ensures
        final(dst)@ == old(dst)@ + src@,
{
    let mut i: usize = 0;
    while i < src.len()
        invariant
            i <= src@.len(),
            dst@ == old(dst)@ + src@.subrange(0, i as int),
        decreases src@.len() - i,
    {
        dst.push(src[i]);
        i = i + 1;
        proof {
            assert(dst@ =~= old(dst)@ + src@.subrange(0, i as int));
        }
    }
    proof {
        assert(old(dst)@ + src@.subrange(0, src@.len() as int) =~= old(dst)@ + src@);
    }
}

/// Copy the bytes of `v` between `start` and `end` into a fresh vector.
pub fn copy_range(v: &Vec<u8>, start: usize, end: usize) -> (r: Vec<u8>)
    requires
        start <= end <= v@.len(),
    ensures
        r@ == v@.subrange(start as int, end as int),
{
    let mut out: Vec<u8> = Vec::new();
    let mut i: usize = start;
    while i < end
        invariant
            start <= i <= end <= v@.len(),
            out@ == v@.subrange(start as int, i as int),
        decreases end - i,
    {
        out.push(v[i]);
        i = i + 1;
        proof {
            assert(out@ =~= v@.subrange(start as int, i as int));
        }
    }
    out
}

/// The serialized form of a block: the 32-byte header, then payload,
/// predecessor hash, and self-hash.
pub open spec fn encode_spec(b: BlockView) -> Seq<u8> {
    u64_be(b.timestamp) + u64_be(b.payload.len() as u64) + u64_be(b.prev_hash.len() as u64)
        + u64_be(b.hash.len() as u64) + b.payload + b.prev_hash + b.hash
}

/// The block a record decodes to, if its length is exactly what the header
/// announces; `None` marks a corrupt record.
pub open spec fn decode_spec(s: Seq<u8>) -> Option<BlockView> {
    if s.len() < 32 {
        None
    } else {
        let timestamp = be_u64(s.subrange(0, 8));
        let plen = be_u64(s.subrange(8, 16)) as int;
        let rlen = be_u64(s.subrange(16, 24)) as int;
        let hlen = be_u64(s.subrange(24, 32)) as int;
        if s.len() != 32 + plen + rlen + hlen {
            None
        } else {
            Some(BlockView {
                timestamp,
                payload: s.subrange(32, 32 + plen),
                prev_hash: s.subrange(32 + plen, 32 + plen + rlen),
                hash: s.subrange(32 + plen + rlen, 32 + plen + rlen + hlen),
            })
        }
    }
}

/// Round trip, one direction: every block whose fields fit the header's
/// 64-bit lengths decodes back from its own encoding.
pub proof fn lemma_decode_of_encode(b: BlockView)
    requires
        b.payload.len() < 0x10000000000000000,
        b.prev_hash.len() < 0x10000000000000000,
        b.hash.len() < 0x10000000000000000,
    ensures
        decode_spec(encode_spec(b)) == Some(b),
{
    let s = encode_spec(b);
    lemma_be_round_trip(b.timestamp);
    lemma_be_round_trip(b.payload.len() as u64);
    lemma_be_round_trip(b.prev_hash.len() as u64);
    lemma_be_round_trip(b.hash.len() as u64);
    assert(s.subrange(0, 8) =~= u64_be(b.timestamp));
    assert(s.subrange(8, 16) =~= u64_be(b.payload.len() as u64));
    assert(s.subrange(16, 24) =~= u64_be(b.prev_hash.len() as u64));
    assert(s.subrange(24, 32) =~= u64_be(b.hash.len() as u64));
    let plen = b.payload.len() as int;
    let rlen = b.prev_hash.len() as int;
    assert(s.subrange(32, 32 + plen) =~= b.payload);
    assert(s.subrange(32 + plen, 32 + plen + rlen) =~= b.prev_hash);
    assert(s.subrange(32 + plen + rlen, s.len() as int) =~= b.hash);
}

/// Round trip, the other direction: re-encoding a decoded record reproduces
/// the identical bytes, since decoding is strict about lengths.
pub proof fn lemma_encode_of_decode(s: Seq<u8>, b: BlockView)
    requires
        decode_spec(s) == Some(b),
    ensures
        encode_spec(b) == s,
{
    lemma_be_round_trip_bytes(s.subrange(0, 8));
    lemma_be_round_trip_bytes(s.subrange(8, 16));
    lemma_be_round_trip_bytes(s.subrange(16, 24));
    lemma_be_round_trip_bytes(s.subrange(24, 32));
    assert(encode_spec(b) =~= s);
}

/// Serialize a block.
pub fn encode_block(b: &Block) -> (r: Vec<u8>)
    ensures
        r@ == encode_spec(b@),
{
    let mut out = u64_be_bytes(b.timestamp);
    let plen = u64_be_bytes(b.payload.len() as u64);
    let rlen = u64_be_bytes(b.prev_hash.len() as u64);
    let hlen = u64_be_bytes(b.hash.len() as u64);
    push_all(&mut out, &plen);
    push_all(&mut out, &rlen);
    push_all(&mut out, &hlen);
    push_all(&mut out, &b.payload);
    push_all(&mut out, &b.prev_hash);
    push_all(&mut out, &b.hash);
    proof {
        assert(out@ =~= encode_spec(b@));
    }
    out
}

/// Deserialize a block; `None` marks a corrupt record.
pub fn decode_block(s: &Vec<u8>) -> (r: Option<Block>)
    ensures
        match r {
            Some(b) => decode_spec(s@) == Some(b@),
            None => decode_spec(s@) is None,
        },
{
    if s.len() < 32 {
        return None;
    }
    let timestamp = read_u64_be(s, 0);
    let plen = read_u64_be(s, 8);
    let rlen = read_u64_be(s, 16);
    let hlen = read_u64_be(s, 24);
    let total: u128 = 32u128 + plen as u128 + rlen as u128 + hlen as u128;
    if total != s.len() as u128 {
        return None;
    }
    let p_end: usize = 32 + plen as usize;
    let r_end: usize = p_end + rlen as usize;
    let h_end: usize = r_end + hlen as usize;
    let payload = copy_range(s, 32, p_end);
    let prev_hash = copy_range(s, p_end, r_end);
    let hash = copy_range(s, r_end, h_end);
    Some(Block { timestamp, payload, prev_hash, hash })
}

} // verus!

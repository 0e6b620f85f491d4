//! A minimal append-only, tamper-evident ledger: records ("blocks") linked by
//! cryptographic hash, persisted in a key-value store, with an integrity
//! check that detects both data tampering and broken links.

use vstd::prelude::*;

pub mod block;
pub mod chain;
pub mod codec;
pub mod hashing;
pub mod store;

verus! {

/// The reserved store key that holds the current tip hash; it is distinct
/// from every block key, which are hex digests.
pub open spec fn tip_key() -> Seq<u8> {
    seq![76u8, 65u8, 83u8, 84u8]
}

/// Executable copy of the reserved tip key (the bytes of `"LAST"`).
pub fn tip_key_bytes() -> (r: Vec<u8>)
    ensures
        r@ == tip_key(),
{
    let mut v: Vec<u8> = Vec::new();
    v.push(76u8);
    v.push(65u8);
    v.push(83u8);
    v.push(84u8);
    proof {
        assert(v@ =~= tip_key());
    }
    v
}

/// The reserved value marking "no predecessor": the genesis block's link.
pub open spec fn root_sentinel() -> Seq<u8> {
    seq![48u8]
}

/// Executable copy of the root sentinel (the single byte `b"0"`).
pub fn root_sentinel_bytes() -> (r: Vec<u8>)
    ensures
        r@ == root_sentinel(),
{
    let mut v: Vec<u8> = Vec::new();
    v.push(48u8);
    proof {
        assert(v@ =~= root_sentinel());
    }
    v
}

} // verus!

//! The ledger's record type: an immutable-once-finalized block holding a
//! timestamp, an opaque payload, the predecessor's hash, and its own content
//! hash, computed over the other three fields at construction time.

use vstd::prelude::*;
use crate::hashing::hash_of;

verus! {

/// One ledger record. `hash` is computed over `(timestamp, payload,
/// prev_hash)` when the block is built and is never recomputed implicitly
/// afterward; a block whose stored `hash` no longer matches its fields is
/// tampered.
pub struct Block {
    /// Milliseconds since the epoch at construction time.
    pub timestamp: u64,
    /// Opaque application bytes.
    pub payload: Vec<u8>,
    /// The prior block's hash, or the root sentinel for the first block.
    pub prev_hash: Vec<u8>,
    /// The hex-encoded content hash of the three fields above.
    pub hash: Vec<u8>,
}

/// The mathematical model of a block.
pub struct BlockView {
    pub timestamp: u64,
    pub payload: Seq<u8>,
    pub prev_hash: Seq<u8>,
    pub hash: Seq<u8>,
}

impl View for Block {
    type V = BlockView;

    open spec fn view(&self) -> BlockView {
        BlockView {
            timestamp: self.timestamp,
            payload: self.payload@,
            prev_hash: self.prev_hash@,
            hash: self.hash@,
        }
    }
}

/// The model of a block built from the given fields: its hash is the content
/// hash of the fields.
pub open spec fn block_model(timestamp: u64, payload: Seq<u8>, prev_hash: Seq<u8>) -> BlockView {
    BlockView { timestamp, payload, prev_hash, hash: hash_of(timestamp, payload, prev_hash) }
}

impl BlockView {
    /// A block is untampered exactly when its stored hash is the content
    /// hash of its fields.
    pub open spec fn well_formed(self) -> bool {
        self.hash == hash_of(self.timestamp, self.payload, self.prev_hash)
    }
}

/// Relies on chrono::Utc::now and DateTime::timestamp_millis: the current
/// time in milliseconds since the epoch. No two calls need agree, so nothing
/// is promised of the value.
#[verifier::external_body]
fn now_millis() -> u64 {
    chrono::Utc::now().timestamp_millis() as u64
}

impl Block {
    /// Build a block from explicit fields, computing its content hash.
    pub fn from_parts(timestamp: u64, payload: Vec<u8>, prev_hash: Vec<u8>) -> (b: Block)
        ensures
            b@ == (BlockView {
                timestamp,
                payload: payload@,
                prev_hash: prev_hash@,
                hash: hash_of(timestamp, payload@, prev_hash@),
            }),
            b@.well_formed(),
    {
        let hash = crate::hashing::compute_hash(timestamp, &payload, &prev_hash);
        Block { timestamp, payload, prev_hash, hash }
    }

    /// Build a block stamped with the current time. The timestamp is
    /// whatever the clock returned; everything else is pinned down.
    pub fn new(payload: Vec<u8>, prev_hash: Vec<u8>) -> (b: Block)
        ensures
            b@.payload == payload@,
            b@.prev_hash == prev_hash@,
            b@.hash == hash_of(b@.timestamp, payload@, prev_hash@),
            b@.well_formed(),
    {
        let timestamp = now_millis();
        Block::from_parts(timestamp, payload, prev_hash)
    }

    /// Recompute the content hash from the block's fields, without mutating
    /// anything. The result equals the stored hash exactly when the block is
    /// untampered.
    pub fn recompute_hash(&self) -> (r: Vec<u8>)
        ensures
            r@ == hash_of(self@.timestamp, self@.payload, self@.prev_hash),
            (r@ == self@.hash) <==> self@.well_formed(),
    {
        crate::hashing::compute_hash(self.timestamp, &self.payload, &self.prev_hash)
    }
}

/// Recomputing a block's hash agrees with its stored hash exactly when the
/// block is untampered: any edit of `timestamp`, `payload` or `prev_hash`
/// without a matching hash update breaks the agreement.
pub proof fn lemma_recompute_detects_tampering(b: BlockView)
    ensures
        (hash_of(b.timestamp, b.payload, b.prev_hash) == b.hash) <==> b.well_formed(),
{
}

} // verus!

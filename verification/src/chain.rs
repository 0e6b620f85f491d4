//! The chain itself: it owns the tip hash, appends blocks, and validates the
//! stored structure by walking backward from the tip to the root sentinel.
//!
//! Validation recomputes every visited block's hash, compares it to the
//! stored hash and to the key the block was found under, and follows the
//! predecessor links. Tamper-evidence, not tamper-proofing: an attacker who
//! edits a block and recomputes its hash still cannot forge a predecessor's
//! hash without recomputing every ancestor transitively. The one blind spot
//! is the tip itself: if the tip block is tampered, its hash recomputed, the
//! record re-keyed and the tip key updated to match, the resulting store is a
//! different but internally consistent chain, detectable only against an
//! independently retained copy of the expected tip hash, which the validator
//! alone cannot supply.

use vstd::prelude::*;
use crate::block::{Block, BlockView, block_model};
use crate::codec::{decode_spec, encode_spec, decode_block, encode_block};
use crate::hashing::hash_of;
use crate::store::{KvStore, bytes_eq, clone_bytes};
use crate::{root_sentinel, root_sentinel_bytes, tip_key, tip_key_bytes};

verus! {

/// Why a chain failed validation.
#[derive(Clone, Copy, Debug, PartialEq, Eq, Structural)]
pub enum InvalidReason {
    /// A predecessor pointer referenced a block that does not exist in the
    /// store, or the record found there claims a different hash than the key
    /// it was stored under.
    BrokenLink,
    /// A block's fields no longer match its stored hash.
    TamperedData,
    /// A stored record does not decode as a block, or the links loop and
    /// never reach the root.
    Corrupt,
}

/// What validation reports: an expected, detectable outcome, never a fault.
#[derive(Debug)]
pub enum ValidationResult {
    Valid,
    Invalid { reason: InvalidReason, at_hash: Vec<u8> },
}

/// The mathematical model of a validation report.
pub enum ValidationOutcome {
    Valid,
    Invalid { reason: InvalidReason, at_hash: Seq<u8> },
}

impl View for ValidationResult {
    type V = ValidationOutcome;

    open spec fn view(&self) -> ValidationOutcome {
        match self {
            ValidationResult::Valid => ValidationOutcome::Valid,
            ValidationResult::Invalid { reason, at_hash } => ValidationOutcome::Invalid {
                reason: *reason,
                at_hash: at_hash@,
            },
        }
    }
}

impl PartialEq for ValidationResult {
    fn eq(&self, other: &ValidationResult) -> (r: bool) {
        match (self, other) {
            (ValidationResult::Valid, ValidationResult::Valid) => true,
            (
                ValidationResult::Invalid { reason: r1, at_hash: h1 },
                ValidationResult::Invalid { reason: r2, at_hash: h2 },
            ) => *r1 == *r2 && bytes_eq(h1, h2),
            _ => false,
        }
    }
}

impl vstd::std_specs::cmp::PartialEqSpecImpl for ValidationResult {
    open spec fn obeys_eq_spec() -> bool {
        true
    }

    open spec fn eq_spec(&self, other: &ValidationResult) -> bool {
        self@ == other@
    }
}

/// What an operation on the chain can fail with.
#[derive(Clone, Copy, Debug, PartialEq, Eq, Structural)]
pub enum LedgerError {
    /// The underlying store could not be read or written.
    Store,
    /// Stored tip bytes are not hash text: the store is corrupted.
    Decode,
}

/// Whether a byte is a lowercase hex digit.
pub open spec fn is_hex_digit_byte(b: u8) -> bool {
    (48 <= b <= 57) || (97 <= b <= 102)
}

/// Whether a byte sequence is plausible hash text: nonempty, all lowercase
/// hex digits.
pub open spec fn is_hash_text(s: Seq<u8>) -> bool {
    s.len() > 0 && forall|i: int| 0 <= i < s.len() ==> is_hex_digit_byte(#[trigger] s[i])
}

/// Check that a byte vector is plausible hash text.
pub fn check_hash_text(v: &Vec<u8>) -> (r: bool)
    ensures
        r == is_hash_text(v@),
{
    if v.len() == 0 {
        return false;
    }
    let mut i: usize = 0;
    while i < v.len()
        invariant
            i <= v@.len(),
            forall|j: int| 0 <= j < i ==> is_hex_digit_byte(#[trigger] v@[j]),
        decreases v@.len() - i,
    {
        let b = v[i];
        if !((48 <= b && b <= 57) || (97 <= b && b <= 102)) {
            return false;
        }
        i = i + 1;
    }
    true
}

/// The payload the very first block is created with on first run.
pub open spec fn genesis_payload() -> Seq<u8> {
    seq![71u8, 101u8, 110u8, 101u8, 115u8, 105u8, 115u8, 32u8, 66u8, 108u8, 111u8, 99u8, 107u8]
}

/// Executable copy of the genesis payload (the bytes of `"Genesis Block"`).
pub fn genesis_payload_bytes() -> (r: Vec<u8>)
    ensures
        r@ == genesis_payload(),
{
    let mut v: Vec<u8> = Vec::new();
    v.push(71u8);
    v.push(101u8);
    v.push(110u8);
    v.push(101u8);
    v.push(115u8);
    v.push(105u8);
    v.push(115u8);
    v.push(32u8);
    v.push(66u8);
    v.push(108u8);
    v.push(111u8);
    v.push(99u8);
    v.push(107u8);
    proof {
        assert(v@ =~= genesis_payload());
    }
    v
}

/// What validating from `h` over store contents `m` reports, walking at most
/// `fuel` lookups. The checks at each step, in order: the key must resolve;
/// the record must decode; the recomputed hash must match the stored hash;
/// the stored hash must match the key the record sits under; then the walk
/// stops at the root sentinel or follows the predecessor link. Exhausted
/// fuel means the links loop without reaching the root, which honest appends
/// cannot produce, so it is reported as corruption. Validation runs with one
/// more unit of fuel than the store has keys, which any loop-free walk stays
/// within.
pub open spec fn walk(m: Map<Seq<u8>, Seq<u8>>, h: Seq<u8>, fuel: nat) -> ValidationOutcome
    decreases fuel,
{
    if fuel == 0 {
        ValidationOutcome::Invalid { reason: InvalidReason::Corrupt, at_hash: h }
    } else if !m.contains_key(h) {
        ValidationOutcome::Invalid { reason: InvalidReason::BrokenLink, at_hash: h }
    } else {
        match decode_spec(m[h]) {
            None => ValidationOutcome::Invalid { reason: InvalidReason::Corrupt, at_hash: h },
            Some(b) => {
                if b.hash != hash_of(b.timestamp, b.payload, b.prev_hash) {
                    ValidationOutcome::Invalid { reason: InvalidReason::TamperedData, at_hash: h }
                } else if b.hash != h {
                    ValidationOutcome::Invalid { reason: InvalidReason::BrokenLink, at_hash: h }
                } else if b.prev_hash == root_sentinel() {
                    ValidationOutcome::Valid
                } else {
                    walk(m, b.prev_hash, (fuel - 1) as nat)
                }
            },
        }
    }
}


/// The blocks a backward listing from `h` can decode, tip first, stopping at
/// the root sentinel, at a missing or undecodable record, or (if the links
/// loop) at fuel exhaustion.
pub open spec fn walk_print(m: Map<Seq<u8>, Seq<u8>>, h: Seq<u8>, fuel: nat) -> Seq<BlockView>
    decreases fuel,
{
    if fuel == 0 {
        Seq::empty()
    } else if !m.contains_key(h) {
        Seq::empty()
    } else {
        match decode_spec(m[h]) {
            None => Seq::empty(),
            Some(b) => {
                if b.prev_hash == root_sentinel() {
                    seq![b]
                } else {
                    seq![b] + walk_print(m, b.prev_hash, (fuel - 1) as nat)
                }
            },
        }
    }
}

/// An append-only, tamper-evident ledger threaded through a key-value store.
/// The store is the sole owner of block data; the chain owns only the tip
/// hash, which names the most recently appended block.
pub struct Chain<S: KvStore> {
    /// The underlying store.
    pub store: S,
    /// The self-hash of the most recently appended block.
    pub tip: Vec<u8>,
}

impl<S: KvStore> Chain<S> {
    /// Open a chain over a store. If no tip is recorded this is the first
    /// run: a genesis block is synthesized with the root sentinel as its
    /// predecessor, written under its own hash, and recorded as the tip. If
    /// a tip is recorded it is taken as-is; validation is a separate,
    /// explicit operation.
    pub fn open(store: S) -> (r: Result<Chain<S>, LedgerError>)
        ensures
            match r {
                Ok(c) => {
                    if store.contents().contains_key(tip_key()) {
                        &&& c.store.contents() == store.contents()
                        &&& c.tip@ == store.contents()[tip_key()]
                        &&& is_hash_text(c.tip@)
                    } else {
                        exists|ts: u64|
                            {
                                let g = #[trigger] block_model(
                                    ts,
                                    genesis_payload(),
                                    root_sentinel(),
                                );
                                &&& c.tip@ == g.hash
                                &&& c.store.contents() == store.contents().insert(
                                    g.hash,
                                    encode_spec(g),
                                ).insert(tip_key(), g.hash)
                            }
                    }
                },
                Err(e) => e == LedgerError::Store || (e == LedgerError::Decode
                    && store.contents().contains_key(tip_key()) && !is_hash_text(
                    store.contents()[tip_key()],
                )),
            },
    {
        let mut store = store;
        let tk = tip_key_bytes();
        match store.get(&tk) {
            Err(_) => Err(LedgerError::Store),
            Ok(Some(bytes)) => {
                if !check_hash_text(&bytes) {
                    Err(LedgerError::Decode)
                } else {
                    Ok(Chain { store, tip: bytes })
                }
            },
            Ok(None) => {
                let g = Block::new(genesis_payload_bytes(), root_sentinel_bytes());
                let encoded = encode_block(&g);
                let h = clone_bytes(&g.hash);
                match store.put(&h, &encoded) {
                    Err(_) => Err(LedgerError::Store),
                    Ok(()) => {
                        match store.put(&tk, &h) {
                            Err(_) => Err(LedgerError::Store),
                            Ok(()) => {
                                proof {
                                    assert(g@ == block_model(
                                        g@.timestamp,
                                        genesis_payload(),
                                        root_sentinel(),
                                    ));
                                }
                                Ok(Chain { store, tip: h })
                            },
                        }
                    },
                }
            },
        }
    }

    /// Append a payload: build a block whose predecessor is the current tip,
    /// write it under its own hash, then update the tip key, then flush. The
    /// block is durably written before the tip advances to reference it, so
    /// a crash leaves at worst a tip that lags the newest block, never a tip
    /// that points at nothing. On failure the in-memory tip is unchanged and
    /// no entry other than the new block's own key and the tip key is
    /// touched.
    pub fn append(&mut self, payload: Vec<u8>) -> (r: Result<(), LedgerError>)
        ensures
            r is Ok ==> exists|ts: u64|
                {
                    let b = #[trigger] block_model(ts, payload@, old(self).tip@);
                    &&& final(self).tip@ == b.hash
                    &&& final(self).store.contents() == old(self).store.contents().insert(
                        b.hash,
                        encode_spec(b),
                    ).insert(tip_key(), b.hash)
                },
            r is Err ==> {
                &&& r == Err::<(), LedgerError>(LedgerError::Store)
                &&& final(self).tip@ == old(self).tip@
                &&& (final(self).store.contents() == old(self).store.contents() || exists|ts: u64|
                    {
                        let b = #[trigger] block_model(ts, payload@, old(self).tip@);
                        ||| final(self).store.contents() == old(self).store.contents().insert(
                            b.hash,
                            encode_spec(b),
                        )
                        ||| final(self).store.contents() == old(self).store.contents().insert(
                            b.hash,
                            encode_spec(b),
                        ).insert(tip_key(), b.hash)
                    })
            },
    {
        let prev = clone_bytes(&self.tip);
        let b = Block::new(payload, prev);
        let encoded = encode_block(&b);
        let h = clone_bytes(&b.hash);
        let ghost ts = b@.timestamp;
        proof {
            assert(b@ == block_model(ts, payload@, old(self).tip@));
        }
        match self.store.put(&h, &encoded) {
            Err(_) => Err(LedgerError::Store),
            Ok(()) => {
                let tk = tip_key_bytes();
                match self.store.put(&tk, &h) {
                    Err(_) => Err(LedgerError::Store),
                    Ok(()) => {
                        match self.store.flush() {
                            Err(_) => Err(LedgerError::Store),
                            Ok(()) => {
                                self.tip = h;
                                Ok(())
                            },
                        }
                    },
                }
            },
        }
    }

    /// A copy of the current tip hash.
    pub fn tip_hash(&self) -> (r: Vec<u8>)
        ensures
            r@ == self.tip@,
    {
        clone_bytes(&self.tip)
    }

    /// The blocks of the chain, tip first, as far back as the store can
    /// produce them: the listing stops at the root sentinel, at a missing or
    /// undecodable record, or once it has read more records than the store
    /// holds (looping links). Only a store read failure is an error.
    pub fn collect_chain(&self) -> (r: Result<Vec<Block>, LedgerError>)
        ensures
            match r {
                Ok(v) => v@.map_values(|b: Block| b@) == walk_print(
                    self.store.contents(),
                    self.tip@,
                    self.store.contents().dom().len() + 1,
                ),
                Err(e) => e == LedgerError::Store,
            },
    {
        let ghost m = self.store.contents();
        let ghost total: nat = m.dom().len() + 1;
        let n = self.store.count();
        let mut remaining: u128 = n as u128 + 1;
        let mut cur = clone_bytes(&self.tip);
        let mut out: Vec<Block> = Vec::new();
        loop
            invariant
                m == self.store.contents(),
                total == m.dom().len() + 1,
                remaining as nat <= total,
                out@.map_values(|b: Block| b@) + walk_print(m, cur@, remaining as nat)
                    == walk_print(m, self.tip@, total),
            decreases remaining,
        {
            if remaining == 0 {
                proof {
                    assert(out@.map_values(|b: Block| b@) + walk_print(m, cur@, 0) =~= out@.map_values(
                        |b: Block| b@,
                    ));
                }
                return Ok(out);
            }
            match self.store.get(&cur) {
                Err(_) => {
                    return Err(LedgerError::Store);
                },
                Ok(None) => {
                    proof {
                        assert(out@.map_values(|b: Block| b@) + walk_print(m, cur@, remaining as nat)
                            =~= out@.map_values(|b: Block| b@));
                    }
                    return Ok(out);
                },
                Ok(Some(bytes)) => {
                    match decode_block(&bytes) {
                        None => {
                            proof {
                                assert(out@.map_values(|b: Block| b@) + walk_print(
                                    m,
                                    cur@,
                                    remaining as nat,
                                ) =~= out@.map_values(|b: Block| b@));
                            }
                            return Ok(out);
                        },
                        Some(b) => {
                            let sentinel = root_sentinel_bytes();
                            let stop = bytes_eq(&b.prev_hash, &sentinel);
                            let next = clone_bytes(&b.prev_hash);
                            let ghost old_out = out@;
                            out.push(b);
                            proof {
                                assert(out@.map_values(|b: Block| b@) =~= old_out.map_values(
                                    |b: Block| b@,
                                ).push(out@.last()@));
                            }
                            if stop {
                                proof {
                                    assert(out@.map_values(|b: Block| b@) + walk_print(m, next@, 0)
                                        =~= out@.map_values(|b: Block| b@));
                                    assert(out@.map_values(|b: Block| b@) =~= walk_print(
                                        m,
                                        self.tip@,
                                        total,
                                    ));
                                }
                                return Ok(out);
                            }
                            proof {
                                assert(old_out.map_values(|b: Block| b@) + walk_print(
                                    m,
                                    cur@,
                                    remaining as nat,
                                ) =~= out@.map_values(|b: Block| b@) + walk_print(
                                    m,
                                    next@,
                                    (remaining - 1) as nat,
                                ));
                            }
                            cur = next;
                            remaining = remaining - 1;
                        },
                    }
                },
            }
        }
    }

    /// Walk backward from the tip, checking every block, until the root
    /// sentinel, a failure, or (if the links loop) exhaustion. An invalid
    /// chain is a reported result; only a store read failure is an error.
    pub fn validate(&self) -> (r: Result<ValidationResult, LedgerError>)
        ensures
            match r {
                Ok(v) => v@ == walk(
                    self.store.contents(),
                    self.tip@,
                    self.store.contents().dom().len() + 1,
                ),
                Err(e) => e == LedgerError::Store,
            },
    {
        let ghost m = self.store.contents();
        let ghost total: nat = m.dom().len() + 1;
        let n = self.store.count();
        let mut remaining: u128 = n as u128 + 1;
        let mut cur = clone_bytes(&self.tip);
        loop
            invariant
                m == self.store.contents(),
                total == m.dom().len() + 1,
                remaining as nat <= total,
                walk(m, cur@, remaining as nat) == walk(m, self.tip@, total),
            decreases remaining,
        {
            if remaining == 0 {
                return Ok(ValidationResult::Invalid {
                    reason: InvalidReason::Corrupt,
                    at_hash: cur,
                });
            }
            match self.store.get(&cur) {
                Err(_) => {
                    return Err(LedgerError::Store);
                },
                Ok(None) => {
                    return Ok(ValidationResult::Invalid {
                        reason: InvalidReason::BrokenLink,
                        at_hash: cur,
                    });
                },
                Ok(Some(bytes)) => {
                    match decode_block(&bytes) {
                        None => {
                            return Ok(ValidationResult::Invalid {
                                reason: InvalidReason::Corrupt,
                                at_hash: cur,
                            });
                        },
                        Some(b) => {
                            let recomputed = b.recompute_hash();
                            if !bytes_eq(&recomputed, &b.hash) {
                                return Ok(ValidationResult::Invalid {
                                    reason: InvalidReason::TamperedData,
                                    at_hash: cur,
                                });
                            }
                            if !bytes_eq(&b.hash, &cur) {
                                return Ok(ValidationResult::Invalid {
                                    reason: InvalidReason::BrokenLink,
                                    at_hash: cur,
                                });
                            }
                            let sentinel = root_sentinel_bytes();
                            if bytes_eq(&b.prev_hash, &sentinel) {
                                return Ok(ValidationResult::Valid);
                            }
                            cur = b.prev_hash;
                            remaining = remaining - 1;
                        },
                    }
                },
            }
        }
    }
}

/// One link of a correctly recorded chain: the record at `keys[i]` decodes to
/// `blocks[i]`, which is untampered, stored under its own hash, and points at
/// the next key, or at the root sentinel if it is the oldest block.
pub open spec fn entry_ok(
    m: Map<Seq<u8>, Seq<u8>>,
    keys: Seq<Seq<u8>>,
    blocks: Seq<BlockView>,
    i: int,
) -> bool
    recommends
        keys.len() == blocks.len(),
        0 <= i < keys.len(),
{
    &&& m.contains_key(keys[i])
    &&& decode_spec(m[keys[i]]) == Some(blocks[i])
    &&& blocks[i].well_formed()
    &&& blocks[i].hash == keys[i]
    &&& (i < keys.len() - 1 ==> blocks[i].prev_hash == keys[i + 1])
    &&& (i == keys.len() - 1 ==> blocks[i].prev_hash == root_sentinel())
}

/// A correctly recorded chain in store contents `m`: the blocks from the tip
/// (`keys[0]`) back to the root, each stored under its own content hash and
/// linked to the next.
pub open spec fn recorded_chain(
    m: Map<Seq<u8>, Seq<u8>>,
    keys: Seq<Seq<u8>>,
    blocks: Seq<BlockView>,
) -> bool {
    &&& keys.len() == blocks.len()
    &&& keys.len() > 0
    &&& keys.no_duplicates()
    &&& forall|i: int| 0 <= i < keys.len() ==> #[trigger] entry_ok(m, keys, blocks, i)
}

/// Dropping the tip of a recorded chain of two or more blocks leaves a
/// recorded chain, and the tip's predecessor link names a real key, never the
/// sentinel: every key is a content hash, whose hex text has even length,
/// while the sentinel is a single byte.
proof fn lemma_recorded_chain_shift(
    m: Map<Seq<u8>, Seq<u8>>,
    keys: Seq<Seq<u8>>,
    blocks: Seq<BlockView>,
)
    requires
        recorded_chain(m, keys, blocks),
        keys.len() > 1,
    ensures
        recorded_chain(m, keys.drop_first(), blocks.drop_first()),
        blocks[0].prev_hash == keys[1],
        keys[1] != root_sentinel(),
{
    assert(entry_ok(m, keys, blocks, 0));
    assert(entry_ok(m, keys, blocks, 1));
    let b1 = blocks[1];
    assert(keys[1].len() == 2 * crate::hashing::sha256_of(
        crate::hashing::hash_input(b1.timestamp, b1.payload, b1.prev_hash),
    ).len());
    assert(root_sentinel().len() == 1);
    let keys2 = keys.drop_first();
    let blocks2 = blocks.drop_first();
    assert forall|i: int, j: int| 0 <= i < j < keys2.len() implies keys2[i] != keys2[j] by {
        assert(keys[i + 1] != keys[j + 1]);
    }
    assert forall|i: int| 0 <= i < keys2.len() implies entry_ok(m, keys2, blocks2, i) by {
        assert(entry_ok(m, keys, blocks, i + 1));
    }
}

/// A recorded chain cannot be longer than the store: its keys are distinct
/// and all present.
proof fn lemma_chain_len_bounded(
    m: Map<Seq<u8>, Seq<u8>>,
    keys: Seq<Seq<u8>>,
    blocks: Seq<BlockView>,
)
    requires
        recorded_chain(m, keys, blocks),
        m.dom().finite(),
    ensures
        keys.len() <= m.dom().len(),
{
    broadcast use vstd::seq_lib::seq_to_set_is_finite;

    keys.unique_seq_to_set();
    assert forall|k: Seq<u8>| keys.to_set().contains(k) implies m.dom().contains(k) by {
        assert(keys.contains(k));
        let i = choose|i: int| 0 <= i < keys.len() && keys[i] == k;
        assert(entry_ok(m, keys, blocks, i));
    }
    vstd::set_lib::lemma_len_subset(keys.to_set(), m.dom());
}

/// Walking from the tip of a correctly recorded chain, with fuel for its
/// length, reports `Valid`.
pub proof fn lemma_recorded_chain_walks_valid(
    m: Map<Seq<u8>, Seq<u8>>,
    keys: Seq<Seq<u8>>,
    blocks: Seq<BlockView>,
    fuel: nat,
)
    requires
        recorded_chain(m, keys, blocks),
        fuel >= keys.len(),
    ensures
        walk(m, keys[0], fuel) == ValidationOutcome::Valid,
    decreases keys.len(),
{
    assert(entry_ok(m, keys, blocks, 0));
    if keys.len() == 1 {
        assert(walk(m, keys[0], fuel) == ValidationOutcome::Valid);
    } else {
        lemma_recorded_chain_shift(m, keys, blocks);
        lemma_recorded_chain_walks_valid(
            m,
            keys.drop_first(),
            blocks.drop_first(),
            (fuel - 1) as nat,
        );
        assert(keys.drop_first()[0] == keys[1]);
        assert(walk(m, keys[0], fuel) == walk(m, keys[1], (fuel - 1) as nat));
    }
}

/// Walking a store that agrees with a recorded chain on the first `i` keys
/// reaches `keys[i]`, whatever sits there.
proof fn lemma_walk_prefix(
    m: Map<Seq<u8>, Seq<u8>>,
    m2: Map<Seq<u8>, Seq<u8>>,
    keys: Seq<Seq<u8>>,
    blocks: Seq<BlockView>,
    i: int,
    fuel: nat,
)
    requires
        recorded_chain(m, keys, blocks),
        0 <= i < keys.len(),
        fuel >= i + 1,
        forall|j: int| 0 <= j < i ==> m2.contains_key(#[trigger] keys[j]) && m2[keys[j]]
            == m[keys[j]],
    ensures
        walk(m2, keys[0], fuel) == walk(m2, keys[i], (fuel - i) as nat),
    decreases i,
{
    if i > 0 {
        assert(entry_ok(m, keys, blocks, 0));
        lemma_recorded_chain_shift(m, keys, blocks);
        let keys2 = keys.drop_first();
        let blocks2 = blocks.drop_first();
        assert forall|j: int| 0 <= j < i - 1 implies m2.contains_key(#[trigger] keys2[j])
            && m2[keys2[j]] == m[keys2[j]] by {
            assert(keys2[j] == keys[j + 1]);
        }
        lemma_walk_prefix(m, m2, keys2, blocks2, i - 1, (fuel - 1) as nat);
        assert(keys2[0] == keys[1]);
        assert(keys2[i - 1] == keys[i]);
        assert(walk(m2, keys[0], fuel) == walk(m2, keys[1], (fuel - 1) as nat));
    }
}

/// Appending to a validly recorded chain keeps it valid: after the new block
/// is stored under its hash and the tip key is advanced, validation from the
/// new tip reports `Valid`. The hypotheses rule out the degenerate inputs on
/// which this cannot hold: a new hash that collides with an existing store
/// key, or a chain that strays into the reserved tip key.
pub proof fn lemma_append_then_validate(
    m: Map<Seq<u8>, Seq<u8>>,
    keys: Seq<Seq<u8>>,
    blocks: Seq<BlockView>,
    b: BlockView,
)
    requires
        recorded_chain(m, keys, blocks),
        m.dom().finite(),
        b.well_formed(),
        b.prev_hash == keys[0],
        !m.dom().contains(b.hash),
        b.hash != tip_key(),
        forall|i: int| 0 <= i < keys.len() ==> #[trigger] keys[i] != tip_key(),
        b.payload.len() < 0x10000000000000000,
        b.prev_hash.len() < 0x10000000000000000,
        b.hash.len() < 0x10000000000000000,
    ensures
        ({
            let m2 = m.insert(b.hash, encode_spec(b)).insert(tip_key(), b.hash);
            walk(m2, b.hash, m2.dom().len() + 1) == ValidationOutcome::Valid
        }),
{
    let m2 = m.insert(b.hash, encode_spec(b)).insert(tip_key(), b.hash);
    let keys2 = seq![b.hash] + keys;
    let blocks2 = seq![b] + blocks;
    crate::codec::lemma_decode_of_encode(b);
    assert forall|i: int, j: int| 0 <= i < j < keys2.len() implies keys2[i] != keys2[j] by {
        if i == 0 {
            assert(entry_ok(m, keys, blocks, j - 1));
            assert(m.dom().contains(keys[j - 1]));
        } else {
            assert(keys[i - 1] != keys[j - 1]);
        }
    }
    assert forall|i: int| 0 <= i < keys2.len() implies entry_ok(m2, keys2, blocks2, i) by {
        if i == 0 {
            assert(m2[b.hash] == encode_spec(b));
            assert(keys2[1] == keys[0]);
        } else {
            assert(entry_ok(m, keys, blocks, i - 1));
            assert(keys2[i] == keys[i - 1]);
            assert(blocks2[i] == blocks[i - 1]);
            assert(m2[keys[i - 1]] == m[keys[i - 1]]);
            if i < keys2.len() - 1 {
                assert(keys2[i + 1] == keys[i]);
            }
        }
    }
    lemma_chain_len_bounded(m, keys, blocks);
    assert(m2.dom() =~= m.dom().insert(b.hash).insert(tip_key()));
    assert(m.dom().insert(b.hash).len() == m.dom().len() + 1);
    assert(m2.dom().len() >= m.dom().len() + 1);
    lemma_recorded_chain_walks_valid(m2, keys2, blocks2, m2.dom().len() + 1);
    assert(keys2[0] == b.hash);
}

/// Replacing any block's record with one whose fields no longer match its
/// stored hash makes validation report `TamperedData` at exactly that hash.
pub proof fn lemma_tampered_data_detected(
    m: Map<Seq<u8>, Seq<u8>>,
    keys: Seq<Seq<u8>>,
    blocks: Seq<BlockView>,
    i: int,
    record: Seq<u8>,
    forged: BlockView,
)
    requires
        recorded_chain(m, keys, blocks),
        m.dom().finite(),
        0 <= i < keys.len(),
        decode_spec(record) == Some(forged),
        !forged.well_formed(),
    ensures
        ({
            let m2 = m.insert(keys[i], record);
            walk(m2, keys[0], m2.dom().len() + 1) == (ValidationOutcome::Invalid {
                reason: InvalidReason::TamperedData,
                at_hash: keys[i],
            })
        }),
{
    let m2 = m.insert(keys[i], record);
    assert(entry_ok(m, keys, blocks, i));
    assert(m2.dom() =~= m.dom());
    lemma_chain_len_bounded(m, keys, blocks);
    let fuel = m2.dom().len() + 1;
    assert forall|j: int| 0 <= j < i implies m2.contains_key(#[trigger] keys[j]) && m2[keys[j]]
        == m[keys[j]] by {
        assert(entry_ok(m, keys, blocks, j));
        assert(keys[j] != keys[i]);
    }
    lemma_walk_prefix(m, m2, keys, blocks, i, fuel);
    assert(m2[keys[i]] == record);
    assert(walk(m2, keys[i], (fuel - i) as nat) == (ValidationOutcome::Invalid {
        reason: InvalidReason::TamperedData,
        at_hash: keys[i],
    }));
}

/// Replacing any block's record in place with a re-hashed forgery, one that
/// is internally consistent but whose recomputed hash no longer matches the
/// key its descendants (or the tip) reference it by, makes validation report
/// `BrokenLink` at exactly that key. If instead the forgery is the tip block
/// and the tip key is also repointed at it, the result is a different but
/// internally consistent chain that only an externally retained tip hash can
/// expose; see the module documentation.
pub proof fn lemma_rehashed_forgery_detected(
    m: Map<Seq<u8>, Seq<u8>>,
    keys: Seq<Seq<u8>>,
    blocks: Seq<BlockView>,
    i: int,
    record: Seq<u8>,
    forged: BlockView,
)
    requires
        recorded_chain(m, keys, blocks),
        m.dom().finite(),
        0 <= i < keys.len(),
        decode_spec(record) == Some(forged),
        forged.well_formed(),
        forged.hash != keys[i],
    ensures
        ({
            let m2 = m.insert(keys[i], record);
            walk(m2, keys[0], m2.dom().len() + 1) == (ValidationOutcome::Invalid {
                reason: InvalidReason::BrokenLink,
                at_hash: keys[i],
            })
        }),
{
    let m2 = m.insert(keys[i], record);
    assert(entry_ok(m, keys, blocks, i));
    assert(m2.dom() =~= m.dom());
    lemma_chain_len_bounded(m, keys, blocks);
    let fuel = m2.dom().len() + 1;
    assert forall|j: int| 0 <= j < i implies m2.contains_key(#[trigger] keys[j]) && m2[keys[j]]
        == m[keys[j]] by {
        assert(entry_ok(m, keys, blocks, j));
        assert(keys[j] != keys[i]);
    }
    lemma_walk_prefix(m, m2, keys, blocks, i, fuel);
    assert(m2[keys[i]] == record);
}

/// Deleting any block's record makes validation report `BrokenLink` at
/// exactly the missing hash.
pub proof fn lemma_missing_block_detected(
    m: Map<Seq<u8>, Seq<u8>>,
    keys: Seq<Seq<u8>>,
    blocks: Seq<BlockView>,
    i: int,
)
    requires
        recorded_chain(m, keys, blocks),
        m.dom().finite(),
        0 <= i < keys.len(),
    ensures
        ({
            let m2 = m.remove(keys[i]);
            walk(m2, keys[0], m2.dom().len() + 1) == (ValidationOutcome::Invalid {
                reason: InvalidReason::BrokenLink,
                at_hash: keys[i],
            })
        }),
{
    let m2 = m.remove(keys[i]);
    assert(entry_ok(m, keys, blocks, i));
    assert(m2.dom() =~= m.dom().remove(keys[i]));
    lemma_chain_len_bounded(m, keys, blocks);
    let fuel = m2.dom().len() + 1;
    assert(m.dom().remove(keys[i]).len() == m.dom().len() - 1);
    assert forall|j: int| 0 <= j < i implies m2.contains_key(#[trigger] keys[j]) && m2[keys[j]]
        == m[keys[j]] by {
        assert(entry_ok(m, keys, blocks, j));
        assert(keys[j] != keys[i]);
    }
    lemma_walk_prefix(m, m2, keys, blocks, i, fuel);
    assert(!m2.contains_key(keys[i]));
}

/// Idempotence: validation's outcome is a function of the store contents and
/// the tip alone, and validation mutates neither, so two validations with no
/// intervening writes report the same result.
pub proof fn lemma_validate_idempotent(
    m1: Map<Seq<u8>, Seq<u8>>,
    tip1: Seq<u8>,
    m2: Map<Seq<u8>, Seq<u8>>,
    tip2: Seq<u8>,
)
    requires
        m1 == m2,
        tip1 == tip2,
    ensures
        walk(m1, tip1, m1.dom().len() + 1) == walk(m2, tip2, m2.dom().len() + 1),
{
}


} // verus!

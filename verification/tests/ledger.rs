use hashledger::block::Block;
use hashledger::chain::{Chain, InvalidReason, LedgerError, ValidationResult};
use hashledger::codec::{decode_block, encode_block};
use hashledger::store::{KvStore, MemStore, StoreError};

fn fresh_chain() -> Chain<MemStore> {
    Chain::open(MemStore::new()).expect("open on an empty store must succeed")
}

fn assert_invalid(r: &ValidationResult, reason: InvalidReason, at: &[u8]) {
    match r {
        ValidationResult::Invalid { reason: got, at_hash } => {
            assert_eq!(*got, reason);
            assert_eq!(at_hash.as_slice(), at);
        },
        ValidationResult::Valid => panic!("expected an invalid result"),
    }
}

#[test]
fn open_empty_store_creates_genesis() {
    let chain = fresh_chain();
    let blocks = chain.collect_chain().unwrap();
    assert_eq!(blocks.len(), 1);
    assert_eq!(blocks[0].payload, b"Genesis Block".to_vec());
    assert_eq!(blocks[0].prev_hash, b"0".to_vec());
    assert_eq!(blocks[0].hash, chain.tip_hash());
    assert_eq!(blocks[0].hash.len(), 64);
}

#[test]
fn open_again_finds_recorded_tip() {
    let mut chain = fresh_chain();
    chain.append(b"one".to_vec()).unwrap();
    let tip = chain.tip_hash();
    let reopened = Chain::open(chain.store).unwrap();
    assert_eq!(reopened.tip_hash(), tip);
    assert!(matches!(reopened.validate().unwrap(), ValidationResult::Valid));
}

#[test]
fn open_rejects_non_hex_tip() {
    let mut store = MemStore::new();
    store
        .put(&b"LAST".to_vec(), &b"not hex!".to_vec())
        .unwrap();
    match Chain::open(store) {
        Err(LedgerError::Decode) => {},
        _ => panic!("a tip that is not hash text must be a decode error"),
    }
}

#[test]
fn append_then_validate_is_valid() {
    let mut chain = fresh_chain();
    chain.append(b"A".to_vec()).unwrap();
    assert!(matches!(chain.validate().unwrap(), ValidationResult::Valid));
    chain.append(b"B".to_vec()).unwrap();
    chain.append(vec![]).unwrap();
    assert!(matches!(chain.validate().unwrap(), ValidationResult::Valid));
}

#[test]
fn recompute_hash_matches_iff_untampered() {
    let b = Block::new(b"payload".to_vec(), b"0".to_vec());
    assert_eq!(b.recompute_hash(), b.hash);
    let tampered = Block {
        timestamp: b.timestamp,
        payload: b"payload2".to_vec(),
        prev_hash: b.prev_hash.clone(),
        hash: b.hash.clone(),
    };
    assert_ne!(tampered.recompute_hash(), tampered.hash);
}

#[test]
fn hashes_depend_on_payload() {
    let a = Block::from_parts(7, b"A".to_vec(), b"0".to_vec());
    let b = Block::from_parts(7, b"B".to_vec(), b"0".to_vec());
    let a2 = Block::from_parts(7, b"A".to_vec(), b"0".to_vec());
    assert_ne!(a.hash, b.hash);
    assert_eq!(a.hash, a2.hash);
    assert_eq!(a.hash.len(), 64);
    assert!(a.hash.iter().all(|c| c.is_ascii_hexdigit()));
}

#[test]
fn tampered_payload_detected_at_that_block() {
    let mut chain = fresh_chain();
    chain.append(b"A".to_vec()).unwrap();
    chain.append(b"B".to_vec()).unwrap();
    let hb = chain.tip_hash();
    let record = chain.store.get(&hb).unwrap().unwrap();
    let mut block = decode_block(&record).unwrap();
    block.payload = b"B, but doctored".to_vec();
    let forged = encode_block(&block);
    chain.store.put(&hb, &forged).unwrap();
    let r = chain.validate().unwrap();
    assert_invalid(&r, InvalidReason::TamperedData, &hb);
}

#[test]
fn tampered_middle_block_detected() {
    let mut chain = fresh_chain();
    chain.append(b"A".to_vec()).unwrap();
    let ha = chain.tip_hash();
    chain.append(b"B".to_vec()).unwrap();
    let record = chain.store.get(&ha).unwrap().unwrap();
    let mut block = decode_block(&record).unwrap();
    block.timestamp = block.timestamp.wrapping_add(1);
    let forged = encode_block(&block);
    chain.store.put(&ha, &forged).unwrap();
    let r = chain.validate().unwrap();
    assert_invalid(&r, InvalidReason::TamperedData, &ha);
}

#[test]
fn rehashed_forgery_detected_as_broken_link() {
    let mut chain = fresh_chain();
    chain.append(b"A".to_vec()).unwrap();
    let ha = chain.tip_hash();
    chain.append(b"B".to_vec()).unwrap();
    let record = chain.store.get(&ha).unwrap().unwrap();
    let block = decode_block(&record).unwrap();
    // The attacker edits the payload and recomputes this block's own hash,
    // but cannot recompute the descendants that reference the old hash.
    let forged = Block::from_parts(block.timestamp, b"A, forged".to_vec(), block.prev_hash);
    assert_ne!(forged.hash, ha);
    chain.store.put(&ha, &encode_block(&forged)).unwrap();
    let r = chain.validate().unwrap();
    assert_invalid(&r, InvalidReason::BrokenLink, &ha);
}

#[test]
fn rekeyed_forgery_detected_as_broken_link() {
    let mut chain = fresh_chain();
    chain.append(b"A".to_vec()).unwrap();
    let ha = chain.tip_hash();
    chain.append(b"B".to_vec()).unwrap();
    let record = chain.store.get(&ha).unwrap().unwrap();
    let block = decode_block(&record).unwrap();
    // This attacker even stores the forgery under its recomputed hash, but
    // the descendant still references the old key.
    let forged = Block::from_parts(block.timestamp, b"A, forged".to_vec(), block.prev_hash);
    chain.store.remove(&ha);
    let fh = forged.hash.clone();
    chain.store.put(&fh, &encode_block(&forged)).unwrap();
    let r = chain.validate().unwrap();
    assert_invalid(&r, InvalidReason::BrokenLink, &ha);
}

#[test]
fn missing_block_detected_as_broken_link() {
    let mut chain = fresh_chain();
    chain.append(b"A".to_vec()).unwrap();
    let ha = chain.tip_hash();
    chain.append(b"B".to_vec()).unwrap();
    chain.store.remove(&ha);
    let r = chain.validate().unwrap();
    assert_invalid(&r, InvalidReason::BrokenLink, &ha);
}

#[test]
fn undecodable_record_detected_as_corrupt() {
    let mut chain = fresh_chain();
    chain.append(b"A".to_vec()).unwrap();
    let ha = chain.tip_hash();
    chain.store.put(&ha, &b"garbage".to_vec()).unwrap();
    let r = chain.validate().unwrap();
    assert_invalid(&r, InvalidReason::Corrupt, &ha);
}

#[test]
fn validate_is_idempotent() {
    let mut chain = fresh_chain();
    chain.append(b"A".to_vec()).unwrap();
    let hb = chain.tip_hash();
    let first = chain.validate().unwrap();
    let second = chain.validate().unwrap();
    assert_eq!(first, second);
    let record = chain.store.get(&hb).unwrap().unwrap();
    let mut block = decode_block(&record).unwrap();
    block.payload = b"doctored".to_vec();
    chain.store.put(&hb, &encode_block(&block)).unwrap();
    let third = chain.validate().unwrap();
    let fourth = chain.validate().unwrap();
    assert_eq!(third, fourth);
    assert_ne!(first, third);
}

#[test]
fn codec_round_trips_byte_identically() {
    let b = Block::from_parts(123456789, b"some payload".to_vec(), b"0".to_vec());
    let encoded = encode_block(&b);
    let decoded = decode_block(&encoded).unwrap();
    assert_eq!(decoded.timestamp, b.timestamp);
    assert_eq!(decoded.payload, b.payload);
    assert_eq!(decoded.prev_hash, b.prev_hash);
    assert_eq!(decoded.hash, b.hash);
    assert_eq!(encode_block(&decoded), encoded);
}

#[test]
fn codec_round_trips_empty_fields() {
    let b = Block {
        timestamp: 0,
        payload: vec![],
        prev_hash: vec![],
        hash: vec![],
    };
    let encoded = encode_block(&b);
    assert_eq!(encoded.len(), 32);
    let decoded = decode_block(&encoded).unwrap();
    assert_eq!(encode_block(&decoded), encoded);
}

#[test]
fn codec_rejects_short_and_padded_records() {
    assert!(decode_block(&vec![]).is_none());
    assert!(decode_block(&vec![0u8; 31]).is_none());
    let b = Block::from_parts(1, b"x".to_vec(), b"0".to_vec());
    let mut padded = encode_block(&b);
    padded.push(0);
    assert!(decode_block(&padded).is_none());
    let mut truncated = encode_block(&b);
    truncated.pop();
    assert!(decode_block(&truncated).is_none());
}

#[test]
fn collect_chain_lists_tip_first() {
    let mut chain = fresh_chain();
    chain.append(b"A".to_vec()).unwrap();
    chain.append(b"B".to_vec()).unwrap();
    let blocks = chain.collect_chain().unwrap();
    assert_eq!(blocks.len(), 3);
    assert_eq!(blocks[0].payload, b"B".to_vec());
    assert_eq!(blocks[1].payload, b"A".to_vec());
    assert_eq!(blocks[2].payload, b"Genesis Block".to_vec());
    assert_eq!(blocks[0].prev_hash, blocks[1].hash);
    assert_eq!(blocks[1].prev_hash, blocks[2].hash);
}

#[test]
fn mem_store_get_put_remove() {
    let mut store = MemStore::new();
    let k = b"key".to_vec();
    assert!(store.get(&k).unwrap().is_none());
    store.put(&k, &b"v1".to_vec()).unwrap();
    assert_eq!(store.get(&k).unwrap().unwrap(), b"v1".to_vec());
    store.put(&k, &b"v2".to_vec()).unwrap();
    assert_eq!(store.get(&k).unwrap().unwrap(), b"v2".to_vec());
    assert_eq!(store.count(), 1);
    store.remove(&k);
    assert!(store.get(&k).unwrap().is_none());
    assert_eq!(store.count(), 0);
    store.flush().unwrap();
}

struct FailingStore;

impl KvStore for FailingStore {
    fn get(&self, _key: &Vec<u8>) -> Result<Option<Vec<u8>>, StoreError> {
        Err(StoreError)
    }

    fn put(&mut self, _key: &Vec<u8>, _value: &Vec<u8>) -> Result<(), StoreError> {
        Err(StoreError)
    }

    fn flush(&mut self) -> Result<(), StoreError> {
        Err(StoreError)
    }

    fn count(&self) -> usize {
        0
    }
}

#[test]
fn store_failure_surfaces_as_store_error() {
    match Chain::open(FailingStore) {
        Err(LedgerError::Store) => {},
        _ => panic!("a failing store must surface as a store error"),
    }
}

#[test]
fn end_to_end_scenario() {
    // Empty store: open creates the genesis block with predecessor "0".
    let mut chain = fresh_chain();
    let blocks = chain.collect_chain().unwrap();
    assert_eq!(blocks[0].prev_hash, b"0".to_vec());

    // Two appends, then the chain is valid.
    chain.append(b"A".to_vec()).unwrap();
    let ha = chain.tip_hash();
    chain.append(b"B".to_vec()).unwrap();
    let hb = chain.tip_hash();
    assert!(matches!(chain.validate().unwrap(), ValidationResult::Valid));

    // Mutate B's payload in storage directly: tampering at hash(B).
    let original = chain.store.get(&hb).unwrap().unwrap();
    let mut block = decode_block(&original).unwrap();
    block.payload = b"B'".to_vec();
    chain.store.put(&hb, &encode_block(&block)).unwrap();
    let r = chain.validate().unwrap();
    assert_invalid(&r, InvalidReason::TamperedData, &hb);

    // Restore B, delete A's record: a broken link at hash(A).
    chain.store.put(&hb, &original).unwrap();
    assert!(matches!(chain.validate().unwrap(), ValidationResult::Valid));
    chain.store.remove(&ha);
    let r = chain.validate().unwrap();
    assert_invalid(&r, InvalidReason::BrokenLink, &ha);
}

use bft_chain::block::{Block, Header};
use bft_chain::codec::{decode_list, encode_list};
use bft_chain::ledger::{
    highest_contiguous, store_genesis_block, ConsensusConfig, GenesisConfig, LastMeta, Ledger, LedgerError,
    CACHE_CAPACITY,
};

fn addr(n: u8) -> Vec<u8> {
    let mut a = vec![0u8; 20];
    a[19] = n;
    a
}

fn empty_hash() -> Vec<u8> {
    vec![0u8; 32]
}

fn header(parent: Vec<u8>, height: u64) -> Header {
    Header::new(
        parent,
        addr(10),
        empty_hash(),
        empty_hash(),
        empty_hash(),
        height,
        10,
        10,
        192,
        None,
        vec![12, 1],
    )
}

#[test]
fn t_genesis_block() {
    let mut ledger = Ledger::new(vec![]);
    let block = Block::new(header(empty_hash(), 0), vec![]);
    ledger.add_genesis_block(block).unwrap();
    assert_eq!(false, ledger.get_block_hash_by_height(0).is_none());
    assert_eq!(true, ledger.get_block_hash_by_height(1).is_none());
}

#[test]
fn t_back_block() {
    let mut ledger = Ledger::new(vec![]);
    let block = Block::new(header(empty_hash(), 0), vec![]);
    ledger.add_genesis_block(block).unwrap();

    // blocks that do not name the tip as parent are refused
    (1_u64..10).for_each(|height| {
        let block = Block::new(header(empty_hash(), height), vec![]);
        assert!(ledger.add_block(block).is_err());
    });
    assert_eq!(ledger.len(), 1);

    // linked blocks are accepted and found again by height and by hash
    (1_u64..10).for_each(|height| {
        let parent = ledger.last_meta().unwrap().hash;
        let block = Block::new(header(parent, height), vec![]);
        ledger.add_block(block).unwrap();
    });
    (1_u64..10).for_each(|height| {
        let hash = ledger.get_block_by_height(height).unwrap().hash();
        let block1 = ledger.get_block(&hash).unwrap();
        assert_eq!(block1.hash(), hash);
        assert_eq!(block1.height(), height);
    });
    let meta = ledger.last_meta().unwrap();
    assert_eq!(meta.height, 9);
    assert_eq!(ledger.get_block_by_height(9).unwrap().hash(), meta.hash);
}

#[test]
fn t_exists_db() {
    let ledger = Ledger::new(vec![]);
    assert!(ledger.get_genesis_block().is_none());
    assert!(ledger.last_meta().is_none());
}

#[test]
fn chain_is_linked_by_parent_hash() {
    let mut ledger = Ledger::new(vec![]);
    ledger.add_genesis_block(Block::new(header(empty_hash(), 0), vec![])).unwrap();
    for h in 1..6 {
        let parent = ledger.get_last_block().unwrap().hash();
        ledger.add_block(Block::new(header(parent, h), vec![])).unwrap();
    }
    for h in 1..6u64 {
        let b = ledger.get_block_by_height(h).unwrap();
        let prev = ledger.get_block_by_height(h - 1).unwrap();
        assert_eq!(b.height(), h);
        assert_eq!(b.header.parent_hash, prev.hash());
    }
}

#[test]
fn ledger_errors() {
    let mut ledger = Ledger::new(vec![]);
    assert_eq!(
        ledger.add_block(Block::new(header(empty_hash(), 1), vec![])),
        Err(LedgerError::NotInitialized)
    );
    assert_eq!(
        ledger.add_genesis_block(Block::new(header(empty_hash(), 3), vec![])),
        Err(LedgerError::BadHeight)
    );
    ledger.add_genesis_block(Block::new(header(empty_hash(), 0), vec![])).unwrap();
    assert_eq!(
        ledger.add_genesis_block(Block::new(header(empty_hash(), 0), vec![])),
        Err(LedgerError::AlreadyInitialized)
    );
    let tip = ledger.last_meta().unwrap().hash;
    assert_eq!(
        ledger.add_block(Block::new(header(tip.clone(), 2), vec![])),
        Err(LedgerError::BadHeight)
    );
    assert_eq!(
        ledger.add_block(Block::new(header(empty_hash(), 1), vec![])),
        Err(LedgerError::BadParent)
    );
    assert_eq!(ledger.add_block(Block::new(header(tip, 1), vec![])), Ok(()));
    assert!(ledger.get_block(&empty_hash()).is_none());
}

#[test]
fn genesis_from_config() {
    let consensus = ConsensusConfig {
        block_period_ms: 3000,
        request_timeout_ms: 2000,
        validators: vec![addr(1), addr(2), addr(3), addr(4)],
        proposer: addr(1),
    };
    let mut config = GenesisConfig::new_with_consensus(1_540_000_000, consensus);
    config.extra = b"hello".to_vec();
    config.gas_used = 5;
    let mut ledger = Ledger::new(vec![]);
    store_genesis_block(&config, &mut ledger).unwrap();
    let g = ledger.get_genesis_block().unwrap();
    assert_eq!(g.header.height, 0);
    assert_eq!(g.header.gas_limit, 15);
    assert_eq!(g.header.gas_used, 5);
    assert_eq!(g.header.time, 1_540_000_000);
    assert_eq!(g.header.proposer, addr(1));
    assert_eq!(g.header.extra, b"hello".to_vec());
    assert_eq!(g.header.parent_hash, empty_hash());
    assert_eq!(ledger.validators().len(), 4);
    assert_eq!(ledger.validators_at(0).unwrap().len(), 4);
    assert!(ledger.validators_at(1).is_none());

    // a second start keeps the stored genesis
    let first = g.hash();
    config.gas_used = 7;
    store_genesis_block(&config, &mut ledger).unwrap();
    assert_eq!(ledger.len(), 1);
    assert_eq!(ledger.get_genesis_block().unwrap().hash(), first);
}

#[test]
fn reads_agree_on_cache_hit_and_miss() {
    let mut ledger = Ledger::new(vec![]);
    ledger.add_genesis_block(Block::new(header(empty_hash(), 0), vec![])).unwrap();
    let mut hashes = vec![ledger.last_meta().unwrap().hash];
    for h in 1..1100u64 {
        let parent = hashes.last().unwrap().clone();
        ledger.add_block(Block::new(header(parent, h), vec![])).unwrap();
        hashes.push(ledger.last_meta().unwrap().hash);
    }
    // the early heights have left the caches; later ones are still there
    for h in [0u64, 1, 5, 700, 1099] {
        let first = ledger.get_block_hash_by_height(h).unwrap();
        let second = ledger.get_block_hash_by_height(h).unwrap();
        assert_eq!(first, hashes[h as usize]);
        assert_eq!(second, first);
        let b1 = ledger.get_block(&first).unwrap();
        let b2 = ledger.get_block(&first).unwrap();
        assert_eq!(b1.height(), h);
        assert_eq!(b2.hash(), first);
    }
    assert!(ledger.get_block_hash_by_height(1100).is_none());
    assert!(ledger.get_block(&vec![7u8; 32]).is_none());
}

#[test]
fn reload_finds_highest_contiguous_height() {
    assert_eq!(highest_contiguous(&vec![0, 1, 2, 3, 4, 5, 7]), Some(5));
    assert_eq!(highest_contiguous(&vec![0, 1, 2, 3, 4, 5, 6]), Some(6));
    assert_eq!(highest_contiguous(&vec![0]), Some(0));
    assert_eq!(highest_contiguous(&vec![]), None);
    assert_eq!(highest_contiguous(&vec![1, 2]), None);
}

#[test]
fn restore_keeps_the_linked_run_from_genesis() {
    let mut ledger = Ledger::new(vec![]);
    ledger.add_genesis_block(Block::new(header(empty_hash(), 0), vec![])).unwrap();
    for h in 1..6u64 {
        let parent = ledger.last_meta().unwrap().hash;
        ledger.add_block(Block::new(header(parent, h), vec![])).unwrap();
    }
    let mut stored: Vec<Block> = (0..6u64).map(|h| ledger.get_block_by_height(h).unwrap().clone()).collect();
    // a half-written block that does not link to height five
    stored.push(Block::new(header(empty_hash(), 6), vec![]));
    let restored = Ledger::restore(vec![], stored);
    let meta = restored.last_meta().unwrap();
    assert_eq!(meta.height, 5);
    assert_eq!(meta.hash, ledger.last_meta().unwrap().hash);

    let none = Ledger::restore(vec![], vec![Block::new(header(empty_hash(), 1), vec![])]);
    assert_eq!(none.len(), 0);
}

#[test]
fn last_meta_round_trip() {
    let m = LastMeta { height: 258, hash: vec![7u8; 32] };
    let bytes = m.encode();
    assert_eq!(bytes.len(), 40);
    assert_eq!(&bytes[..8], &[0, 0, 0, 0, 0, 0, 1, 2]);
    let back = LastMeta::decode(&bytes).unwrap();
    assert_eq!((back.height, back.hash), (258, vec![7u8; 32]));
    assert!(LastMeta::decode(&bytes[..39]).is_err());
}

#[test]
fn transaction_list_round_trip() {
    let items = vec![b"a".to_vec(), vec![], b"xyz".to_vec()];
    let bytes = encode_list(&items);
    assert_eq!(decode_list(&bytes).unwrap(), items);
    assert!(decode_list(&bytes[..bytes.len() - 1]).is_err());
    let mut longer = bytes.clone();
    longer.push(0);
    assert!(decode_list(&longer).is_err());
}

#[test]
fn stored_genesis_ignores_any_config() {
    let consensus = ConsensusConfig {
        block_period_ms: 1,
        request_timeout_ms: 1,
        validators: vec![addr(9)],
        proposer: addr(9),
    };
    let mut config = GenesisConfig::new_with_consensus(-5, consensus);
    config.gas_used = u64::MAX;
    let mut ledger = Ledger::new(vec![addr(1)]);
    ledger.add_genesis_block(Block::new(header(empty_hash(), 0), vec![])).unwrap();
    let before = ledger.last_meta().unwrap().hash;
    assert_eq!(store_genesis_block(&config, &mut ledger), Ok(()));
    assert_eq!(ledger.len(), 1);
    assert_eq!(ledger.last_meta().unwrap().hash, before);
    assert_eq!(ledger.validators(), &vec![addr(1)]);
    assert_eq!(CACHE_CAPACITY, 1024);
}

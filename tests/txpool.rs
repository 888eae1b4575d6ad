use bft_chain::block::{Block, Header};
use bft_chain::txpool::{PendingTx, PoolError, TxPool};
use secp256k1::ecdsa::RecoverableSignature;
use secp256k1::{Message, PublicKey, SecretKey};
use sha3::{Digest, Keccak256};

fn key(n: u8) -> SecretKey {
    SecretKey::from_byte_array([n + 1; 32]).unwrap()
}

fn addr(n: u8) -> Vec<u8> {
    let public = PublicKey::from_secret_key(&key(n));
    Keccak256::digest(&public.serialize_uncompressed()[1..])[12..].to_vec()
}

fn sign(n: u8, payload: &[u8]) -> Vec<u8> {
    let digest: [u8; 32] = Keccak256::digest(payload).into();
    let sig = RecoverableSignature::sign_ecdsa_recoverable(Message::from_digest(digest), &key(n));
    let (id, bytes) = sig.serialize_compact();
    let mut out = bytes.to_vec();
    out.push(u8::from(id));
    out
}

fn tx(i: u64, fee: u64, nonce: u64, gas: u64) -> PendingTx {
    let payload = format!("tx{}", i).into_bytes();
    let who = (i % 4) as u8;
    PendingTx { sender: addr(who), nonce, fee, gas, signature: sign(who, &payload), payload }
}

#[test]
fn gas_bounded_drain() {
    let mut pool = TxPool::new(1000);
    for i in 0..1000u64 {
        pool.add_tx(tx(i, (i * 37) % 101, i, 10)).unwrap();
    }
    assert_eq!(pool.len(), 1000);
    let out = pool.drain(usize::MAX, 100);
    assert_eq!(out.len(), 10);
    for w in out.windows(2) {
        assert!(w[0].tx.fee >= w[1].tx.fee);
    }
    assert_eq!(out[0].tx.fee, 100);
    assert_eq!(pool.len(), 990);
}

#[test]
fn drain_orders_by_fee_then_nonce_then_arrival() {
    let mut pool = TxPool::new(16);
    pool.add_tx(tx(1, 5, 3, 1)).unwrap();
    pool.add_tx(tx(2, 9, 7, 1)).unwrap();
    pool.add_tx(tx(3, 5, 1, 1)).unwrap();
    pool.add_tx(tx(4, 5, 1, 1)).unwrap();
    pool.add_tx(tx(5, 1, 0, 1)).unwrap();
    let out = pool.drain(4, 1000);
    let names: Vec<Vec<u8>> = out.iter().map(|e| e.tx.payload.clone()).collect();
    assert_eq!(
        names,
        vec![b"tx2".to_vec(), b"tx3".to_vec(), b"tx4".to_vec(), b"tx1".to_vec()]
    );
    assert_eq!(pool.len(), 1);
    let rest = pool.drain(10, 1000);
    assert_eq!(rest.len(), 1);
    assert_eq!(rest[0].tx.payload, b"tx5".to_vec());
    assert_eq!(pool.drain(10, 1000).len(), 0);
}

#[test]
fn drain_stops_at_the_first_that_does_not_fit() {
    let mut pool = TxPool::new(4);
    pool.add_tx(tx(1, 9, 0, 60)).unwrap();
    pool.add_tx(tx(2, 8, 0, 50)).unwrap();
    pool.add_tx(tx(3, 7, 0, 10)).unwrap();
    let out = pool.drain(10, 100);
    assert_eq!(out.len(), 1);
    assert_eq!(out[0].tx.fee, 9);
    assert_eq!(pool.len(), 2);
}

#[test]
fn duplicates_and_capacity_are_refused() {
    let mut pool = TxPool::new(2);
    assert_eq!(pool.add_tx(tx(1, 1, 0, 1)), Ok(()));
    assert_eq!(pool.add_tx(tx(1, 2, 5, 1)), Err(PoolError::DuplicateTx));
    assert_eq!(pool.add_tx(tx(2, 1, 0, 1)), Ok(()));
    assert_eq!(pool.add_tx(tx(3, 1, 0, 1)), Err(PoolError::PoolFull));
    assert_eq!(pool.len(), 2);
}

#[test]
fn badly_signed_transactions_are_refused() {
    let mut pool = TxPool::new(4);
    let mut forged = tx(1, 1, 0, 1);
    forged.sender = addr(2);
    assert_eq!(pool.add_tx(forged), Err(PoolError::InvalidTx));
    let mut short = tx(1, 1, 0, 1);
    short.signature.pop();
    assert_eq!(pool.add_tx(short), Err(PoolError::InvalidTx));
    assert_eq!(pool.len(), 0);
    assert_eq!(pool.add_tx(tx(1, 1, 0, 1)), Ok(()));
}

#[test]
fn committed_transactions_are_purged() {
    let mut pool = TxPool::new(8);
    for i in 0..5 {
        pool.add_tx(tx(i, i, 0, 1)).unwrap();
    }
    let mut pool2 = TxPool::new(8);
    pool2.add_tx(tx(1, 0, 0, 1)).unwrap();
    pool2.add_tx(tx(3, 0, 0, 1)).unwrap();
    let hashes: Vec<Vec<u8>> = pool2.drain(10, 100).into_iter().map(|e| e.hash).collect();
    assert_eq!(hashes.len(), 2);
    assert_eq!(hashes[0].len(), 32);
    pool.remove_committed(&hashes);
    assert_eq!(pool.len(), 3);
    let left: Vec<Vec<u8>> = pool.drain(10, 100).into_iter().map(|e| e.tx.payload).collect();
    assert_eq!(left, vec![b"tx4".to_vec(), b"tx2".to_vec(), b"tx0".to_vec()]);
}

#[test]
fn block_transaction_hashes_match_pool_hashes() {
    let mut pool = TxPool::new(8);
    pool.add_tx(tx(1, 3, 0, 1)).unwrap();
    pool.add_tx(tx(2, 2, 0, 1)).unwrap();
    let header = Header::new(vec![0; 32], vec![0; 20], vec![0; 32], vec![0; 32], vec![0; 32], 1, 10, 0, 0, None, vec![]);
    let block = Block::new(header, vec![b"tx1".to_vec()]);
    let hashes = block.transaction_hashes();
    assert_eq!(hashes.len(), 1);
    assert_eq!(hashes[0].len(), 32);
    assert_ne!(hashes[0], b"tx1".to_vec());
    pool.remove_committed(&hashes);
    assert_eq!(pool.len(), 1);
    assert_eq!(pool.drain(5, 5)[0].tx.payload, b"tx2".to_vec());
}

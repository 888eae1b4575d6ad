use bft_chain::block::{Block, Header};
use bft_chain::ledger::{LastMeta, Ledger};
use bft_chain::minter::build_proposal;
use bft_chain::pbft::{Action, Core, CoreError, Phase, RoundChange};
use bft_chain::view::View;
use bft_chain::signer::signer_address;
use bft_chain::txpool::{PendingTx, TxPool};
use bft_chain::votes::Vote;
use secp256k1::ecdsa::RecoverableSignature;
use secp256k1::{Message, PublicKey, SecretKey};
use sha3::{Digest, Keccak256};

fn key(n: u8) -> SecretKey {
    SecretKey::from_byte_array([n + 1; 32]).unwrap()
}

fn addr(n: u8) -> Vec<u8> {
    let public = PublicKey::from_secret_key(&key(n));
    Keccak256::digest(&public.serialize_uncompressed()[1..])[12..].to_vec()
}

fn sign(n: u8, digest: &[u8]) -> Vec<u8> {
    let msg: [u8; 32] = digest.try_into().unwrap();
    let sig = RecoverableSignature::sign_ecdsa_recoverable(Message::from_digest(msg), &key(n));
    let (id, bytes) = sig.serialize_compact();
    let mut out = bytes.to_vec();
    out.push(u8::from(id));
    out
}

fn validators() -> Vec<Vec<u8>> {
    vec![addr(0), addr(1), addr(2), addr(3)]
}

fn genesis() -> Block {
    Block::new(
        Header::new(vec![0u8; 32], addr(0), vec![0u8; 32], vec![0u8; 32], vec![0u8; 32], 0, 10, 0, 192, None, vec![]),
        vec![],
    )
}

fn proposal(parent: Vec<u8>, height: u64, proposer: u8, txs: Vec<Vec<u8>>, time: u64) -> Block {
    Block::new(
        Header::new(parent, addr(proposer), vec![0u8; 32], vec![0u8; 32], vec![0u8; 32], height, 100, 10, time, None, vec![]),
        txs,
    )
}

fn vote(sender: u8, view: View, digest: &Vec<u8>) -> Vote {
    Vote { sender: addr(sender), view, digest: digest.clone(), signature: sign(sender, digest) }
}

fn setup() -> (Ledger, Core) {
    let mut ledger = Ledger::new(validators());
    ledger.add_genesis_block(genesis()).unwrap();
    let core = Core::new(validators(), ledger.last_meta().unwrap());
    (ledger, core)
}

#[test]
fn happy_path_commits_one_block() {
    let (mut ledger, mut core) = setup();
    let view = View::new(1, 0);
    assert_eq!(core.view, view);
    let proposer = core.current_proposer().clone();
    assert_eq!(proposer, addr(1));
    let tip = ledger.last_meta().unwrap().hash;
    let block = proposal(tip, 1, 1, vec![b"tx1".to_vec()], 200);
    let digest = block.hash();

    match core.handle_preprepare(&proposer, view, block) {
        Ok(Action::BroadcastPrepare { view: v, digest: d }) => {
            assert_eq!(v, view);
            assert_eq!(d, digest);
        }
        _ => panic!("expected a prepare"),
    }
    assert_eq!(core.phase, Phase::PrePrepared);

    assert!(matches!(core.handle_prepare(vote(0, view, &digest)), Ok(Action::Idle)));
    assert!(matches!(core.handle_prepare(vote(1, view, &digest)), Ok(Action::Idle)));
    // a repeated vote changes nothing
    assert!(matches!(core.handle_prepare(vote(1, view, &digest)), Ok(Action::Idle)));
    match core.handle_prepare(vote(2, view, &digest)) {
        Ok(Action::BroadcastCommit { view: v, digest: d }) => {
            assert_eq!(v, view);
            assert_eq!(d, digest);
        }
        _ => panic!("expected a commit"),
    }
    assert_eq!(core.phase, Phase::Prepared);
    // the fourth prepare sends no second commit
    assert!(matches!(core.handle_prepare(vote(3, view, &digest)), Ok(Action::Idle)));

    assert!(matches!(core.handle_commit(vote(0, view, &digest)), Ok(Action::Idle)));
    assert!(matches!(core.handle_commit(vote(2, view, &digest)), Ok(Action::Idle)));
    let committed = match core.handle_commit(vote(3, view, &digest)) {
        Ok(Action::CommitBlock { block, signers }) => {
            assert_eq!(signers, vec![addr(0), addr(2), addr(3)]);
            assert_eq!(block.header.votes.as_ref().unwrap().len(), 3);
            assert_eq!(block.header.votes.as_ref().unwrap()[1], sign(2, &digest));
            block
        }
        _ => panic!("expected the block to commit"),
    };
    assert_eq!(core.phase, Phase::Committed);
    assert_eq!(committed.hash(), digest);
    assert_eq!(committed.transactions, vec![b"tx1".to_vec()]);
    // no second commit of the same height
    assert!(matches!(core.handle_commit(vote(1, view, &digest)), Ok(Action::Idle)));

    ledger.add_block(committed).unwrap();
    let meta = ledger.last_meta().unwrap();
    assert_eq!(ledger.get_block_by_height(1).unwrap().hash(), meta.hash);
    core.start_height(ledger.last_meta().unwrap());
    assert_eq!(core.view, View::new(2, 0));
    assert_eq!(core.phase, Phase::NewRound);
    assert!(core.locked.is_none());
}

#[test]
fn silent_proposer_leads_to_round_change() {
    let (ledger, mut core) = setup();
    match core.on_timeout() {
        Action::BroadcastRoundChange { view } => assert_eq!(view, View::new(1, 1)),
        _ => panic!("expected a round change"),
    }
    let target = View::new(1, 1);
    assert!(matches!(core.handle_round_change(RoundChange { sender: addr(1), view: target }), Ok(Action::Idle)));
    assert!(matches!(core.handle_round_change(RoundChange { sender: addr(1), view: target }), Ok(Action::Idle)));
    assert!(matches!(core.handle_round_change(RoundChange { sender: addr(2), view: target }), Ok(Action::Idle)));
    match core.handle_round_change(RoundChange { sender: addr(3), view: target }) {
        Ok(Action::EnterRound { view }) => assert_eq!(view, target),
        _ => panic!("expected the next round"),
    }
    assert_eq!(core.view, target);
    let proposer = core.current_proposer().clone();
    assert_eq!(proposer, addr(2));
    let block = proposal(ledger.last_meta().unwrap().hash, 1, 2, vec![], 300);
    assert!(matches!(core.handle_preprepare(&proposer, target, block), Ok(Action::BroadcastPrepare { .. })));
    assert_eq!(
        core.handle_round_change(RoundChange { sender: addr(0), view: View::new(1, 1) }).err(),
        Some(CoreError::StaleView)
    );
}

#[test]
fn equivocating_proposer_cannot_commit_the_other_block() {
    let (ledger, mut core) = setup();
    let view = View::new(1, 0);
    let tip = ledger.last_meta().unwrap().hash;
    let block_a = proposal(tip.clone(), 1, 1, vec![b"a".to_vec()], 200);
    let block_b = proposal(tip, 1, 1, vec![b"b".to_vec()], 201);
    let digest_a = block_a.hash();
    let digest_b = block_b.hash();
    assert_ne!(digest_a, digest_b);
    // this node saw block B
    assert!(core.handle_preprepare(&addr(1), view, block_b).is_ok());
    // a second proposal at the same view is refused
    assert_eq!(core.handle_preprepare(&addr(1), view, block_a).err(), Some(CoreError::AlreadyPrePrepared));
    for s in 0..3 {
        assert!(matches!(core.handle_prepare(vote(s, view, &digest_a)), Ok(Action::Idle)));
    }
    for s in 0..3 {
        assert!(matches!(core.handle_commit(vote(s, view, &digest_a)), Ok(Action::Idle)));
    }
    assert_eq!(core.phase, Phase::PrePrepared);
    assert_eq!(core.locked_digest, digest_b);
}

#[test]
fn messages_are_validated() {
    let (ledger, mut core) = setup();
    let view = View::new(1, 0);
    let tip = ledger.last_meta().unwrap().hash;
    let good = || proposal(ledger.last_meta().unwrap().hash, 1, 1, vec![], 200);
    assert_eq!(core.handle_preprepare(&addr(1), View::new(0, 3), good()).err(), Some(CoreError::StaleView));
    assert_eq!(core.handle_preprepare(&addr(1), View::new(1, 2), good()).err(), Some(CoreError::FutureView));
    assert_eq!(core.handle_preprepare(&addr(2), view, good()).err(), Some(CoreError::NotProposer));
    assert_eq!(core.handle_preprepare(&addr(1), view, proposal(tip.clone(), 2, 1, vec![], 200)).err(), Some(CoreError::BadHeight));
    assert_eq!(core.handle_preprepare(&addr(1), view, proposal(vec![5u8; 32], 1, 1, vec![], 200)).err(), Some(CoreError::BadParent));
    let mut sealed = good();
    sealed.add_votes(vec![vec![1u8; 65]]);
    assert_eq!(core.handle_preprepare(&addr(1), view, sealed).err(), Some(CoreError::InvalidBlock));
    let mut greedy = good();
    greedy.header.gas_used = 101;
    assert_eq!(core.handle_preprepare(&addr(1), view, greedy).err(), Some(CoreError::InvalidBlock));
    assert_eq!(core.phase, Phase::NewRound);

    let d = good().hash();
    assert_eq!(core.handle_prepare(vote(9, view, &d)).err(), Some(CoreError::UnknownSender));
    let mut forged = vote(1, view, &d);
    forged.signature = sign(2, &d);
    assert_eq!(core.handle_prepare(forged).err(), Some(CoreError::BadSignature));
    let mut garbled = vote(1, view, &d);
    garbled.signature.truncate(64);
    assert_eq!(core.handle_prepare(garbled).err(), Some(CoreError::BadSignature));
    assert!(core.handle_prepare(vote(0, view, &d)).is_ok());
    assert_eq!(core.handle_prepare(vote(0, view, &vec![1u8; 32])).err(), Some(CoreError::Equivocation));
    assert_eq!(core.handle_commit(vote(0, View::new(1, 4), &d)).err(), Some(CoreError::FutureView));
    assert_eq!(core.handle_commit(vote(0, View::new(0, 0), &d)).err(), Some(CoreError::StaleView));
    assert_eq!(
        core.handle_round_change(RoundChange { sender: addr(9), view: View::new(1, 1) }).err(),
        Some(CoreError::UnknownSender)
    );
    assert_eq!(
        core.handle_round_change(RoundChange { sender: addr(0), view: View::new(2, 1) }).err(),
        Some(CoreError::FutureView)
    );
}

#[test]
fn locked_proposal_survives_round_change() {
    let (ledger, mut core) = setup();
    let tip = ledger.last_meta().unwrap().hash;
    let block = proposal(tip.clone(), 1, 1, vec![], 200);
    let digest = block.hash();
    assert!(core.handle_preprepare(&addr(1), View::new(1, 0), block).is_ok());
    let target = View::new(1, 1);
    for s in 0..3 {
        let _ = core.handle_round_change(RoundChange { sender: addr(s), view: target });
    }
    assert_eq!(core.view, target);
    assert_eq!(core.locked_digest, digest);
    let other = proposal(tip, 1, 2, vec![b"x".to_vec()], 200);
    assert_eq!(core.handle_preprepare(&addr(2), target, other).err(), Some(CoreError::LockedMismatch));
    let same = proposal(ledger.last_meta().unwrap().hash, 1, 1, vec![], 200);
    assert!(core.handle_preprepare(&addr(2), target, same).is_ok());
}

#[test]
fn signatures_recover_to_their_signer() {
    let d = vec![9u8; 32];
    assert_eq!(signer_address(&sign(3, &d), &d), Some(addr(3)));
    assert_ne!(signer_address(&sign(3, &d), &vec![8u8; 32]), Some(addr(3)));
    assert_eq!(signer_address(&sign(3, &d)[..64], &d), None);
    assert_eq!(signer_address(&sign(3, &d), &d[..31]), None);
}

#[test]
fn higher_round_change_is_recorded_and_joined() {
    let (_ledger, mut core) = setup();
    let target = View::new(1, 2);
    match core.handle_round_change(RoundChange { sender: addr(3), view: target }) {
        Ok(Action::BroadcastRoundChange { view }) => assert_eq!(view, View::new(1, 1)),
        _ => panic!("expected this node to ask for the next round"),
    }
    assert_eq!(core.round_changes.len(), 1);
    assert!(core.sent_round_change);
    assert!(matches!(core.handle_round_change(RoundChange { sender: addr(2), view: target }), Ok(Action::Idle)));
    assert_eq!(core.round_changes.len(), 2);
    assert!(matches!(core.handle_round_change(RoundChange { sender: addr(1), view: target }), Ok(Action::EnterRound { .. })));
    assert_eq!(core.view, target);
    assert!(!core.sent_round_change);
}

#[test]
fn later_views_wait_and_the_leader_proposes() {
    let (_ledger, core) = setup();
    assert!(core.waits_for(View::new(1, 1), false));
    assert!(core.waits_for(View::new(2, 0), false));
    assert!(!core.waits_for(View::new(1, 0), false));
    assert!(!core.waits_for(View::new(1, 3), true));
    assert!(core.waits_for(View::new(2, 0), true));
    assert!(core.should_propose(&addr(1)));
    assert!(!core.should_propose(&addr(2)));
}

#[test]
fn new_core_starts_above_the_tip() {
    let core = Core::new(validators(), LastMeta { height: 5, hash: vec![1u8; 32] });
    assert_eq!(core.view, View::new(6, 0));
    assert!(!core.sent_prepare && !core.sent_commit);
}

#[test]
fn proposer_builds_block_on_the_tip() {
    let (ledger, mut core) = setup();
    let mut pool = TxPool::new(8);
    for i in 0..3u64 {
        let payload = vec![i as u8; 4];
        let signature = sign(0, &Keccak256::digest(&payload));
        pool.add_tx(PendingTx { sender: addr(0), nonce: i, fee: 5, gas: 30, payload, signature }).unwrap();
    }
    let txs = pool.drain(10, 100);
    let last = ledger.last_meta().unwrap();
    let block = build_proposal(&last, &addr(1), &txs, 100, 500).unwrap();
    assert_eq!(block.height(), 1);
    assert_eq!(block.header.parent_hash, last.hash);
    assert_eq!(block.header.gas_used, 90);
    assert_eq!(block.transactions, vec![vec![0u8; 4], vec![1u8; 4], vec![2u8; 4]]);
    assert!(build_proposal(&last, &addr(1), &txs, 89, 500).is_none());
    assert!(matches!(core.handle_preprepare(&addr(1), View::new(1, 0), block), Ok(Action::BroadcastPrepare { .. })));
}

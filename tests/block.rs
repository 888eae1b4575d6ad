use bft_chain::block::{Block, BlockPart, Header, Part, PrePrepare, Proposal, Request, Subject};
use bft_chain::codec::CodecError;
use bft_chain::view::View;

fn header(height: u64) -> Header {
    Header::new(
        vec![0u8; 32],
        vec![7u8; 20],
        vec![1u8; 32],
        vec![2u8; 32],
        vec![3u8; 32],
        height,
        100,
        10,
        192,
        None,
        vec![12, 1],
    )
}

#[test]
fn hash_is_a_32_byte_digest_of_the_unsealed_form() {
    let h = header(1);
    let d = h.hash();
    assert_eq!(d.len(), 32);
    assert_ne!(d, h.unsealed_encoding());
    assert_ne!(d, header(2).hash());
    assert_eq!(d, header(1).hash());
}

#[test]
fn unsealed_encoding_layout() {
    let h = header(1);
    let bytes = h.unsealed_encoding();
    // five length-prefixed digests and addresses, four integers, the extra bytes
    assert_eq!(bytes.len(), (8 + 32) * 4 + (8 + 20) + 8 * 4 + (8 + 2));
    assert_eq!(&bytes[0..8], &[0, 0, 0, 0, 0, 0, 0, 32]);
    let height_at = (8 + 32) * 4 + (8 + 20);
    assert_eq!(&bytes[height_at..height_at + 8], &[0, 0, 0, 0, 0, 0, 0, 1]);
}

#[test]
fn sealing_keeps_the_hash() {
    let mut p = Proposal::new(Block::new(header(3), vec![vec![9, 9]]));
    let before = p.block().hash();
    p.set_seal(vec![vec![1u8; 65], vec![2u8; 65]]);
    assert_eq!(p.block().hash(), before);
    assert_eq!(p.block().header.votes.as_ref().unwrap().len(), 2);
    p.set_seal(vec![vec![3u8; 65]]);
    assert_eq!(p.block().header.votes.as_ref().unwrap().len(), 3);
    let c = p.copy();
    assert_eq!(c.block().hash(), before);
    assert_eq!(c.block().header.votes, p.block().header.votes);
    assert_eq!(c.block().transactions, vec![vec![9, 9]]);
}

#[test]
fn message_types_hold_their_parts() {
    let pp = PrePrepare::new(View::new(4, 1), Proposal::new(Block::new(header(4), vec![])));
    assert_eq!(pp.view, View::new(4, 1));
    assert_eq!(pp.proposal.block().height(), 4);
    let part = BlockPart { height: 4, round: 1 };
    assert_eq!((part.height, part.round), (4, 1));
    let piece = Part { index: 0, bytes: vec![1, 2], cache: None };
    assert_eq!(piece.bytes.len(), 2);
}

#[test]
fn header_round_trip() {
    let plain = header(9);
    let bytes = plain.encode();
    assert_eq!(bytes.len(), plain.unsealed_encoding().len() + 1);
    assert_eq!(*bytes.last().unwrap(), 0);
    let back = Header::decode(&bytes).unwrap();
    assert_eq!(back.encode(), bytes);
    assert_eq!(back.hash(), plain.hash());
    assert_eq!(back.votes, None);
    assert_eq!(back.extra, vec![12, 1]);

    let mut sealed = header(9);
    sealed.add_votes(vec![vec![4u8; 65], vec![5u8; 65], vec![6u8; 65]]);
    let bytes = sealed.encode();
    let back = Header::decode(&bytes).unwrap();
    assert_eq!(back.votes, sealed.votes);
    assert_eq!(back.hash(), plain.hash());
    assert_eq!(back.height, 9);
    assert_eq!(back.gas_limit, 100);
    assert_eq!(back.proposer, vec![7u8; 20]);
}

#[test]
fn header_decode_rejects_corrupted_bytes() {
    let bytes = header(2).encode();
    assert_eq!(Header::decode(&bytes[..bytes.len() - 1]).err(), Some(CodecError::CorruptedBytes));
    assert_eq!(Header::decode(&bytes[..10]).err(), Some(CodecError::CorruptedBytes));
    assert_eq!(Header::decode(&[]).err(), Some(CodecError::CorruptedBytes));
    let mut trailing = bytes.clone();
    trailing.push(0);
    assert_eq!(Header::decode(&trailing).err(), Some(CodecError::CorruptedBytes));
    let mut bad_marker = bytes.clone();
    *bad_marker.last_mut().unwrap() = 2;
    assert_eq!(Header::decode(&bad_marker).err(), Some(CodecError::CorruptedBytes));
    let mut huge_len = bytes.clone();
    huge_len[0] = 0xff;
    assert_eq!(Header::decode(&huge_len).err(), Some(CodecError::CorruptedBytes));
}

#[test]
fn subject_round_trip() {
    let s = Subject::new(View::new(3, 2), vec![0xabu8; 32]);
    let bytes = s.encode();
    assert_eq!(bytes.len(), 48);
    assert_eq!(&bytes[0..16], &View::new(3, 2).encode()[..]);
    let back = Subject::decode(&bytes).unwrap();
    assert_eq!(back.view, View::new(3, 2));
    assert_eq!(back.digest, vec![0xabu8; 32]);
    assert_eq!(Subject::decode(&bytes[..47]).err(), Some(CodecError::CorruptedBytes));
}

#[test]
fn request_holds_its_proposal() {
    let r = Request::new(Proposal::new(Block::new(header(5), vec![])));
    assert_eq!(r.proposal().block().height(), 5);
}

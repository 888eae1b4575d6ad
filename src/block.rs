//! Headers and blocks, their canonical unsealed encoding and their hash, and the
//! proposal types that carry a block through consensus.

use sha3::{Digest, Keccak256};
use vstd::prelude::*;
use vstd::view::View as _;

use vstd::seq_lib::lemma_concat_associative;

use crate::codec::{
    be_value, concat, lemma_concat_split, lemma_concat_take, be_bytes, field_bytes, fits_prefix, lemma_parse_field, lemma_parse_list, lemma_parse_u64,
    list_bytes, parse_field, parse_list, parse_u64, push_field, push_list, push_u64, read_field,
    read_fields, read_u64, CodecError,
};
use crate::validators::Address;
use crate::view::{lemma_view_round_trip, view_bytes, Height, Round, View, VIEW_LEN};

verus! {

broadcast use vstd::std_specs::vec::vec_clone_deep_view_proof;

/// 32-byte digest.
pub type H256 = Vec<u8>;

/// Recoverable signature over a hash.
pub type Signature = Vec<u8>;

/// A transaction in its encoded form.
pub type Transaction = Vec<u8>;

/// Number of bytes in a digest.
pub const HASH_LEN: usize = 32;

/// The Keccak-256 digest of a byte string.
pub uninterp spec fn keccak_of(data: Seq<u8>) -> Seq<u8>;

/// Relies on sha3::Keccak256 (through `Digest::digest`): the 32-byte Keccak-256
/// digest, which depends on the input bytes alone.
#[verifier::external_body]
pub(crate) fn keccak256(data: &[u8]) -> (r: Vec<u8>)
    ensures
        r@ == keccak_of(data@),
        r@.len() == HASH_LEN,
{
    Keccak256::digest(data).to_vec()
}

#[derive(Clone, Debug)]
pub struct Header {
    pub parent_hash: H256,
    pub proposer: Address,
    pub state_root: H256,
    pub tx_root: H256,
    pub receipt_root: H256,
    pub height: Height,
    pub gas_limit: u64,
    pub gas_used: u64,
    pub time: u64,
    pub extra: Vec<u8>,
    /// Commit signatures that seal the block; not part of the hashed form.
    pub votes: Option<Vec<Signature>>,
}

#[derive(Clone, Debug)]
pub struct Block {
    pub header: Header,
    pub transactions: Vec<Transaction>,
}

/// The canonical form of a header that its hash covers: every field but the seal.
pub open spec fn unsealed_bytes(h: Header) -> Seq<u8> {
    field_bytes(h.parent_hash@) + field_bytes(h.proposer@) + field_bytes(h.state_root@)
        + field_bytes(h.tx_root@) + field_bytes(h.receipt_root@) + be_bytes(h.height) + be_bytes(
        h.gas_limit,
    ) + be_bytes(h.gas_used) + be_bytes(h.time) + field_bytes(h.extra@)
}

/// The values a header holds.
pub struct HeaderModel {
    pub parent_hash: Seq<u8>,
    pub proposer: Seq<u8>,
    pub state_root: Seq<u8>,
    pub tx_root: Seq<u8>,
    pub receipt_root: Seq<u8>,
    pub height: u64,
    pub gas_limit: u64,
    pub gas_used: u64,
    pub time: u64,
    pub extra: Seq<u8>,
    pub votes: Option<Seq<Seq<u8>>>,
}

pub open spec fn model_of(h: Header) -> HeaderModel {
    HeaderModel {
        parent_hash: h.parent_hash@,
        proposer: h.proposer@,
        state_root: h.state_root@,
        tx_root: h.tx_root@,
        receipt_root: h.receipt_root@,
        height: h.height,
        gas_limit: h.gas_limit,
        gas_used: h.gas_used,
        time: h.time,
        extra: h.extra@,
        votes: match h.votes {
            Some(v) => Some(v.deep_view()),
            None => None,
        },
    }
}

/// The seal's part of the canonical form: a zero byte when unsealed, else a one
/// byte and the list of signatures.
pub open spec fn seal_bytes(votes: Option<Seq<Seq<u8>>>) -> Seq<u8> {
    match votes {
        Some(v) => seq![1u8] + list_bytes(v),
        None => seq![0u8],
    }
}

/// The canonical form of a header: its unsealed form, then its seal.
pub open spec fn header_bytes(h: Header) -> Seq<u8> {
    unsealed_bytes(h) + seal_bytes(model_of(h).votes)
}

/// Every byte string of the header fits a length prefix.
pub open spec fn header_fits(h: Header) -> bool {
    &&& h.parent_hash@.len() <= u64::MAX
    &&& h.proposer@.len() <= u64::MAX
    &&& h.state_root@.len() <= u64::MAX
    &&& h.tx_root@.len() <= u64::MAX
    &&& h.receipt_root@.len() <= u64::MAX
    &&& h.extra@.len() <= u64::MAX
    &&& (h.votes matches Some(v) ==> v@.len() <= u64::MAX && fits_prefix(v.deep_view()))
}

/// What the bytes `s` decode to as a header: the fields in canonical order, a
/// seal marker of zero or one, and nothing after.
pub open spec fn parse_header(s: Seq<u8>) -> Option<HeaderModel> {
    let f1 = parse_field(s, 0);
    let f2 = parse_field(s, f1.unwrap().1);
    let f3 = parse_field(s, f2.unwrap().1);
    let f4 = parse_field(s, f3.unwrap().1);
    let f5 = parse_field(s, f4.unwrap().1);
    let u6 = parse_u64(s, f5.unwrap().1);
    let u7 = parse_u64(s, u6.unwrap().1);
    let u8_ = parse_u64(s, u7.unwrap().1);
    let u9 = parse_u64(s, u8_.unwrap().1);
    let f10 = parse_field(s, u9.unwrap().1);
    let at = f10.unwrap().1;
    let seal = if at < s.len() && s[at] == 1 {
        match parse_list(s, at + 1) {
            Some((v, end)) => Some((Some(v), end)),
            None => None,
        }
    } else if at < s.len() && s[at] == 0 {
        Some((None::<Seq<Seq<u8>>>, at + 1))
    } else {
        None
    };
    if f1.is_some() && f2.is_some() && f3.is_some() && f4.is_some() && f5.is_some() && u6.is_some()
        && u7.is_some() && u8_.is_some() && u9.is_some() && f10.is_some() && seal.is_some()
        && seal.unwrap().1 == s.len() {
        Some(
            HeaderModel {
                parent_hash: f1.unwrap().0,
                proposer: f2.unwrap().0,
                state_root: f3.unwrap().0,
                tx_root: f4.unwrap().0,
                receipt_root: f5.unwrap().0,
                height: u6.unwrap().0,
                gas_limit: u7.unwrap().0,
                gas_used: u8_.unwrap().0,
                time: u9.unwrap().0,
                extra: f10.unwrap().0,
                votes: seal.unwrap().0,
            },
        )
    } else {
        None
    }
}

/// The hash of a header: Keccak-256 of its unsealed form.
pub open spec fn header_hash(h: Header) -> Seq<u8> {
    keccak_of(unsealed_bytes(h))
}

/// The seal signatures of a header, none where it is unsealed.
pub open spec fn seals_of(h: Header) -> Seq<Seq<u8>> {
    match h.votes {
        Some(v) => v.deep_view(),
        None => Seq::empty(),
    }
}

/// Two headers hold the same values.
pub open spec fn same_header(a: Header, b: Header) -> bool {
    &&& a.parent_hash@ == b.parent_hash@
    &&& a.proposer@ == b.proposer@
    &&& a.state_root@ == b.state_root@
    &&& a.tx_root@ == b.tx_root@
    &&& a.receipt_root@ == b.receipt_root@
    &&& a.height == b.height
    &&& a.gas_limit == b.gas_limit
    &&& a.gas_used == b.gas_used
    &&& a.time == b.time
    &&& a.extra@ == b.extra@
    &&& a.votes.is_some() == b.votes.is_some()
    &&& seals_of(a) == seals_of(b)
}

/// Two blocks hold the same values.
pub open spec fn same_block(a: Block, b: Block) -> bool {
    same_header(a.header, b.header) && a.transactions.deep_view() == b.transactions.deep_view()
}

fn copy_list(v: &Vec<Vec<u8>>) -> (r: Vec<Vec<u8>>)
    ensures
        r.deep_view() == v.deep_view(),
{
    v.clone()
}

impl Header {
    pub fn new(
        parent_hash: H256,
        proposer: Address,
        state_root: H256,
        tx_root: H256,
        receipt_root: H256,
        height: Height,
        gas_limit: u64,
        gas_used: u64,
        time: u64,
        votes: Option<Vec<Signature>>,
        extra: Vec<u8>,
    ) -> (r: Header)
        ensures
            r.parent_hash == parent_hash,
            r.proposer == proposer,
            r.state_root == state_root,
            r.tx_root == tx_root,
            r.receipt_root == receipt_root,
            r.height == height,
            r.gas_limit == gas_limit,
            r.gas_used == gas_used,
            r.time == time,
            r.votes == votes,
            r.extra == extra,
    {
        Header {
            parent_hash,
            proposer,
            state_root,
            tx_root,
            receipt_root,
            height,
            gas_limit,
            gas_used,
            time,
            extra,
            votes,
        }
    }

    /// The canonical unsealed bytes of this header.
    pub fn unsealed_encoding(&self) -> (r: Vec<u8>)
        ensures
            r@ == unsealed_bytes(*self),
    {
        let mut out: Vec<u8> = Vec::new();
        push_field(&mut out, &self.parent_hash);
        push_field(&mut out, &self.proposer);
        push_field(&mut out, &self.state_root);
        push_field(&mut out, &self.tx_root);
        push_field(&mut out, &self.receipt_root);
        push_u64(&mut out, self.height);
        push_u64(&mut out, self.gas_limit);
        push_u64(&mut out, self.gas_used);
        push_u64(&mut out, self.time);
        push_field(&mut out, &self.extra);
        out
    }

    /// The canonical bytes of this header, seal included.
    pub fn encode(&self) -> (r: Vec<u8>)
        ensures
            r@ == header_bytes(*self),
    {
        let mut out = self.unsealed_encoding();
        match &self.votes {
            Some(v) => {
                out.push(1u8);
                push_list(&mut out, v);
            },
            None => {
                out.push(0u8);
            },
        }
        assert(out@ =~= header_bytes(*self));
        out
    }

    /// Reads a header from its canonical bytes; truncated input, trailing bytes
    /// or a seal marker other than zero or one are refused.
    pub fn decode(bytes: &[u8]) -> (r: Result<Header, CodecError>)
        ensures
            r.is_ok() <==> parse_header(bytes@).is_some(),
            r.is_ok() ==> model_of(r.unwrap()) == parse_header(bytes@).unwrap(),
    {
        reveal(parse_u64);
        let len = bytes.len();
        let (parent_hash, p) = match read_field(bytes, 0) { Some(x) => x, None => return Err(CodecError::CorruptedBytes) };
        let (proposer, p) = match read_field(bytes, p) { Some(x) => x, None => return Err(CodecError::CorruptedBytes) };
        let (state_root, p) = match read_field(bytes, p) { Some(x) => x, None => return Err(CodecError::CorruptedBytes) };
        let (tx_root, p) = match read_field(bytes, p) { Some(x) => x, None => return Err(CodecError::CorruptedBytes) };
        let (receipt_root, p) = match read_field(bytes, p) { Some(x) => x, None => return Err(CodecError::CorruptedBytes) };
        let height = match read_u64(bytes, p) { Some(x) => x, None => return Err(CodecError::CorruptedBytes) };
        let gas_limit = match read_u64(bytes, p + 8) { Some(x) => x, None => return Err(CodecError::CorruptedBytes) };
        let gas_used = match read_u64(bytes, p + 16) { Some(x) => x, None => return Err(CodecError::CorruptedBytes) };
        let time = match read_u64(bytes, p + 24) { Some(x) => x, None => return Err(CodecError::CorruptedBytes) };
        let (extra, p) = match read_field(bytes, p + 32) { Some(x) => x, None => return Err(CodecError::CorruptedBytes) };
        if p >= bytes.len() {
            return Err(CodecError::CorruptedBytes);
        }
        let votes = if bytes[p] == 1 {
            let n = match read_u64(bytes, p + 1) { Some(x) => x, None => return Err(CodecError::CorruptedBytes) };
            let (v, end) = match read_fields(bytes, p + 9, n) { Some(x) => x, None => return Err(CodecError::CorruptedBytes) };
            if end != bytes.len() {
                return Err(CodecError::CorruptedBytes);
            }
            Some(v)
        } else if bytes[p] == 0 {
            if p + 1 != bytes.len() {
                return Err(CodecError::CorruptedBytes);
            }
            None
        } else {
            return Err(CodecError::CorruptedBytes);
        };
        Ok(Header {
            parent_hash,
            proposer,
            state_root,
            tx_root,
            receipt_root,
            height,
            gas_limit,
            gas_used,
            time,
            extra,
            votes,
        })
    }

    /// The hash of this header, over its unsealed form.
    pub fn hash(&self) -> (r: H256)
        ensures
            r@ == header_hash(*self),
            r@.len() == HASH_LEN,
    {
        let bytes = self.unsealed_encoding();
        keccak256(bytes.as_slice())
    }

    /// A header with the same values.
    pub fn copy(&self) -> (r: Header)
        ensures
            same_header(r, *self),
    {
        let votes = match &self.votes {
            Some(v) => Some(copy_list(v)),
            None => None,
        };
        let r = Header {
            parent_hash: self.parent_hash.clone(),
            proposer: self.proposer.clone(),
            state_root: self.state_root.clone(),
            tx_root: self.tx_root.clone(),
            receipt_root: self.receipt_root.clone(),
            height: self.height,
            gas_limit: self.gas_limit,
            gas_used: self.gas_used,
            time: self.time,
            extra: self.extra.clone(),
            votes,
        };
        assert(r.parent_hash@ =~= self.parent_hash@);
        assert(r.proposer@ =~= self.proposer@);
        assert(r.state_root@ =~= self.state_root@);
        assert(r.tx_root@ =~= self.tx_root@);
        assert(r.receipt_root@ =~= self.receipt_root@);
        assert(r.extra@ =~= self.extra@);
        r
    }

    /// Appends `seals` to the header's seal signatures.
    pub fn add_votes(&mut self, seals: Vec<Signature>)
        ensures
            final(self).votes.is_some(),
            seals_of(*final(self)) == seals_of(*old(self)) + seals.deep_view(),
            unsealed_bytes(*final(self)) == unsealed_bytes(*old(self)),
            header_hash(*final(self)) == header_hash(*old(self)),
    {
        let mut all: Vec<Signature> = match self.votes.take() {
            Some(v) => v,
            None => Vec::new(),
        };
        let ghost before = all.deep_view();
        assert(before == seals_of(*old(self)));
        let mut i: usize = 0;
        while i < seals.len()
            invariant
                i <= seals@.len(),
                all.deep_view() == before + seals.deep_view().subrange(0, i as int),
            decreases seals@.len() - i,
        {
            let s = seals[i].clone();
            assert(s.deep_view() == seals@[i as int].deep_view());
            let ghost prev = all.deep_view();
            all.push(s);
            assert(all.deep_view() =~= prev.push(seals@[i as int].deep_view()));
            assert(seals.deep_view()[i as int] == seals@[i as int].deep_view());
            assert(all.deep_view() =~= before + seals.deep_view().subrange(0, i + 1));
            i = i + 1;
        }
        assert(seals.deep_view().subrange(0, i as int) =~= seals.deep_view());
        self.votes = Some(all);
    }
}

impl Block {
    pub fn new(header: Header, transactions: Vec<Transaction>) -> (r: Block)
        ensures
            r.header == header,
            r.transactions == transactions,
    {
        Block { header, transactions }
    }

    /// The block's hash: the hash of its header without the seal.
    pub fn hash(&self) -> (r: H256)
        ensures
            r@ == header_hash(self.header),
            r@.len() == HASH_LEN,
    {
        self.header.hash()
    }

    pub fn height(&self) -> (r: Height)
        ensures
            r == self.header.height,
    {
        self.header.height
    }

    /// Appends `seals` to the block's seal signatures; the hash stays the same.
    pub fn add_votes(&mut self, seals: Vec<Signature>)
        ensures
            final(self).header.votes.is_some(),
            seals_of(final(self).header) == seals_of(old(self).header) + seals.deep_view(),
            unsealed_bytes(final(self).header) == unsealed_bytes(old(self).header),
            final(self).transactions == old(self).transactions,
    {
        self.header.add_votes(seals);
    }

    /// The hash of each transaction's payload, in block order.
    pub fn transaction_hashes(&self) -> (r: Vec<H256>)
        ensures
            r@.len() == self.transactions@.len(),
            forall|i: int| 0 <= i < r@.len() ==> (#[trigger] r@[i])@ == keccak_of(self.transactions@[i]@),
    {
        let mut out: Vec<H256> = Vec::new();
        let mut i: usize = 0;
        while i < self.transactions.len()
            invariant
                i <= self.transactions@.len(),
                out@.len() == i,
                forall|j: int| 0 <= j < i ==> (#[trigger] out@[j])@ == keccak_of(self.transactions@[j]@),
            decreases self.transactions@.len() - i,
        {
            out.push(keccak256(self.transactions[i].as_slice()));
            i = i + 1;
        }
        out
    }

    /// A block with the same values.
    pub fn copy(&self) -> (r: Block)
        ensures
            same_block(r, *self),
    {
        Block { header: self.header.copy(), transactions: copy_list(&self.transactions) }
    }
}

/// Two headers that differ only in their seal have the same hash: the seal signs
/// the hash, so it stays out of the hashed form.
pub proof fn lemma_hash_ignores_seal(a: Header, b: Header)
    requires
        a.parent_hash@ == b.parent_hash@,
        a.proposer@ == b.proposer@,
        a.state_root@ == b.state_root@,
        a.tx_root@ == b.tx_root@,
        a.receipt_root@ == b.receipt_root@,
        a.height == b.height,
        a.gas_limit == b.gas_limit,
        a.gas_used == b.gas_used,
        a.time == b.time,
        a.extra@ == b.extra@,
    ensures
        unsealed_bytes(a) == unsealed_bytes(b),
        header_hash(a) == header_hash(b),
{
}

/// Decoding the canonical bytes of a header gives back the values it holds, and
/// so the same hash: what was encoded and what was decoded cannot differ.
pub proof fn lemma_header_round_trip(h: Header, d: Header)
    requires
        header_fits(h),
    ensures
        parse_header(header_bytes(h)) == Some(model_of(h)),
        model_of(d) == model_of(h) ==> header_hash(d) == header_hash(h) && header_bytes(d)
            == header_bytes(h),
{
    let s = header_bytes(h);
    let a1 = field_bytes(h.parent_hash@);
    let a2 = field_bytes(h.proposer@);
    let a3 = field_bytes(h.state_root@);
    let a4 = field_bytes(h.tx_root@);
    let a5 = field_bytes(h.receipt_root@);
    let a6 = be_bytes(h.height);
    let a7 = be_bytes(h.gas_limit);
    let a8 = be_bytes(h.gas_used);
    let a9 = be_bytes(h.time);
    let a10 = field_bytes(h.extra@);
    let a11 = seal_bytes(model_of(h).votes);
    let e = Seq::<u8>::empty();
    let p = seq![a1, a2, a3, a4, a5, a6, a7, a8, a9, a10, a11];
    let q10 = unsealed_bytes(h);
    assert(p.take(0) =~= Seq::<Seq<u8>>::empty());
    lemma_concat_take(p, 0);
    lemma_concat_take(p, 1);
    lemma_concat_take(p, 2);
    lemma_concat_take(p, 3);
    lemma_concat_take(p, 4);
    lemma_concat_take(p, 5);
    lemma_concat_take(p, 6);
    lemma_concat_take(p, 7);
    lemma_concat_take(p, 8);
    lemma_concat_take(p, 9);
    lemma_concat_take(p, 10);
    assert(concat(p.take(1)) =~= a1);
    assert(concat(p.take(10)) == q10);
    assert(p.take(11) =~= p);
    assert(concat(p) == s);
    lemma_header_fields(h, s, p);
    let at = q10.len() as int;
    assert(s == q10 + a11);
    assert(s[at] == a11[0]);
    match h.votes {
        Some(v) => {
            let l = list_bytes(v.deep_view());
            assert(a11 == seq![1u8] + l);
            lemma_concat_associative(q10, seq![1u8], l);
            let t = (q10 + seq![1u8]) + l;
            assert(t + e =~= t);
            lemma_parse_list(q10 + seq![1u8], v.deep_view(), e);
        },
        None => {},
    }
}

proof fn lemma_field_at(s: Seq<u8>, p: Seq<Seq<u8>>, k: int, b: Seq<u8>)
    requires
        0 <= k < p.len(),
        concat(p) == s,
        p[k] == field_bytes(b),
        b.len() <= u64::MAX,
    ensures
        parse_field(s, concat(p.take(k)).len() as int) == Some((b, concat(p.take(k + 1)).len() as int)),
{
    lemma_concat_split(p, k);
    lemma_concat_take(p, k);
    lemma_parse_field(concat(p.take(k)), b, concat(p.skip(k + 1)));
}

proof fn lemma_u64_at(s: Seq<u8>, p: Seq<Seq<u8>>, k: int, v: u64)
    requires
        0 <= k < p.len(),
        concat(p) == s,
        p[k] == be_bytes(v),
    ensures
        parse_u64(s, concat(p.take(k)).len() as int) == Some((v, concat(p.take(k + 1)).len() as int)),
{
    lemma_concat_split(p, k);
    lemma_concat_take(p, k);
    lemma_parse_u64(concat(p.take(k)), v, concat(p.skip(k + 1)));
}

proof fn lemma_header_fields(h: Header, s: Seq<u8>, p: Seq<Seq<u8>>)
    requires
        header_fits(h),
        concat(p) == s,
        p.len() == 11,
        p[0] == field_bytes(h.parent_hash@),
        p[1] == field_bytes(h.proposer@),
        p[2] == field_bytes(h.state_root@),
        p[3] == field_bytes(h.tx_root@),
        p[4] == field_bytes(h.receipt_root@),
        p[5] == be_bytes(h.height),
        p[6] == be_bytes(h.gas_limit),
        p[7] == be_bytes(h.gas_used),
        p[8] == be_bytes(h.time),
        p[9] == field_bytes(h.extra@),
    ensures
        parse_field(s, 0) == Some((h.parent_hash@, concat(p.take(1)).len() as int)),
        parse_field(s, concat(p.take(1)).len() as int) == Some((h.proposer@, concat(p.take(2)).len() as int)),
        parse_field(s, concat(p.take(2)).len() as int) == Some((h.state_root@, concat(p.take(3)).len() as int)),
        parse_field(s, concat(p.take(3)).len() as int) == Some((h.tx_root@, concat(p.take(4)).len() as int)),
        parse_field(s, concat(p.take(4)).len() as int) == Some((h.receipt_root@, concat(p.take(5)).len() as int)),
        parse_u64(s, concat(p.take(5)).len() as int) == Some((h.height, concat(p.take(6)).len() as int)),
        parse_u64(s, concat(p.take(6)).len() as int) == Some((h.gas_limit, concat(p.take(7)).len() as int)),
        parse_u64(s, concat(p.take(7)).len() as int) == Some((h.gas_used, concat(p.take(8)).len() as int)),
        parse_u64(s, concat(p.take(8)).len() as int) == Some((h.time, concat(p.take(9)).len() as int)),
        parse_field(s, concat(p.take(9)).len() as int) == Some((h.extra@, concat(p.take(10)).len() as int)),
{
    assert(p.take(0) =~= Seq::<Seq<u8>>::empty());
    lemma_field_at(s, p, 0, h.parent_hash@);
    lemma_field_at(s, p, 1, h.proposer@);
    lemma_field_at(s, p, 2, h.state_root@);
    lemma_field_at(s, p, 3, h.tx_root@);
    lemma_field_at(s, p, 4, h.receipt_root@);
    lemma_u64_at(s, p, 5, h.height);
    lemma_u64_at(s, p, 6, h.gas_limit);
    lemma_u64_at(s, p, 7, h.gas_used);
    lemma_u64_at(s, p, 8, h.time);
    lemma_field_at(s, p, 9, h.extra@);
}

/// A block that a validator puts forward as the next one.
pub struct Proposal(pub Block);

impl Proposal {
    pub fn new(block: Block) -> (r: Proposal)
        ensures
            r.0 == block,
    {
        Proposal(block)
    }

    /// Attaches the commit signatures to the proposed block.
    pub fn set_seal(&mut self, seals: Vec<Signature>)
        ensures
            final(self).0.header.votes.is_some(),
            seals_of(final(self).0.header) == seals_of(old(self).0.header) + seals.deep_view(),
            unsealed_bytes(final(self).0.header) == unsealed_bytes(old(self).0.header),
            final(self).0.transactions == old(self).0.transactions,
    {
        self.0.add_votes(seals);
    }

    pub fn copy(&self) -> (r: Proposal)
        ensures
            same_block(r.0, self.0),
    {
        let block = self.0.copy();
        Proposal(block)
    }

    pub fn block(&self) -> (r: &Block)
        ensures
            *r == self.0,
    {
        &self.0
    }
}

/// The position of a block being assembled.
pub struct BlockPart {
    pub height: Height,
    pub round: Round,
}

/// One piece of a block split for transfer.
pub struct Part {
    pub index: i8,
    pub bytes: Vec<u8>,
    pub cache: Option<Vec<u8>>,
}

/// A request to agree on `proposal`.
pub struct Request<T> {
    pub proposal: T,
}

impl<T> Request<T> {
    pub fn new(proposal: T) -> (r: Request<T>)
        ensures
            r.proposal == proposal,
    {
        Request { proposal }
    }

    pub fn proposal(&self) -> (r: &T)
        ensures
            *r == self.proposal,
    {
        &self.proposal
    }
}

/// What a Prepare or a Commit votes for: a digest at a view.
pub struct Subject {
    pub view: View,
    pub digest: H256,
}

/// The canonical bytes of a subject: its view, then its 32-byte digest.
pub open spec fn subject_bytes(s: Subject) -> Seq<u8> {
    view_bytes(s.view) + s.digest@
}

/// Number of bytes in the canonical form of a subject.
pub const SUBJECT_LEN: usize = 48;

impl Subject {
    pub fn new(view: View, digest: H256) -> (r: Subject)
        ensures
            r.view == view,
            r.digest == digest,
    {
        Subject { view, digest }
    }

    pub fn encode(&self) -> (r: Vec<u8>)
        ensures
            r@ == subject_bytes(*self),
    {
        let mut out = self.view.encode();
        let mut i: usize = 0;
        while i < self.digest.len()
            invariant
                i <= self.digest@.len(),
                out@ == view_bytes(self.view) + self.digest@.subrange(0, i as int),
            decreases self.digest@.len() - i,
        {
            out.push(self.digest[i]);
            assert(self.digest@.subrange(0, i + 1) =~= self.digest@.subrange(0, i as int).push(self.digest@[i as int]));
            i = i + 1;
        }
        assert(self.digest@.subrange(0, i as int) =~= self.digest@);
        out
    }

    /// Reads a subject from exactly 48 canonical bytes.
    pub fn decode(bytes: &[u8]) -> (r: Result<Subject, CodecError>)
        ensures
            r.is_ok() <==> bytes@.len() == SUBJECT_LEN,
            r.is_ok() ==> subject_bytes(r.unwrap()) == bytes@ && r.unwrap().digest@.len() == HASH_LEN,
    {
        if bytes.len() != SUBJECT_LEN {
            return Err(CodecError::CorruptedBytes);
        }
        let view = match View::decode(&bytes[0..VIEW_LEN]) {
            Ok(v) => v,
            Err(e) => return Err(e),
        };
        let mut digest: Vec<u8> = Vec::new();
        let mut i: usize = VIEW_LEN;
        while i < SUBJECT_LEN
            invariant
                bytes@.len() == SUBJECT_LEN,
                VIEW_LEN <= i <= SUBJECT_LEN,
                digest@ == bytes@.subrange(VIEW_LEN as int, i as int),
            decreases SUBJECT_LEN - i,
        {
            digest.push(bytes[i]);
            assert(bytes@.subrange(VIEW_LEN as int, i + 1) =~= bytes@.subrange(VIEW_LEN as int, i as int).push(bytes@[i as int]));
            i = i + 1;
        }
        assert(bytes@ =~= bytes@.subrange(0, VIEW_LEN as int) + bytes@.subrange(VIEW_LEN as int, SUBJECT_LEN as int));
        Ok(Subject { view, digest })
    }
}

/// Decoding the canonical bytes of a subject with a 32-byte digest gives back
/// its view and digest.
pub proof fn lemma_subject_round_trip(x: Subject, y: Subject)
    requires
        x.digest@.len() == HASH_LEN,
        subject_bytes(y) == subject_bytes(x),
        y.digest@.len() == HASH_LEN,
    ensures
        y.view == x.view,
        y.digest@ == x.digest@,
        subject_bytes(x).len() == SUBJECT_LEN,
{
    lemma_view_round_trip(x.view);
    lemma_view_round_trip(y.view);
    let s = subject_bytes(x);
    assert(s.subrange(0, VIEW_LEN as int) =~= view_bytes(x.view));
    assert(subject_bytes(y).subrange(0, VIEW_LEN as int) =~= view_bytes(y.view));
    assert(s.subrange(VIEW_LEN as int, SUBJECT_LEN as int) =~= x.digest@);
    assert(subject_bytes(y).subrange(VIEW_LEN as int, SUBJECT_LEN as int) =~= y.digest@);
    assert(view_bytes(x.view) == view_bytes(y.view));
    assert(be_value(view_bytes(x.view), 0) == x.view.height);
}

/// The first message of a view: the proposer's block.
pub struct PrePrepare {
    pub view: View,
    pub proposal: Proposal,
}

impl PrePrepare {
    pub fn new(view: View, proposal: Proposal) -> (r: PrePrepare)
        ensures
            r.view == view,
            r.proposal == proposal,
    {
        PrePrepare { view, proposal }
    }
}

} // verus!

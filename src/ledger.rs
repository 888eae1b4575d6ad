//! The ledger: the committed chain, kept linked by height and parent hash, with
//! its tip metadata, its validator set and the genesis configuration.

use vstd::prelude::*;
use vstd::view::View as _;

use crate::block::{header_hash, same_block, Block, H256, Header, HASH_LEN};
use crate::cache::{
    block_cache_get, block_cache_insert, block_capacity, block_entries, height_cache_get,
    height_cache_insert, height_capacity, height_entries, new_block_cache, new_height_cache,
    BlockCache, HeightCache,
};
use crate::validators::{same_bytes, Address};
use crate::view::Height;

verus! {

/// Why the ledger refused a block.
#[derive(Debug, Clone, Copy, PartialEq, Eq, Structural)]
pub enum LedgerError {
    /// A genesis block is already stored.
    AlreadyInitialized,
    /// No genesis block is stored yet.
    NotInitialized,
    /// The block's height is not the one after the tip (zero for genesis).
    BadHeight,
    /// The block's parent hash is not the tip's hash.
    BadParent,
}

/// The tip of the chain: its height and its hash.
pub struct LastMeta {
    pub height: Height,
    pub hash: H256,
}

/// What a node needs to agree on before the first block.
pub struct ConsensusConfig {
    pub block_period_ms: u64,
    pub request_timeout_ms: u64,
    pub validators: Vec<Address>,
    pub proposer: Address,
}

/// The configuration committed into the genesis block.
pub struct GenesisConfig {
    pub consensus: ConsensusConfig,
    /// Genesis block timestamp, in unix seconds.
    pub genesis_timestamp: i64,
    pub extra: Vec<u8>,
    pub gas_used: u64,
}

impl GenesisConfig {
    pub fn new_with_consensus(timestamp: i64, consensus: ConsensusConfig) -> (r: GenesisConfig)
        ensures
            r.consensus == consensus,
            r.genesis_timestamp == timestamp,
            r.extra@.len() == 0,
            r.gas_used == 0,
    {
        GenesisConfig { consensus, genesis_timestamp: timestamp, extra: Vec::new(), gas_used: 0 }
    }
}

/// `blocks` form a chain from genesis: block `i` stands at height `i`, `hashes[i]`
/// is its hash, and each block after the first names its predecessor's hash as parent.
pub open spec fn linked(blocks: Seq<Block>, hashes: Seq<H256>) -> bool {
    &&& blocks.len() == hashes.len()
    &&& forall|i: int| 0 <= i < blocks.len() ==> (#[trigger] blocks[i]).header.height == i
    &&& forall|i: int| 0 <= i < blocks.len() ==> (#[trigger] hashes[i])@ == header_hash(blocks[i].header)
    &&& forall|i: int|
        1 <= i < blocks.len() ==> (#[trigger] blocks[i]).header.parent_hash@ == hashes[i - 1]@
}

/// The 32 zero bytes that stand for "no hash".
pub open spec fn empty_hash() -> Seq<u8> {
    Seq::new(HASH_LEN as nat, |i: int| 0u8)
}

/// Entries each of the ledger's caches holds at most.
pub const CACHE_CAPACITY: usize = 1024;

pub struct Ledger {
    blocks: Vec<Block>,
    hashes: Vec<H256>,
    validators: Vec<Address>,
    height_cache: HeightCache,
    block_cache: BlockCache,
}

impl Ledger {
    /// The committed blocks, by height.
    pub closed spec fn chain(&self) -> Seq<Block> {
        self.blocks@
    }

    /// The hash of each committed block, by height.
    pub closed spec fn chain_hashes(&self) -> Seq<H256> {
        self.hashes@
    }

    /// The addresses of the validator set.
    pub closed spec fn validator_set(&self) -> Seq<Seq<u8>> {
        self.validators.deep_view()
    }

    /// The most entries the hash-by-height cache holds.
    pub closed spec fn height_cache_bound(&self) -> nat {
        height_capacity(self.height_cache)
    }

    /// The most entries the block-by-hash cache holds.
    pub closed spec fn block_cache_bound(&self) -> nat {
        block_capacity(self.block_cache)
    }

    /// Every cached entry agrees with the stored chain: a cached hash is the hash
    /// stored at its height, a cached block is a copy of the stored block with
    /// that hash.
    pub closed spec fn caches_coherent(&self) -> bool {
        &&& height_capacity(self.height_cache) > 0
        &&& block_capacity(self.block_cache) > 0
        &&& forall|h: u64|
            #[trigger] height_entries(self.height_cache).contains_key(h) ==> h < self.hashes@.len()
                && height_entries(self.height_cache)[h] == self.hashes@[h as int]@
        &&& forall|k: Seq<u8>|
            #[trigger] block_entries(self.block_cache).contains_key(k) ==> exists|i: int|
                0 <= i < self.blocks@.len() && self.hashes@[i]@ == k && same_block(
                    block_entries(self.block_cache)[k],
                    self.blocks@[i],
                )
    }

    pub closed spec fn wf(&self) -> bool {
        linked(self.blocks@, self.hashes@) && self.caches_coherent()
    }

    pub fn new(validators: Vec<Address>) -> (r: Ledger)
        ensures
            r.wf(),
            r.chain().len() == 0,
            r.validator_set() == validators.deep_view(),
            r.height_cache_bound() == CACHE_CAPACITY,
            r.block_cache_bound() == CACHE_CAPACITY,
    {
        Ledger {
            blocks: Vec::new(),
            hashes: Vec::new(),
            validators,
            height_cache: new_height_cache(CACHE_CAPACITY),
            block_cache: new_block_cache(CACHE_CAPACITY),
        }
    }

    /// Puts the tip into both caches.
    fn cache_tip(&mut self)
        requires
            linked(old(self).blocks@, old(self).hashes@),
            old(self).caches_coherent(),
            old(self).blocks@.len() > 0,
        ensures
            final(self).height_cache_bound() == old(self).height_cache_bound(),
            final(self).block_cache_bound() == old(self).block_cache_bound(),
            final(self).wf(),
            final(self).blocks == old(self).blocks,
            final(self).hashes == old(self).hashes,
            final(self).validators == old(self).validators,
    {
        let n = self.blocks.len();
        let h = self.hashes[n - 1].clone();
        assert(h@ =~= self.hashes@[n - 1]@);
        let cached = self.blocks[n - 1].copy();
        let key = h.clone();
        assert(key@ =~= h@);
        let ghost old_blocks = block_entries(self.block_cache);
        block_cache_insert(&mut self.block_cache, key, cached);
        assert forall|k: Seq<u8>| #[trigger] block_entries(self.block_cache).contains_key(k) implies exists|i: int|
            0 <= i < self.blocks@.len() && self.hashes@[i]@ == k && same_block(
                block_entries(self.block_cache)[k],
                self.blocks@[i],
            ) by {
            if k == h@ {
                assert(self.hashes@[n - 1]@ == k);
            } else {
                assert(old_blocks.contains_key(k));
            }
        }
        height_cache_insert(&mut self.height_cache, (n - 1) as u64, h);
    }

    /// Replaces the validator set, which serves every height.
    pub fn add_validators(&mut self, validators: Vec<Address>)
        requires
            old(self).wf(),
        ensures
            final(self).height_cache_bound() == old(self).height_cache_bound(),
            final(self).block_cache_bound() == old(self).block_cache_bound(),
            final(self).wf(),
            final(self).chain() == old(self).chain(),
            final(self).chain_hashes() == old(self).chain_hashes(),
            final(self).validator_set() == validators.deep_view(),
    {
        self.validators = validators;
    }

    /// The validator set at `height`; one set serves the whole chain.
    pub fn validators_at(&self, height: Height) -> (r: Option<&Vec<Address>>)
        ensures
            r.is_some() <==> height < self.chain().len(),
            r.is_some() ==> r.unwrap().deep_view() == self.validator_set(),
    {
        if (height as usize) < self.blocks.len() && height <= usize::MAX as u64 {
            Some(&self.validators)
        } else {
            None
        }
    }

    pub fn validators(&self) -> (r: &Vec<Address>)
        ensures
            r.deep_view() == self.validator_set(),
    {
        &self.validators
    }

    /// Number of committed blocks.
    pub fn len(&self) -> (r: usize)
        ensures
            r == self.chain().len(),
    {
        self.blocks.len()
    }

    /// Stores `b` as the genesis block of an empty ledger.
    pub fn add_genesis_block(&mut self, b: Block) -> (r: Result<(), LedgerError>)
        requires
            old(self).wf(),
        ensures
            final(self).height_cache_bound() == old(self).height_cache_bound(),
            final(self).block_cache_bound() == old(self).block_cache_bound(),
            final(self).wf(),
            final(self).validator_set() == old(self).validator_set(),
            old(self).chain().len() > 0 ==> r == Err::<(), LedgerError>(LedgerError::AlreadyInitialized),
            old(self).chain().len() == 0 && b.header.height != 0 ==> r == Err::<(), LedgerError>(LedgerError::BadHeight),
            r.is_ok() <==> old(self).chain().len() == 0 && b.header.height == 0,
            r.is_ok() ==> final(self).chain() == seq![b],
            r.is_err() ==> final(self).chain() == old(self).chain()
                && final(self).chain_hashes() == old(self).chain_hashes(),
    {
        if self.blocks.len() > 0 {
            return Err(LedgerError::AlreadyInitialized);
        }
        if b.header.height != 0 {
            return Err(LedgerError::BadHeight);
        }
        let h = b.hash();
        let ghost gb = b;
        self.blocks.push(b);
        self.hashes.push(h);
        assert(self.blocks@ =~= seq![gb]);
        assert forall|k: u64| #[trigger] height_entries(self.height_cache).contains_key(k) implies false by {}
        assert forall|k: Seq<u8>| #[trigger] block_entries(self.block_cache).contains_key(k) implies false by {}
        self.cache_tip();
        Ok(())
    }

    /// Appends `b` on top of the tip.
    pub fn add_block(&mut self, b: Block) -> (r: Result<(), LedgerError>)
        requires
            old(self).wf(),
        ensures
            final(self).height_cache_bound() == old(self).height_cache_bound(),
            final(self).block_cache_bound() == old(self).block_cache_bound(),
            final(self).wf(),
            final(self).validator_set() == old(self).validator_set(),
            old(self).chain().len() == 0 ==> r == Err::<(), LedgerError>(LedgerError::NotInitialized),
            old(self).chain().len() > 0 && b.header.height != old(self).chain().len() ==> r
                == Err::<(), LedgerError>(LedgerError::BadHeight),
            old(self).chain().len() > 0 && b.header.height == old(self).chain().len()
                && b.header.parent_hash@ != old(self).chain_hashes().last()@ ==> r
                == Err::<(), LedgerError>(LedgerError::BadParent),
            r.is_ok() <==> old(self).chain().len() > 0 && b.header.height == old(self).chain().len()
                && b.header.parent_hash@ == old(self).chain_hashes().last()@,
            r.is_ok() ==> final(self).chain() == old(self).chain().push(b),
            r.is_err() ==> final(self).chain() == old(self).chain()
                && final(self).chain_hashes() == old(self).chain_hashes(),
    {
        let n = self.blocks.len();
        if n == 0 {
            return Err(LedgerError::NotInitialized);
        }
        if b.header.height != n as u64 {
            return Err(LedgerError::BadHeight);
        }
        if !same_bytes(b.header.parent_hash.as_slice(), self.hashes[n - 1].as_slice()) {
            return Err(LedgerError::BadParent);
        }
        let h = b.hash();
        proof {
            lemma_linked_push(self.blocks@, self.hashes@, b, h);
        }
        let ghost ob = self.blocks@;
        let ghost oh = self.hashes@;
        self.blocks.push(b);
        self.hashes.push(h);
        proof {
            assert forall|k: u64| #[trigger] height_entries(self.height_cache).contains_key(k) implies k
                < self.hashes@.len() && height_entries(self.height_cache)[k] == self.hashes@[k as int]@ by {
                assert(self.hashes@[k as int] == oh[k as int]);
            }
            assert forall|k: Seq<u8>| #[trigger] block_entries(self.block_cache).contains_key(k) implies exists|i: int|
                0 <= i < self.blocks@.len() && self.hashes@[i]@ == k && same_block(
                    block_entries(self.block_cache)[k],
                    self.blocks@[i],
                ) by {
                let i = choose|i: int|
                    0 <= i < ob.len() && oh[i]@ == k && same_block(block_entries(self.block_cache)[k], ob[i]);
                assert(self.hashes@[i] == oh[i] && self.blocks@[i] == ob[i]);
            }
        }
        self.cache_tip();
        Ok(())
    }

    pub fn get_block_by_height(&self, height: Height) -> (r: Option<&Block>)
        requires
            self.wf(),
        ensures
            r.is_some() <==> height < self.chain().len(),
            r.is_some() ==> *r.unwrap() == self.chain()[height as int],
    {
        if height < self.blocks.len() as u64 {
            Some(&self.blocks[height as usize])
        } else {
            None
        }
    }

    /// The hash of the block at `height`, from the cache where it holds it, else
    /// from the chain, which then fills the cache. What comes back depends on the
    /// chain alone, never on what the cache holds.
    pub fn get_block_hash_by_height(&mut self, height: Height) -> (r: Option<H256>)
        requires
            old(self).wf(),
        ensures
            final(self).height_cache_bound() == old(self).height_cache_bound(),
            final(self).block_cache_bound() == old(self).block_cache_bound(),
            final(self).wf(),
            final(self).chain() == old(self).chain(),
            final(self).chain_hashes() == old(self).chain_hashes(),
            final(self).validator_set() == old(self).validator_set(),
            r.is_some() <==> height < old(self).chain().len(),
            r.is_some() ==> r.unwrap()@ == header_hash(old(self).chain()[height as int].header),
    {
        let ghost before = height_entries(self.height_cache);
        match height_cache_get(&mut self.height_cache, height) {
            Some(h) => {
                assert(before.contains_key(height));
                return Some(h);
            },
            None => {},
        }
        if height >= self.hashes.len() as u64 {
            return None;
        }
        let h = self.hashes[height as usize].clone();
        assert(h@ =~= self.hashes@[height as int]@);
        let out = h.clone();
        assert(out@ =~= h@);
        height_cache_insert(&mut self.height_cache, height, h);
        Some(out)
    }

    /// A copy of the block whose hash is `hash`, from the cache where it holds it,
    /// else looked up in the chain from the lowest height, which then fills the
    /// cache. What comes back depends on the chain alone, never on what the cache
    /// holds.
    pub fn get_block(&mut self, hash: &H256) -> (r: Option<Block>)
        requires
            old(self).wf(),
        ensures
            final(self).height_cache_bound() == old(self).height_cache_bound(),
            final(self).block_cache_bound() == old(self).block_cache_bound(),
            final(self).wf(),
            final(self).chain() == old(self).chain(),
            final(self).chain_hashes() == old(self).chain_hashes(),
            final(self).validator_set() == old(self).validator_set(),
            r.is_some() <==> exists|i: int|
                0 <= i < old(self).chain().len() && header_hash(#[trigger] old(self).chain()[i].header) == hash@,
            r.is_some() ==> header_hash(r.unwrap().header) == hash@ && exists|i: int|
                0 <= i < old(self).chain().len() && same_block(r.unwrap(), old(self).chain()[i]),
    {
        let ghost before = block_entries(self.block_cache);
        match block_cache_get(&mut self.block_cache, hash) {
            Some(cached) => {
                let b = cached.copy();
                assert(before.contains_key(hash@));
                let ghost i = choose|i: int|
                    0 <= i < self.blocks@.len() && self.hashes@[i]@ == hash@ && same_block(before[hash@], self.blocks@[i]);
                assert(header_hash(self.blocks@[i].header) == hash@);
                assert(same_block(b, self.blocks@[i]));
                return Some(b);
            },
            None => {},
        }
        match self.find_block(hash) {
            Some(i) => {
                let b = self.blocks[i].copy();
                let cached = self.blocks[i].copy();
                let key = hash.clone();
                assert(key@ =~= hash@);
                let ghost old_entries = block_entries(self.block_cache);
                block_cache_insert(&mut self.block_cache, key, cached);
                assert forall|k: Seq<u8>| #[trigger] block_entries(self.block_cache).contains_key(k) implies exists|j: int|
                    0 <= j < self.blocks@.len() && self.hashes@[j]@ == k && same_block(
                        block_entries(self.block_cache)[k],
                        self.blocks@[j],
                    ) by {
                    if k == hash@ {
                        assert(self.hashes@[i as int]@ == k);
                    } else {
                        assert(old_entries.contains_key(k));
                    }
                }
                Some(b)
            },
            None => None,
        }
    }

    fn find_block(&self, hash: &H256) -> (r: Option<usize>)
        requires
            self.wf(),
        ensures
            r.is_some() <==> exists|i: int|
                0 <= i < self.chain().len() && header_hash(#[trigger] self.chain()[i].header) == hash@,
            r.is_some() ==> r.unwrap() < self.chain().len() && header_hash(self.chain()[r.unwrap() as int].header) == hash@
                && self.hashes@[r.unwrap() as int]@ == hash@,
    {
        let mut i: usize = 0;
        while i < self.hashes.len()
            invariant
                self.wf(),
                i <= self.hashes@.len(),
                forall|j: int| 0 <= j < i ==> header_hash(#[trigger] self.blocks@[j].header) != hash@,
            decreases self.hashes@.len() - i,
        {
            if same_bytes(self.hashes[i].as_slice(), hash.as_slice()) {
                return Some(i);
            }
            i = i + 1;
        }
        None
    }

    pub fn get_genesis_block(&self) -> (r: Option<&Block>)
        requires
            self.wf(),
        ensures
            r.is_some() <==> self.chain().len() > 0,
            r.is_some() ==> *r.unwrap() == self.chain()[0],
    {
        if self.blocks.len() > 0 {
            Some(&self.blocks[0])
        } else {
            None
        }
    }

    pub fn get_last_block(&self) -> (r: Option<&Block>)
        requires
            self.wf(),
        ensures
            r.is_some() <==> self.chain().len() > 0,
            r.is_some() ==> *r.unwrap() == self.chain().last(),
    {
        if self.blocks.len() > 0 {
            Some(&self.blocks[self.blocks.len() - 1])
        } else {
            None
        }
    }

    /// The height and hash of the tip.
    pub fn last_meta(&self) -> (r: Option<LastMeta>)
        requires
            self.wf(),
        ensures
            r.is_some() <==> self.chain().len() > 0,
            r.is_some() ==> r.unwrap().height == self.chain().len() - 1 && r.unwrap().hash@
                == self.chain_hashes().last()@ && r.unwrap().hash@ == header_hash(
                self.chain().last().header,
            ),
    {
        let n = self.hashes.len();
        if n == 0 {
            return None;
        }
        let hash = self.hashes[n - 1].clone();
        assert(hash@ =~= self.hashes@[n - 1]@);
        Some(LastMeta { height: (n - 1) as u64, hash })
    }
}

proof fn lemma_linked_push(blocks: Seq<Block>, hashes: Seq<H256>, b: Block, h: H256)
    requires
        linked(blocks, hashes),
        blocks.len() > 0,
        b.header.height == blocks.len(),
        b.header.parent_hash@ == hashes.last()@,
        h@ == header_hash(b.header),
    ensures
        linked(blocks.push(b), hashes.push(h)),
{
    let nb = blocks.push(b);
    let nh = hashes.push(h);
    assert forall|i: int| 0 <= i < nb.len() implies (#[trigger] nb[i]).header.height == i by {
        if i < blocks.len() {
            assert(nb[i] == blocks[i]);
        }
    }
    assert forall|i: int| 0 <= i < nb.len() implies (#[trigger] nh[i])@ == header_hash(
        nb[i].header,
    ) by {
        if i < blocks.len() {
            assert(nb[i] == blocks[i] && nh[i] == hashes[i]);
        }
    }
    assert forall|i: int| 1 <= i < nb.len() implies (#[trigger] nb[i]).header.parent_hash@
        == nh[i - 1]@ by {
        if i < blocks.len() {
            assert(nb[i] == blocks[i] && nh[i - 1] == hashes[i - 1]);
        }
    }
}

/// Every committed chain is gapless from genesis and linked by parent hash: the
/// block at height `i` carries height `i`, and from height one on its parent hash
/// is the hash of the block below it.
pub proof fn lemma_chain_linked(l: &Ledger, i: int)
    requires
        l.wf(),
        0 <= i < l.chain().len(),
    ensures
        l.chain()[i].header.height == i,
        l.chain_hashes()[i]@ == header_hash(l.chain()[i].header),
        i >= 1 ==> l.chain()[i].header.parent_hash@ == header_hash(l.chain()[i - 1].header),
{
    reveal(Ledger::wf);
    reveal(Ledger::chain);
    reveal(Ledger::chain_hashes);
    assert(l.chain()[i].header.height == i);
    if i >= 1 {
        assert(l.blocks@[i].header.parent_hash@ == l.hashes@[i - 1]@);
        assert(l.hashes@[i - 1]@ == header_hash(l.blocks@[i - 1].header));
    }
}

/// The highest height `k` such that heights `0..=k` open the list of heights
/// found in the store (read in ascending key order); `None` when height zero is
/// missing. Entries above a gap are orphans of an interrupted commit.
pub fn highest_contiguous(heights: &Vec<Height>) -> (r: Option<Height>)
    ensures
        r.is_none() <==> heights@.len() == 0 || heights@[0] != 0,
        r.is_some() ==> {
            let k = r.unwrap() as int;
            &&& k < heights@.len()
            &&& forall|i: int| 0 <= i <= k ==> heights@[i] == i
            &&& k + 1 == heights@.len() || heights@[k + 1] != k + 1
        },
{
    if heights.len() == 0 || heights[0] != 0 {
        return None;
    }
    let mut k: usize = 0;
    while k < heights.len() - 1 && heights[k + 1] == (k + 1) as u64
        invariant
            k < heights@.len(),
            forall|i: int| 0 <= i <= k ==> heights@[i] == i,
        decreases heights@.len() - k,
    {
        k = k + 1;
    }
    Some(k as u64)
}

/// The 32 zero bytes that stand for "no hash".
pub(crate) fn empty_hash_bytes() -> (r: H256)
    ensures
        r@ == empty_hash(),
{
    let mut v: Vec<u8> = Vec::new();
    while v.len() < HASH_LEN
        invariant
            v@.len() <= HASH_LEN,
            forall|j: int| 0 <= j < v@.len() ==> v@[j] == 0u8,
        decreases HASH_LEN - v@.len(),
    {
        v.push(0u8);
    }
    assert(v@ =~= empty_hash());
    v
}

/// The genesis block that `config` describes: empty hashes, height zero, a gas
/// limit ten above the gas used, the configured time, proposer and extra bytes.
pub open spec fn is_genesis_of(b: Block, config: GenesisConfig) -> bool {
    &&& b.header.parent_hash@ == empty_hash()
    &&& b.header.proposer@ == config.consensus.proposer@
    &&& b.header.state_root@ == empty_hash()
    &&& b.header.tx_root@ == empty_hash()
    &&& b.header.receipt_root@ == empty_hash()
    &&& b.header.height == 0
    &&& b.header.gas_limit == config.gas_used + 10
    &&& b.header.gas_used == config.gas_used
    &&& b.header.time == config.genesis_timestamp as u64
    &&& b.header.votes.is_none()
    &&& b.header.extra@ == config.extra@
    &&& b.transactions@.len() == 0
}

/// Makes sure the ledger starts from a genesis block: one already stored is kept
/// as it is; else the configured validators are installed and the genesis block
/// that `config` describes is stored.
pub fn store_genesis_block(config: &GenesisConfig, ledger: &mut Ledger) -> (r: Result<(), LedgerError>)
    requires
        old(ledger).wf(),
        old(ledger).chain().len() == 0 ==> config.gas_used <= u64::MAX - 10,
    ensures
        r.is_ok(),
        final(ledger).wf(),
        old(ledger).chain().len() > 0 ==> final(ledger).chain() == old(ledger).chain()
            && final(ledger).chain_hashes() == old(ledger).chain_hashes()
            && final(ledger).validator_set() == old(ledger).validator_set(),
        old(ledger).chain().len() == 0 ==> final(ledger).chain().len() == 1 && is_genesis_of(
            final(ledger).chain()[0],
            *config,
        ) && final(ledger).validator_set() == config.consensus.validators.deep_view(),
{
    if ledger.len() > 0 {
        return Ok(());
    }
    let validators = config.consensus.validators.clone();
    ledger.add_validators(validators);
    let proposer = config.consensus.proposer.clone();
    let extra = config.extra.clone();
    assert(proposer@ =~= config.consensus.proposer@);
    assert(extra@ =~= config.extra@);
    let header = Header::new(
        empty_hash_bytes(),
        proposer,
        empty_hash_bytes(),
        empty_hash_bytes(),
        empty_hash_bytes(),
        0,
        config.gas_used + 10,
        config.gas_used,
        #[verifier::truncate] (config.genesis_timestamp as u64),
        None,
        extra,
    );
    let block = Block::new(header, Vec::new());
    ledger.add_genesis_block(block)
}

} // verus!

//! What the store keeps of the chain: the canonical form of its tip, and the
//! ledger rebuilt from the blocks read back.

use vstd::prelude::*;

use crate::block::HASH_LEN;
use crate::codec::{be_bytes, be_value, lemma_be_bytes_of_value, push_u64, read_u64, CodecError};
use crate::block::Block;
use crate::ledger::{LastMeta, Ledger, CACHE_CAPACITY};
use crate::validators::Address;

verus! {

/// The canonical bytes of a tip: its height in eight big-endian bytes, then its hash.
pub open spec fn meta_bytes(m: LastMeta) -> Seq<u8> {
    be_bytes(m.height) + m.hash@
}

impl LastMeta {
    pub fn encode(&self) -> (r: Vec<u8>)
        ensures
            r@ == meta_bytes(*self),
    {
        let mut out: Vec<u8> = Vec::new();
        push_u64(&mut out, self.height);
        let mut i: usize = 0;
        let ghost start = out@;
        while i < self.hash.len()
            invariant
                start == be_bytes(self.height),
                i <= self.hash@.len(),
                out@ == start + self.hash@.subrange(0, i as int),
            decreases self.hash@.len() - i,
        {
            out.push(self.hash[i]);
            assert(self.hash@.subrange(0, i + 1) =~= self.hash@.subrange(0, i as int).push(self.hash@[i as int]));
            i = i + 1;
        }
        assert(self.hash@.subrange(0, i as int) =~= self.hash@);
        assert(out@ =~= meta_bytes(*self));
        out
    }

    /// Reads a tip from its forty canonical bytes.
    pub fn decode(bytes: &[u8]) -> (r: Result<LastMeta, CodecError>)
        ensures
            r.is_ok() <==> bytes@.len() == 8 + HASH_LEN,
            r.is_ok() ==> meta_bytes(r.unwrap()) == bytes@ && r.unwrap().height == be_value(bytes@, 0),
    {
        if bytes.len() != 8 + HASH_LEN {
            return Err(CodecError::CorruptedBytes);
        }
        let height = read_u64(bytes, 0).unwrap();
        let mut hash: Vec<u8> = Vec::new();
        let mut i: usize = 8;
        while i < bytes.len()
            invariant
                bytes@.len() == 8 + HASH_LEN,
                8 <= i <= bytes@.len(),
                hash@ == bytes@.subrange(8, i as int),
            decreases bytes@.len() - i,
        {
            hash.push(bytes[i]);
            assert(bytes@.subrange(8, i + 1) =~= bytes@.subrange(8, i as int).push(bytes@[i as int]));
            i = i + 1;
        }
        proof {
            lemma_be_bytes_of_value(bytes@, 0);
            assert(bytes@ =~= bytes@.subrange(0, 8) + bytes@.subrange(8, bytes@.len() as int));
        }
        Ok(LastMeta { height, hash })
    }
}

impl Ledger {
    /// The ledger that blocks read back from the store, in height order, make:
    /// they are taken from the first on while each extends the chain (the first
    /// at height zero), so a half-written tail is left out.
    pub fn restore(validators: Vec<Address>, stored: Vec<Block>) -> (r: Ledger)
        ensures
            r.wf(),
            r.validator_set() == validators.deep_view(),
            r.height_cache_bound() == CACHE_CAPACITY,
            r.block_cache_bound() == CACHE_CAPACITY,
            r.chain().len() <= stored@.len(),
            r.chain() == stored@.subrange(0, r.chain().len() as int),
            r.chain().len() < stored@.len() && r.chain().len() == 0 ==> stored@[0].header.height != 0,
            r.chain().len() < stored@.len() && r.chain().len() > 0 ==> {
                let k = r.chain().len() as int;
                stored@[k].header.height != k || stored@[k].header.parent_hash@ != r.chain_hashes().last()@
            },
    {
        let mut l = Ledger::new(validators);
        let ghost all = stored@;
        let mut rest = stored;
        loop
            invariant_except_break
                rest@ == all.skip(l.chain().len() as int),
            invariant
                l.wf(),
                l.validator_set() == validators.deep_view(),
                l.height_cache_bound() == CACHE_CAPACITY,
                l.block_cache_bound() == CACHE_CAPACITY,
                l.chain().len() <= all.len(),
                l.chain() == all.subrange(0, l.chain().len() as int),
            ensures
                l.wf(),
                l.validator_set() == validators.deep_view(),
                l.height_cache_bound() == CACHE_CAPACITY,
                l.block_cache_bound() == CACHE_CAPACITY,
                l.chain().len() <= all.len(),
                l.chain() == all.subrange(0, l.chain().len() as int),
                l.chain().len() < all.len() && l.chain().len() == 0 ==> all[0].header.height != 0,
                l.chain().len() < all.len() && l.chain().len() > 0 ==> {
                    let k = l.chain().len() as int;
                    all[k].header.height != k || all[k].header.parent_hash@ != l.chain_hashes().last()@
                },
            decreases rest@.len(),
        {
            if rest.len() == 0 {
                assert(l.chain().len() == all.len());
                break;
            }
            let b = rest.remove(0);
            let ghost k = l.chain().len() as int;
            assert(b == all[k]);
            let ghost before = l.chain();
            if l.len() == 0 {
                match l.add_genesis_block(b) {
                    Ok(()) => {},
                    Err(_) => {
                        break;
                    },
                }
            } else {
                match l.add_block(b) {
                    Ok(()) => {},
                    Err(_) => {
                        break;
                    },
                }
            }
            proof {
                assert(l.chain() == before.push(all[k]));
                assert(l.chain() =~= all.subrange(0, k + 1));
                assert(rest@ =~= all.skip(k + 1));
            }
        }
        l
    }

}

} // verus!

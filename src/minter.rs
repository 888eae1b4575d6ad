//! Block assembly for the proposer of a view: the drained transactions on top of
//! the chain's tip.

use vstd::prelude::*;
use vstd::view::View as _;

use crate::block::{Block, Header};
use crate::ledger::{empty_hash, empty_hash_bytes, LastMeta};
use crate::txpool::{gas_of, PoolEntry};
use crate::validators::Address;

verus! {

/// The payloads of pooled transactions, in order.
pub open spec fn payloads(txs: Seq<PoolEntry>) -> Seq<Seq<u8>> {
    txs.map_values(|e: PoolEntry| e.tx.payload@)
}

/// The block that `proposer` puts forward above `last`: its transactions are the
/// payloads of `txs` in order, its gas used their total; `None` where that total
/// exceeds `gas_limit`. No state is modelled, so the roots are empty hashes.
pub fn build_proposal(last: &LastMeta, proposer: &Address, txs: &Vec<PoolEntry>, gas_limit: u64, time: u64) -> (r: Option<Block>)
    requires
        last.height < u64::MAX,
    ensures
        r.is_some() <==> gas_of(txs@) <= gas_limit,
        r matches Some(b) ==> {
            &&& b.header.height == last.height + 1
            &&& b.header.parent_hash@ == last.hash@
            &&& b.header.proposer@ == proposer@
            &&& b.header.gas_limit == gas_limit
            &&& b.header.gas_used == gas_of(txs@)
            &&& b.header.time == time
            &&& b.header.votes.is_none()
            &&& b.header.extra@.len() == 0
            &&& b.header.state_root@ == empty_hash() && b.header.tx_root@ == empty_hash()
                && b.header.receipt_root@ == empty_hash()
            &&& b.transactions.deep_view() == payloads(txs@)
        },
{
    let mut used: u64 = 0;
    let mut body: Vec<Vec<u8>> = Vec::new();
    let mut i: usize = 0;
    while i < txs.len()
        invariant
            i <= txs@.len(),
            used as nat == gas_of(txs@.subrange(0, i as int)),
            used <= gas_limit,
            body.deep_view() == payloads(txs@.subrange(0, i as int)),
        decreases txs@.len() - i,
    {
        proof {
            assert(txs@.subrange(0, i + 1).drop_last() =~= txs@.subrange(0, i as int));
        }
        let g = txs[i].tx.gas;
        if g > gas_limit - used {
            proof {
                lemma_gas_prefix(txs@, i + 1);
            }
            return None;
        }
        used = used + g;
        let p = txs[i].tx.payload.clone();
        let ghost before = body.deep_view();
        proof {
            assert(p.deep_view() =~= txs@[i as int].tx.payload@);
        }
        body.push(p);
        proof {
            assert(body.deep_view() =~= before.push(txs@[i as int].tx.payload@));
            assert(payloads(txs@.subrange(0, i + 1)) =~= payloads(txs@.subrange(0, i as int)).push(txs@[i as int].tx.payload@));
        }
        i = i + 1;
    }
    assert(txs@.subrange(0, i as int) =~= txs@);
    let parent = last.hash.clone();
    assert(parent@ =~= last.hash@);
    let who = proposer.clone();
    assert(who@ =~= proposer@);
    let header = Header::new(
        parent,
        who,
        empty_hash_bytes(),
        empty_hash_bytes(),
        empty_hash_bytes(),
        last.height + 1,
        gas_limit,
        used,
        time,
        None,
        Vec::new(),
    );
    Some(Block::new(header, body))
}

/// A prefix's gas never exceeds the whole list's.
proof fn lemma_gas_prefix(txs: Seq<PoolEntry>, k: int)
    requires
        0 <= k <= txs.len(),
    ensures
        gas_of(txs.subrange(0, k)) <= gas_of(txs),
    decreases txs.len() - k,
{
    if k < txs.len() {
        lemma_gas_prefix(txs, k + 1);
        assert(txs.subrange(0, k + 1).drop_last() =~= txs.subrange(0, k));
    } else {
        assert(txs.subrange(0, k) =~= txs);
    }
}

} // verus!

//! The pool of pending transactions: admission without duplicates up to a
//! capacity, and a drain in priority order (fee descending, then nonce
//! ascending, then arrival ascending) within a count and a gas budget.

use priority_queue::PriorityQueue;
use vstd::prelude::*;
use vstd::view::View as _;

use crate::block::{keccak256, keccak_of, Signature, Transaction, H256};
use crate::signer::{signer_address, signer_of};
use crate::validators::{same_bytes, Address};

verus! {

#[verifier::external_type_specification]
#[verifier::external_body]
#[verifier::reject_recursive_types(I)]
#[verifier::reject_recursive_types(P)]
#[verifier::reject_recursive_types(H)]
pub struct ExPriorityQueue<I, P, H>(PriorityQueue<I, P, H>);

/// Rank of a pooled transaction: the greatest is drained first.
pub type TxPriority = (u64, u64, u64);

/// Pooled transaction ids with their ranks.
pub type TxQueue = PriorityQueue<u64, TxPriority>;

/// What the queue holds: each id with its rank.
pub uninterp spec fn queue_entries(q: TxQueue) -> Map<u64, TxPriority>;

/// `a` ranks at most as high as `b`, in the order of integer triples.
pub open spec fn rank_le(a: TxPriority, b: TxPriority) -> bool {
    a.0 < b.0 || (a.0 == b.0 && (a.1 < b.1 || (a.1 == b.1 && a.2 <= b.2)))
}

/// Relies on PriorityQueue::new: an empty queue.
#[verifier::external_body]
fn new_queue() -> (r: TxQueue)
    ensures
        forall|k: u64| !(#[trigger] queue_entries(r).contains_key(k)),
{
    PriorityQueue::new()
}

/// Relies on PriorityQueue::push: an id not yet queued is added with its rank.
#[verifier::external_body]
fn queue_push(q: &mut TxQueue, id: u64, rank: TxPriority)
    requires
        !queue_entries(*old(q)).contains_key(id),
    ensures
        queue_entries(*final(q)) == queue_entries(*old(q)).insert(id, rank),
{
    let _ = q.push(id, rank);
}

/// Relies on PriorityQueue::peek: an entry of greatest rank, `None` when empty.
#[verifier::external_body]
fn queue_peek(q: &TxQueue) -> (r: Option<(u64, TxPriority)>)
    ensures
        r.is_none() ==> forall|k: u64| !(#[trigger] queue_entries(*q).contains_key(k)),
        r.is_some() ==> queue_entries(*q).contains_key(r.unwrap().0) && queue_entries(*q)[r.unwrap().0]
            == r.unwrap().1,
        r.is_some() ==> forall|k: u64|
            #[trigger] queue_entries(*q).contains_key(k) ==> rank_le(queue_entries(*q)[k], r.unwrap().1),
{
    q.peek().map(|(i, p)| (*i, *p))
}

/// Relies on PriorityQueue::remove: takes out the entry of `id`, if queued.
#[verifier::external_body]
fn queue_remove(q: &mut TxQueue, id: u64) -> (r: Option<(u64, TxPriority)>)
    ensures
        r.is_some() <==> queue_entries(*old(q)).contains_key(id),
        queue_entries(*final(q)) == queue_entries(*old(q)).remove(id),
{
    q.remove(&id)
}

/// A transaction waiting for a block, signed by its sender over the hash of its payload.
pub struct PendingTx {
    pub sender: Address,
    pub nonce: u64,
    pub fee: u64,
    pub gas: u64,
    pub payload: Transaction,
    pub signature: Signature,
}

/// The transaction's signature over the hash of its payload recovers to its sender.
pub open spec fn tx_signed(tx: PendingTx) -> bool {
    signer_of(tx.signature@, keccak_of(tx.payload@)) == Some(tx.sender@)
}

/// A transaction with the same payload hash as `tx` is pooled.
pub open spec fn is_pooled(entries: Seq<PoolEntry>, tx: PendingTx) -> bool {
    exists|i: int| 0 <= i < entries.len() && (#[trigger] entries[i]).hash@ == keccak_of(tx.payload@)
}

/// A pooled transaction: its arrival number and the hash of its payload.
pub struct PoolEntry {
    pub id: u64,
    pub hash: H256,
    pub tx: PendingTx,
}

/// The rank of a pooled transaction: higher fee first, then lower nonce, then
/// earlier arrival.
pub open spec fn rank_of(e: PoolEntry) -> TxPriority {
    (e.tx.fee, (u64::MAX - e.tx.nonce) as u64, (u64::MAX - e.id) as u64)
}

/// Total gas of a list of pooled transactions.
pub open spec fn gas_of(txs: Seq<PoolEntry>) -> nat
    decreases txs.len(),
{
    if txs.len() == 0 {
        0
    } else {
        gas_of(txs.drop_last()) + txs.last().tx.gas as nat
    }
}

/// `e` is one of `entries`.
pub open spec fn among(entries: Seq<PoolEntry>, e: PoolEntry) -> bool {
    exists|i: int| 0 <= i < entries.len() && entries[i] == e
}

/// `h` is one of the hashes `hs`.
pub open spec fn listed(hs: Seq<H256>, h: Seq<u8>) -> bool {
    exists|k: int| 0 <= k < hs.len() && (#[trigger] hs[k])@ == h
}

/// `e` ranks highest among `entries`.
pub open spec fn ranks_first(entries: Seq<PoolEntry>, e: PoolEntry) -> bool {
    forall|j: int| 0 <= j < entries.len() ==> rank_le(rank_of(#[trigger] entries[j]), rank_of(e))
}

/// `id` is the arrival number of one of `entries`.
pub open spec fn holds_id(entries: Seq<PoolEntry>, id: u64) -> bool {
    exists|i: int| 0 <= i < entries.len() && (#[trigger] entries[i]).id == id
}

/// Why a transaction was not admitted.
#[derive(Debug, Clone, Copy, PartialEq, Eq, Structural)]
pub enum PoolError {
    /// The signature does not recover to the sender.
    InvalidTx,
    /// A transaction with the same payload hash is pooled already.
    DuplicateTx,
    /// The pool holds as many transactions as it may.
    PoolFull,
}

pub struct TxPool {
    queue: TxQueue,
    entries: Vec<PoolEntry>,
    next_id: u64,
    capacity: usize,
}

impl TxPool {
    /// The pooled transactions, in arrival order.
    pub closed spec fn pooled(&self) -> Seq<PoolEntry> {
        self.entries@
    }

    pub closed spec fn max_len(&self) -> nat {
        self.capacity as nat
    }

    /// The arrival number the next admitted transaction gets.
    pub closed spec fn next_arrival(&self) -> u64 {
        self.next_id
    }

    pub closed spec fn wf(&self) -> bool {
        &&& self.entries@.len() <= self.capacity
        &&& forall|i: int, j: int|
            0 <= i < j < self.entries@.len() ==> (#[trigger] self.entries@[i]).id < (#[trigger] self.entries@[j]).id
        &&& forall|i: int| 0 <= i < self.entries@.len() ==> (#[trigger] self.entries@[i]).id < self.next_id
        &&& forall|i: int|
            0 <= i < self.entries@.len() ==> (#[trigger] self.entries@[i]).hash@ == keccak_of(
                self.entries@[i].tx.payload@,
            )
        &&& forall|k: u64| #[trigger] queue_entries(self.queue).contains_key(k) <==> holds_id(self.entries@, k)
        &&& forall|i: int|
            0 <= i < self.entries@.len() ==> queue_entries(self.queue)[(#[trigger] self.entries@[i]).id]
                == rank_of(self.entries@[i])
    }

    pub fn new(capacity: usize) -> (r: TxPool)
        ensures
            r.wf(),
            r.pooled().len() == 0,
            r.max_len() == capacity,
            r.next_arrival() == 0,
    {
        let queue = new_queue();
        let r = TxPool { queue, entries: Vec::new(), next_id: 0, capacity };
        assert forall|k: u64| #[trigger] queue_entries(r.queue).contains_key(k) <==> holds_id(r.entries@, k) by {}
        r
    }

    pub fn len(&self) -> (r: usize)
        ensures
            r == self.pooled().len(),
    {
        self.entries.len()
    }

    fn find_hash(&self, hash: &H256) -> (r: Option<usize>)
        ensures
            r.is_some() ==> r.unwrap() < self.entries@.len() && self.entries@[r.unwrap() as int].hash@ == hash@,
            r.is_none() ==> forall|i: int| 0 <= i < self.entries@.len() ==> (#[trigger] self.entries@[i]).hash@ != hash@,
    {
        let mut i: usize = 0;
        while i < self.entries.len()
            invariant
                i <= self.entries@.len(),
                forall|j: int| 0 <= j < i ==> (#[trigger] self.entries@[j]).hash@ != hash@,
            decreases self.entries@.len() - i,
        {
            if same_bytes(self.entries[i].hash.as_slice(), hash.as_slice()) {
                return Some(i);
            }
            i = i + 1;
        }
        None
    }

    /// Adds `tx` to the pool unless its signature does not recover to its
    /// sender, one with the same payload is pooled, or the pool is full (or has
    /// handed out every arrival number).
    pub fn add_tx(&mut self, tx: PendingTx) -> (r: Result<(), PoolError>)
        requires
            old(self).wf(),
        ensures
            final(self).wf(),
            final(self).max_len() == old(self).max_len(),
            !tx_signed(tx) ==> r == Err::<(), PoolError>(PoolError::InvalidTx),
            tx_signed(tx) && is_pooled(old(self).pooled(), tx) ==> r == Err::<(), PoolError>(PoolError::DuplicateTx),
            tx_signed(tx) && !is_pooled(old(self).pooled(), tx)
                && (old(self).pooled().len() >= old(self).max_len() || old(self).next_arrival() == u64::MAX)
                ==> r == Err::<(), PoolError>(PoolError::PoolFull),
            tx_signed(tx) && !is_pooled(old(self).pooled(), tx) && old(self).pooled().len() < old(self).max_len()
                && old(self).next_arrival() < u64::MAX ==> r.is_ok(),
            r.is_ok() ==> final(self).next_arrival() == old(self).next_arrival() + 1
                && final(self).pooled().last().id == old(self).next_arrival(),
            r.is_err() ==> final(self).next_arrival() == old(self).next_arrival(),
            r.is_ok() ==> final(self).pooled().len() == old(self).pooled().len() + 1
                && final(self).pooled().drop_last() == old(self).pooled()
                && final(self).pooled().last().tx == tx
                && final(self).pooled().last().hash@ == keccak_of(tx.payload@),
            r.is_err() ==> final(self).pooled() == old(self).pooled(),
    {
        let hash = keccak256(tx.payload.as_slice());
        match signer_address(tx.signature.as_slice(), hash.as_slice()) {
            Some(a) => {
                if !same_bytes(a.as_slice(), tx.sender.as_slice()) {
                    return Err(PoolError::InvalidTx);
                }
            },
            None => return Err(PoolError::InvalidTx),
        }
        if self.find_hash(&hash).is_some() {
            return Err(PoolError::DuplicateTx);
        }
        if self.entries.len() >= self.capacity || self.next_id == u64::MAX {
            return Err(PoolError::PoolFull);
        }
        let id = self.next_id;
        let e = PoolEntry { id, hash, tx };
        let rank: TxPriority = (e.tx.fee, u64::MAX - e.tx.nonce, u64::MAX - id);
        assert(!queue_entries(self.queue).contains_key(id));
        let ghost old_entries = self.entries@;
        queue_push(&mut self.queue, id, rank);
        self.entries.push(e);
        self.next_id = id + 1;
        proof {
            assert(self.entries@.drop_last() =~= old_entries);
            assert forall|k: u64| #[trigger] queue_entries(self.queue).contains_key(k) <==> holds_id(self.entries@, k) by {
                if holds_id(old_entries, k) {
                    let i = choose|i: int| 0 <= i < old_entries.len() && (#[trigger] old_entries[i]).id == k;
                    assert(self.entries@[i] == old_entries[i]);
                }
                if k == id {
                    assert(self.entries@[old_entries.len() as int].id == k);
                }
                if holds_id(self.entries@, k) && k != id {
                    let i = choose|i: int| 0 <= i < self.entries@.len() && (#[trigger] self.entries@[i]).id == k;
                    assert(i < old_entries.len());
                    assert(old_entries[i].id == k);
                }
            }
            assert forall|i: int| 0 <= i < self.entries@.len() implies queue_entries(self.queue)[(#[trigger] self.entries@[i]).id]
                == rank_of(self.entries@[i]) by {
                if i < old_entries.len() {
                    assert(self.entries@[i] == old_entries[i]);
                }
            }
        }
        Ok(())
    }

    fn find_id(&self, id: u64) -> (r: usize)
        requires
            holds_id(self.entries@, id),
        ensures
            r < self.entries@.len(),
            self.entries@[r as int].id == id,
    {
        let mut i: usize = 0;
        while i < self.entries.len()
            invariant
                i <= self.entries@.len(),
                holds_id(self.entries@, id),
                forall|j: int| 0 <= j < i ==> (#[trigger] self.entries@[j]).id != id,
            decreases self.entries@.len() - i,
        {
            if self.entries[i].id == id {
                return i;
            }
            i = i + 1;
        }
        proof {
            let j = choose|j: int| 0 <= j < self.entries@.len() && (#[trigger] self.entries@[j]).id == id;
            assert(self.entries@[j].id != id);
        }
        0
    }

    /// Takes the entry at `idx` out of the pool and the queue.
    fn take_at(&mut self, idx: usize) -> (r: PoolEntry)
        requires
            old(self).wf(),
            idx < old(self).entries@.len(),
        ensures
            final(self).wf(),
            final(self).capacity == old(self).capacity,
            final(self).entries@ == old(self).entries@.remove(idx as int),
            r == old(self).entries@[idx as int],
            forall|j: int| 0 <= j < final(self).entries@.len() ==> (#[trigger] final(self).entries@[j]).id != r.id,
    {
        let id = self.entries[idx].id;
        let ghost before = self.entries@;
        let _ = queue_remove(&mut self.queue, id);
        let e = self.entries.remove(idx);
        proof {
            assert(e == before[idx as int]);
            assert forall|j: int| 0 <= j < self.entries@.len() implies (#[trigger] self.entries@[j]) == if j < idx {
                before[j]
            } else {
                before[j + 1]
            } by {}
            assert forall|j: int| 0 <= j < self.entries@.len() implies (#[trigger] self.entries@[j]).id != id by {
                if j < idx {
                    assert(before[j].id < before[idx as int].id);
                } else {
                    assert(before[idx as int].id < before[j + 1].id);
                }
            }
            assert forall|i: int, j: int| 0 <= i < j < self.entries@.len() implies (#[trigger] self.entries@[i]).id
                < (#[trigger] self.entries@[j]).id by {
                let bi = if i < idx { i } else { i + 1 };
                let bj = if j < idx { j } else { j + 1 };
                assert(self.entries@[i] == before[bi] && self.entries@[j] == before[bj]);
            }
            assert forall|k: u64| #[trigger] queue_entries(self.queue).contains_key(k) <==> holds_id(self.entries@, k) by {
                if holds_id(self.entries@, k) {
                    let j = choose|j: int| 0 <= j < self.entries@.len() && (#[trigger] self.entries@[j]).id == k;
                    let bj = if j < idx { j } else { j + 1 };
                    assert(before[bj].id == k);
                    assert(holds_id(before, k));
                }
                if queue_entries(self.queue).contains_key(k) {
                    assert(k != id);
                    assert(holds_id(before, k));
                    let j = choose|j: int| 0 <= j < before.len() && (#[trigger] before[j]).id == k;
                    assert(j != idx);
                    let nj = if j < idx { j } else { j - 1 };
                    assert(self.entries@[nj].id == k);
                }
            }
            assert forall|i: int| 0 <= i < self.entries@.len() implies queue_entries(self.queue)[(#[trigger] self.entries@[i]).id]
                == rank_of(self.entries@[i]) by {
                let bi = if i < idx { i } else { i + 1 };
                assert(self.entries@[i] == before[bi]);
            }
            assert forall|i: int| 0 <= i < self.entries@.len() implies (#[trigger] self.entries@[i]).hash@ == keccak_of(
                self.entries@[i].tx.payload@) by {
                let bi = if i < idx { i } else { i + 1 };
                assert(self.entries@[i] == before[bi]);
            }
            assert forall|i: int| 0 <= i < self.entries@.len() implies (#[trigger] self.entries@[i]).id < self.next_id by {
                let bi = if i < idx { i } else { i + 1 };
                assert(self.entries@[i] == before[bi]);
            }
        }
        e
    }

    /// Purges the transactions whose payload hash is among `hashes`, once a block
    /// holding them is committed; the others stay, in arrival order.
    pub fn remove_committed(&mut self, hashes: &Vec<H256>)
        requires
            old(self).wf(),
        ensures
            final(self).wf(),
            final(self).max_len() == old(self).max_len(),
            forall|j: int| 0 <= j < final(self).pooled().len() ==> among(old(self).pooled(), #[trigger] final(self).pooled()[j])
                && !listed(hashes@, final(self).pooled()[j].hash@),
            forall|i: int| 0 <= i < old(self).pooled().len() && !listed(hashes@, (#[trigger] old(self).pooled()[i]).hash@)
                ==> among(final(self).pooled(), old(self).pooled()[i]),
    {
        let ghost start = self.entries@;
        let ghost mut done: int = 0;
        let mut i: usize = 0;
        while i < self.entries.len()
            invariant
                self.wf(),
                self.capacity == old(self).capacity,
                start == old(self).entries@,
                0 <= done <= start.len(),
                i <= self.entries@.len(),
                self.entries@.len() - i == start.len() - done,
                forall|k: int| 0 <= k < self.entries@.len() - i ==> #[trigger] self.entries@[i + k] == start[done + k],
                forall|j: int| 0 <= j < i ==> among(start, #[trigger] self.entries@[j]) && !listed(hashes@, self.entries@[j].hash@),
                forall|j: int| 0 <= j < done && !listed(hashes@, (#[trigger] start[j]).hash@) ==> among(self.entries@, start[j]),
            decreases self.entries@.len() - i,
        {
            let ghost before = self.entries@;
            assert(before[i + 0] == start[done + 0]);
            let mut hit = false;
            let mut k: usize = 0;
            while k < hashes.len()
                invariant
                    k <= hashes@.len(),
                    i < self.entries@.len(),
                    hit == exists|m: int| 0 <= m < k && (#[trigger] hashes@[m])@ == self.entries@[i as int].hash@,
                decreases hashes@.len() - k,
            {
                if same_bytes(hashes[k].as_slice(), self.entries[i].hash.as_slice()) {
                    hit = true;
                }
                k = k + 1;
            }
            if hit {
                let _ = self.take_at(i);
                proof {
                    assert forall|k2: int| 0 <= k2 < self.entries@.len() - i implies #[trigger] self.entries@[i + k2] == start[done + 1 + k2] by {
                        assert(self.entries@[i + k2] == before[i + k2 + 1]);
                        assert(before[i + (k2 + 1)] == start[done + (k2 + 1)]);
                    }
                    assert forall|j: int| 0 <= j < i implies among(start, #[trigger] self.entries@[j]) && !listed(hashes@, self.entries@[j].hash@) by {
                        assert(self.entries@[j] == before[j]);
                    }
                    assert forall|j: int| 0 <= j < done + 1 && !listed(hashes@, (#[trigger] start[j]).hash@) implies among(self.entries@, start[j]) by {
                        if j < done {
                            let w = choose|w: int| 0 <= w < before.len() && before[w] == start[j];
                            if w < i {
                                assert(self.entries@[w] == before[w]);
                            } else if w == i {
                                assert(start[done + 0] == start[j]);
                                assert(false);
                            } else {
                                assert(self.entries@[w - 1] == before[w]);
                            }
                        } else {
                            assert(start[j] == before[i as int]);
                        }
                    }
                    done = done + 1;
                }
            } else {
                proof {
                    assert(among(start, start[done]));
                    assert forall|k2: int| 0 <= k2 < self.entries@.len() - (i + 1) implies #[trigger] self.entries@[(i + 1) + k2] == start[(done + 1) + k2] by {
                        assert(self.entries@[i + (k2 + 1)] == start[done + (k2 + 1)]);
                    }
                    assert forall|j: int| 0 <= j < done + 1 && !listed(hashes@, (#[trigger] start[j]).hash@) implies among(self.entries@, start[j]) by {
                        if j == done {
                            assert(self.entries@[i as int] == start[j]);
                        }
                    }
                    done = done + 1;
                }
                i = i + 1;
            }
        }
    }

    /// Takes out transactions from the highest rank down, while fewer than
    /// `max_count` are taken and the next one fits in what is left of `max_gas`;
    /// the rest stays pooled.
    pub fn drain(&mut self, max_count: usize, max_gas: u64) -> (r: Vec<PoolEntry>)
        requires
            old(self).wf(),
        ensures
            final(self).wf(),
            final(self).max_len() == old(self).max_len(),
            r@.len() <= max_count,
            gas_of(r@) <= max_gas,
            r@.len() + final(self).pooled().len() == old(self).pooled().len(),
            forall|k: int| 0 <= k < r@.len() ==> among(old(self).pooled(), #[trigger] r@[k])
                && !holds_id(final(self).pooled(), r@[k].id),
            forall|j: int| 0 <= j < final(self).pooled().len() ==> among(old(self).pooled(), #[trigger] final(self).pooled()[j]),
            forall|a: int, b: int| 0 <= a < b < r@.len() ==> rank_le(rank_of(#[trigger] r@[b]), rank_of(#[trigger] r@[a])),
            forall|k: int| 0 <= k < r@.len() ==> ranks_first(final(self).pooled(), #[trigger] r@[k]),
            r@.len() == max_count || final(self).pooled().len() == 0 || exists|j: int|
                0 <= j < final(self).pooled().len() && ranks_first(final(self).pooled(), #[trigger] final(self).pooled()[j])
                    && gas_of(r@) + final(self).pooled()[j].tx.gas > max_gas,
    {
        let ghost start = self.entries@;
        let mut out: Vec<PoolEntry> = Vec::new();
        let mut used: u64 = 0;
        while out.len() < max_count
            invariant
                self.wf(),
                self.capacity == old(self).capacity,
                start == old(self).entries@,
                used as nat == gas_of(out@),
                used <= max_gas,
                out@.len() <= max_count,
                out@.len() + self.entries@.len() == start.len(),
                forall|k: int| 0 <= k < out@.len() ==> among(start, #[trigger] out@[k])
                    && !holds_id(self.entries@, out@[k].id),
                forall|j: int| 0 <= j < self.entries@.len() ==> among(start, #[trigger] self.entries@[j]),
                forall|a: int, b: int| 0 <= a < b < out@.len() ==> rank_le(rank_of(#[trigger] out@[b]), rank_of(#[trigger] out@[a])),
                forall|k: int| 0 <= k < out@.len() ==> ranks_first(self.entries@, #[trigger] out@[k]),
            ensures
                out@.len() == max_count || self.entries@.len() == 0 || exists|j: int|
                    0 <= j < self.entries@.len() && ranks_first(self.entries@, #[trigger] self.entries@[j])
                        && gas_of(out@) + self.entries@[j].tx.gas > max_gas,
            decreases max_count - out@.len(),
        {
            let top = queue_peek(&self.queue);
            let (id, rank) = match top {
                None => {
                    proof {
                        if self.entries@.len() > 0 {
                            assert(holds_id(self.entries@, self.entries@[0].id));
                            assert(queue_entries(self.queue).contains_key(self.entries@[0].id));
                        }
                    }
                    break;
                },
                Some(t) => t,
            };
            let idx = self.find_id(id);
            proof {
                assert forall|j: int| 0 <= j < self.entries@.len() implies rank_le(rank_of(#[trigger] self.entries@[j]), rank_of(self.entries@[idx as int])) by {
                    assert(holds_id(self.entries@, self.entries@[j].id));
                    assert(queue_entries(self.queue).contains_key(self.entries@[j].id));
                }
            }
            let g = self.entries[idx].tx.gas;
            if g > max_gas - used {
                assert(ranks_first(self.entries@, self.entries@[idx as int]));
                assert(gas_of(out@) + self.entries@[idx as int].tx.gas > max_gas);
                break;
            }
            let ghost before = self.entries@;
            let ghost before_out = out@;
            let e = self.take_at(idx);
            used = used + g;
            out.push(e);
            proof {
                assert(out@.drop_last() =~= before_out);
                assert forall|j: int| 0 <= j < self.entries@.len() implies (#[trigger] self.entries@[j]) == if j < idx {
                    before[j]
                } else {
                    before[j + 1]
                } by {}
                assert forall|j: int| 0 <= j < self.entries@.len() implies among(start, #[trigger] self.entries@[j]) by {
                    let bj = if j < idx { j } else { j + 1 };
                    assert(self.entries@[j] == before[bj]);
                    assert(among(start, before[bj]));
                }
                assert forall|k: int| 0 <= k < out@.len() implies among(start, #[trigger] out@[k])
                    && !holds_id(self.entries@, out@[k].id) by {
                    if k < before_out.len() {
                        assert(out@[k] == before_out[k]);
                        if holds_id(self.entries@, out@[k].id) {
                            let j = choose|j: int| 0 <= j < self.entries@.len() && (#[trigger] self.entries@[j]).id == out@[k].id;
                            let bj = if j < idx { j } else { j + 1 };
                            assert(before[bj].id == out@[k].id);
                        }
                    } else {
                        assert(out@[k] == e);
                        assert(among(start, before[idx as int]));
                    }
                }
                assert forall|k: int| 0 <= k < out@.len() implies ranks_first(self.entries@, #[trigger] out@[k]) by {
                    assert forall|j: int| 0 <= j < self.entries@.len() implies rank_le(rank_of(#[trigger] self.entries@[j]), rank_of(out@[k])) by {
                        let bj = if j < idx { j } else { j + 1 };
                        assert(self.entries@[j] == before[bj]);
                        if k < before_out.len() {
                            assert(out@[k] == before_out[k]);
                            assert(ranks_first(before, before_out[k]));
                        } else {
                            assert(out@[k] == before[idx as int]);
                        }
                    }
                }
                assert forall|a: int, b: int| 0 <= a < b < out@.len() implies rank_le(rank_of(#[trigger] out@[b]), rank_of(#[trigger] out@[a])) by {
                    if b < before_out.len() {
                        assert(out@[a] == before_out[a] && out@[b] == before_out[b]);
                    } else {
                        assert(out@[a] == before_out[a]);
                        assert(ranks_first(before, before_out[a]));
                        assert(out@[b] == before[idx as int]);
                    }
                }
            }
        }
        out
    }
}

} // verus!

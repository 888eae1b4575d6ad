//! Messages that arrive for a later view wait here, within a total bound and a
//! per-sender quota, and are handed back when their view starts; those whose view
//! has passed are dropped.

use vstd::prelude::*;
use vstd::view::View as _;

use crate::validators::{same_bytes, Address};
use crate::view::{view_lt, View};

verus! {

/// A message waiting for its view, with the sender it came from.
pub struct Pending<M> {
    pub view: View,
    pub sender: Address,
    pub msg: M,
}

/// Number of waiting messages from `sender`.
pub open spec fn count_from<M>(entries: Seq<Pending<M>>, sender: Seq<u8>) -> nat
    decreases entries.len(),
{
    if entries.len() == 0 {
        0
    } else {
        count_from(entries.drop_last(), sender) + if entries.last().sender@ == sender {
            1nat
        } else {
            0nat
        }
    }
}

/// `e` is one of `entries`.
pub open spec fn waiting<M>(entries: Seq<Pending<M>>, e: Pending<M>) -> bool {
    exists|i: int| 0 <= i < entries.len() && entries[i] == e
}

pub struct FutureBuffer<M> {
    pub entries: Vec<Pending<M>>,
    pub capacity: usize,
    pub per_sender: usize,
}

impl<M> FutureBuffer<M> {
    pub fn new(capacity: usize, per_sender: usize) -> (r: FutureBuffer<M>)
        ensures
            r.entries@.len() == 0,
            r.capacity == capacity,
            r.per_sender == per_sender,
    {
        FutureBuffer { entries: Vec::new(), capacity, per_sender }
    }

    fn count_sender(&self, sender: &Address) -> (r: usize)
        ensures
            r == count_from(self.entries@, sender@),
    {
        let mut i: usize = 0;
        let mut n: usize = 0;
        while i < self.entries.len()
            invariant
                i <= self.entries@.len(),
                n == count_from(self.entries@.subrange(0, i as int), sender@),
                n <= i,
            decreases self.entries@.len() - i,
        {
            proof {
                assert(self.entries@.subrange(0, i + 1).drop_last() =~= self.entries@.subrange(0, i as int));
            }
            if same_bytes(self.entries[i].sender.as_slice(), sender.as_slice()) {
                n = n + 1;
            }
            i = i + 1;
        }
        assert(self.entries@.subrange(0, i as int) =~= self.entries@);
        n
    }

    /// Keeps `msg` for `view` unless the buffer is full or `sender` has used its
    /// quota; returns whether it was kept.
    pub fn push(&mut self, view: View, sender: Address, msg: M) -> (r: bool)
        ensures
            final(self).capacity == old(self).capacity,
            final(self).per_sender == old(self).per_sender,
            r <==> old(self).entries@.len() < old(self).capacity
                && count_from(old(self).entries@, sender@) < old(self).per_sender,
            r ==> final(self).entries@ == old(self).entries@.push(Pending { view, sender, msg }),
            !r ==> final(self).entries@ == old(self).entries@,
    {
        if self.entries.len() >= self.capacity {
            return false;
        }
        if self.count_sender(&sender) >= self.per_sender {
            return false;
        }
        self.entries.push(Pending { view, sender, msg });
        true
    }

    /// Hands back, in arrival order, the messages for `current`; drops those for
    /// earlier views and keeps those for later ones.
    pub fn take_ready(&mut self, current: View) -> (r: Vec<Pending<M>>)
        ensures
            final(self).capacity == old(self).capacity,
            final(self).per_sender == old(self).per_sender,
            forall|k: int| 0 <= k < r@.len() ==> waiting(old(self).entries@, #[trigger] r@[k]) && r@[k].view == current,
            forall|i: int| 0 <= i < old(self).entries@.len() && (#[trigger] old(self).entries@[i]).view == current
                ==> waiting(r@, old(self).entries@[i]),
            forall|k: int| 0 <= k < final(self).entries@.len() ==> waiting(old(self).entries@, #[trigger] final(self).entries@[k])
                && view_lt(current, final(self).entries@[k].view),
            forall|i: int| 0 <= i < old(self).entries@.len() && view_lt(current, (#[trigger] old(self).entries@[i]).view)
                ==> waiting(final(self).entries@, old(self).entries@[i]),
    {
        let mut rest: Vec<Pending<M>> = Vec::new();
        std::mem::swap(&mut rest, &mut self.entries);
        let ghost start = rest@;
        let n = rest.len();
        let mut ready: Vec<Pending<M>> = Vec::new();
        let mut k: usize = 0;
        while rest.len() > 0
            invariant
                k <= start.len(),
                start.len() == n,
                rest@ == start.skip(k as int),
                forall|j: int| 0 <= j < ready@.len() ==> waiting(start, #[trigger] ready@[j]) && ready@[j].view == current,
                forall|i: int| 0 <= i < k && (#[trigger] start[i]).view == current ==> waiting(ready@, start[i]),
                forall|j: int| 0 <= j < self.entries@.len() ==> waiting(start, #[trigger] self.entries@[j])
                    && view_lt(current, self.entries@[j].view),
                forall|i: int| 0 <= i < k && view_lt(current, (#[trigger] start[i]).view) ==> waiting(self.entries@, start[i]),
                self.capacity == old(self).capacity,
                self.per_sender == old(self).per_sender,
            decreases rest@.len(),
        {
            let e = rest.remove(0);
            proof {
                assert(e == start[k as int]);
                assert(rest@ =~= start.skip(k + 1));
                assert(waiting(start, e));
            }
            let ghost pr = ready@;
            let ghost pe = self.entries@;
            if e.view.height == current.height && e.view.round == current.round {
                ready.push(e);
                proof {
                    assert forall|i: int| 0 <= i < k + 1 && (#[trigger] start[i]).view == current implies waiting(ready@, start[i]) by {
                        if i < k {
                            let w = choose|w: int| 0 <= w < pr.len() && pr[w] == start[i];
                            assert(ready@[w] == pr[w]);
                        } else {
                            assert(ready@[pr.len() as int] == start[i]);
                        }
                    }
                    assert forall|j: int| 0 <= j < ready@.len() implies waiting(start, #[trigger] ready@[j]) && ready@[j].view == current by {
                        if j < pr.len() {
                            assert(ready@[j] == pr[j]);
                        }
                    }
                }
            } else if view_is_later(current, e.view) {
                self.entries.push(e);
                proof {
                    assert forall|i: int| 0 <= i < k + 1 && view_lt(current, (#[trigger] start[i]).view) implies waiting(self.entries@, start[i]) by {
                        if i < k {
                            let w = choose|w: int| 0 <= w < pe.len() && pe[w] == start[i];
                            assert(self.entries@[w] == pe[w]);
                        } else {
                            assert(self.entries@[pe.len() as int] == start[i]);
                        }
                    }
                    assert forall|j: int| 0 <= j < self.entries@.len() implies waiting(start, #[trigger] self.entries@[j])
                        && view_lt(current, self.entries@[j].view) by {
                        if j < pe.len() {
                            assert(self.entries@[j] == pe[j]);
                        }
                    }
                }
            }
            k = k + 1;
        }
        ready
    }
}

fn view_is_later(current: View, v: View) -> (r: bool)
    ensures
        r == view_lt(current, v),
{
    current.height < v.height || (current.height == v.height && current.round < v.round)
}

} // verus!

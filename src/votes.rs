//! Vote sets: authenticated votes of distinct validators, counted by digest, and
//! the seal that a quorum of commit votes yields.

use vstd::prelude::*;
use vstd::view::View as _;

use crate::block::{Signature, H256};
use crate::signer::signer_of;
use crate::validators::{is_member, same_bytes, Address};
use crate::view::View;

verus! {

/// A Prepare or Commit vote: its sender, as authenticated by the frame that
/// carried it, the view, the digest voted for and the sender's signature.
pub struct Vote {
    pub sender: Address,
    pub view: View,
    pub digest: H256,
    pub signature: Signature,
}

/// Number of votes in `votes` for digest `d`.
pub open spec fn count_for(votes: Seq<Vote>, d: Seq<u8>) -> nat
    decreases votes.len(),
{
    if votes.len() == 0 {
        0
    } else {
        count_for(votes.drop_last(), d) + if votes.last().digest@ == d {
            1nat
        } else {
            0nat
        }
    }
}

/// No two votes come from the same sender.
pub open spec fn distinct_senders(votes: Seq<Vote>) -> bool {
    forall|i: int, j: int|
        0 <= i < j < votes.len() ==> (#[trigger] votes[i]).sender@ != (#[trigger] votes[j]).sender@
}

/// No address appears twice.
pub open spec fn distinct_addresses(a: Seq<Address>) -> bool {
    forall|i: int, j: int| 0 <= i < j < a.len() ==> (#[trigger] a[i])@ != (#[trigger] a[j])@
}

/// The vote's signature over its digest recovers to its sender.
pub open spec fn signed_by(v: Vote) -> bool {
    signer_of(v.signature@, v.digest@) == Some(v.sender@)
}

/// Every vote comes from a validator, is signed by it and is cast at `view`.
pub open spec fn votes_at(votes: Seq<Vote>, vals: Seq<Address>, view: View) -> bool {
    forall|i: int|
        0 <= i < votes.len() ==> is_member(vals, (#[trigger] votes[i]).sender@) && votes[i].view
            == view && signed_by(votes[i])
}

/// The position of the vote that `sender` cast, if any.
pub fn find_sender(votes: &Vec<Vote>, sender: &Address) -> (r: Option<usize>)
    ensures
        r.is_some() ==> r.unwrap() < votes@.len() && votes@[r.unwrap() as int].sender@ == sender@,
        r.is_none() ==> forall|j: int| 0 <= j < votes@.len() ==> votes@[j].sender@ != sender@,
{
    let mut i: usize = 0;
    while i < votes.len()
        invariant
            i <= votes@.len(),
            forall|j: int| 0 <= j < i ==> votes@[j].sender@ != sender@,
        decreases votes@.len() - i,
    {
        if same_bytes(votes[i].sender.as_slice(), sender.as_slice()) {
            return Some(i);
        }
        i = i + 1;
    }
    None
}

/// Number of votes for `digest`.
pub fn count_votes(votes: &Vec<Vote>, digest: &H256) -> (r: usize)
    ensures
        r == count_for(votes@, digest@),
{
    let mut i: usize = 0;
    let mut n: usize = 0;
    while i < votes.len()
        invariant
            i <= votes@.len(),
            n == count_for(votes@.subrange(0, i as int), digest@),
            n <= i,
        decreases votes@.len() - i,
    {
        proof {
            assert(votes@.subrange(0, i + 1).drop_last() =~= votes@.subrange(0, i as int));
        }
        if same_bytes(votes[i].digest.as_slice(), digest.as_slice()) {
            n = n + 1;
        }
        i = i + 1;
    }
    assert(votes@.subrange(0, i as int) =~= votes@);
    n
}

/// The signers and signatures of the votes for `digest`, in the order cast: each
/// signer is a distinct sender whose vote for `digest` carries that signature.
pub fn collect_seal(votes: &Vec<Vote>, digest: &H256) -> (r: (Vec<Address>, Vec<Signature>))
    requires
        distinct_senders(votes@),
    ensures
        r.0@.len() == count_for(votes@, digest@),
        r.1@.len() == r.0@.len(),
        distinct_addresses(r.0@),
        forall|a: int|
            0 <= a < r.0@.len() ==> exists|k: int|
                0 <= k < votes@.len() && #[trigger] r.0@[a]@ == votes@[k].sender@
                    && votes@[k].digest@ == digest@ && r.1@[a]@ == votes@[k].signature@,
{
    let mut signers: Vec<Address> = Vec::new();
    let mut sigs: Vec<Signature> = Vec::new();
    let ghost mut idx: Seq<int> = Seq::empty();
    let mut i: usize = 0;
    while i < votes.len()
        invariant
            distinct_senders(votes@),
            i <= votes@.len(),
            signers@.len() == count_for(votes@.subrange(0, i as int), digest@),
            sigs@.len() == signers@.len(),
            idx.len() == signers@.len(),
            forall|a: int| 0 <= a < idx.len() ==> 0 <= #[trigger] idx[a] < i,
            forall|a: int, b: int| 0 <= a < b < idx.len() ==> #[trigger] idx[a] < #[trigger] idx[b],
            forall|a: int| 0 <= a < idx.len() ==> (#[trigger] signers@[a])@ == votes@[idx[a]].sender@,
            forall|a: int| 0 <= a < idx.len() ==> votes@[#[trigger] idx[a]].digest@ == digest@,
            forall|a: int| 0 <= a < idx.len() ==> (#[trigger] sigs@[a])@ == votes@[idx[a]].signature@,
        decreases votes@.len() - i,
    {
        proof {
            assert(votes@.subrange(0, i + 1).drop_last() =~= votes@.subrange(0, i as int));
        }
        if same_bytes(votes[i].digest.as_slice(), digest.as_slice()) {
            let s = votes[i].sender.clone();
            let g = votes[i].signature.clone();
            assert(s@ =~= votes@[i as int].sender@);
            assert(g@ =~= votes@[i as int].signature@);
            let ghost old_signers = signers@;
            let ghost old_sigs = sigs@;
            signers.push(s);
            sigs.push(g);
            proof {
                idx = idx.push(i as int);
                assert forall|a: int| 0 <= a < idx.len() implies (#[trigger] signers@[a])@
                    == votes@[idx[a]].sender@ && votes@[idx[a]].digest@ == digest@ && sigs@[a]@
                    == votes@[idx[a]].signature@ by {
                    assert(0 <= idx[a]);
                    if a < old_signers.len() {
                        assert(signers@[a] == old_signers[a] && sigs@[a] == old_sigs[a]);
                    } else {
                        assert(a == old_signers.len());
                        assert(idx[a] == i);
                        assert(signers@[a]@ == votes@[i as int].sender@);
                        assert(sigs@[a]@ == votes@[i as int].signature@);
                        assert(votes@[i as int].digest@ == digest@);
                    }
                }
            }
        }
        i = i + 1;
    }
    assert(votes@.subrange(0, i as int) =~= votes@);
    assert forall|a: int, b: int| 0 <= a < b < signers@.len() implies (#[trigger] signers@[a])@
        != (#[trigger] signers@[b])@ by {
        assert(idx[a] < idx[b]);
        assert(votes@[idx[a]].sender@ != votes@[idx[b]].sender@);
    }
    assert forall|a: int| 0 <= a < signers@.len() implies exists|k: int|
        0 <= k < votes@.len() && #[trigger] signers@[a]@ == votes@[k].sender@ && votes@[k].digest@
            == digest@ && sigs@[a]@ == votes@[k].signature@ by {
        let k = idx[a];
        assert(0 <= k < votes@.len());
        assert(signers@[a]@ == votes@[k].sender@ && sigs@[a]@ == votes@[k].signature@);
    }
    (signers, sigs)
}

} // verus!

//! The PBFT state machine of one validator for the current height: it takes one
//! authenticated message at a time and answers with the action to perform.

use vstd::prelude::*;
use vstd::view::View as _;

use crate::block::{header_hash, seals_of, unsealed_bytes, Block, Signature, H256};
use crate::ledger::LastMeta;
use crate::signer::{signer_address, signer_of};
use crate::validators::{is_member, position, proposer, proposer_of, quorum, quorum_of, same_bytes, Address};
use crate::view::{view_lt, Round, View};
use crate::votes::{
    collect_seal, count_for, count_votes, distinct_addresses, distinct_senders, find_sender, signed_by,
    votes_at, Vote,
};

verus! {

#[derive(Debug, Clone, Copy, PartialEq, Eq, Structural)]
pub enum Phase {
    NewRound,
    PrePrepared,
    Prepared,
    Committed,
}

/// A request from `sender` to move to `view`.
pub struct RoundChange {
    pub sender: Address,
    pub view: View,
}

/// What the node must do after a step.
pub enum Action {
    /// Nothing to send.
    Idle,
    /// Broadcast a Prepare for `digest` at `view`.
    BroadcastPrepare { view: View, digest: H256 },
    /// Broadcast a Commit for `digest` at `view`.
    BroadcastCommit { view: View, digest: H256 },
    /// Broadcast a RoundChange to `view`.
    BroadcastRoundChange { view: View },
    /// A quorum asked for `view`: start it (and propose there if this node is its proposer).
    EnterRound { view: View },
    /// Insert `block`, sealed by the commit signatures of `signers`, into the chain.
    CommitBlock { block: Block, signers: Vec<Address> },
}

/// Why a message was dropped.
#[derive(Debug, Clone, Copy, PartialEq, Eq, Structural)]
pub enum CoreError {
    /// The message belongs to an earlier view.
    StaleView,
    /// The message belongs to a later view; it may be buffered and replayed.
    FutureView,
    /// The sender is not a validator.
    UnknownSender,
    /// The vote's signature does not recover to its sender.
    BadSignature,
    /// The PrePrepare does not come from the proposer of its view.
    NotProposer,
    /// A PrePrepare for this view was already accepted.
    AlreadyPrePrepared,
    /// The proposed block carries a seal or uses more gas than its limit.
    InvalidBlock,
    /// The proposed block's height is not the one after the tip.
    BadHeight,
    /// The proposed block's parent is not the tip.
    BadParent,
    /// The proposal differs from the one locked at this height.
    LockedMismatch,
    /// The sender already voted for another digest in this role at this view.
    Equivocation,
}

pub struct Core {
    pub validators: Vec<Address>,
    pub view: View,
    pub phase: Phase,
    /// Height and hash of the chain's tip.
    pub last: LastMeta,
    /// The proposal pre-prepared at this height, kept across round changes.
    pub locked: Option<Block>,
    /// The hash of the locked proposal.
    pub locked_digest: H256,
    pub prepares: Vec<Vote>,
    pub commits: Vec<Vote>,
    pub round_changes: Vec<RoundChange>,
    /// This node has sent its Prepare at the current view.
    pub sent_prepare: bool,
    /// This node has sent its Commit at the current view.
    pub sent_commit: bool,
    /// This node has asked for the round after the current one.
    pub sent_round_change: bool,
}

/// Number of round changes in `rcs` that ask for round `r`.
pub open spec fn count_round(rcs: Seq<RoundChange>, r: Round) -> nat
    decreases rcs.len(),
{
    if rcs.len() == 0 {
        0
    } else {
        count_round(rcs.drop_last(), r) + if rcs.last().view.round == r {
            1nat
        } else {
            0nat
        }
    }
}

/// A round change from the same sender for the same view is recorded.
pub open spec fn has_round_change(rcs: Seq<RoundChange>, rc: RoundChange) -> bool {
    exists|j: int| 0 <= j < rcs.len() && (#[trigger] rcs[j]).sender@ == rc.sender@ && rcs[j].view == rc.view
}

/// `sender` has voted in `votes`.
pub open spec fn has_voted(votes: Seq<Vote>, sender: Seq<u8>) -> bool {
    exists|j: int| 0 <= j < votes.len() && (#[trigger] votes[j]).sender@ == sender
}

/// `sender` has voted in `votes` for `digest`.
pub open spec fn has_voted_for(votes: Seq<Vote>, sender: Seq<u8>, digest: Seq<u8>) -> bool {
    exists|j: int|
        0 <= j < votes.len() && (#[trigger] votes[j]).sender@ == sender && votes[j].digest@ == digest
}

/// A message's view `v` lies before the current view `cur`.
pub open spec fn is_stale(cur: View, v: View) -> bool {
    view_lt(v, cur)
}

/// A step that keeps this node from equivocating: a Prepare or a Commit is sent
/// only where none was sent at that view, the record of what was sent stays while
/// the view stays, and views never go back.
pub open spec fn honest_step(pre: Core, post: Core, r: Result<Action, CoreError>) -> bool {
    &&& !view_lt(post.view, pre.view)
    &&& (post.view == pre.view ==> (pre.sent_prepare ==> post.sent_prepare) && (pre.sent_commit
        ==> post.sent_commit))
    &&& (r matches Ok(Action::BroadcastPrepare { view, .. }) ==> !pre.sent_prepare
        && post.sent_prepare && view == pre.view && post.view == pre.view)
    &&& (r matches Ok(Action::BroadcastCommit { view, .. }) ==> !pre.sent_commit
        && post.sent_commit && view == pre.view && post.view == pre.view)
}

/// The action is a Prepare at `v`.
pub open spec fn is_prepare_at(r: Result<Action, CoreError>, v: View) -> bool {
    r matches Ok(Action::BroadcastPrepare { view, .. }) && view == v
}

/// The action is a Commit at `v`.
pub open spec fn is_commit_at(r: Result<Action, CoreError>, v: View) -> bool {
    r matches Ok(Action::BroadcastCommit { view, .. }) && view == v
}

impl Core {
    pub open spec fn wf(&self) -> bool {
        &&& self.validators@.len() > 0
        &&& self.last.height < u64::MAX
        &&& self.view.height == self.last.height + 1
        &&& votes_at(self.prepares@, self.validators@, self.view)
        &&& votes_at(self.commits@, self.validators@, self.view)
        &&& distinct_senders(self.prepares@)
        &&& distinct_senders(self.commits@)
        &&& forall|i: int|
            0 <= i < self.round_changes@.len() ==> is_member(
                self.validators@,
                (#[trigger] self.round_changes@[i]).sender@,
            ) && self.round_changes@[i].view.height == self.view.height
                && self.round_changes@[i].view.round > self.view.round
        &&& (self.locked matches Some(b) ==> self.locked_digest@ == header_hash(b.header)
            && b.header.votes.is_none())
        &&& (self.phase != Phase::NewRound ==> self.locked.is_some())
        &&& (self.sent_prepare <==> self.phase != Phase::NewRound)
        &&& (self.sent_commit ==> self.phase == Phase::Prepared || self.phase == Phase::Committed)
        &&& forall|i: int, j: int|
            0 <= i < j < self.round_changes@.len() ==> !((#[trigger] self.round_changes@[i]).sender@
                == (#[trigger] self.round_changes@[j]).sender@ && self.round_changes@[i].view
                == self.round_changes@[j].view)
    }


    /// The state at the start of the height above `last`.
    pub fn new(validators: Vec<Address>, last: LastMeta) -> (r: Core)
        requires
            validators@.len() > 0,
            last.height < u64::MAX,
        ensures
            r.wf(),
            r.view == (View { height: (last.height + 1) as u64, round: 0 }),
            r.phase == Phase::NewRound,
            r.validators == validators,
            r.last == last,
            r.locked.is_none(),
            r.prepares@.len() == 0 && r.commits@.len() == 0 && r.round_changes@.len() == 0,
            !r.sent_prepare && !r.sent_commit && !r.sent_round_change,
    {
        let view = View::new(last.height + 1, 0);
        Core {
            validators,
            view,
            phase: Phase::NewRound,
            last,
            locked: None,
            locked_digest: Vec::new(),
            prepares: Vec::new(),
            commits: Vec::new(),
            round_changes: Vec::new(),
            sent_prepare: false,
            sent_commit: false,
            sent_round_change: false,
        }
    }

    /// The proposer of the current view.
    pub fn current_proposer(&self) -> (r: &Address)
        requires
            self.wf(),
        ensures
            r@ == proposer_of(self.validators@, self.view),
    {
        proposer(&self.validators, &self.view)
    }

    /// A message for `v` belongs to a later view and waits for it: a round change
    /// waits only where it is for a later height, since later rounds of this
    /// height are what it asks for.
    pub fn waits_for(&self, v: View, is_round_change: bool) -> (r: bool)
        ensures
            r == if is_round_change {
                v.height > self.view.height
            } else {
                view_lt(self.view, v)
            },
    {
        if is_round_change {
            v.height > self.view.height
        } else {
            self.view.height < v.height || (self.view.height == v.height && self.view.round < v.round)
        }
    }

    /// `me` leads the current view and has not yet taken a proposal in it, so it
    /// is to propose a block.
    pub fn should_propose(&self, me: &Address) -> (r: bool)
        requires
            self.wf(),
        ensures
            r == (me@ == proposer_of(self.validators@, self.view) && !self.sent_prepare),
    {
        let p = proposer(&self.validators, &self.view);
        same_bytes(p.as_slice(), me.as_slice()) && !self.sent_prepare
    }

    fn check_view(&self, v: View) -> (r: Result<(), CoreError>)
        ensures
            is_stale(self.view, v) ==> r == Err::<(), CoreError>(CoreError::StaleView),
            !is_stale(self.view, v) && v != self.view ==> r == Err::<(), CoreError>(CoreError::FutureView),
            r.is_ok() <==> v == self.view,
    {
        if v.height < self.view.height || (v.height == self.view.height && v.round
            < self.view.round) {
            Err(CoreError::StaleView)
        } else if v.height != self.view.height || v.round != self.view.round {
            Err(CoreError::FutureView)
        } else {
            Ok(())
        }
    }

    /// Handles the proposer's block for `view`: on acceptance the block is locked
    /// and this node prepares it.
    pub fn handle_preprepare(&mut self, sender: &Address, view: View, block: Block) -> (r: Result<Action, CoreError>)
        requires
            old(self).wf(),
        ensures
            final(self).wf(),
            honest_step(*old(self), *final(self), r),
            final(self).view == old(self).view,
            is_stale(old(self).view, view) ==> r == Err::<Action, CoreError>(CoreError::StaleView),
            !is_stale(old(self).view, view) && view != old(self).view ==> r == Err::<Action, CoreError>(CoreError::FutureView),
            view == old(self).view && sender@ != proposer_of(old(self).validators@, view) ==> r == Err::<Action, CoreError>(CoreError::NotProposer),
            r.is_ok() <==> view == old(self).view && sender@ == proposer_of(old(self).validators@, view)
                && !old(self).sent_prepare && block.header.votes.is_none()
                && block.header.gas_used <= block.header.gas_limit
                && block.header.height == old(self).last.height + 1
                && block.header.parent_hash@ == old(self).last.hash@
                && (old(self).locked matches Some(l) ==> header_hash(l.header) == header_hash(block.header)),
            r.is_ok() ==> (r matches Ok(Action::BroadcastPrepare { view: v, digest: d }) && v == view
                && d@ == header_hash(block.header))
                && final(self).locked == Some(block)
                && final(self).locked_digest@ == header_hash(block.header)
                && final(self).phase == Phase::PrePrepared,
            r.is_err() ==> *final(self) == *old(self),
    {
        match self.check_view(view) {
            Err(e) => return Err(e),
            Ok(()) => {},
        }
        let p = proposer(&self.validators, &self.view);
        if !same_bytes(sender.as_slice(), p.as_slice()) {
            return Err(CoreError::NotProposer);
        }
        if self.sent_prepare {
            return Err(CoreError::AlreadyPrePrepared);
        }
        if block.header.votes.is_some() || block.header.gas_used > block.header.gas_limit {
            return Err(CoreError::InvalidBlock);
        }
        if block.header.height != self.last.height + 1 {
            return Err(CoreError::BadHeight);
        }
        if !same_bytes(block.header.parent_hash.as_slice(), self.last.hash.as_slice()) {
            return Err(CoreError::BadParent);
        }
        let digest = block.hash();
        if self.locked.is_some() && !same_bytes(digest.as_slice(), self.locked_digest.as_slice()) {
            return Err(CoreError::LockedMismatch);
        }
        let out = digest.clone();
        assert(out@ =~= digest@);
        self.locked = Some(block);
        self.locked_digest = digest;
        self.phase = Phase::PrePrepared;
        self.sent_prepare = true;
        Ok(Action::BroadcastPrepare { view, digest: out })
    }

    /// Whether `vote` is new to `votes` (`Ok(true)`), a repeat of a vote
    /// already there (`Ok(false)`), or to be dropped.
    fn check_vote(&self, votes: &Vec<Vote>, vote: &Vote) -> (r: Result<bool, CoreError>)
        requires
            distinct_senders(votes@),
        ensures
            is_stale(self.view, vote.view) ==> r == Err::<bool, CoreError>(CoreError::StaleView),
            !is_stale(self.view, vote.view) && vote.view != self.view ==> r == Err::<bool, CoreError>(CoreError::FutureView),
            vote.view == self.view && !is_member(self.validators@, vote.sender@) ==> r == Err::<bool, CoreError>(CoreError::UnknownSender),
            vote.view == self.view && is_member(self.validators@, vote.sender@) && !signed_by(*vote) ==> r == Err::<bool, CoreError>(CoreError::BadSignature),
            vote.view == self.view && is_member(self.validators@, vote.sender@) && signed_by(*vote) ==> {
                &&& has_voted_for(votes@, vote.sender@, vote.digest@) ==> r == Ok::<bool, CoreError>(false)
                &&& has_voted(votes@, vote.sender@) && !has_voted_for(votes@, vote.sender@, vote.digest@) ==> r == Err::<bool, CoreError>(CoreError::Equivocation)
                &&& !has_voted(votes@, vote.sender@) ==> r == Ok::<bool, CoreError>(true)
            },
    {
        match self.check_view(vote.view) {
            Err(e) => return Err(e),
            Ok(()) => {},
        }
        if position(&self.validators, &vote.sender).is_none() {
            return Err(CoreError::UnknownSender);
        }
        match signer_address(vote.signature.as_slice(), vote.digest.as_slice()) {
            Some(a) => {
                if !same_bytes(a.as_slice(), vote.sender.as_slice()) {
                    return Err(CoreError::BadSignature);
                }
            },
            None => return Err(CoreError::BadSignature),
        }
        match find_sender(votes, &vote.sender) {
            Some(j) => {
                if same_bytes(votes[j].digest.as_slice(), vote.digest.as_slice()) {
                    Ok(false)
                } else {
                    proof {
                        assert forall|k: int| 0 <= k < votes@.len() && (#[trigger] votes@[k]).sender@ == vote.sender@
                            implies votes@[k].digest@ != vote.digest@ by {
                            if k != j {
                                if k < j {
                                    assert(votes@[k].sender@ != votes@[j as int].sender@);
                                } else {
                                    assert(votes@[j as int].sender@ != votes@[k].sender@);
                                }
                            }
                        }
                    }
                    Err(CoreError::Equivocation)
                }
            },
            None => Ok(true),
        }
    }

    /// Handles a Prepare: it is recorded, and once a quorum has prepared the
    /// locked proposal this node commits to it.
    pub fn handle_prepare(&mut self, vote: Vote) -> (r: Result<Action, CoreError>)
        requires
            old(self).wf(),
        ensures
            final(self).wf(),
            honest_step(*old(self), *final(self), r),
            final(self).view == old(self).view,
            final(self).commits == old(self).commits,
            final(self).locked == old(self).locked,
            is_stale(old(self).view, vote.view) ==> r == Err::<Action, CoreError>(CoreError::StaleView),
            !is_stale(old(self).view, vote.view) && vote.view != old(self).view ==> r == Err::<Action, CoreError>(CoreError::FutureView),
            vote.view == old(self).view && !is_member(old(self).validators@, vote.sender@) ==> r == Err::<Action, CoreError>(CoreError::UnknownSender),
            vote.view == old(self).view && is_member(old(self).validators@, vote.sender@) && !signed_by(vote) ==> r == Err::<Action, CoreError>(CoreError::BadSignature),
            vote.view == old(self).view && is_member(old(self).validators@, vote.sender@) && signed_by(vote) ==> {
                &&& has_voted_for(old(self).prepares@, vote.sender@, vote.digest@) ==> (r matches Ok(Action::Idle))
                &&& has_voted(old(self).prepares@, vote.sender@) && !has_voted_for(old(self).prepares@, vote.sender@, vote.digest@)
                    ==> r == Err::<Action, CoreError>(CoreError::Equivocation)
                &&& !has_voted(old(self).prepares@, vote.sender@) ==> final(self).prepares@ == old(self).prepares@.push(vote)
                &&& !has_voted(old(self).prepares@, vote.sender@) ==> if old(self).phase == Phase::PrePrepared
                    && count_for(final(self).prepares@, old(self).locked_digest@) >= quorum_of(old(self).validators@.len()) {
                    (r matches Ok(Action::BroadcastCommit { view: v, digest: d }) && v == vote.view
                        && d@ == old(self).locked_digest@) && final(self).phase == Phase::Prepared
                } else {
                    (r matches Ok(Action::Idle)) && final(self).phase == old(self).phase
                }
            },
            !(r matches Ok(Action::BroadcastCommit { .. })) ==> final(self).phase == old(self).phase
                && final(self).sent_commit == old(self).sent_commit,
            !(vote.view == old(self).view && is_member(old(self).validators@, vote.sender@) && signed_by(vote)
                && !has_voted(old(self).prepares@, vote.sender@)) ==> *final(self) == *old(self),
    {
        match self.check_vote(&self.prepares, &vote) {
            Err(e) => return Err(e),
            Ok(false) => return Ok(Action::Idle),
            Ok(true) => {},
        }
        let ghost pre = self.prepares@;
        self.prepares.push(vote);
        proof {
            assert(self.prepares@ == pre.push(vote));
            assert(votes_at(self.prepares@, self.validators@, self.view));
            assert(distinct_senders(self.prepares@));
        }
        let n = count_votes(&self.prepares, &self.locked_digest);
        if self.phase == Phase::PrePrepared && n >= quorum(self.validators.len()) {
            self.phase = Phase::Prepared;
            self.sent_commit = true;
            let d = self.locked_digest.clone();
            assert(d@ =~= self.locked_digest@);
            return Ok(Action::BroadcastCommit { view: self.view, digest: d });
        }
        Ok(Action::Idle)
    }

    /// Handles a Commit: it is recorded, and once a quorum has committed the
    /// locked proposal that block is sealed with their signatures and handed out
    /// to be inserted into the chain.
    pub fn handle_commit(&mut self, vote: Vote) -> (r: Result<Action, CoreError>)
        requires
            old(self).wf(),
        ensures
            final(self).wf(),
            honest_step(*old(self), *final(self), r),
            final(self).view == old(self).view,
            final(self).prepares == old(self).prepares,
            final(self).locked == old(self).locked,
            is_stale(old(self).view, vote.view) ==> r == Err::<Action, CoreError>(CoreError::StaleView),
            !is_stale(old(self).view, vote.view) && vote.view != old(self).view ==> r == Err::<Action, CoreError>(CoreError::FutureView),
            vote.view == old(self).view && !is_member(old(self).validators@, vote.sender@) ==> r == Err::<Action, CoreError>(CoreError::UnknownSender),
            vote.view == old(self).view && is_member(old(self).validators@, vote.sender@) && !signed_by(vote) ==> r == Err::<Action, CoreError>(CoreError::BadSignature),
            vote.view == old(self).view && is_member(old(self).validators@, vote.sender@) && signed_by(vote) ==> {
                &&& has_voted_for(old(self).commits@, vote.sender@, vote.digest@) ==> (r matches Ok(Action::Idle))
                &&& has_voted(old(self).commits@, vote.sender@) && !has_voted_for(old(self).commits@, vote.sender@, vote.digest@)
                    ==> r == Err::<Action, CoreError>(CoreError::Equivocation)
                &&& !has_voted(old(self).commits@, vote.sender@) ==> final(self).commits@ == old(self).commits@.push(vote)
                &&& !has_voted(old(self).commits@, vote.sender@) ==> if (old(self).phase == Phase::PrePrepared
                    || old(self).phase == Phase::Prepared)
                    && count_for(final(self).commits@, old(self).locked_digest@) >= quorum_of(old(self).validators@.len()) {
                    (r matches Ok(Action::CommitBlock { .. })) && final(self).phase == Phase::Committed
                } else {
                    (r matches Ok(Action::Idle)) && final(self).phase == old(self).phase
                }
            },
            // a committed block is the locked proposal, sealed by a quorum of
            // distinct validators that each committed to its hash
            r matches Ok(Action::CommitBlock { block, signers }) ==> {
                &&& old(self).locked is Some
                &&& unsealed_bytes(block.header) == unsealed_bytes(old(self).locked.unwrap().header)
                &&& header_hash(block.header) == old(self).locked_digest@
                &&& signers@.len() >= quorum_of(old(self).validators@.len())
                &&& distinct_addresses(signers@)
                &&& seals_of(block.header).len() == signers@.len()
                &&& forall|a: int| 0 <= a < signers@.len() ==> is_member(old(self).validators@, (#[trigger] signers@[a])@)
                    && exists|k: int| 0 <= k < final(self).commits@.len()
                        && final(self).commits@[k].sender@ == signers@[a]@
                        && final(self).commits@[k].digest@ == old(self).locked_digest@
                        && final(self).commits@[k].signature@ == seals_of(block.header)[a]
                &&& forall|a: int| 0 <= a < signers@.len() ==> signer_of(#[trigger] seals_of(block.header)[a], old(self).locked_digest@)
                    == Some(signers@[a]@)
            },
            !(r matches Ok(Action::CommitBlock { .. })) ==> final(self).phase == old(self).phase,
            final(self).sent_commit == old(self).sent_commit,
            final(self).sent_prepare == old(self).sent_prepare,
            !(vote.view == old(self).view && is_member(old(self).validators@, vote.sender@) && signed_by(vote)
                && !has_voted(old(self).commits@, vote.sender@)) ==> *final(self) == *old(self),
    {
        match self.check_vote(&self.commits, &vote) {
            Err(e) => return Err(e),
            Ok(false) => return Ok(Action::Idle),
            Ok(true) => {},
        }
        let ghost pre = self.commits@;
        self.commits.push(vote);
        proof {
            assert(self.commits@ == pre.push(vote));
            assert(votes_at(self.commits@, self.validators@, self.view));
            assert(distinct_senders(self.commits@));
        }
        let n = count_votes(&self.commits, &self.locked_digest);
        if (self.phase == Phase::PrePrepared || self.phase == Phase::Prepared) && n >= quorum(self.validators.len()) {
            let (signers, sigs) = collect_seal(&self.commits, &self.locked_digest);
            let mut block = match &self.locked {
                Some(l) => l.copy(),
                None => { return Ok(Action::Idle); },
            };
            let ghost sig_seq = sigs@;
            block.add_votes(sigs);
            proof {
                assert(seals_of(block.header) =~= sig_seq.map_values(|x: Signature| x.deep_view()));
                assert forall|a: int| 0 <= a < signers@.len() implies is_member(self.validators@, (#[trigger] signers@[a])@)
                    && exists|k: int| 0 <= k < self.commits@.len()
                        && self.commits@[k].sender@ == signers@[a]@
                        && self.commits@[k].digest@ == self.locked_digest@
                        && self.commits@[k].signature@ == seals_of(block.header)[a] by {
                    lemma_bytes_deep_view(sig_seq[a]);
                    let k = choose|k: int| 0 <= k < self.commits@.len() && #[trigger] signers@[a]@ == self.commits@[k].sender@
                        && self.commits@[k].digest@ == self.locked_digest@ && sig_seq[a]@ == self.commits@[k].signature@;
                    assert(is_member(self.validators@, self.commits@[k].sender@));
                }
                assert forall|a: int| 0 <= a < signers@.len() implies signer_of(#[trigger] seals_of(block.header)[a], self.locked_digest@)
                    == Some(signers@[a]@) by {
                    lemma_bytes_deep_view(sig_seq[a]);
                    let k = choose|k: int| 0 <= k < self.commits@.len() && #[trigger] signers@[a]@ == self.commits@[k].sender@
                        && self.commits@[k].digest@ == self.locked_digest@ && sig_seq[a]@ == self.commits@[k].signature@;
                    assert(signed_by(self.commits@[k]));
                }
            }
            self.phase = Phase::Committed;
            return Ok(Action::CommitBlock { block, signers });
        }
        Ok(Action::Idle)
    }

    /// Handles a request to change round at the current height. It is recorded;
    /// once a quorum asks for the same later round, that round starts and the
    /// locked proposal stays. Short of a quorum, this node joins by asking for the
    /// round after its own, once per round.
    pub fn handle_round_change(&mut self, rc: RoundChange) -> (r: Result<Action, CoreError>)
        requires
            old(self).wf(),
        ensures
            final(self).wf(),
            honest_step(*old(self), *final(self), r),
            final(self).locked == old(self).locked,
            final(self).view.height == old(self).view.height,
            rc.view.height < old(self).view.height || (rc.view.height == old(self).view.height
                && rc.view.round <= old(self).view.round) ==> r == Err::<Action, CoreError>(CoreError::StaleView),
            rc.view.height > old(self).view.height ==> r == Err::<Action, CoreError>(CoreError::FutureView),
            rc.view.height == old(self).view.height && rc.view.round > old(self).view.round ==> {
                &&& !is_member(old(self).validators@, rc.sender@) ==> r == Err::<Action, CoreError>(CoreError::UnknownSender)
                &&& is_member(old(self).validators@, rc.sender@) ==> r.is_ok()
                &&& is_member(old(self).validators@, rc.sender@) && has_round_change(old(self).round_changes@, rc)
                    ==> r == Ok::<Action, CoreError>(Action::Idle) && *final(self) == *old(self)
                &&& is_member(old(self).validators@, rc.sender@) && !has_round_change(old(self).round_changes@, rc)
                    && count_round(old(self).round_changes@, rc.view.round) + 1 >= quorum_of(old(self).validators@.len()) ==> {
                    &&& r == Ok::<Action, CoreError>(Action::EnterRound { view: rc.view })
                    &&& final(self).view == rc.view
                    &&& final(self).phase == Phase::NewRound
                    &&& final(self).prepares@.len() == 0 && final(self).commits@.len() == 0
                    &&& final(self).round_changes@.len() == 0
                    &&& !final(self).sent_round_change
                }
                &&& is_member(old(self).validators@, rc.sender@) && !has_round_change(old(self).round_changes@, rc)
                    && count_round(old(self).round_changes@, rc.view.round) + 1 < quorum_of(old(self).validators@.len()) ==> {
                    &&& final(self).round_changes@ == old(self).round_changes@.push(rc)
                    &&& final(self).sent_round_change
                    &&& !old(self).sent_round_change ==> r == Ok::<Action, CoreError>(Action::BroadcastRoundChange {
                        view: View { height: old(self).view.height, round: (old(self).view.round + 1) as u64 },
                    })
                    &&& old(self).sent_round_change ==> r == Ok::<Action, CoreError>(Action::Idle)
                }
            },
            !(r matches Ok(Action::EnterRound { .. })) ==> final(self).view == old(self).view
                && final(self).phase == old(self).phase && final(self).prepares == old(self).prepares
                && final(self).commits == old(self).commits
                && final(self).sent_prepare == old(self).sent_prepare
                && final(self).sent_commit == old(self).sent_commit,
    {
        if rc.view.height < self.view.height || (rc.view.height == self.view.height && rc.view.round
            <= self.view.round) {
            return Err(CoreError::StaleView);
        }
        if rc.view.height > self.view.height {
            return Err(CoreError::FutureView);
        }
        if position(&self.validators, &rc.sender).is_none() {
            return Err(CoreError::UnknownSender);
        }
        if find_round_change(&self.round_changes, &rc) {
            return Ok(Action::Idle);
        }
        let target = rc.view;
        let ghost pre = self.round_changes@;
        self.round_changes.push(rc);
        proof {
            assert(self.round_changes@.drop_last() =~= pre);
        }
        let n = count_rounds(&self.round_changes, target.round);
        if n >= quorum(self.validators.len()) {
            self.view = target;
            self.phase = Phase::NewRound;
            self.prepares = Vec::new();
            self.commits = Vec::new();
            self.round_changes = Vec::new();
            self.sent_prepare = false;
            self.sent_commit = false;
            self.sent_round_change = false;
            return Ok(Action::EnterRound { view: target });
        }
        if self.sent_round_change {
            return Ok(Action::Idle);
        }
        self.sent_round_change = true;
        Ok(Action::BroadcastRoundChange { view: View::new(self.view.height, self.view.round + 1) })
    }

    /// The round timer ran out: ask (again) for the next round at this height.
    pub fn on_timeout(&mut self) -> (r: Action)
        requires
            old(self).wf(),
            old(self).view.round < u64::MAX,
        ensures
            final(self).wf(),
            honest_step(*old(self), *final(self), Ok::<Action, CoreError>(r)),
            r == (Action::BroadcastRoundChange { view: View { height: old(self).view.height, round: (old(self).view.round + 1) as u64 } }),
            final(self).sent_round_change,
            *final(self) == (Core { sent_round_change: true, ..*old(self) }),
    {
        self.sent_round_change = true;
        Action::BroadcastRoundChange { view: View::new(self.view.height, self.view.round + 1) }
    }

    /// The chain's tip moved to `last` (a commit, or a sync past this height):
    /// the height above it starts at round zero with no side state.
    pub fn start_height(&mut self, last: LastMeta)
        requires
            old(self).wf(),
            old(self).last.height < last.height,
            last.height < u64::MAX,
        ensures
            final(self).wf(),
            honest_step(*old(self), *final(self), Ok::<Action, CoreError>(Action::Idle)),
            final(self).view == (View { height: (last.height + 1) as u64, round: 0 }),
            final(self).last == last,
            final(self).validators == old(self).validators,
            final(self).phase == Phase::NewRound,
            final(self).locked.is_none(),
            final(self).prepares@.len() == 0 && final(self).commits@.len() == 0
                && final(self).round_changes@.len() == 0,
            !final(self).sent_prepare && !final(self).sent_commit && !final(self).sent_round_change,
    {
        self.view = View::new(last.height + 1, 0);
        self.last = last;
        self.phase = Phase::NewRound;
        self.locked = None;
        self.locked_digest = Vec::new();
        self.prepares = Vec::new();
        self.commits = Vec::new();
        self.round_changes = Vec::new();
        self.sent_prepare = false;
        self.sent_commit = false;
        self.sent_round_change = false;
    }
}

/// What `c` records as sent: its Commit if `commit`, else its Prepare.
pub open spec fn sent(c: Core, commit: bool) -> bool {
    if commit {
        c.sent_commit
    } else {
        c.sent_prepare
    }
}

/// A run of steps: `results[k]` is what the step from `states[k]` to `states[k + 1]` returned.
pub open spec fn honest_run(states: Seq<Core>, results: Seq<Result<Action, CoreError>>) -> bool {
    &&& states.len() == results.len() + 1
    &&& forall|k: int|
        0 <= k < results.len() ==> honest_step(#[trigger] states[k], states[k + 1], results[k])
}

proof fn lemma_sent_persists(
    states: Seq<Core>,
    results: Seq<Result<Action, CoreError>>,
    i: int,
    k: int,
    v: View,
    commit: bool,
)
    requires
        honest_run(states, results),
        0 <= i < k < states.len(),
        states[i + 1].view == v,
        sent(states[i + 1], commit),
    ensures
        !view_lt(states[k].view, v),
        states[k].view == v ==> sent(states[k], commit),
    decreases k - i,
{
    if k > i + 1 {
        lemma_sent_persists(states, results, i, k - 1, v, commit);
        assert(honest_step(states[k - 1], states[k], results[k - 1]));
        if states[k].view == v {
            assert(states[k - 1].view == v);
        }
    }
}

/// Along any run of steps, this node sends at most one Prepare and at most one
/// Commit at each view: it never equivocates.
pub proof fn lemma_no_equivocation(
    states: Seq<Core>,
    results: Seq<Result<Action, CoreError>>,
    i: int,
    j: int,
    v: View,
)
    requires
        honest_run(states, results),
        0 <= i < j < results.len(),
    ensures
        !(is_prepare_at(results[i], v) && is_prepare_at(results[j], v)),
        !(is_commit_at(results[i], v) && is_commit_at(results[j], v)),
{
    assert(honest_step(states[i], states[i + 1], results[i]));
    assert(honest_step(states[j], states[j + 1], results[j]));
    if is_prepare_at(results[i], v) && is_prepare_at(results[j], v) {
        lemma_sent_persists(states, results, i, j, v, false);
    }
    if is_commit_at(results[i], v) && is_commit_at(results[j], v) {
        lemma_sent_persists(states, results, i, j, v, true);
    }
}

fn count_rounds(rcs: &Vec<RoundChange>, round: Round) -> (r: usize)
    ensures
        r == count_round(rcs@, round),
{
    let mut i: usize = 0;
    let mut n: usize = 0;
    while i < rcs.len()
        invariant
            i <= rcs@.len(),
            n == count_round(rcs@.subrange(0, i as int), round),
            n <= i,
        decreases rcs@.len() - i,
    {
        proof {
            assert(rcs@.subrange(0, i + 1).drop_last() =~= rcs@.subrange(0, i as int));
        }
        if rcs[i].view.round == round {
            n = n + 1;
        }
        i = i + 1;
    }
    assert(rcs@.subrange(0, i as int) =~= rcs@);
    n
}

fn find_round_change(rcs: &Vec<RoundChange>, rc: &RoundChange) -> (r: bool)
    ensures
        r == exists|j: int|
            0 <= j < rcs@.len() && (#[trigger] rcs@[j]).sender@ == rc.sender@ && rcs@[j].view
                == rc.view,
{
    let mut i: usize = 0;
    while i < rcs.len()
        invariant
            i <= rcs@.len(),
            forall|j: int| 0 <= j < i ==> !((#[trigger] rcs@[j]).sender@ == rc.sender@ && rcs@[j].view == rc.view),
        decreases rcs@.len() - i,
    {
        if rcs[i].view.height == rc.view.height && rcs[i].view.round == rc.view.round && same_bytes(
            rcs[i].sender.as_slice(),
            rc.sender.as_slice(),
        ) {
            return true;
        }
        i = i + 1;
    }
    false
}

proof fn lemma_bytes_deep_view(x: Vec<u8>)
    ensures
        x.deep_view() == x@,
{
    assert(x.deep_view() =~= x@);
}

} // verus!

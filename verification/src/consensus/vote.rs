//! Votes, vote sets and quorum certificates.
//!
//! A `Vote` is one validator's statement about a block at a height, round
//! and phase. A `QuorumCertificate` shows that more than two thirds of the
//! voting power agreed; `ValidatorSet::certify` produces it.

use vstd::prelude::*;
use vstd::std_specs::iter::IteratorSpec;
use crate::consensus::validator::ValidatorId;
use crate::hashing::Hash256;

verus! {

/// The phase of the protocol a vote belongs to.
#[derive(Clone, Copy, Debug, PartialEq, Eq, Structural)]
pub enum VoteType {
    /// The validator is ready to accept a proposed block.
    PreVote,
    /// The validator commits to a block after a PreVote quorum.
    PreCommit,
}

#[derive(Debug, PartialEq, Eq)]
pub struct Vote {
    pub validator: ValidatorId,
    pub height: u64,
    pub round: u32,
    pub block_hash: Hash256,
    pub vote_type: VoteType,
}

impl Clone for Vote {
    fn clone(&self) -> (r: Vote)
        ensures
            r == *self,
    {
        Vote {
            validator: self.validator.clone(),
            height: self.height,
            round: self.round,
            block_hash: self.block_hash,
            vote_type: self.vote_type,
        }
    }
}

/// Votes in the order they arrived.
#[derive(Debug, Default, PartialEq, Eq)]
pub struct VoteSet {
    pub(crate) votes: Vec<Vote>,
}

impl View for VoteSet {
    type V = Seq<Vote>;

    closed spec fn view(&self) -> Seq<Vote> {
        self.votes@
    }
}

impl VoteSet {
    pub fn new() -> (r: VoteSet)
        ensures
            r@ == Seq::<Vote>::empty(),
    {
        VoteSet { votes: Vec::new() }
    }

    pub fn push(&mut self, vote: Vote)
        ensures
            final(self)@ == old(self)@.push(vote),
    {
        self.votes.push(vote);
    }

    pub fn len(&self) -> (r: usize)
        ensures
            r == self@.len(),
    {
        self.votes.len()
    }

    pub fn is_empty(&self) -> (r: bool)
        ensures
            r == (self@.len() == 0),
    {
        self.votes.len() == 0
    }

    /// The votes, in arrival order.
    pub fn votes(&self) -> (r: &[Vote])
        ensures
            r@ == self@,
    {
        self.votes.as_slice()
    }

    /// An iterator over the votes, in arrival order.
    pub fn iter(&self) -> (r: std::slice::Iter<'_, Vote>)
        ensures
            IteratorSpec::remaining(&r) == self@.as_ref(),
    {
        let s = self.votes.as_slice();
        let it = s.iter();
        proof {
            vstd::std_specs::slice::axiom_spec_slice_iter(s);
        }
        it
    }
}

impl Clone for VoteSet {
    fn clone(&self) -> (r: VoteSet)
        ensures
            r@ == self@,
    {
        let mut votes: Vec<Vote> = Vec::new();
        let mut i: usize = 0;
        while i < self.votes.len()
            invariant
                i <= self.votes@.len(),
                votes@ == self.votes@.take(i as int),
            decreases self.votes@.len() - i,
        {
            votes.push(self.votes[i].clone());
            assert(self.votes@.take(i + 1) =~= self.votes@.take(i as int).push(self.votes@[i as int]));
            i = i + 1;
        }
        assert(self.votes@.take(i as int) =~= self.votes@);
        VoteSet { votes }
    }
}

#[derive(Clone, Copy, Debug, PartialEq, Eq)]
pub struct QuorumCertificate {
    pub height: u64,
    pub block_hash: Hash256,
    pub vote_type: VoteType,
    pub signed_power: u64,
}

impl QuorumCertificate {
    /// A PreCommit certificate is what finalises a block.
    pub fn is_commit_qc(&self) -> (r: bool)
        ensures
            r == (self.vote_type == VoteType::PreCommit),
    {
        self.vote_type == VoteType::PreCommit
    }
}

} // verus!

//! The Propose, PreVote, PreCommit, Commit phase machine of one
//! (height, round).

use vstd::prelude::*;
use crate::consensus::error::ConsensusError;
use crate::consensus::validator::{certify_spec, ValidatorId, ValidatorSet};
use crate::consensus::vote::{QuorumCertificate, Vote, VoteSet, VoteType};
use crate::hashing::Hash256;

verus! {

/// The phase within a round.
#[derive(Clone, Copy, Debug, PartialEq, Eq, Structural)]
pub enum Phase {
    /// Waiting for the leader's proposal.
    Propose,
    /// Collecting PreVotes.
    PreVote,
    /// Collecting PreCommits.
    PreCommit,
    /// Block finalised; the height advances.
    Commit,
}

/// The name of a phase.
pub open spec fn phase_name(p: Phase) -> Seq<char> {
    match p {
        Phase::Propose => "Propose"@,
        Phase::PreVote => "PreVote"@,
        Phase::PreCommit => "PreCommit"@,
        Phase::Commit => "Commit"@,
    }
}

impl Phase {
    /// The name of this phase.
    pub fn name(&self) -> (r: &'static str)
        ensures
            r@ == phase_name(*self),
    {
        match self {
            Phase::Propose => "Propose",
            Phase::PreVote => "PreVote",
            Phase::PreCommit => "PreCommit",
            Phase::Commit => "Commit",
        }
    }
}

/// What adding a vote of the expected type to `votes` answers, given
/// what certifying the extended set gave: the certificate when one was
/// reached, nothing while the quorum is short, and any other error.
pub open spec fn vote_outcome(c: Result<QuorumCertificate, ConsensusError>) -> Result<
    Option<QuorumCertificate>,
    ConsensusError,
> {
    match c {
        Ok(qc) => Ok(Some(qc)),
        Err(ConsensusError::InsufficientQuorum { .. }) => Ok(None),
        Err(e) => Err(e),
    }
}

/// The state of one round at one height.
#[derive(Clone, Debug)]
pub struct RoundState {
    pub height: u64,
    pub round: u32,
    pub phase: Phase,
    pub proposed_block_hash: Option<Hash256>,
    pub prevotes: VoteSet,
    pub precommits: VoteSet,
    pub prevote_qc: Option<QuorumCertificate>,
    pub precommit_qc: Option<QuorumCertificate>,
    /// Incremented when a phase times out.
    pub timeout_count: u32,
}

impl RoundState {
    pub fn new(height: u64, round: u32) -> (r: RoundState)
        ensures
            r.height == height,
            r.round == round,
            r.phase == Phase::Propose,
            r.proposed_block_hash is None,
            r.prevotes@ == Seq::<Vote>::empty(),
            r.precommits@ == Seq::<Vote>::empty(),
            r.prevote_qc is None,
            r.precommit_qc is None,
            r.timeout_count == 0,
    {
        RoundState {
            height,
            round,
            phase: Phase::Propose,
            proposed_block_hash: None,
            prevotes: VoteSet::new(),
            precommits: VoteSet::new(),
            prevote_qc: None,
            precommit_qc: None,
            timeout_count: 0,
        }
    }

    /// Accepts the leader's proposal while waiting for one.
    pub fn receive_proposal(&mut self, block_hash: Hash256, leader: &ValidatorId, from: &ValidatorId) -> (r:
        Result<(), ConsensusError>)
        ensures
            old(self).phase != Phase::Propose ==> r == Err::<(), ConsensusError>(
                ConsensusError::UnexpectedPhase { expected: Phase::Propose, actual: old(self).phase },
            ) && *final(self) == *old(self),
            old(self).phase == Phase::Propose && from@ != leader@ ==> r == Err::<(), ConsensusError>(
                ConsensusError::NotTheLeader { expected: *leader, actual: *from },
            ) && *final(self) == *old(self),
            old(self).phase == Phase::Propose && from@ == leader@ ==> r is Ok && *final(self) == (
            RoundState {
                proposed_block_hash: Some(block_hash),
                phase: Phase::PreVote,
                ..*old(self)
            }),
    {
        if self.phase != Phase::Propose {
            return Err(ConsensusError::UnexpectedPhase { expected: Phase::Propose, actual: self.phase });
        }
        if from != leader {
            return Err(ConsensusError::NotTheLeader { expected: leader.clone(), actual: from.clone() });
        }
        self.proposed_block_hash = Some(block_hash);
        self.phase = Phase::PreVote;
        Ok(())
    }

    /// Records a PreVote; answers the certificate once the PreVotes reach
    /// a quorum, which moves the round to PreCommit.
    pub fn add_prevote(&mut self, vote: Vote, validator_set: &ValidatorSet) -> (r: Result<
        Option<QuorumCertificate>,
        ConsensusError,
    >)
        ensures
            vote.vote_type != VoteType::PreVote ==> r == Err::<Option<QuorumCertificate>, ConsensusError>(
                ConsensusError::WrongVoteType,
            ) && *final(self) == *old(self),
            vote.vote_type == VoteType::PreVote ==> ({
                let c = certify_spec(validator_set@, validator_set.total_spec(), old(self).prevotes@.push(vote));
                &&& r == vote_outcome(c)
                &&& final(self).prevotes@ == old(self).prevotes@.push(vote)
                &&& final(self).prevote_qc == (if c is Ok { Some(c->Ok_0) } else { old(self).prevote_qc })
                &&& final(self).phase == (if c is Ok { Phase::PreCommit } else { old(self).phase })
                &&& final(self).height == old(self).height
                &&& final(self).round == old(self).round
                &&& final(self).proposed_block_hash == old(self).proposed_block_hash
                &&& final(self).precommits == old(self).precommits
                &&& final(self).precommit_qc == old(self).precommit_qc
                &&& final(self).timeout_count == old(self).timeout_count
            }),
    {
        if vote.vote_type != VoteType::PreVote {
            return Err(ConsensusError::WrongVoteType);
        }
        self.prevotes.push(vote);
        match validator_set.certify(self.prevotes.clone()) {
            Ok(qc) => {
                self.prevote_qc = Some(qc);
                self.phase = Phase::PreCommit;
                Ok(Some(qc))
            },
            Err(ConsensusError::InsufficientQuorum { .. }) => Ok(None),
            Err(e) => Err(e),
        }
    }

    /// Records a PreCommit; answers the certificate once the PreCommits
    /// reach a quorum, which finalises the block.
    pub fn add_precommit(&mut self, vote: Vote, validator_set: &ValidatorSet) -> (r: Result<
        Option<QuorumCertificate>,
        ConsensusError,
    >)
        ensures
            vote.vote_type != VoteType::PreCommit ==> r == Err::<Option<QuorumCertificate>, ConsensusError>(
                ConsensusError::WrongVoteType,
            ) && *final(self) == *old(self),
            vote.vote_type == VoteType::PreCommit ==> ({
                let c = certify_spec(validator_set@, validator_set.total_spec(), old(self).precommits@.push(vote));
                &&& r == vote_outcome(c)
                &&& final(self).precommits@ == old(self).precommits@.push(vote)
                &&& final(self).precommit_qc == (if c is Ok { Some(c->Ok_0) } else { old(self).precommit_qc })
                &&& final(self).phase == (if c is Ok { Phase::Commit } else { old(self).phase })
                &&& final(self).height == old(self).height
                &&& final(self).round == old(self).round
                &&& final(self).proposed_block_hash == old(self).proposed_block_hash
                &&& final(self).prevotes == old(self).prevotes
                &&& final(self).prevote_qc == old(self).prevote_qc
                &&& final(self).timeout_count == old(self).timeout_count
            }),
    {
        if vote.vote_type != VoteType::PreCommit {
            return Err(ConsensusError::WrongVoteType);
        }
        self.precommits.push(vote);
        match validator_set.certify(self.precommits.clone()) {
            Ok(qc) => {
                self.precommit_qc = Some(qc);
                self.phase = Phase::Commit;
                Ok(Some(qc))
            },
            Err(ConsensusError::InsufficientQuorum { .. }) => Ok(None),
            Err(e) => Err(e),
        }
    }

    pub fn is_committed(&self) -> (r: bool)
        ensures
            r == (self.phase == Phase::Commit),
    {
        self.phase == Phase::Commit
    }
}

} // verus!

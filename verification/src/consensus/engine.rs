//! The per-node consensus driver: the validator set, the current round,
//! the view-change collector and the slashing registry, driven by direct
//! calls.

use vstd::prelude::*;
use crate::consensus::error::ConsensusError;
use crate::consensus::round::{vote_outcome, Phase, RoundState};
use crate::consensus::slashing::{accused, accused_all, SlashingEvidence, SlashingRegistry};
use crate::consensus::validator::{certify_spec, ValidatorId, ValidatorSet};
use crate::consensus::validator::ids_power;
use crate::consensus::safety::{lemma_certificate_backed_by_quorum, lemma_certificate_matches_every_vote};
use crate::consensus::view_change::{
    record_timeout, timeout_voters, view_change_threshold, TimeoutVote, ViewChangeCollector, ViewChangeDecision,
};
use crate::consensus::vote::{QuorumCertificate, Vote, VoteType};
use crate::hashing::Hash256;
use crate::keymap::lookup;

verus! {

pub struct ConsensusEngine {
    pub validator_set: ValidatorSet,
    pub local_validator: ValidatorId,
    pub current_round: RoundState,
    pub committed_height: u64,
    pub view_change: ViewChangeCollector,
    pub slashing: SlashingRegistry,
}

impl ConsensusEngine {
    /// An engine for a validator of the set, starting at round 0 of
    /// `starting_height`.
    pub fn new(validator_set: ValidatorSet, local_validator: ValidatorId, starting_height: u64) -> (r:
        Result<ConsensusEngine, ConsensusError>)
        ensures
            lookup(validator_set@, local_validator@) is None ==> r == Err::<
                ConsensusEngine,
                ConsensusError,
            >(ConsensusError::UnknownValidator),
            lookup(validator_set@, local_validator@) is Some ==> (r matches Ok(e) && e.validator_set@
                == validator_set@ && e.validator_set.total_spec() == validator_set.total_spec()
                && e.local_validator == local_validator && e.current_round.height == starting_height
                && e.current_round.round == 0 && e.current_round.phase == Phase::Propose
                && e.current_round.proposed_block_hash is None && e.current_round.prevotes@.len() == 0
                && e.current_round.precommits@.len() == 0 && e.current_round.prevote_qc is None
                && e.current_round.precommit_qc is None && e.current_round.timeout_count == 0
                && e.committed_height == (
                if starting_height > 0 {
                    starting_height - 1
                } else {
                    0
                }) && e.view_change@.len() == 0 && e.slashing@.len() == 0),
    {
        if !validator_set.contains(&local_validator) {
            return Err(ConsensusError::UnknownValidator);
        }
        Ok(
            ConsensusEngine {
                current_round: RoundState::new(starting_height, 0),
                committed_height: starting_height.saturating_sub(1),
                view_change: ViewChangeCollector::new(),
                slashing: SlashingRegistry::new(),
                validator_set,
                local_validator,
            },
        )
    }

    /// The leader of the current height and round.
    pub fn current_leader(&self) -> (r: &ValidatorId)
        requires
            self.current_round.height + self.current_round.round <= u64::MAX,
        ensures
            r@ == self.validator_set@[((self.current_round.height + self.current_round.round) % (
            self.validator_set@.len() as int))].0,
    {
        self.validator_set.leader(self.current_round.height, self.current_round.round)
    }

    pub fn is_leader(&self) -> (r: bool)
        requires
            self.current_round.height + self.current_round.round <= u64::MAX,
        ensures
            r == (self.local_validator@ == self.validator_set@[((self.current_round.height
                + self.current_round.round) % (self.validator_set@.len() as int))].0),
    {
        *self.current_leader() == self.local_validator
    }

    /// Passes a proposal to the current round, with the current leader as
    /// the expected proposer.
    pub fn receive_proposal(&mut self, block_hash: Hash256, from: &ValidatorId) -> (r: Result<
        (),
        ConsensusError,
    >)
        requires
            old(self).current_round.height + old(self).current_round.round <= u64::MAX,
        ensures
            ({
                let leader = old(self).validator_set@[((old(self).current_round.height + old(
                    self,
                ).current_round.round) % (old(self).validator_set@.len() as int))].0;
                &&& old(self).current_round.phase != Phase::Propose ==> r is Err
                    && final(self).current_round == old(self).current_round
                &&& old(self).current_round.phase == Phase::Propose && from@ != leader ==> r is Err
                    && final(self).current_round == old(self).current_round
                &&& old(self).current_round.phase == Phase::Propose && from@ == leader ==> r is Ok
                    && final(self).current_round == (RoundState {
                    proposed_block_hash: Some(block_hash),
                    phase: Phase::PreVote,
                    ..old(self).current_round
                })
            }),
            r matches Err(e) ==> (e matches ConsensusError::UnexpectedPhase { .. }
                || e matches ConsensusError::NotTheLeader { .. }),
            final(self).validator_set == old(self).validator_set,
            final(self).local_validator == old(self).local_validator,
            final(self).committed_height == old(self).committed_height,
            final(self).view_change == old(self).view_change,
            final(self).slashing == old(self).slashing,
    {
        let leader = self.current_leader().clone();
        self.current_round.receive_proposal(block_hash, &leader, from)
    }

    /// Processes a vote: refused from a slashed validator, otherwise added
    /// to the current round by its type. Answers the certificate when the
    /// vote completes a quorum.
    pub fn receive_vote(&mut self, vote: Vote) -> (r: Result<Option<QuorumCertificate>, ConsensusError>)
        ensures
            accused_all(old(self).slashing@).contains(vote.validator@) ==> r == Err::<
                Option<QuorumCertificate>,
                ConsensusError,
            >(ConsensusError::ValidatorSlashed) && final(self).current_round == old(self).current_round,
            !accused_all(old(self).slashing@).contains(vote.validator@) ==> ({
                let votes = if vote.vote_type == VoteType::PreVote {
                    old(self).current_round.prevotes@
                } else {
                    old(self).current_round.precommits@
                };
                let c = certify_spec(old(self).validator_set@, old(self).validator_set.total_spec(), votes.push(vote));
                let o = old(self).current_round;
                let n = final(self).current_round;
                &&& r == vote_outcome(c)
                &&& n.height == o.height
                &&& n.round == o.round
                &&& n.proposed_block_hash == o.proposed_block_hash
                &&& n.timeout_count == o.timeout_count
                &&& vote.vote_type == VoteType::PreVote ==> {
                    &&& n.prevotes@ == votes.push(vote)
                    &&& n.prevote_qc == (if c is Ok { Some(c->Ok_0) } else { o.prevote_qc })
                    &&& n.phase == (if c is Ok { Phase::PreCommit } else { o.phase })
                    &&& n.precommits == o.precommits
                    &&& n.precommit_qc == o.precommit_qc
                }
                &&& vote.vote_type == VoteType::PreCommit ==> {
                    &&& n.precommits@ == votes.push(vote)
                    &&& n.precommit_qc == (if c is Ok { Some(c->Ok_0) } else { o.precommit_qc })
                    &&& n.phase == (if c is Ok { Phase::Commit } else { o.phase })
                    &&& n.prevotes == o.prevotes
                    &&& n.prevote_qc == o.prevote_qc
                }
            }),
            r matches Ok(Some(qc)) ==> qc.vote_type == vote.vote_type && qc.height == vote.height
                && qc.block_hash@ == vote.block_hash@ && 3 * qc.signed_power > 2
                * old(self).validator_set.total_spec(),
            final(self).validator_set == old(self).validator_set,
            final(self).local_validator == old(self).local_validator,
            final(self).committed_height == old(self).committed_height,
            final(self).view_change == old(self).view_change,
            final(self).slashing == old(self).slashing,
    {
        if self.slashing.is_slashed(&vote.validator) {
            return Err(ConsensusError::ValidatorSlashed);
        }
        self.validator_set.check_valid();
        let ghost v = vote;
        let ghost votes = if vote.vote_type == VoteType::PreVote {
            self.current_round.prevotes@
        } else {
            self.current_round.precommits@
        };
        let r = match vote.vote_type {
            VoteType::PreVote => self.current_round.add_prevote(vote, &self.validator_set),
            VoteType::PreCommit => self.current_round.add_precommit(vote, &self.validator_set),
        };
        proof {
            let e = self.validator_set@;
            let t = self.validator_set.total_spec();
            let all = votes.push(v);
            if certify_spec(e, t, all) is Ok {
                lemma_certificate_matches_every_vote(e, t, all);
                lemma_certificate_backed_by_quorum(e, t, all);
                assert(all[all.len() - 1] == v);
            }
        }
        r
    }

    /// Processes a timeout vote.
    pub fn receive_timeout(&mut self, timeout: TimeoutVote) -> (r: Result<ViewChangeDecision, ConsensusError>)
        ensures
            lookup(old(self).validator_set@, timeout.validator@) is None ==> r == Err::<
                ViewChangeDecision,
                ConsensusError,
            >(ConsensusError::UnknownValidator),
            lookup(old(self).validator_set@, timeout.validator@) is None ==> final(self).view_change@ == old(
                self,
            ).view_change@,
            lookup(old(self).validator_set@, timeout.validator@) is Some ==> ({
                let s = record_timeout(old(self).view_change@, timeout);
                &&& final(self).view_change@ == s
                &&& r == Ok::<ViewChangeDecision, ConsensusError>(
                    if ids_power(old(self).validator_set@, timeout_voters(s)) >= view_change_threshold(
                        old(self).validator_set.total_spec(),
                    ) {
                        ViewChangeDecision::ChangeView
                    } else {
                        ViewChangeDecision::Wait
                    },
                )
            }),
            r == Ok::<ViewChangeDecision, ConsensusError>(ViewChangeDecision::ChangeView) <==> (lookup(
                old(self).validator_set@,
                timeout.validator@,
            ) is Some && 3 * ids_power(old(self).validator_set@, timeout_voters(final(self).view_change@))
                > old(self).validator_set.total_spec()),
            final(self).validator_set == old(self).validator_set,
            final(self).current_round == old(self).current_round,
            final(self).local_validator == old(self).local_validator,
            final(self).committed_height == old(self).committed_height,
            final(self).slashing == old(self).slashing,
    {
        self.view_change.add_timeout(timeout, &self.validator_set)
    }

    /// Moves to the next round at the same height and clears the timeouts.
    pub fn advance_round(&mut self)
        requires
            old(self).current_round.round < u32::MAX,
        ensures
            final(self).current_round.height == old(self).current_round.height,
            final(self).current_round.round == old(self).current_round.round + 1,
            final(self).current_round.phase == Phase::Propose,
            final(self).current_round.proposed_block_hash is None,
            final(self).current_round.prevotes@.len() == 0,
            final(self).current_round.precommits@.len() == 0,
            final(self).current_round.prevote_qc is None,
            final(self).current_round.precommit_qc is None,
            final(self).current_round.timeout_count == 0,
            final(self).view_change@.len() == 0,
            final(self).validator_set == old(self).validator_set,
            final(self).local_validator == old(self).local_validator,
            final(self).committed_height == old(self).committed_height,
            final(self).slashing == old(self).slashing,
    {
        let next_round = self.current_round.round + 1;
        self.current_round = RoundState::new(self.current_round.height, next_round);
        self.view_change = ViewChangeCollector::new();
    }

    /// Commits the current round and moves to round 0 of the next height.
    pub fn commit(&mut self) -> (r: Result<u64, ConsensusError>)
        requires
            old(self).current_round.phase == Phase::Commit ==> old(self).current_round.height < u64::MAX,
        ensures
            old(self).current_round.phase != Phase::Commit ==> r == Err::<u64, ConsensusError>(
                ConsensusError::NotCommitted,
            ) && final(self).current_round == old(self).current_round && final(self).committed_height
                == old(self).committed_height && final(self).view_change == old(self).view_change,
            old(self).current_round.phase == Phase::Commit ==> r == Ok::<u64, ConsensusError>(
                old(self).current_round.height,
            ) && final(self).committed_height == old(self).current_round.height
                && final(self).current_round.height == old(self).current_round.height + 1
                && final(self).current_round.round == 0 && final(self).current_round.phase
                == Phase::Propose && final(self).current_round.proposed_block_hash is None
                && final(self).current_round.prevotes@.len() == 0 && final(self).current_round.precommits@.len()
                == 0 && final(self).current_round.prevote_qc is None && final(self).current_round.precommit_qc is None
                && final(self).current_round.timeout_count == 0 && final(self).view_change@.len() == 0,
            final(self).validator_set == old(self).validator_set,
            final(self).local_validator == old(self).local_validator,
            final(self).slashing == old(self).slashing,
    {
        if !self.current_round.is_committed() {
            return Err(ConsensusError::NotCommitted);
        }
        let committed_height = self.current_round.height;
        self.committed_height = committed_height;
        let next_height = committed_height + 1;
        self.current_round = RoundState::new(next_height, 0);
        self.view_change = ViewChangeCollector::new();
        Ok(committed_height)
    }

    /// Records slashing evidence; answers whether it was new.
    pub fn submit_evidence(&mut self, evidence: SlashingEvidence) -> (r: bool)
        ensures
            r == !accused_all(old(self).slashing@).contains(accused(evidence)),
            final(self).slashing@ == if r {
                old(self).slashing@.push(evidence)
            } else {
                old(self).slashing@
            },
            final(self).validator_set == old(self).validator_set,
            final(self).current_round == old(self).current_round,
            final(self).local_validator == old(self).local_validator,
            final(self).committed_height == old(self).committed_height,
            final(self).view_change == old(self).view_change,
    {
        self.slashing.submit(evidence)
    }
}

} // verus!

//! Consensus errors, shared by all consensus modules.

use vstd::prelude::*;
use vstd::string::*;
use crate::consensus::round::{phase_name, Phase};
use crate::consensus::validator::ValidatorId;
use crate::text::{decimal, push_decimal};

verus! {

#[derive(Clone, Debug, Eq, PartialEq)]
pub enum ConsensusError {
    ConflictingVotes,
    DuplicateValidator,
    DuplicateVote,
    EmptyValidatorSet,
    InsufficientQuorum { signed_power: u64, required_power: u64 },
    InvalidValidatorId,
    NotCommitted,
    NotTheLeader { expected: ValidatorId, actual: ValidatorId },
    UnexpectedPhase { expected: Phase, actual: Phase },
    UnknownValidator,
    ValidatorSlashed,
    VotingPowerOverflow,
    WrongVoteType,
    ZeroVotingPower,
}

/// The human-readable message of an error.
pub open spec fn consensus_error_text(e: ConsensusError) -> Seq<char> {
    match e {
        ConsensusError::ConflictingVotes => "conflicting votes in vote set"@,
        ConsensusError::DuplicateValidator => "duplicate validator id"@,
        ConsensusError::DuplicateVote => "duplicate vote from same validator"@,
        ConsensusError::EmptyValidatorSet => "validator set is empty"@,
        ConsensusError::InsufficientQuorum { signed_power, required_power } => "insufficient quorum: "@
            + decimal(signed_power as nat) + "/"@ + decimal(required_power as nat),
        ConsensusError::InvalidValidatorId => "validator id must not be empty"@,
        ConsensusError::NotCommitted => "round is not in Commit phase"@,
        ConsensusError::NotTheLeader { expected, actual } => "proposal from "@ + actual@
            + ", expected leader "@ + expected@,
        ConsensusError::UnexpectedPhase { expected, actual } => "unexpected phase: expected "@
            + phase_name(expected) + ", got "@ + phase_name(actual),
        ConsensusError::UnknownValidator => "unknown validator"@,
        ConsensusError::ValidatorSlashed => "validator has been slashed"@,
        ConsensusError::VotingPowerOverflow => "voting power overflow"@,
        ConsensusError::WrongVoteType => "wrong vote type for current phase"@,
        ConsensusError::ZeroVotingPower => "validator voting power must be non-zero"@,
    }
}

impl ConsensusError {
    /// The human-readable message of this error.
    pub fn to_string(&self) -> (r: String)
        ensures
            r@ == consensus_error_text(*self),
    {
        let mut s = String::new();
        match self {
            ConsensusError::ConflictingVotes => s.append("conflicting votes in vote set"),
            ConsensusError::DuplicateValidator => s.append("duplicate validator id"),
            ConsensusError::DuplicateVote => s.append("duplicate vote from same validator"),
            ConsensusError::EmptyValidatorSet => s.append("validator set is empty"),
            ConsensusError::InsufficientQuorum { signed_power, required_power } => {
                s.append("insufficient quorum: ");
                push_decimal(&mut s, *signed_power);
                s.append("/");
                push_decimal(&mut s, *required_power);
            },
            ConsensusError::InvalidValidatorId => s.append("validator id must not be empty"),
            ConsensusError::NotCommitted => s.append("round is not in Commit phase"),
            ConsensusError::NotTheLeader { expected, actual } => {
                s.append("proposal from ");
                s.append(actual.as_str());
                s.append(", expected leader ");
                s.append(expected.as_str());
            },
            ConsensusError::UnexpectedPhase { expected, actual } => {
                s.append("unexpected phase: expected ");
                s.append(expected.name());
                s.append(", got ");
                s.append(actual.name());
            },
            ConsensusError::UnknownValidator => s.append("unknown validator"),
            ConsensusError::ValidatorSlashed => s.append("validator has been slashed"),
            ConsensusError::VotingPowerOverflow => s.append("voting power overflow"),
            ConsensusError::WrongVoteType => s.append("wrong vote type for current phase"),
            ConsensusError::ZeroVotingPower => s.append("validator voting power must be non-zero"),
        }
        assert(s@ =~= consensus_error_text(*self));
        s
    }
}

} // verus!

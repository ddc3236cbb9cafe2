//! Tendermint-style BFT consensus: Propose, PreVote, PreCommit, Commit.
//!
//! - `validator`: validator identities, the validator set, leader rotation
//!   and quorum certification
//! - `vote`: votes, vote sets and quorum certificates
//! - `round`: the phase machine of one (height, round)
//! - `view_change`: timeout votes and the view-change decision
//! - `slashing`: misbehaviour evidence
//! - `engine`: the per-node driver tying these together
//! - `error`: the errors shared by all of them

pub mod error;
pub mod validator;
pub mod vote;
pub mod round;
pub mod safety;
pub mod view_change;
pub mod slashing;
pub mod engine;

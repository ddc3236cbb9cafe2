use abyss::consensus::engine::ConsensusEngine;
use abyss::consensus::error::ConsensusError;
use abyss::consensus::round::{Phase, RoundState};
use abyss::consensus::slashing::{SlashingEvidence, SlashingRegistry};
use abyss::consensus::validator::{Validator, ValidatorId, ValidatorSet};
use abyss::consensus::view_change::{TimeoutVote, ViewChangeCollector, ViewChangeDecision};
use abyss::consensus::vote::{Vote, VoteSet, VoteType};
use abyss::hashing::Hash256;

fn vid(s: &str) -> ValidatorId {
    ValidatorId::new(s).unwrap()
}

fn validator(id: &str, power: u64) -> Validator {
    Validator { id: vid(id), voting_power: power }
}

fn hash(byte: u8) -> Hash256 {
    [byte; 32]
}

fn three_validator_set() -> ValidatorSet {
    ValidatorSet::new(vec![validator("alice", 1), validator("bob", 1), validator("carol", 1)]).unwrap()
}

fn vote(id: &str, height: u64, round: u32, block_hash: Hash256, vote_type: VoteType) -> Vote {
    Vote { validator: vid(id), height, round, block_hash, vote_type }
}

// ── engine ──────────────────────────────────────────────────────────────

#[test]
fn engine_identifies_local_leader() {
    let set = three_validator_set();
    let engine = ConsensusEngine::new(set, vid("alice"), 1).unwrap();
    // height=1, round=0 → (1+0)%3 = 1 → bob (not alice)
    assert!(!engine.is_leader());
}

#[test]
fn engine_full_round_commit_advances_height() {
    let set = three_validator_set();
    let leader = set.leader(1, 0).clone();
    let mut engine = ConsensusEngine::new(set, leader.clone(), 1).unwrap();
    let bh = hash(99);

    engine.receive_proposal(bh, &leader).unwrap();

    for id in ["alice", "bob", "carol"] {
        engine.receive_vote(vote(id, 1, 0, bh, VoteType::PreVote)).unwrap();
    }
    for id in ["alice", "bob", "carol"] {
        engine.receive_vote(vote(id, 1, 0, bh, VoteType::PreCommit)).unwrap();
    }

    assert!(engine.current_round.is_committed());
    let committed = engine.commit().unwrap();
    assert_eq!(committed, 1);
    assert_eq!(engine.current_round.height, 2);
    assert_eq!(engine.committed_height, 1);
}

#[test]
fn engine_advance_round_resets_state() {
    let set = three_validator_set();
    let leader = set.leader(1, 0).clone();
    let mut engine = ConsensusEngine::new(set, leader.clone(), 1).unwrap();

    for id in ["alice", "bob"] {
        engine.receive_timeout(TimeoutVote { validator: vid(id), height: 1, round: 0 }).unwrap();
    }
    engine.advance_round();
    assert_eq!(engine.current_round.round, 1);
    assert_eq!(engine.current_round.phase, Phase::Propose);
}

#[test]
fn slashed_validator_votes_are_rejected_by_engine() {
    let set = three_validator_set();
    let leader = set.leader(1, 0).clone();
    let mut engine = ConsensusEngine::new(set, leader.clone(), 1).unwrap();
    let bh = hash(1);

    engine.receive_proposal(bh, &leader).unwrap();
    engine.submit_evidence(SlashingEvidence::DoubleVote {
        validator: vid("alice"),
        height: 1,
        round: 0,
        hash_a: hash(1),
        hash_b: hash(2),
    });

    let result = engine.receive_vote(vote("alice", 1, 0, bh, VoteType::PreVote));
    assert_eq!(result, Err(ConsensusError::ValidatorSlashed));
}

#[test]
fn engine_rejects_vote_from_validator_not_in_set() {
    let set = three_validator_set();
    let leader = set.leader(1, 0).clone();
    let mut engine = ConsensusEngine::new(set, leader.clone(), 1).unwrap();
    let bh = hash(1);
    engine.receive_proposal(bh, &leader).unwrap();

    let outsider_vote = vote("mallory-not-a-validator", 1, 0, bh, VoteType::PreVote);
    let result = engine.receive_vote(outsider_vote);
    assert_eq!(result, Err(ConsensusError::UnknownValidator));
}

// ── round ───────────────────────────────────────────────────────────────

#[test]
fn round_advances_through_phases() {
    let set = three_validator_set();
    let leader = set.leader(1, 0).clone();
    let mut round = RoundState::new(1, 0);
    let bh = hash(42);

    assert_eq!(round.phase, Phase::Propose);
    round.receive_proposal(bh, &leader, &leader).unwrap();
    assert_eq!(round.phase, Phase::PreVote);

    for id in ["alice", "bob", "carol"] {
        round.add_prevote(vote(id, 1, 0, bh, VoteType::PreVote), &set).unwrap();
    }
    assert_eq!(round.phase, Phase::PreCommit);

    for id in ["alice", "bob", "carol"] {
        round.add_precommit(vote(id, 1, 0, bh, VoteType::PreCommit), &set).unwrap();
    }
    assert_eq!(round.phase, Phase::Commit);
    assert!(round.is_committed());
}

#[test]
fn proposal_from_wrong_validator_is_rejected() {
    let set = three_validator_set();
    let leader = set.leader(1, 0).clone();
    let mut round = RoundState::new(1, 0);
    let non_leader = set.validator_ids().iter().find(|id| *id != &leader).unwrap().clone();
    let result = round.receive_proposal(hash(1), &leader, &non_leader);
    assert!(matches!(result, Err(ConsensusError::NotTheLeader { .. })));
}

// ── slashing ────────────────────────────────────────────────────────────

#[test]
fn slashing_registry_accepts_new_evidence() {
    let mut reg = SlashingRegistry::new();
    let evidence = SlashingEvidence::DoubleVote {
        validator: vid("alice"),
        height: 1,
        round: 0,
        hash_a: hash(1),
        hash_b: hash(2),
    };
    assert!(reg.submit(evidence));
    assert!(reg.is_slashed(&vid("alice")));
}

#[test]
fn slashing_registry_deduplicates() {
    let mut reg = SlashingRegistry::new();
    let e1 = SlashingEvidence::DoubleVote {
        validator: vid("alice"),
        height: 1,
        round: 0,
        hash_a: hash(1),
        hash_b: hash(2),
    };
    let e2 = SlashingEvidence::DoubleProposal {
        validator: vid("alice"),
        height: 2,
        round: 0,
        hash_a: hash(3),
        hash_b: hash(4),
    };
    assert!(reg.submit(e1));
    assert!(!reg.submit(e2));
    assert_eq!(reg.pending_evidence().len(), 1);
}

// ── validator set ───────────────────────────────────────────────────────

#[test]
fn quorum_requires_strictly_more_than_two_thirds() {
    let set = three_validator_set();
    assert_eq!(set.quorum_power(), 3);
}

#[test]
fn quorum_with_four_validators() {
    let set = ValidatorSet::new(vec![
        validator("a", 1),
        validator("b", 1),
        validator("c", 1),
        validator("d", 1),
    ])
    .unwrap();
    assert_eq!(set.quorum_power(), 3);
}

#[test]
fn certifies_matching_votes_with_quorum() {
    let set = three_validator_set();
    let bh = hash(7);
    let mut votes = VoteSet::new();
    for id in ["alice", "bob", "carol"] {
        votes.push(vote(id, 1, 0, bh, VoteType::PreCommit));
    }
    let qc = set.certify(votes).unwrap();
    assert_eq!(qc.height, 1);
    assert_eq!(qc.block_hash, bh);
    assert!(qc.is_commit_qc());
}

#[test]
fn rejects_conflicting_block_hashes() {
    let set = ValidatorSet::new(vec![validator("a", 2), validator("b", 2)]).unwrap();
    let mut votes = VoteSet::new();
    votes.push(vote("a", 1, 0, hash(1), VoteType::PreVote));
    votes.push(vote("b", 1, 0, hash(2), VoteType::PreVote));
    assert_eq!(set.certify(votes), Err(ConsensusError::ConflictingVotes));
}

#[test]
fn rejects_duplicate_votes() {
    let set = three_validator_set();
    let bh = hash(1);
    let mut votes = VoteSet::new();
    votes.push(vote("alice", 1, 0, bh, VoteType::PreVote));
    votes.push(vote("alice", 1, 0, bh, VoteType::PreVote));
    assert_eq!(set.certify(votes), Err(ConsensusError::DuplicateVote));
}

#[test]
fn leader_rotates_deterministically() {
    let set = three_validator_set();
    let l0 = set.leader(0, 0).as_str().to_string();
    let l1 = set.leader(1, 0).as_str().to_string();
    let l2 = set.leader(2, 0).as_str().to_string();
    let l3 = set.leader(3, 0).as_str().to_string();
    assert_ne!(l0, l1);
    assert_ne!(l1, l2);
    assert_eq!(l0, l3);
}

#[test]
fn round_bump_changes_leader() {
    let set = three_validator_set();
    let leader_r0 = set.leader(1, 0).clone();
    let leader_r1 = set.leader(1, 1).clone();
    assert_ne!(leader_r0, leader_r1);
}

#[test]
fn byzantine_minority_alone_cannot_reach_quorum() {
    // 4 validators; at most 1 may be Byzantine (f < n/3).
    let set = ValidatorSet::new(vec![
        validator("a", 1),
        validator("b", 1),
        validator("c", 1),
        validator("d", 1),
    ])
    .unwrap();
    let bh = hash(1);
    let mut malicious_votes = VoteSet::new();
    malicious_votes.push(vote("a", 1, 0, bh, VoteType::PreCommit));
    let result = set.certify(malicious_votes);
    assert!(matches!(result, Err(ConsensusError::InsufficientQuorum { signed_power: 1, .. })));
}

#[test]
fn two_conflicting_blocks_cannot_both_reach_quorum_with_honest_majority() {
    // 4 validators (3 honest, 1 Byzantine — "carol").
    let set = ValidatorSet::new(vec![
        validator("alice", 1),
        validator("bob", 1),
        validator("carol", 1),
        validator("dave", 1),
    ])
    .unwrap();
    let block_a = hash(0xAA);
    let block_b = hash(0xBB);

    let mut votes_for_a = VoteSet::new();
    for id in ["alice", "bob", "dave"] {
        votes_for_a.push(vote(id, 1, 0, block_a, VoteType::PreCommit));
    }
    assert!(set.certify(votes_for_a).is_ok(), "honest majority must certify block_a");

    let mut votes_for_b = VoteSet::new();
    votes_for_b.push(vote("carol", 1, 0, block_b, VoteType::PreCommit));
    assert!(matches!(set.certify(votes_for_b), Err(ConsensusError::InsufficientQuorum { .. })));
}

// ── view change ─────────────────────────────────────────────────────────

#[test]
fn view_change_triggers_when_third_of_power_times_out() {
    let set = ValidatorSet::new(vec![
        validator("a", 10),
        validator("b", 10),
        validator("c", 10),
        validator("d", 10),
    ])
    .unwrap(); // total = 40, trigger at >13
    let mut collector = ViewChangeCollector::new();

    let t1 = collector.add_timeout(TimeoutVote { validator: vid("a"), height: 1, round: 0 }, &set).unwrap();
    assert_eq!(t1, ViewChangeDecision::Wait); // 10/40

    let t2 = collector.add_timeout(TimeoutVote { validator: vid("b"), height: 1, round: 0 }, &set).unwrap();
    assert_eq!(t2, ViewChangeDecision::ChangeView); // 20/40 > 13.3
}

#[test]
fn byzantine_minority_below_one_third_cannot_force_view_change() {
    // A single Byzantine validator (10/40 power) claiming timeout
    // must NOT be enough to force the honest network into a view change.
    let set = ValidatorSet::new(vec![
        validator("a", 10),
        validator("b", 10),
        validator("c", 10),
        validator("d", 10),
    ])
    .unwrap();
    let mut collector = ViewChangeCollector::new();

    let decision = collector.add_timeout(TimeoutVote { validator: vid("a"), height: 1, round: 0 }, &set).unwrap();
    assert_eq!(decision, ViewChangeDecision::Wait);
}

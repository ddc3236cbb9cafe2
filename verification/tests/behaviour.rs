use abyss::address::{Address, AddressError};
use abyss::chain::{ApplyError, Chain, ChainConfig};
use abyss::coin::Coin;
use abyss::consensus::error::ConsensusError;
use abyss::consensus::engine::ConsensusEngine;
use abyss::consensus::round::Phase;
use abyss::consensus::view_change::{TimeoutVote, ViewChangeDecision};
use abyss::consensus::validator::{Validator, ValidatorId, ValidatorSet};
use abyss::consensus::vote::{Vote, VoteSet, VoteType};
use abyss::crypto_adapter::{Ed25519Keypair, Ed25519Verifier};
use abyss::crypto_api::{Keypair, Signer, Verifier};
use abyss::genesis::{GenesisConfig, GenesisError};
use abyss::mempool::Mempool;
use abyss::social::{AgentActivityWindow, AgentSocialAction, AgentSocialPolicy, DevFeed, Visibility};
use abyss::state::{State, StateError};
use abyss::storage::{init_devnet_chain, StorageError};
use abyss::tokenomics::{
    usd_cents_to_string, InvestorProfile, KycStatus, SaleRound, TeamVesting, TokenomicsError, VestingSchedule,
};
use abyss::transaction::Transaction;
use abyss::wallet::{AgentPermission, AgentPolicy};

fn addr(s: &str) -> Address {
    Address::new(s).unwrap()
}

fn vid(s: &str) -> ValidatorId {
    ValidatorId::new(s).unwrap()
}

fn set_of(powers: &[(&str, u64)]) -> ValidatorSet {
    ValidatorSet::new(powers.iter().map(|(id, p)| Validator { id: vid(id), voting_power: *p }).collect()).unwrap()
}

fn precommit(id: &str, block: u8) -> Vote {
    Vote { validator: vid(id), height: 1, round: 0, block_hash: [block; 32], vote_type: VoteType::PreCommit }
}

// ── messages ────────────────────────────────────────────────────────────

#[test]
fn error_messages() {
    assert_eq!(AddressError::InvalidCharacter(' ').to_string(), "address contains invalid character ' '");
    assert_eq!(AddressError::Empty.to_string(), "address is empty");
    assert_eq!(
        ApplyError::InvalidNonce { expected: 0, actual: 3 }.to_string(),
        "invalid nonce: expected 0, got 3"
    );
    assert_eq!(
        StateError::InsufficientFunds { available: Coin::from_micro_ac(5).unwrap(), required: Coin::from_ac(1).unwrap() }
            .to_string(),
        "insufficient funds: have 0.00000005 AC, need 1.00000000 AC"
    );
    assert_eq!(
        ConsensusError::InsufficientQuorum { signed_power: 1, required_power: 3 }.to_string(),
        "insufficient quorum: 1/3"
    );
    assert_eq!(
        ConsensusError::UnexpectedPhase { expected: Phase::PreVote, actual: Phase::Commit }.to_string(),
        "unexpected phase: expected PreVote, got Commit"
    );
    assert_eq!(GenesisError::SupplyOverflow.name(), "SupplyOverflow");
    assert_eq!(usd_cents_to_string(125_050), "$1250.50");
    assert_eq!(usd_cents_to_string(5), "$0.05");
}

#[test]
fn address_errors_in_order() {
    assert_eq!(Address::new(""), Err(AddressError::Empty));
    assert_eq!(Address::new(&"a".repeat(97)), Err(AddressError::TooLong));
    assert_eq!(Address::new("ok:name_-9"), Ok(addr("ok:name_-9")));
    assert_eq!(Address::new("x/y"), Err(AddressError::InvalidCharacter('/')));
}

#[test]
fn coin_arithmetic_stays_within_supply() {
    let max = Coin::max_supply();
    assert_eq!(max.checked_add(Coin::from_micro_ac(1).unwrap()), None);
    assert_eq!(Coin::zero().checked_sub(Coin::from_micro_ac(1).unwrap()), None);
    assert_eq!(Coin::from_micro_ac(5_500_000_000_000_001), None);
    assert_eq!(Coin::from_ac(2).unwrap() + Coin::from_ac(3).unwrap(), Coin::from_ac(5));
    assert_eq!(Coin::zero() - Coin::from_ac(1).unwrap(), None);
}

// ── ledger ──────────────────────────────────────────────────────────────

#[test]
fn transaction_checks_in_order() {
    let mut chain =
        Chain::from_genesis(ChainConfig::default(), GenesisConfig::single_treasury(addr("treasury")), 0).unwrap();
    let zero = Transaction::new(addr("treasury"), addr("alice"), Coin::zero(), Coin::zero(), 0);
    assert_eq!(chain.apply_transaction(&zero), Err(ApplyError::ZeroAmount));
    let own = Transaction::new(addr("treasury"), addr("treasury"), Coin::from_ac(1).unwrap(), Coin::zero(), 0);
    assert_eq!(chain.apply_transaction(&own), Err(ApplyError::SelfTransfer));
    let broke = Transaction::new(addr("alice"), addr("bob"), Coin::from_ac(1).unwrap(), Coin::zero(), 0);
    assert!(matches!(chain.apply_transaction(&broke), Err(ApplyError::InsufficientFunds { .. })));
    assert_eq!(chain.next_nonce(&addr("alice")), 0);
}

#[test]
fn genesis_over_the_supply_is_refused() {
    let config = GenesisConfig { allocations: vec![(addr("a"), Coin::max_supply()), (addr("b"), Coin::from_ac(1).unwrap())] };
    assert_eq!(config.total_allocated(), None);
    assert_eq!(config.validate(), Err(GenesisError::SupplyOverflow));
    assert!(matches!(
        Chain::from_genesis(ChainConfig::default(), config, 0),
        Err(ApplyError::Genesis(GenesisError::SupplyOverflow))
    ));
}

#[test]
fn credit_beyond_the_supply_overflows() {
    let mut s = State::new();
    s.credit(&addr("alice"), Coin::max_supply()).unwrap();
    assert_eq!(s.credit(&addr("alice"), Coin::from_micro_ac(1).unwrap()), Err(StateError::BalanceOverflow));
    assert_eq!(s.balance_of(&addr("alice")), Coin::max_supply());
}

#[test]
fn raw_state_with_bad_address_is_refused() {
    let restored = State::from_raw(vec![("bad address".to_string(), 1)], Vec::new());
    assert!(matches!(restored, Err(StateError::Address(AddressError::InvalidCharacter(' ')))));
}

#[test]
fn mempool_find_after_insert_and_remove() {
    let mut pool = Mempool::new();
    let tx = Transaction::new(addr("alice"), addr("bob"), Coin::from_ac(1).unwrap(), Coin::zero(), 0);
    let id = pool.insert(tx.clone()).unwrap();
    assert!(pool.contains(&id));
    assert_eq!(pool.remove(&id), Some(tx));
    assert!(!pool.contains(&id));
    assert_eq!(pool.remove(&id), None);
    assert!(pool.is_empty());
}

// ── snapshots and hex ───────────────────────────────────────────────────

#[test]
fn snapshot_hashes_must_be_hex_of_the_right_length() {
    let chain = init_devnet_chain(5).unwrap();
    assert_eq!(chain.balance_of(&addr("abyss1dev_treasury")), Coin::max_supply());

    let mut short = chain.to_snapshot();
    short.blocks[0].previous_hash = "00".to_string();
    assert!(matches!(
        Chain::from_snapshot(short),
        Err(StorageError::Serde(m)) if m == "hash hex must be 64 characters"
    ));

    let mut bad = chain.to_snapshot();
    bad.blocks[0].state_root = "zz".repeat(32);
    assert!(matches!(
        Chain::from_snapshot(bad),
        Err(StorageError::Serde(m)) if m == "invalid digit found in string"
    ));

    let mut upper = chain.to_snapshot();
    upper.blocks[0].previous_hash = "AB".repeat(32);
    let restored = Chain::from_snapshot(upper).unwrap();
    assert_eq!(restored.blocks()[0].header.previous_hash, [0xAB; 32]);
}

// ── consensus laws on concrete values ───────────────────────────────────

#[test]
fn two_quorums_share_more_than_a_third_of_the_power() {
    let set = set_of(&[("a", 3), ("b", 3), ("c", 2), ("d", 2)]); // total 10, quorum 7
    assert_eq!(set.quorum_power(), 7);
    let mut first = VoteSet::new();
    for id in ["a", "b", "c"] {
        first.push(precommit(id, 1));
    }
    let mut second = VoteSet::new();
    for id in ["a", "b", "d"] {
        second.push(precommit(id, 2));
    }
    let qc1 = set.certify(first).unwrap();
    let qc2 = set.certify(second).unwrap();
    // common voters a and b hold 6 > 10/3
    assert_eq!(qc1.signed_power, 8);
    assert_eq!(qc2.signed_power, 8);
}

#[test]
fn validator_set_rejections() {
    assert_eq!(ValidatorSet::new(Vec::new()), Err(ConsensusError::EmptyValidatorSet));
    assert_eq!(ValidatorId::new(""), Err(ConsensusError::InvalidValidatorId));
    let zero = ValidatorSet::new(vec![Validator { id: vid("a"), voting_power: 0 }]);
    assert_eq!(zero, Err(ConsensusError::ZeroVotingPower));
    let dup = ValidatorSet::new(vec![
        Validator { id: vid("a"), voting_power: 1 },
        Validator { id: vid("a"), voting_power: 1 },
    ]);
    assert_eq!(dup, Err(ConsensusError::DuplicateValidator));
    let over = ValidatorSet::new(vec![
        Validator { id: vid("a"), voting_power: u64::MAX },
        Validator { id: vid("b"), voting_power: 1 },
    ]);
    assert_eq!(over, Err(ConsensusError::VotingPowerOverflow));
}

#[test]
fn wrong_vote_type_in_a_set_is_refused() {
    let set = set_of(&[("a", 1)]);
    let mut votes = VoteSet::new();
    votes.push(precommit("a", 1));
    votes.push(Vote { validator: vid("a"), height: 1, round: 0, block_hash: [1; 32], vote_type: VoteType::PreVote });
    assert!(set.certify(votes).is_err());
}

// ── wallet, social, tokenomics laws on concrete values ──────────────────

#[test]
fn revoked_agent_may_send_nothing() {
    let mut policy = AgentPolicy::default();
    policy.grant(AgentPermission::ExecuteLimitedTrades);
    policy.set_agent_trade_limit(Coin::from_ac(5).unwrap());
    policy.revoke(AgentPermission::ExecuteLimitedTrades);
    assert!(!policy.transaction_allowed(Coin::from_micro_ac(1).unwrap()));
    assert!(!policy.transaction_allowed(Coin::zero()));
    let account = abyss::wallet::WalletAccount::from_dev_seed("a", b"a");
    let zero_payment = account.create_agent_payment(addr("bob"), Coin::zero(), Coin::zero(), 0);
    assert_eq!(zero_payment, Err(abyss::wallet::WalletError::PolicyRejected));
    policy.grant(AgentPermission::ReadPortfolio);
    assert_eq!(policy.permissions().iter().filter(|p| **p == AgentPermission::ReadPortfolio).count(), 1);
}

#[test]
fn agent_window_never_exceeds_its_cap() {
    let policy = AgentSocialPolicy::full_posting_default();
    let mut window = AgentActivityWindow::new(0);
    let accepted = (0..20).filter(|i| window.record_post(&policy, AgentSocialAction::Reply, *i).is_ok()).count();
    assert_eq!(accepted, 5);
}

#[test]
fn feed_numbers_posts_by_position() {
    let mut feed = DevFeed::new();
    for i in 0..4u64 {
        let id = feed.publish("abyss1a", "x", Visibility::Attributed, i).unwrap();
        assert_eq!(id.0, i);
    }
    assert_eq!(feed.by_author("abyss1a").len(), 4);
    assert!(feed.get(abyss::social::PostId(4)).is_none());
}

#[test]
fn vesting_never_goes_backwards_and_never_exceeds_the_total() {
    let s = VestingSchedule::linear(6, 24);
    let total = Coin::from_ac(2_400).unwrap();
    let mut last = Coin::zero();
    for m in 0..40u16 {
        let now = s.unlocked_amount(total, m);
        assert!(now >= last);
        assert!(now <= total);
        last = now;
    }
    assert_eq!(s.unlocked_amount(total, 5), Coin::zero());
    assert_eq!(s.unlocked_amount(total, 12), Coin::from_ac(1_200).unwrap());
    assert_eq!(s.unlocked_amount(total, 24), total);
    let team = TeamVesting::abyss_default();
    assert_eq!(team.total_unlocked(6), Coin::from_ac(7_500_000).unwrap());
    assert_eq!(team.unlocked_in_year(0), Coin::zero());
    assert_eq!(team.unlocked_in_year(5), Coin::zero());
    assert_eq!(team.unlocked_in_year(u16::MAX), Coin::zero());
}

#[test]
fn contribution_checks_come_in_order() {
    let round = SaleRound::new("Sale Stage 1", 5_000_000, 300, 0, 0);
    let mut investor = InvestorProfile {
        investor_id: "i".to_string(),
        jurisdiction: "EU".to_string(),
        kyc_status: KycStatus::Rejected,
        accredited_or_professional: false,
        max_contribution_usd_cents: 100,
    };
    assert_eq!(investor.eligible_for(&round), Err(TokenomicsError::InvestorNotApproved));
    investor.kyc_status = KycStatus::Approved;
    assert_eq!(investor.eligible_for(&round), Ok(()));
    let receipt = abyss::tokenomics::ContributionReceipt::create(&investor, &round, 200);
    assert_eq!(receipt, Err(TokenomicsError::ContributionExceedsInvestorLimit));
    let free = SaleRound::new("Free", 1, 0, 0, 0);
    assert_eq!(free.id, "custom");
    assert_eq!(free.tokens_for_usd_cents(1), Err(TokenomicsError::InvalidRoundPrice));
    assert_eq!(round.tokens_for_usd_cents(1_500_000_001), Err(TokenomicsError::ContributionExceedsRoundCap));
}

// ── Ed25519 ─────────────────────────────────────────────────────────────

#[test]
fn tampered_signature_fails_and_keys_differ() {
    let kp = Ed25519Keypair::generate();
    let other = Ed25519Keypair::generate();
    let mut sig = kp.sign(b"m");
    assert!(Ed25519Verifier::verify(kp.public(), b"m", &sig));
    assert!(!Ed25519Verifier::verify(other.public(), b"m", &sig));
    sig[0] ^= 1;
    assert!(!Ed25519Verifier::verify(kp.public(), b"m", &sig));
    assert_ne!(kp.public(), kp.secret());
    let again = Ed25519Keypair::from_signing_key(ed25519_dalek::SigningKey::from_bytes(kp.secret()));
    assert_eq!(again.public(), kp.public());
    assert_eq!(again.sign(b"m"), kp.sign(b"m"));
}

#[test]
fn fees_are_burned_and_no_coin_is_created() {
    let mut chain =
        Chain::from_genesis(ChainConfig::default(), GenesisConfig::single_treasury(addr("treasury")), 0).unwrap();
    let total = |c: &Chain| c.snapshot_state().0.iter().map(|(_, v)| *v as u128).sum::<u128>();
    assert_eq!(total(&chain), 5_500_000_000_000_000);
    let t1 = Transaction::new(addr("treasury"), addr("alice"), Coin::from_ac(10).unwrap(), Coin::from_micro_ac(100).unwrap(), 0);
    let t2 = Transaction::new(addr("alice"), addr("bob"), Coin::from_ac(4).unwrap(), Coin::from_micro_ac(7).unwrap(), 0);
    chain.produce_block("p", 1, vec![t1, t2]).unwrap();
    assert_eq!(total(&chain), 5_500_000_000_000_000 - 107);
}

#[test]
fn engine_records_timeouts_and_round_progress() {
    let set = set_of(&[("a", 1), ("b", 1), ("c", 1)]);
    let leader = set.leader(1, 0).clone();
    let mut engine = ConsensusEngine::new(set, leader.clone(), 1).unwrap();
    let first = engine.receive_timeout(TimeoutVote { validator: vid("a"), height: 1, round: 0 }).unwrap();
    assert_eq!(first, ViewChangeDecision::Wait);
    let again = engine.receive_timeout(TimeoutVote { validator: vid("a"), height: 1, round: 0 }).unwrap();
    assert_eq!(again, ViewChangeDecision::Wait);
    assert_eq!(engine.view_change.timeout_count(), 1);
    let second = engine.receive_timeout(TimeoutVote { validator: vid("b"), height: 1, round: 0 }).unwrap();
    assert_eq!(second, ViewChangeDecision::ChangeView);
    assert_eq!(engine.view_change.timeout_count(), 2);

    engine.receive_proposal([5; 32], &leader).unwrap();
    let prevote = |id: &str| Vote { validator: vid(id), height: 1, round: 0, block_hash: [5; 32], vote_type: VoteType::PreVote };
    assert_eq!(engine.receive_vote(prevote("a")), Ok(None));
    assert_eq!(engine.current_round.phase, Phase::PreVote);
    assert_eq!(engine.receive_vote(prevote("b")), Ok(None));
    let qc = engine.receive_vote(prevote("c")).unwrap().unwrap();
    assert_eq!(engine.current_round.phase, Phase::PreCommit);
    assert_eq!(engine.current_round.prevote_qc, Some(qc));
    assert!(engine.current_round.precommit_qc.is_none());
}

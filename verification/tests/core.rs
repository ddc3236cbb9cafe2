use abyss::address::{Address, AddressError};
use abyss::block::Block;
use abyss::chain::{ApplyError, Chain, ChainConfig};
use abyss::coin::Coin;
use abyss::genesis::GenesisConfig;
use abyss::hashing::{dev_hash, hex, merkle_root, push_bytes, push_str, Hash256, ZERO_HASH};
use abyss::mempool::{Mempool, MempoolError};
use abyss::state::{State, StateError};
use abyss::transaction::Transaction;

fn addr(s: &str) -> Address {
    Address::new(s).unwrap()
}

fn tx(nonce: u64) -> Transaction {
    Transaction::new(addr("alice"), addr("bob"), Coin::from_ac(1).unwrap(), Coin::zero(), nonce)
}

fn leaf(n: u8) -> Hash256 {
    let mut h = ZERO_HASH;
    h[0] = n;
    h
}

fn chain() -> Chain {
    let treasury = addr("treasury");
    Chain::from_genesis(ChainConfig::default(), GenesisConfig::single_treasury(treasury), 0).unwrap()
}

// ── address ─────────────────────────────────────────────────────────────

#[test]
fn address_accepts_devnet_names() {
    let address = Address::new("abyss:dev:treasury").unwrap();
    assert_eq!(address.as_str(), "abyss:dev:treasury");
}

#[test]
fn address_rejects_spaces() {
    assert!(matches!(Address::new("bad address"), Err(AddressError::InvalidCharacter(' '))));
}

// ── block ───────────────────────────────────────────────────────────────

#[test]
fn empty_block_root_is_zero_and_matches_genesis() {
    let block = Block::new(1, ZERO_HASH, ZERO_HASH, 0, "proposer", Vec::new());
    assert_eq!(block.header.transactions_root, ZERO_HASH);
    assert_eq!(block.header.transactions_root, Block::genesis(0, "proposer").header.transactions_root);
    assert!(block.transactions_root_is_valid());
}

#[test]
fn root_uses_merkle_tree_not_flat_hash() {
    let txs = vec![tx(1), tx(2), tx(3)];
    let block = Block::new(1, ZERO_HASH, ZERO_HASH, 0, "proposer", txs.clone());

    let leaves: Vec<Hash256> = txs.iter().map(|t| t.id().0).collect();
    assert_eq!(block.header.transactions_root, merkle_root(&leaves));
    // Regression guard: it must not be a flat hash of the identifiers.
    let flat: Vec<u8> = leaves.iter().flatten().copied().collect();
    assert_ne!(block.header.transactions_root, dev_hash(&flat));
}

#[test]
fn reordering_transactions_changes_root() {
    let a = Block::new(1, ZERO_HASH, ZERO_HASH, 0, "p", vec![tx(1), tx(2)]);
    let b = Block::new(1, ZERO_HASH, ZERO_HASH, 0, "p", vec![tx(2), tx(1)]);
    assert_ne!(a.header.transactions_root, b.header.transactions_root);
}

#[test]
fn tampered_body_fails_validation() {
    let mut block = Block::new(1, ZERO_HASH, ZERO_HASH, 0, "p", vec![tx(1), tx(2)]);
    assert!(block.transactions_root_is_valid());
    block.transactions.push(tx(3));
    assert!(!block.transactions_root_is_valid());
}

// ── chain ───────────────────────────────────────────────────────────────

#[test]
fn genesis_starts_at_height_zero() {
    assert_eq!(chain().height(), 0);
}

#[test]
fn transfer_updates_balances_and_nonce() {
    let mut chain = chain();
    let treasury = addr("treasury");
    let alice = addr("alice");
    let tx = Transaction::new(
        treasury.clone(),
        alice.clone(),
        Coin::from_ac(10).unwrap(),
        Coin::from_micro_ac(100).unwrap(),
        0,
    );
    chain.produce_block("validator-1", 1_000, vec![tx]).unwrap();

    assert_eq!(chain.height(), 1);
    assert_eq!(chain.next_nonce(&treasury), 1);
    assert_eq!(chain.balance_of(&alice), Coin::from_ac(10).unwrap());
}

#[test]
fn rejects_replay_nonce() {
    let mut chain = chain();
    let treasury = addr("treasury");
    let alice = addr("alice");
    let tx = Transaction::new(treasury, alice, Coin::from_ac(1).unwrap(), Coin::zero(), 1);
    assert!(matches!(
        chain.produce_block("v1", 1_000, vec![tx]),
        Err(ApplyError::InvalidNonce { expected: 0, actual: 1 })
    ));
}

#[test]
fn block_application_is_atomic() {
    let mut chain = chain();
    let treasury = addr("treasury");
    let alice = addr("alice");
    let bob = addr("bob");
    let valid = Transaction::new(treasury.clone(), alice.clone(), Coin::from_ac(1).unwrap(), Coin::zero(), 0);
    // invalid: same nonce as valid (would be a replay)
    let invalid = Transaction::new(treasury.clone(), bob, Coin::from_ac(1).unwrap(), Coin::zero(), 0);
    assert!(chain.produce_block("v1", 1_000, vec![valid, invalid]).is_err());
    assert_eq!(chain.height(), 0);
    assert_eq!(chain.next_nonce(&treasury), 0);
    assert_eq!(chain.balance_of(&alice), Coin::zero());
}

#[test]
fn apply_block_validates_height_and_previous_hash() {
    let mut proposer_chain = chain();
    let treasury = addr("treasury");
    let alice = addr("alice");
    let tx = Transaction::new(treasury, alice, Coin::from_ac(5).unwrap(), Coin::zero(), 0);
    // Proposer produces block
    proposer_chain.produce_block("proposer", 1_000, vec![tx.clone()]).unwrap();
    let block = proposer_chain.blocks().last().unwrap().clone();

    // Validator applies the same block
    let mut validator_chain = chain();
    validator_chain.apply_block(block).unwrap();

    assert_eq!(validator_chain.height(), 1);
    assert_eq!(validator_chain.balance_of(&addr("alice")), Coin::from_ac(5).unwrap());
    // Tips must match after same sequence
    assert_eq!(proposer_chain.tip_hash(), validator_chain.tip_hash());
}

#[test]
fn apply_block_rejects_wrong_height() {
    let mut chain = chain();
    let treasury = addr("treasury");
    let alice = addr("alice");
    let tx = Transaction::new(treasury, alice, Coin::from_ac(1).unwrap(), Coin::zero(), 0);
    let mut other = chain.clone();
    other.produce_block("proposer", 1_000, vec![tx]).unwrap();
    let block_h1 = other.blocks().last().unwrap().clone();

    // Try to apply block at height 1 to a chain already at height 1
    chain.apply_block(block_h1.clone()).unwrap();
    let result = chain.apply_block(block_h1);
    assert!(matches!(result, Err(ApplyError::UnexpectedBlockHeight { .. })));
}

#[test]
fn state_root_is_consistent_between_proposer_and_validator() {
    let mut proposer = chain();
    let mut validator = chain();
    let treasury = addr("treasury");
    let alice = addr("alice");
    let tx = Transaction::new(treasury, alice, Coin::from_ac(10).unwrap(), Coin::zero(), 0);

    proposer.produce_block("proposer", 1_000, vec![tx.clone()]).unwrap();
    let block = proposer.blocks().last().unwrap().clone();
    validator.apply_block(block).unwrap();

    assert_eq!(proposer.state_root(), validator.state_root());
}

// ── coin ────────────────────────────────────────────────────────────────

#[test]
fn supply_is_capped_at_55m_ac() {
    assert_eq!(Coin::max_supply().micro_ac(), 5_500_000_000_000_000);
    assert!(Coin::from_ac(55_000_000).is_some());
    assert!(Coin::from_ac(55_000_001).is_none());
}

#[test]
fn display_formats_micro_units() {
    assert_eq!(Coin::from_micro_ac(123_456_789).unwrap().to_string(), "1.23456789 AC");
}

// ── genesis ─────────────────────────────────────────────────────────────

#[test]
fn single_treasury_allocates_full_supply() {
    let config = GenesisConfig::single_treasury(addr("treasury"));
    assert_eq!(config.total_allocated(), Some(Coin::max_supply()));
    assert_eq!(config.validate(), Ok(()));
}

// ── hashing ─────────────────────────────────────────────────────────────

#[test]
fn empty_tree_is_zero_hash() {
    assert_eq!(merkle_root(&[]), ZERO_HASH);
}

#[test]
fn single_leaf_root_is_domain_separated_leaf() {
    // A single-leaf tree is just that leaf hashed under the leaf domain,
    // and it must differ from the raw leaf value.
    let root = merkle_root(&[leaf(1)]);
    let mut enc: Vec<u8> = Vec::new();
    push_str(&mut enc, "abyss:merkle:leaf:v0");
    push_bytes(&mut enc, &leaf(1));
    assert_eq!(root, dev_hash(&enc));
    assert_ne!(root, leaf(1));
}

#[test]
fn root_is_order_sensitive() {
    let a = merkle_root(&[leaf(1), leaf(2)]);
    let b = merkle_root(&[leaf(2), leaf(1)]);
    assert_ne!(a, b);
}

#[test]
fn root_is_deterministic() {
    let leaves = [leaf(1), leaf(2), leaf(3)];
    assert_eq!(merkle_root(&leaves), merkle_root(&leaves));
}

#[test]
fn odd_level_duplicates_last_node() {
    // Three leaves: the lone right node is duplicated at the first level, so
    // the root equals hashing the same three leaves with the third repeated.
    let three = merkle_root(&[leaf(1), leaf(2), leaf(3)]);
    let four = merkle_root(&[leaf(1), leaf(2), leaf(3), leaf(3)]);
    assert_eq!(three, four);
}

#[test]
fn different_leaf_counts_differ() {
    assert_ne!(merkle_root(&[leaf(1)]), merkle_root(&[leaf(1), leaf(2)]));
}

// ── mempool ─────────────────────────────────────────────────────────────

#[test]
fn rejects_duplicate_transaction() {
    let mut mempool = Mempool::new();
    let tx = tx(0);
    let id = mempool.insert(tx.clone()).unwrap();

    assert_eq!(mempool.insert(tx), Err(MempoolError::Duplicate(id)));
}

#[test]
fn drains_transactions_for_block() {
    let mut mempool = Mempool::new();
    mempool.insert(tx(0)).unwrap();
    mempool.insert(tx(1)).unwrap();

    let drained = mempool.drain_for_block(1);

    assert_eq!(drained.len(), 1);
    assert_eq!(mempool.len(), 1);
}

// ── state ───────────────────────────────────────────────────────────────

#[test]
fn credit_and_debit_update_balance() {
    let mut s = State::new();
    let alice = addr("alice");
    s.credit(&alice, Coin::from_ac(100).unwrap()).unwrap();
    assert_eq!(s.balance_of(&alice), Coin::from_ac(100).unwrap());
    s.debit(&alice, Coin::from_ac(30).unwrap()).unwrap();
    assert_eq!(s.balance_of(&alice), Coin::from_ac(70).unwrap());
}

#[test]
fn debit_fails_on_insufficient_funds_and_leaves_balance_unchanged() {
    let mut s = State::new();
    let alice = addr("alice");
    s.credit(&alice, Coin::from_ac(10).unwrap()).unwrap();
    assert!(matches!(s.debit(&alice, Coin::from_ac(20).unwrap()), Err(StateError::InsufficientFunds { .. })));
    assert_eq!(s.balance_of(&alice), Coin::from_ac(10).unwrap());
}

#[test]
fn nonce_starts_at_zero_and_increments() {
    let mut s = State::new();
    let alice = addr("alice");
    assert_eq!(s.nonce_of(&alice), 0);
    s.increment_nonce(&alice);
    assert_eq!(s.nonce_of(&alice), 1);
}

#[test]
fn root_changes_after_mutation() {
    let mut s = State::new();
    let root_before = s.root();
    s.credit(&addr("alice"), Coin::from_ac(1).unwrap()).unwrap();
    assert_ne!(s.root(), root_before);
}

#[test]
fn round_trips_through_raw() {
    let mut s = State::new();
    s.credit(&addr("alice"), Coin::from_ac(500).unwrap()).unwrap();
    s.credit(&addr("bob"), Coin::from_ac(250).unwrap()).unwrap();
    s.increment_nonce(&addr("alice"));
    s.increment_nonce(&addr("alice"));

    let (balances, nonces) = s.to_raw();
    let restored = State::from_raw(balances, nonces).unwrap();

    assert_eq!(restored.balance_of(&addr("alice")), Coin::from_ac(500).unwrap());
    assert_eq!(restored.nonce_of(&addr("alice")), 2);
    assert_eq!(restored.root(), s.root());
}

#[test]
fn unknown_address_returns_zero() {
    let s = State::new();
    assert_eq!(s.balance_of(&addr("nobody")), Coin::zero());
    assert_eq!(s.nonce_of(&addr("nobody")), 0);
}

// ── storage ─────────────────────────────────────────────────────────────

#[test]
fn round_trips_chain_through_json_snapshot() {
    let treasury = addr("treasury");
    let alice = addr("alice");
    let mut chain =
        Chain::from_genesis(ChainConfig::default(), GenesisConfig::single_treasury(treasury.clone()), 0).unwrap();
    let tx = Transaction::new(treasury, alice, Coin::from_ac(5).unwrap(), Coin::zero(), 0);
    chain.produce_block("validator-1", 1_000, vec![tx]).unwrap();

    let restored = Chain::from_snapshot(chain.to_snapshot()).unwrap();
    assert_eq!(restored.height(), chain.height());
    assert_eq!(restored.tip_hash(), chain.tip_hash());
    assert_eq!(restored.balance_of(&addr("alice")), Coin::from_ac(5).unwrap());
}

#[test]
fn genesis_block_hashes_use_zero_placeholders() {
    let chain =
        Chain::from_genesis(ChainConfig::default(), GenesisConfig::single_treasury(addr("treasury")), 42).unwrap();
    let block = &chain.blocks()[0];
    assert_eq!(block.header.previous_hash, ZERO_HASH);
    assert_eq!(block.header.state_root, ZERO_HASH);
    assert_eq!(block.header.transactions_root, ZERO_HASH);
    assert_eq!(hex(&block.header.previous_hash), hex(&ZERO_HASH));
}

// ── transaction ─────────────────────────────────────────────────────────

#[test]
fn tx_id_is_stable_for_same_contents() {
    let tx = Transaction::new(addr("alice"), addr("bob"), Coin::from_ac(1).unwrap(), Coin::zero(), 7);

    assert_eq!(tx.id(), tx.clone().id());
}

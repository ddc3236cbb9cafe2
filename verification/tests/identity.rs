use abyss::address::Address;
use abyss::coin::Coin;
use abyss::crypto::DevKeypair;
use abyss::crypto_adapter::{Ed25519Keypair, Ed25519Verifier};
use abyss::crypto_api::{Keypair, Signer, Verifier};
use abyss::wallet::{AgentPermission, AgentPolicy, WalletAccount, WalletError};

// ── development key pairs ───────────────────────────────────────────────

#[test]
fn same_seed_produces_same_identity() {
    let first = DevKeypair::from_seed(b"alice");
    let second = DevKeypair::from_seed(b"alice");

    assert_eq!(first, second);
    assert_eq!(first.dev_address(), second.dev_address());
}

#[test]
fn different_seeds_produce_different_addresses() {
    let alice = DevKeypair::from_seed(b"alice").dev_address();
    let bob = DevKeypair::from_seed(b"bob").dev_address();

    assert_ne!(alice, bob);
}

// ── Ed25519 adapter ─────────────────────────────────────────────────────

#[test]
fn sign_and_verify_roundtrip() {
    let kp = Ed25519Keypair::generate();
    let msg = b"test message";
    let sig = kp.sign(msg);
    let pubkey = kp.public();
    assert!(Ed25519Verifier::verify(pubkey, msg, &sig));
}

#[test]
fn different_message_fails_verification() {
    let kp = Ed25519Keypair::generate();
    let msg = b"message one";
    let other = b"message two";
    let sig = kp.sign(msg);
    let pubkey = kp.public();
    assert!(!Ed25519Verifier::verify(pubkey, other, &sig));
}

// ── wallet account ──────────────────────────────────────────────────────

#[test]
fn account_can_create_payment() {
    let account = WalletAccount::from_dev_seed("alice", b"alice");
    let tx = account.create_payment(Address::new("bob").unwrap(), Coin::from_ac(1).unwrap(), Coin::zero(), 0);

    assert_eq!(tx.from, account.address());
}

#[test]
fn policy_can_reject_large_agent_payment() {
    let mut account = WalletAccount::from_dev_seed("alice", b"alice");
    account.agent_policy_mut().grant(AgentPermission::ExecuteLimitedTrades);
    account.agent_policy_mut().set_agent_trade_limit(Coin::from_ac(10).unwrap());

    let rejected = account.create_agent_payment(
        Address::new("bob").unwrap(),
        Coin::from_ac(11).unwrap(),
        Coin::zero(),
        0,
    );

    assert_eq!(rejected, Err(WalletError::PolicyRejected));
}

// ── agent policy ────────────────────────────────────────────────────────

#[test]
fn default_agent_cannot_execute_nonzero_trade() {
    let policy = AgentPolicy::default();

    assert!(!policy.transaction_allowed(Coin::from_ac(1).unwrap()));
}

#[test]
fn limited_trade_permission_respects_limit() {
    let mut policy = AgentPolicy::default();
    policy.grant(AgentPermission::ExecuteLimitedTrades);
    policy.set_agent_trade_limit(Coin::from_ac(5).unwrap());

    assert!(policy.transaction_allowed(Coin::from_ac(5).unwrap()));
    assert!(!policy.transaction_allowed(Coin::from_ac(6).unwrap()));
}

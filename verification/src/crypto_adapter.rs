//! The cryptography interfaces implemented with Ed25519 (RFC 8032) from
//! `ed25519-dalek`, with keys seeded from the operating system's random
//! number generator.
//!
//! Keys and signatures are held in their byte encodings: a 32-byte secret,
//! a 32-byte compressed public key and a 64-byte signature.

use vstd::prelude::*;
use crate::crypto_api::{Keypair, Signer, Verifier};
use ed25519_dalek::{Signature, SigningKey, VerifyingKey};
use rand::rngs::OsRng;
use rand::RngCore;

verus! {

#[verifier::external_type_specification]
#[verifier::external_body]
pub struct ExSigningKey(ed25519_dalek::SigningKey);

/// The compressed Ed25519 public key of a 32-byte secret.
pub uninterp spec fn ed25519_public_key(secret: Seq<u8>) -> Seq<u8>;

/// The Ed25519 signature of a message under a 32-byte secret.
pub uninterp spec fn ed25519_signature(secret: Seq<u8>, msg: Seq<u8>) -> Seq<u8>;

/// Whether a signature of a message checks out under a public key.
pub uninterp spec fn ed25519_verifies(public: Seq<u8>, msg: Seq<u8>, sig: Seq<u8>) -> bool;

/// `OsRng::fill_bytes` on 32 bytes: a random seed. Nothing is stated of
/// the bytes, which come from the operating system (the call panics when
/// the operating system cannot provide randomness).
#[verifier::external_body]
fn random_seed() -> (r: [u8; 32]) {
    let mut seed = [0u8; 32];
    let mut csprng = OsRng;
    csprng.fill_bytes(&mut seed);
    seed
}

/// `SigningKey::to_bytes`: the 32-byte secret of a signing key. The key is
/// opaque here, so the bytes are not related to it.
#[verifier::external_body]
fn secret_of(signing_key: &SigningKey) -> (r: [u8; 32]) {
    signing_key.to_bytes()
}

/// `SigningKey::from_bytes` then `SigningKey::verifying_key` and
/// `VerifyingKey::to_bytes`: the compressed public key of a secret, a
/// function of the secret alone.
#[verifier::external_body]
fn public_key_of(secret: &[u8; 32]) -> (r: [u8; 32])
    ensures
        r@ == ed25519_public_key(secret@),
{
    SigningKey::from_bytes(secret).verifying_key().to_bytes()
}

/// `Signer::sign` of the `SigningKey` built from `secret`, then
/// `Signature::to_bytes`: the deterministic RFC 8032 signature of `msg`, a
/// function of the secret and the message alone.
#[verifier::external_body]
fn sign_message(secret: &[u8; 32], msg: &[u8]) -> (r: [u8; 64])
    ensures
        r@ == ed25519_signature(secret@, msg@),
{
    ed25519_dalek::Signer::sign(&SigningKey::from_bytes(secret), msg).to_bytes()
}

/// `VerifyingKey::from_bytes` then `Verifier::verify`: whether `sig` is a
/// valid signature of `msg` under `public` (false when `public` is not a
/// point of the curve). A signature made with a secret verifies under that
/// secret's public key.
#[verifier::external_body]
fn verify_message(public: &[u8; 32], msg: &[u8], sig: &[u8; 64]) -> (r: bool)
    ensures
        r == ed25519_verifies(public@, msg@, sig@),
        forall|secret: Seq<u8>|
            secret.len() == 32 && public@ == ed25519_public_key(secret) && sig@ == ed25519_signature(
                secret,
                msg@,
            ) ==> r,
{
    match VerifyingKey::from_bytes(public) {
        Ok(key) => ed25519_dalek::Verifier::verify(&key, msg, &Signature::from_bytes(sig)).is_ok(),
        Err(_) => false,
    }
}

/// An Ed25519 key pair.
pub struct Ed25519Keypair {
    secret: [u8; 32],
    public: [u8; 32],
}

impl Ed25519Keypair {
    /// The secret.
    pub closed spec fn secret_spec(&self) -> Seq<u8> {
        self.secret@
    }

    /// The public key.
    pub closed spec fn public_spec(&self) -> Seq<u8> {
        self.public@
    }

    /// A key pair from a fresh random secret.
    pub fn generate() -> (r: Ed25519Keypair)
        ensures
            r.secret_spec().len() == 32,
            r.public_spec() == ed25519_public_key(r.secret_spec()),
    {
        let secret = random_seed();
        let public = public_key_of(&secret);
        Ed25519Keypair { secret, public }
    }

    /// The key pair of an existing signing key.
    pub fn from_signing_key(signing_key: SigningKey) -> (r: Ed25519Keypair)
        ensures
            r.secret_spec().len() == 32,
            r.public_spec() == ed25519_public_key(r.secret_spec()),
    {
        let secret = secret_of(&signing_key);
        let public = public_key_of(&secret);
        Ed25519Keypair { secret, public }
    }
}

impl Keypair for Ed25519Keypair {
    type Public = [u8; 32];

    type Secret = [u8; 32];

    fn public(&self) -> (r: &[u8; 32])
        ensures
            r@ == self.public_spec(),
    {
        &self.public
    }

    fn secret(&self) -> (r: &[u8; 32])
        ensures
            r@ == self.secret_spec(),
    {
        &self.secret
    }
}

impl Signer for Ed25519Keypair {
    type Signature = [u8; 64];

    fn sign(&self, msg: &[u8]) -> (r: [u8; 64])
        ensures
            r@ == ed25519_signature(self.secret_spec(), msg@),
    {
        sign_message(&self.secret, msg)
    }
}

/// Ed25519 signature checking.
pub struct Ed25519Verifier;

impl Verifier for Ed25519Verifier {
    type Public = [u8; 32];

    type Signature = [u8; 64];

    /// Whether `sig` is a valid signature of `msg` under `pubkey`; what a
    /// key pair signs verifies under its public key.
    fn verify(pubkey: &[u8; 32], msg: &[u8], sig: &[u8; 64]) -> (r: bool)
        ensures
            r == ed25519_verifies(pubkey@, msg@, sig@),
            forall|secret: Seq<u8>|
                secret.len() == 32 && pubkey@ == ed25519_public_key(secret) && sig@ == ed25519_signature(
                    secret,
                    msg@,
                ) ==> r,
    {
        verify_message(pubkey, msg, sig)
    }
}

} // verus!

//! Minimal cryptography interfaces, so that a development implementation
//! and an audited one can be exchanged without touching the code above.

use vstd::prelude::*;

verus! {

/// A key pair.
pub trait Keypair {
    /// The public key type.
    type Public;

    /// The secret key type.
    type Secret;

    /// The public key.
    fn public(&self) -> &Self::Public;

    /// The secret key (implementations keep it private).
    fn secret(&self) -> &Self::Secret;
}

/// Signing messages.
pub trait Signer {
    /// The signature type.
    type Signature;

    /// Signs `msg`.
    fn sign(&self, msg: &[u8]) -> Self::Signature;
}

/// Checking signatures.
pub trait Verifier {
    /// The public key type.
    type Public;

    /// The signature type.
    type Signature;

    /// Whether `sig` is a valid signature of `msg` under `pubkey`.
    fn verify(pubkey: &Self::Public, msg: &[u8], sig: &Self::Signature) -> bool;
}

} // verus!

//! Development identities: deterministic key pairs derived from a seed with
//! the devnet digest, and the account addresses they name. Not production
//! cryptography.

use vstd::prelude::*;
use vstd::string::*;
use vstd::utf8::{encode_utf8, is_ascii_chars, is_ascii_chars_encode_utf8};
use crate::address::{address_char_ok, address_check, lemma_first_bad_char, Address};
use crate::hashing::{dev_hash, dev_hash_spec, enc_bytes, enc_str, push_bytes, push_str, Hash256};
use crate::text::{decimal, hex_chars, hex_digit_char, push_decimal, push_decimal_u128, push_hex};

verus! {

/// Domain tag of secret derivation.
pub const DEV_SECRET_TAG: &'static str = "abyss:dev-secret:v0";

/// Domain tag of public-key derivation.
pub const DEV_PUBLIC_TAG: &'static str = "abyss:dev-public:v0";

/// Prefix of development addresses.
pub const DEV_ADDRESS_PREFIX: &'static str = "abyss:dev:";

/// The secret derived from a seed.
pub open spec fn dev_secret_spec(seed: Seq<u8>) -> Seq<u8> {
    dev_hash_spec(enc_str(DEV_SECRET_TAG@) + enc_bytes(seed))
}

/// The public key derived from a secret.
pub open spec fn dev_public_spec(secret: Seq<u8>) -> Seq<u8> {
    dev_hash_spec(enc_str(DEV_PUBLIC_TAG@) + enc_bytes(secret))
}

/// The first sixteen hex digits of a public key.
pub open spec fn fingerprint_spec(public: Seq<u8>) -> Seq<char> {
    hex_chars(public).take(16)
}

/// The development address of a public key.
pub open spec fn dev_address_spec(public: Seq<u8>) -> Seq<char> {
    DEV_ADDRESS_PREFIX@ + fingerprint_spec(public)
}

/// A lower-case hexadecimal digit.
pub open spec fn is_hex_char(c: char) -> bool {
    ('0' <= c && c <= '9') || ('a' <= c && c <= 'f')
}

proof fn lemma_hex_chars(b: Seq<u8>)
    ensures
        hex_chars(b).len() == 2 * b.len(),
        forall|i: int| 0 <= i < hex_chars(b).len() ==> is_hex_char(#[trigger] hex_chars(b)[i]),
    decreases b.len(),
{
    if b.len() > 0 {
        lemma_hex_chars(b.drop_last());
        let p = hex_chars(b.drop_last());
        let hi = hex_digit_char((b.last() / 16) as nat);
        let lo = hex_digit_char((b.last() % 16) as nat);
        assert(is_hex_char(hi) && is_hex_char(lo));
        assert forall|i: int| 0 <= i < hex_chars(b).len() implies is_hex_char(#[trigger] hex_chars(b)[i]) by {
            if i < p.len() {
                assert(hex_chars(b)[i] == p[i]);
            } else if i == p.len() {
                assert(hex_chars(b)[i] == hi);
            } else {
                assert(hex_chars(b)[i] == lo);
            }
        }
    }
}

proof fn lemma_hex_prefix(b: Seq<u8>, k: int)
    requires
        0 <= k <= b.len(),
    ensures
        hex_chars(b.take(k)) == hex_chars(b).take(2 * k),
    decreases b.len() - k,
{
    lemma_hex_chars(b);
    lemma_hex_chars(b.take(k));
    if k < b.len() {
        lemma_hex_prefix(b, k + 1);
        let t = b.take(k + 1);
        assert(t.drop_last() =~= b.take(k));
        lemma_hex_chars(t);
        assert(hex_chars(b.take(k)) =~= hex_chars(t).take(2 * k));
        assert(hex_chars(b).take(2 * (k + 1)).take(2 * k) =~= hex_chars(b).take(2 * k));
    } else {
        assert(b.take(k) =~= b);
        assert(hex_chars(b).take(2 * k) =~= hex_chars(b));
    }
}

/// Every development address is a well-formed address.
pub proof fn lemma_dev_address_valid(public: Seq<u8>)
    requires
        public.len() == 32,
    ensures
        address_check(dev_address_spec(public), encode_utf8(dev_address_spec(public)).len()) is Ok,
{
    let s = dev_address_spec(public);
    reveal_strlit("abyss:dev:");
    lemma_hex_chars(public);
    let f = fingerprint_spec(public);
    assert(f.len() == 16);
    assert forall|i: int| 0 <= i < s.len() implies address_char_ok(#[trigger] s[i]) && '\0' <= s[i] <= '\u{7f}' by {
        if i >= 10 {
            assert(s[i] == f[i - 10]);
            assert(f[i - 10] == hex_chars(public)[i - 10]);
            assert(is_hex_char(hex_chars(public)[i - 10]));
        }
    }
    assert(is_ascii_chars(s));
    is_ascii_chars_encode_utf8(s);
    lemma_first_bad_char(s);
}

#[derive(Debug, PartialEq, Eq)]
pub struct SecretKey(Hash256);

#[derive(Debug, PartialEq, Eq, Hash)]
pub struct PublicKey(Hash256);

#[derive(Debug, PartialEq, Eq)]
pub struct DevKeypair {
    secret: SecretKey,
    public: PublicKey,
}

impl Clone for SecretKey {
    fn clone(&self) -> (r: SecretKey)
        ensures
            r == *self,
    {
        SecretKey(self.0)
    }
}

impl Clone for PublicKey {
    fn clone(&self) -> (r: PublicKey)
        ensures
            r == *self,
    {
        PublicKey(self.0)
    }
}

impl Clone for DevKeypair {
    fn clone(&self) -> (r: DevKeypair)
        ensures
            r == *self,
    {
        DevKeypair { secret: SecretKey(self.secret.0), public: PublicKey(self.public.0) }
    }
}

/// The seed of a generated key pair: "abyss:", the label, ":", the
/// process identifier, ":", the time in nanoseconds.
pub open spec fn generation_seed(label: Seq<char>, pid: u32, now_nanos: u128) -> Seq<char> {
    "abyss:"@ + label + ":"@ + decimal(pid as nat) + ":"@ + decimal(now_nanos as nat)
}

impl SecretKey {
    pub closed spec fn bytes_spec(&self) -> Seq<u8> {
        self.0@
    }

    /// The secret in hex (development keys only).
    pub fn expose_dev_hex(&self) -> (r: String)
        ensures
            r@ == hex_chars(self.bytes_spec()),
    {
        let mut s = String::new();
        push_hex(&mut s, self.0.as_slice());
        s
    }
}

impl PublicKey {
    pub closed spec fn bytes_spec(&self) -> Seq<u8> {
        self.0@
    }

    pub fn bytes(&self) -> (r: Hash256)
        ensures
            r@ == self.bytes_spec(),
    {
        self.0
    }

    /// The first sixteen hex digits of the key.
    pub fn fingerprint(&self) -> (r: String)
        ensures
            r@ == fingerprint_spec(self.bytes_spec()),
    {
        let mut first: Vec<u8> = Vec::new();
        let mut i: usize = 0;
        while i < 8
            invariant
                i <= 8,
                self.0@.len() == 32,
                first@ == self.0@.take(i as int),
            decreases 8 - i,
        {
            first.push(self.0[i]);
            assert(self.0@.take(i + 1) =~= self.0@.take(i as int).push(self.0@[i as int]));
            i = i + 1;
        }
        let mut s = String::new();
        push_hex(&mut s, first.as_slice());
        proof {
            lemma_hex_prefix(self.0@, 8);
        }
        assert(s@ =~= hex_chars(self.0@.take(8)));
        s
    }

    /// The key in hex.
    pub fn to_string(&self) -> (r: String)
        ensures
            r@ == hex_chars(self.bytes_spec()),
    {
        let mut s = String::new();
        push_hex(&mut s, self.0.as_slice());
        s
    }

    /// The development address named by this key.
    pub fn dev_address(&self) -> (r: Address)
        ensures
            r@ == dev_address_spec(self.bytes_spec()),
    {
        let mut s = String::new();
        s.append(DEV_ADDRESS_PREFIX);
        let f = self.fingerprint();
        s.append(f.as_str());
        assert(s@ =~= dev_address_spec(self.0@));
        proof {
            lemma_dev_address_valid(self.0@);
        }
        let r = Address::new(s.as_str());
        r.unwrap()
    }
}

impl DevKeypair {
    /// The secret key bytes.
    pub closed spec fn secret_spec(&self) -> Seq<u8> {
        self.secret.0@
    }

    /// The public key bytes.
    pub closed spec fn public_spec(&self) -> Seq<u8> {
        self.public.0@
    }

    /// The key pair derived from `seed`.
    pub fn from_seed(seed: &[u8]) -> (r: DevKeypair)
        ensures
            r.secret_spec() == dev_secret_spec(seed@),
            r.public_spec() == dev_public_spec(dev_secret_spec(seed@)),
    {
        let mut enc: Vec<u8> = Vec::new();
        push_str(&mut enc, DEV_SECRET_TAG);
        push_bytes(&mut enc, seed);
        assert(enc@ =~= enc_str(DEV_SECRET_TAG@) + enc_bytes(seed@));
        let secret = dev_hash(enc.as_slice());
        let mut enc2: Vec<u8> = Vec::new();
        push_str(&mut enc2, DEV_PUBLIC_TAG);
        push_bytes(&mut enc2, secret.as_slice());
        assert(enc2@ =~= enc_str(DEV_PUBLIC_TAG@) + enc_bytes(secret@));
        let public = dev_hash(enc2.as_slice());
        DevKeypair { secret: SecretKey(secret), public: PublicKey(public) }
    }

    /// A fresh key pair, seeded from the label, a process identifier and a
    /// time in nanoseconds.
    pub fn generate(label: &str, pid: u32, now_nanos: u128) -> (r: DevKeypair)
        ensures
            r.secret_spec() == dev_secret_spec(encode_utf8(generation_seed(label@, pid, now_nanos))),
            r.public_spec() == dev_public_spec(
                dev_secret_spec(encode_utf8(generation_seed(label@, pid, now_nanos))),
            ),
    {
        let mut seed = String::new();
        seed.append("abyss:");
        seed.append(label);
        seed.append(":");
        push_decimal(&mut seed, pid as u64);
        seed.append(":");
        push_decimal_u128(&mut seed, now_nanos);
        assert(seed@ =~= generation_seed(label@, pid, now_nanos));
        DevKeypair::from_seed(seed.as_str().as_bytes())
    }

    pub fn public(&self) -> (r: &PublicKey)
        ensures
            r.bytes_spec() == self.public_spec(),
    {
        &self.public
    }

    pub fn secret(&self) -> (r: &SecretKey)
        ensures
            r.bytes_spec() == self.secret_spec(),
    {
        &self.secret
    }

    pub fn dev_address(&self) -> (r: Address)
        ensures
            r@ == dev_address_spec(self.public_spec()),
    {
        self.public.dev_address()
    }
}

} // verus!

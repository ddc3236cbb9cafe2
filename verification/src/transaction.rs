//! Transparent devnet transfers.

use vstd::prelude::*;
use crate::address::Address;
use crate::coin::{Coin, MAX_SUPPLY};
use crate::hashing::{dev_hash, dev_hash_spec, enc_bytes, enc_str, le64, push_bytes, push_str, push_u64, Hash256};

verus! {

/// The identifier of a transaction: the digest of its encoding.
#[derive(Clone, Copy, Debug, PartialEq, Eq, Hash, PartialOrd, Ord)]
pub struct TransactionId(pub Hash256);

/// A transfer of `amount` from `from` to `to`, paying `fee`.
#[derive(Clone, Debug, PartialEq, Eq, Hash)]
pub struct Transaction {
    pub from: Address,
    pub to: Address,
    pub amount: Coin,
    pub fee: Coin,
    pub nonce: u64,
    pub memo_commitment: Hash256,
}

const MEMO_TAG: &'static str = "abyss:memo:v0";

/// The memo commitment of a transaction with the given nonce.
pub closed spec fn memo_commitment_spec(nonce: u64) -> Seq<u8> {
    dev_hash_spec(enc_str(MEMO_TAG@) + le64(nonce))
}

/// The encoding hashed into a transaction identifier: the field values in
/// declaration order.
pub open spec fn tx_encoding(t: Transaction) -> Seq<u8> {
    enc_str(t.from@) + enc_str(t.to@) + le64(t.amount@) + le64(t.fee@) + le64(t.nonce) + enc_bytes(
        t.memo_commitment@,
    )
}

/// The identifier bytes of a transaction.
pub open spec fn tx_id_spec(t: Transaction) -> Seq<u8> {
    dev_hash_spec(tx_encoding(t))
}

impl Transaction {
    pub fn new(from: Address, to: Address, amount: Coin, fee: Coin, nonce: u64) -> (r: Transaction)
        ensures
            r.from == from,
            r.to == to,
            r.amount == amount,
            r.fee == fee,
            r.nonce == nonce,
            r.memo_commitment@ == memo_commitment_spec(nonce),
    {
        let mut enc: Vec<u8> = Vec::new();
        push_str(&mut enc, MEMO_TAG);
        push_u64(&mut enc, nonce);
        assert(enc@ =~= enc_str(MEMO_TAG@) + le64(nonce));
        let memo_commitment = dev_hash(enc.as_slice());
        Transaction { from, to, amount, fee, nonce, memo_commitment }
    }

    pub fn id(&self) -> (r: TransactionId)
        ensures
            r.0@ == tx_id_spec(*self),
    {
        let mut enc: Vec<u8> = Vec::new();
        push_str(&mut enc, self.from.as_str());
        push_str(&mut enc, self.to.as_str());
        push_u64(&mut enc, self.amount.micro_ac());
        push_u64(&mut enc, self.fee.micro_ac());
        push_u64(&mut enc, self.nonce);
        push_bytes(&mut enc, self.memo_commitment.as_slice());
        assert(enc@ =~= tx_encoding(*self));
        TransactionId(dev_hash(enc.as_slice()))
    }

    /// `amount + fee`, when that stays within the supply.
    pub fn total_debit(&self) -> (r: Option<Coin>)
        ensures
            r matches Some(c) ==> c@ == self.amount@ + self.fee@,
            r is Some <==> self.amount@ + self.fee@ <= MAX_SUPPLY,
    {
        self.amount.checked_add(self.fee)
    }
}

} // verus!

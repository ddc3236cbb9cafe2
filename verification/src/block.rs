//! Block headers and blocks.

use vstd::prelude::*;
use crate::hashing::{
    dev_hash, dev_hash_spec, enc_bytes, enc_str, hash_eq, le64, merkle_root, merkle_root_spec,
    push_bytes, push_str, push_u64, zero_hash_bytes, lemma_zero_hash, Hash256, ZERO_HASH,
};
use crate::transaction::{tx_id_spec, Transaction};

verus! {

#[derive(Clone, Debug, PartialEq, Eq, Hash)]
pub struct BlockHeader {
    pub height: u64,
    pub previous_hash: Hash256,
    pub state_root: Hash256,
    pub transactions_root: Hash256,
    pub timestamp_ms: u64,
    pub proposer: String,
}

#[derive(Clone, Debug, PartialEq, Eq, Hash)]
pub struct Block {
    pub header: BlockHeader,
    pub transactions: Vec<Transaction>,
}

/// The encoding hashed into a block hash: the header fields in order.
pub open spec fn header_encoding(h: BlockHeader) -> Seq<u8> {
    le64(h.height) + enc_bytes(h.previous_hash@) + enc_bytes(h.state_root@) + enc_bytes(
        h.transactions_root@,
    ) + le64(h.timestamp_ms) + enc_str(h.proposer@)
}

/// The hash of a block: the digest of its header.
pub open spec fn block_hash_spec(h: BlockHeader) -> Seq<u8> {
    dev_hash_spec(header_encoding(h))
}

/// The identifiers of the transactions, in block order.
pub open spec fn tx_ids(txs: Seq<Transaction>) -> Seq<Seq<u8>> {
    txs.map_values(|t: Transaction| tx_id_spec(t))
}

/// The Merkle root over the transaction identifiers, in block order.
pub open spec fn transactions_root_spec(txs: Seq<Transaction>) -> Seq<u8> {
    merkle_root_spec(tx_ids(txs))
}

impl Block {
    pub fn genesis(timestamp_ms: u64, proposer: &str) -> (r: Block)
        ensures
            r.header.height == 0,
            r.header.previous_hash@ == zero_hash_bytes(),
            r.header.state_root@ == zero_hash_bytes(),
            r.header.transactions_root@ == zero_hash_bytes(),
            r.header.timestamp_ms == timestamp_ms,
            r.header.proposer@ == proposer@,
            r.transactions@ == Seq::<Transaction>::empty(),
    {
        proof {
            lemma_zero_hash();
        }
        Block {
            header: BlockHeader {
                height: 0,
                previous_hash: ZERO_HASH,
                state_root: ZERO_HASH,
                transactions_root: ZERO_HASH,
                timestamp_ms,
                proposer: proposer.to_owned(),
            },
            transactions: Vec::new(),
        }
    }

    pub fn new(
        height: u64,
        previous_hash: Hash256,
        state_root: Hash256,
        timestamp_ms: u64,
        proposer: &str,
        transactions: Vec<Transaction>,
    ) -> (r: Block)
        ensures
            r.header.height == height,
            r.header.previous_hash == previous_hash,
            r.header.state_root == state_root,
            r.header.transactions_root@ == transactions_root_spec(transactions@),
            r.header.timestamp_ms == timestamp_ms,
            r.header.proposer@ == proposer@,
            r.transactions == transactions,
    {
        let transactions_root = Block::compute_transactions_root(transactions.as_slice());
        Block {
            header: BlockHeader {
                height,
                previous_hash,
                state_root,
                transactions_root,
                timestamp_ms,
                proposer: proposer.to_owned(),
            },
            transactions,
        }
    }

    pub fn hash(&self) -> (r: Hash256)
        ensures
            r@ == block_hash_spec(self.header),
    {
        let h = &self.header;
        let mut enc: Vec<u8> = Vec::new();
        push_u64(&mut enc, h.height);
        push_bytes(&mut enc, h.previous_hash.as_slice());
        push_bytes(&mut enc, h.state_root.as_slice());
        push_bytes(&mut enc, h.transactions_root.as_slice());
        push_u64(&mut enc, h.timestamp_ms);
        push_str(&mut enc, h.proposer.as_str());
        assert(enc@ =~= header_encoding(self.header));
        dev_hash(enc.as_slice())
    }

    /// Merkle root over the transaction IDs, in block order. Empty blocks
    /// yield [`ZERO_HASH`], matching the genesis header.
    pub fn compute_transactions_root(transactions: &[Transaction]) -> (r: Hash256)
        ensures
            r@ == transactions_root_spec(transactions@),
    {
        let mut leaves: Vec<Hash256> = Vec::new();
        let mut i: usize = 0;
        while i < transactions.len()
            invariant
                i <= transactions@.len(),
                crate::hashing::hash_views(leaves@) == tx_ids(transactions@).subrange(0, i as int),
            decreases transactions@.len() - i,
        {
            let id = transactions[i].id();
            let ghost before = leaves@;
            leaves.push(id.0);
            assert(crate::hashing::hash_views(leaves@) =~= crate::hashing::hash_views(before).push(id.0@));
            assert(tx_ids(transactions@).subrange(0, i + 1) =~= tx_ids(transactions@).subrange(0, i as int).push(
                tx_id_spec(transactions@[i as int]),
            ));
            i = i + 1;
        }
        assert(tx_ids(transactions@).subrange(0, transactions@.len() as int) =~= tx_ids(transactions@));
        merkle_root(leaves.as_slice())
    }

    /// Whether the header's `transactions_root` matches the Merkle root
    /// recomputed from the block body.
    pub fn transactions_root_is_valid(&self) -> (r: bool)
        ensures
            r == (self.header.transactions_root@ == transactions_root_spec(self.transactions@)),
    {
        let computed = Block::compute_transactions_root(self.transactions.as_slice());
        hash_eq(&self.header.transactions_root, &computed)
    }
}

} // verus!

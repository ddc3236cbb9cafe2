//! Chain: block sequencing on top of the ledger state. Blocks are made by a
//! proposer (`produce_block`) or received and checked by a validator
//! (`apply_block`); both apply a block's transactions atomically.

use vstd::prelude::*;
use crate::address::Address;
use crate::block::{block_hash_spec, transactions_root_spec, Block};
use vstd::string::*;
use crate::coin::{coin_text, Coin, MAX_SUPPLY};
use crate::text::{decimal, push_decimal};
use crate::genesis::{alloc_total, genesis_error_name, GenesisConfig, GenesisError};
use crate::hashing::{dev_hash, dev_hash_spec, enc_str, hash_eq, push_str, zero_hash_bytes, Hash256};
use crate::keymap::{lemma_lookup_insert, lemma_sorted_insert_sorted, sorted_insert, sorted_keys};
use crate::state::{
    amount_of, lemma_total_insert, load_state, raw_views, state_root_spec, Entries, State, StateError, StateView, total_amount,
};
use crate::transaction::{tx_id_spec, Transaction, TransactionId};

verus! {

#[derive(Debug, PartialEq, Eq)]
pub struct ChainConfig {
    pub chain_id: String,
    pub block_time_ms: u64,
    /// Maximum number of validators (enforced at genesis, extended by governance later).
    pub max_validators: u32,
}

impl Clone for ChainConfig {
    fn clone(&self) -> (r: ChainConfig)
        ensures
            r == *self,
    {
        ChainConfig {
            chain_id: self.chain_id.clone(),
            block_time_ms: self.block_time_ms,
            max_validators: self.max_validators,
        }
    }
}

impl Default for ChainConfig {
    fn default() -> (r: ChainConfig)
        ensures
            r.chain_id@ == "abyss-devnet-1"@,
            r.block_time_ms == 1_000,
            r.max_validators == 21,
    {
        ChainConfig { chain_id: "abyss-devnet-1".to_owned(), block_time_ms: 1_000, max_validators: 21 }
    }
}

#[derive(Clone, Debug, PartialEq, Eq)]
#[allow(inconsistent_fields)]
pub enum ApplyError {
    BalanceOverflow,
    Genesis(GenesisError),
    InsufficientFunds { available: Coin, required: Coin },
    InvalidNonce { expected: u64, actual: u64 },
    PreviousHashMismatch,
    SelfTransfer,
    StateRootMismatch { expected: Hash256, computed: Hash256 },
    UnexpectedBlockHeight { expected: u64, actual: u64 },
    ZeroAmount,
}

/// The message of a chain error.
pub open spec fn apply_error_text(e: ApplyError) -> Seq<char> {
    match e {
        ApplyError::BalanceOverflow => "balance overflow"@,
        ApplyError::Genesis(g) => "genesis error: "@ + genesis_error_name(g),
        ApplyError::InsufficientFunds { available, required } => "insufficient funds: have "@
            + coin_text(available@) + ", need "@ + coin_text(required@),
        ApplyError::InvalidNonce { expected, actual } => "invalid nonce: expected "@ + decimal(
            expected as nat,
        ) + ", got "@ + decimal(actual as nat),
        ApplyError::PreviousHashMismatch => "previous_hash does not match tip"@,
        ApplyError::SelfTransfer => "sender and receiver are the same address"@,
        ApplyError::StateRootMismatch { .. } => "state root mismatch after block execution"@,
        ApplyError::UnexpectedBlockHeight { expected, actual } => "unexpected block height: expected "@
            + decimal(expected as nat) + ", got "@ + decimal(actual as nat),
        ApplyError::ZeroAmount => "transaction amount is zero"@,
    }
}

impl ApplyError {
    /// The message of this error.
    pub fn to_string(&self) -> (r: String)
        ensures
            r@ == apply_error_text(*self),
    {
        let mut s = String::new();
        match self {
            ApplyError::BalanceOverflow => s.append("balance overflow"),
            ApplyError::Genesis(g) => {
                s.append("genesis error: ");
                s.append(g.name());
            },
            ApplyError::InsufficientFunds { available, required } => {
                s.append("insufficient funds: have ");
                s.append(available.to_string().as_str());
                s.append(", need ");
                s.append(required.to_string().as_str());
            },
            ApplyError::InvalidNonce { expected, actual } => {
                s.append("invalid nonce: expected ");
                push_decimal(&mut s, *expected);
                s.append(", got ");
                push_decimal(&mut s, *actual);
            },
            ApplyError::PreviousHashMismatch => s.append("previous_hash does not match tip"),
            ApplyError::SelfTransfer => s.append("sender and receiver are the same address"),
            ApplyError::StateRootMismatch { .. } => s.append("state root mismatch after block execution"),
            ApplyError::UnexpectedBlockHeight { expected, actual } => {
                s.append("unexpected block height: expected ");
                push_decimal(&mut s, *expected);
                s.append(", got ");
                push_decimal(&mut s, *actual);
            },
            ApplyError::ZeroAmount => s.append("transaction amount is zero"),
        }
        assert(s@ =~= apply_error_text(*self));
        s
    }
}

/// How a ledger error is reported by the chain.
pub open spec fn state_error_to_apply(e: StateError) -> ApplyError {
    match e {
        StateError::BalanceOverflow => ApplyError::BalanceOverflow,
        StateError::InsufficientFunds { available, required } => ApplyError::InsufficientFunds {
            available,
            required,
        },
        StateError::Address(_) => ApplyError::BalanceOverflow,
    }
}

impl From<StateError> for ApplyError {
    fn from(e: StateError) -> (r: ApplyError) {
        match e {
            StateError::BalanceOverflow => ApplyError::BalanceOverflow,
            StateError::InsufficientFunds { available, required } => ApplyError::InsufficientFunds {
                available,
                required,
            },
            StateError::Address(_) => ApplyError::BalanceOverflow,
        }
    }
}

impl vstd::std_specs::convert::FromSpecImpl<StateError> for ApplyError {
    open spec fn obeys_from_spec() -> bool {
        true
    }

    open spec fn from_spec(e: StateError) -> ApplyError {
        state_error_to_apply(e)
    }
}

impl From<GenesisError> for ApplyError {
    fn from(e: GenesisError) -> (r: ApplyError) {
        ApplyError::Genesis(e)
    }
}

impl vstd::std_specs::convert::FromSpecImpl<GenesisError> for ApplyError {
    open spec fn obeys_from_spec() -> bool {
        true
    }

    open spec fn from_spec(e: GenesisError) -> ApplyError {
        ApplyError::Genesis(e)
    }
}

// ── Transaction semantics ──────────────────────────────────────────────────

/// The balances after the sender paid `amount + fee`.
pub open spec fn debited(s: StateView, tx: Transaction) -> Entries {
    sorted_insert(
        s.0,
        tx.from@,
        (amount_of(s.0, tx.from@) - (tx.amount@ + tx.fee@)) as u64,
    )
}

/// Whether a transaction passes every check up to and including the debit
/// of the sender.
pub open spec fn debit_succeeds(s: StateView, tx: Transaction) -> bool {
    &&& tx.amount@ != 0
    &&& tx.from@ != tx.to@
    &&& tx.nonce == amount_of(s.1, tx.from@)
    &&& tx.amount@ + tx.fee@ <= MAX_SUPPLY
    &&& tx.amount@ + tx.fee@ <= amount_of(s.0, tx.from@)
}

/// The effect of one transaction on the state: rejected for a zero amount,
/// a self transfer, a wrong nonce, an overflowing debit, insufficient funds,
/// or an overflowing credit; otherwise the sender pays amount plus fee, the
/// receiver gets the amount (the fee is burned), and the sender's nonce
/// advances.
pub open spec fn tx_step(s: StateView, tx: Transaction) -> Result<StateView, ApplyError> {
    let from = tx.from@;
    let to = tx.to@;
    let debit = tx.amount@ + tx.fee@;
    if tx.amount@ == 0 {
        Err(ApplyError::ZeroAmount)
    } else if from == to {
        Err(ApplyError::SelfTransfer)
    } else if tx.nonce != amount_of(s.1, from) {
        Err(ApplyError::InvalidNonce { expected: amount_of(s.1, from), actual: tx.nonce })
    } else if debit > MAX_SUPPLY {
        Err(ApplyError::BalanceOverflow)
    } else if debit > amount_of(s.0, from) {
        Err(
            ApplyError::InsufficientFunds {
                available: Coin::spec_of(amount_of(s.0, from)),
                required: Coin::spec_of(debit as u64),
            },
        )
    } else if amount_of(debited(s, tx), to) + tx.amount@ > MAX_SUPPLY {
        Err(ApplyError::BalanceOverflow)
    } else {
        Ok(
            (
                sorted_insert(
                    debited(s, tx),
                    to,
                    (amount_of(debited(s, tx), to) + tx.amount@) as u64,
                ),
                sorted_insert(s.1, from, (tx.nonce + 1) as u64),
            ),
        )
    }
}

/// The state left by one transaction attempt: the new state when it is
/// applied, the debited state when only the final credit overflows, and the
/// unchanged state otherwise.
pub open spec fn tx_after(s: StateView, tx: Transaction) -> StateView {
    match tx_step(s, tx) {
        Ok(s2) => s2,
        Err(_) => if debit_succeeds(s, tx) {
            (debited(s, tx), s.1)
        } else {
            s
        },
    }
}

/// The transaction cannot overflow the sender's nonce.
pub open spec fn tx_nonce_safe(s: StateView, tx: Transaction) -> bool {
    tx.nonce < u64::MAX || tx_step(s, tx) is Err
}

/// Applying transactions in order; the first failure is the result.
pub open spec fn apply_txs(s: StateView, txs: Seq<Transaction>) -> Result<StateView, ApplyError>
    decreases txs.len(),
{
    if txs.len() == 0 {
        Ok(s)
    } else {
        match tx_step(s, txs[0]) {
            Err(e) => Err(e),
            Ok(s2) => apply_txs(s2, txs.drop_first()),
        }
    }
}

/// No transaction of the list, applied in order, overflows a nonce.
pub open spec fn txs_nonce_safe(s: StateView, txs: Seq<Transaction>) -> bool
    decreases txs.len(),
{
    if txs.len() == 0 {
        true
    } else {
        &&& tx_nonce_safe(s, txs[0])
        &&& match tx_step(s, txs[0]) {
            Err(_) => true,
            Ok(s2) => txs_nonce_safe(s2, txs.drop_first()),
        }
    }
}

// ── Chain views ──────────────────────────────────────────────────────────

const EMPTY_CHAIN_TAG: &'static str = "abyss:empty-chain";

/// The tip hash of a chain without blocks: the digest of a fixed tag.
pub closed spec fn empty_chain_hash() -> Seq<u8> {
    dev_hash_spec(enc_str(EMPTY_CHAIN_TAG@))
}

/// Height of the last block (zero for no blocks).
pub open spec fn height_of(blocks: Seq<Block>) -> u64 {
    if blocks.len() == 0 {
        0
    } else {
        blocks.last().header.height
    }
}

/// Hash of the last block; a fixed tag's digest for no blocks.
pub open spec fn tip_of(blocks: Seq<Block>) -> Seq<u8> {
    if blocks.len() == 0 {
        empty_chain_hash()
    } else {
        block_hash_spec(blocks.last().header)
    }
}

/// `b` extends a chain with blocks `blocks` and state `s`: it is one higher
/// than the tip, links to the tip, its transactions apply, and it commits
/// to the resulting state root.
pub open spec fn block_accepted(blocks: Seq<Block>, s: StateView, b: Block) -> bool {
    &&& b.header.height == height_of(blocks) + 1
    &&& b.header.previous_hash@ == tip_of(blocks)
    &&& apply_txs(s, b.transactions@) is Ok
    &&& b.header.state_root@ == state_root_spec(apply_txs(s, b.transactions@)->Ok_0)
}

/// Crediting the allocations in order, from `s`.
pub open spec fn credit_all(s: StateView, allocs: Seq<(Address, Coin)>) -> Result<StateView, ApplyError>
    decreases allocs.len(),
{
    if allocs.len() == 0 {
        Ok(s)
    } else {
        let a = allocs[0].0@;
        let sum = amount_of(s.0, a) + allocs[0].1@;
        if sum > MAX_SUPPLY {
            Err(ApplyError::BalanceOverflow)
        } else {
            credit_all((sorted_insert(s.0, a, sum as u64), s.1), allocs.drop_first())
        }
    }
}

#[derive(Clone, Debug)]
pub struct Chain {
    config: ChainConfig,
    blocks: Vec<Block>,
    /// All account state lives here, not directly on Chain.
    state: State,
}

/// Apply one transaction to `state` (the sender's debit stays in place when
/// only the final credit fails).
fn apply_tx_to_state(state: &mut State, tx: &Transaction) -> (r: Result<TransactionId, ApplyError>)
    requires
        tx_nonce_safe(old(state)@, *tx),
    ensures
        final(state)@ == tx_after(old(state)@, *tx),
        match r {
            Ok(id) => tx_step(old(state)@, *tx) == Ok::<StateView, ApplyError>(final(state)@) && id.0@
                == tx_id_spec(*tx),
            Err(e) => tx_step(old(state)@, *tx) == Err::<StateView, ApplyError>(e),
        },
{
    let ghost s = state@;
    if tx.amount.is_zero() {
        return Err(ApplyError::ZeroAmount);
    }
    if tx.from == tx.to {
        return Err(ApplyError::SelfTransfer);
    }
    let expected = state.nonce_of(&tx.from);
    if tx.nonce != expected {
        return Err(ApplyError::InvalidNonce { expected, actual: tx.nonce });
    }
    let debit = match tx.total_debit() {
        Some(d) => d,
        None => return Err(ApplyError::BalanceOverflow),
    };
    match state.debit(&tx.from, debit) {
        Ok(()) => {},
        Err(e) => {
            proof {
                if let StateError::InsufficientFunds { available, required } = e {
                    Coin::lemma_spec_of(amount_of(s.0, tx.from@));
                    Coin::lemma_spec_of((tx.amount@ + tx.fee@) as u64);
                    Coin::lemma_eq(available, Coin::spec_of(amount_of(s.0, tx.from@)));
                    Coin::lemma_eq(required, Coin::spec_of((tx.amount@ + tx.fee@) as u64));
                }
            }
            return Err(ApplyError::from(e));
        },
    }
    match state.credit(&tx.to, tx.amount) {
        Ok(()) => {},
        Err(e) => {
            return Err(ApplyError::from(e));
        },
    }
    state.increment_nonce(&tx.from);
    Ok(tx.id())
}

impl Chain {
    /// The blocks, oldest first.
    pub closed spec fn blocks_view(&self) -> Seq<Block> {
        self.blocks@
    }

    /// The ledger state.
    pub closed spec fn state_view(&self) -> StateView {
        self.state@
    }

    /// The configuration.
    pub closed spec fn config_view(&self) -> ChainConfig {
        self.config
    }

    // ── Construction ──────────────────────────────────────────────────────

    pub fn from_genesis(config: ChainConfig, genesis: GenesisConfig, timestamp_ms: u64) -> (r: Result<Chain, ApplyError>)
        ensures
            alloc_total(genesis.allocations@) > MAX_SUPPLY ==> r == Err::<Chain, ApplyError>(
                ApplyError::Genesis(GenesisError::SupplyOverflow),
            ),
            alloc_total(genesis.allocations@) <= MAX_SUPPLY ==> match credit_all(
                (Entries::empty(), Entries::empty()),
                genesis.allocations@,
            ) {
                Err(e) => r == Err::<Chain, ApplyError>(e),
                Ok(s) => r matches Ok(c) && c.state_view() == s && c.config_view() == config
                    && c.blocks_view().len() == 1 && c.blocks_view()[0].header.height == 0
                    && c.blocks_view()[0].header.previous_hash@ == zero_hash_bytes()
                    && c.blocks_view()[0].header.state_root@ == zero_hash_bytes()
                    && c.blocks_view()[0].header.transactions_root@ == zero_hash_bytes()
                    && c.blocks_view()[0].header.timestamp_ms == timestamp_ms
                    && c.blocks_view()[0].header.proposer@ == "genesis"@
                    && c.blocks_view()[0].transactions@.len() == 0,
            },
            alloc_total(genesis.allocations@) <= MAX_SUPPLY ==> (r matches Ok(c) && c.state_view().1.len() == 0),
    {
        proof {
            if alloc_total(genesis.allocations@) <= MAX_SUPPLY {
                assert(total_amount(Entries::empty()) == 0);
                lemma_credit_all_ok((Entries::empty(), Entries::empty()), genesis.allocations@);
            }
        }
        match genesis.validate() {
            Ok(()) => {},
            Err(e) => return Err(ApplyError::from(e)),
        }
        let mut state = State::new();
        let ghost allocs = genesis.allocations@;
        let mut i: usize = 0;
        assert(allocs.subrange(0, allocs.len() as int) =~= allocs);
        while i < genesis.allocations.len()
            invariant
                allocs == genesis.allocations@,
                alloc_total(allocs) <= MAX_SUPPLY,
                credit_all((Entries::empty(), Entries::empty()), allocs) is Ok,
                i <= allocs.len(),
                credit_all((Entries::empty(), Entries::empty()), allocs) == credit_all(
                    state@,
                    allocs.subrange(i as int, allocs.len() as int),
                ),
            decreases allocs.len() - i,
        {
            let ghost rest = allocs.subrange(i as int, allocs.len() as int);
            assert(rest[0] == allocs[i as int]);
            assert(rest.drop_first() =~= allocs.subrange(i + 1, allocs.len() as int));
            match state.credit(&genesis.allocations[i].0, genesis.allocations[i].1) {
                Ok(()) => {},
                Err(e) => return Err(ApplyError::from(e)),
            }
            i = i + 1;
        }
        assert(allocs.subrange(i as int, allocs.len() as int) =~= Seq::<(Address, Coin)>::empty());
        proof {
            reveal_strlit("genesis");
        }
        let genesis_block = Block::genesis(timestamp_ms, "genesis");
        let blocks = vec![genesis_block];
        Ok(Chain { config, blocks, state })
    }

    /// Restore a chain from a persisted snapshot.
    pub fn from_persisted(
        config: ChainConfig,
        blocks: Vec<Block>,
        balances: Vec<(String, u64)>,
        nonces: Vec<(String, u64)>,
    ) -> (r: Result<Chain, ApplyError>)
        ensures
            match load_state(raw_views(balances@), raw_views(nonces@)) {
                Err(e) => r == Err::<Chain, ApplyError>(state_error_to_apply(e)),
                Ok(s) => r matches Ok(c) && c.state_view() == s && c.config_view() == config
                    && c.blocks_view() == blocks@,
            },
    {
        let state = match State::from_raw(balances, nonces) {
            Ok(s) => s,
            Err(e) => return Err(ApplyError::from(e)),
        };
        Ok(Chain { config, blocks, state })
    }

    // ── Accessors ─────────────────────────────────────────────────────────

    pub fn config(&self) -> (r: &ChainConfig)
        ensures
            *r == self.config_view(),
    {
        &self.config
    }

    pub fn height(&self) -> (r: u64)
        ensures
            r == height_of(self.blocks_view()),
    {
        if self.blocks.len() == 0 {
            0
        } else {
            self.blocks[self.blocks.len() - 1].header.height
        }
    }

    pub fn tip_hash(&self) -> (r: Hash256)
        ensures
            r@ == tip_of(self.blocks_view()),
    {
        if self.blocks.len() == 0 {
            let mut enc: Vec<u8> = Vec::new();
            push_str(&mut enc, EMPTY_CHAIN_TAG);
            dev_hash(enc.as_slice())
        } else {
            self.blocks[self.blocks.len() - 1].hash()
        }
    }

    pub fn balance_of(&self, address: &Address) -> (r: Coin)
        ensures
            r@ == amount_of(self.state_view().0, address@),
    {
        self.state.balance_of(address)
    }

    pub fn next_nonce(&self, address: &Address) -> (r: u64)
        ensures
            r == amount_of(self.state_view().1, address@),
    {
        self.state.nonce_of(address)
    }

    pub fn blocks(&self) -> (r: &[Block])
        ensures
            r@ == self.blocks_view(),
    {
        self.blocks.as_slice()
    }

    pub fn state_root(&self) -> (r: Hash256)
        ensures
            r@ == state_root_spec(self.state_view()),
    {
        self.state.root()
    }

    // ── State snapshot ────────────────────────────────────────────────────

    pub fn snapshot_state(&self) -> (r: (Vec<(String, u64)>, Vec<(String, u64)>))
        ensures
            raw_views(r.0@) == self.state_view().0,
            raw_views(r.1@) == self.state_view().1,
    {
        self.state.to_raw()
    }

    pub fn restore_state(self, balances: Vec<(String, u64)>, nonces: Vec<(String, u64)>) -> (r: Result<
        Chain,
        ApplyError,
    >)
        ensures
            match load_state(raw_views(balances@), raw_views(nonces@)) {
                Err(e) => r == Err::<Chain, ApplyError>(state_error_to_apply(e)),
                Ok(s) => r matches Ok(c) && c.state_view() == s && c.config_view() == self.config_view()
                    && c.blocks_view() == self.blocks_view(),
            },
    {
        let mut chain = self;
        chain.state = match State::from_raw(balances, nonces) {
            Ok(s) => s,
            Err(e) => return Err(ApplyError::from(e)),
        };
        Ok(chain)
    }

    // ── Transaction execution ─────────────────────────────────────────────

    /// Execute a single transaction against the state.
    pub fn apply_transaction(&mut self, tx: &Transaction) -> (r: Result<TransactionId, ApplyError>)
        requires
            tx_nonce_safe(old(self).state_view(), *tx),
        ensures
            final(self).state_view() == tx_after(old(self).state_view(), *tx),
            final(self).blocks_view() == old(self).blocks_view(),
            final(self).config_view() == old(self).config_view(),
            match r {
                Ok(id) => tx_step(old(self).state_view(), *tx) == Ok::<StateView, ApplyError>(
                    final(self).state_view(),
                ) && id.0@ == tx_id_spec(*tx),
                Err(e) => tx_step(old(self).state_view(), *tx) == Err::<StateView, ApplyError>(e),
            },
    {
        apply_tx_to_state(&mut self.state, tx)
    }

    /// Applies `transactions` to a copy of the state.
    fn stage(&self, transactions: &Vec<Transaction>) -> (r: Result<State, ApplyError>)
        requires
            txs_nonce_safe(self.state_view(), transactions@),
        ensures
            match r {
                Ok(s) => apply_txs(self.state_view(), transactions@) == Ok::<StateView, ApplyError>(s@),
                Err(e) => apply_txs(self.state_view(), transactions@) == Err::<StateView, ApplyError>(e),
            },
    {
        let mut staged = self.state.clone();
        let ghost txs = transactions@;
        let mut i: usize = 0;
        assert(txs.subrange(0, txs.len() as int) =~= txs);
        while i < transactions.len()
            invariant
                txs == transactions@,
                i <= txs.len(),
                apply_txs(self.state_view(), txs) == apply_txs(staged@, txs.subrange(i as int, txs.len() as int)),
                txs_nonce_safe(staged@, txs.subrange(i as int, txs.len() as int)),
            decreases txs.len() - i,
        {
            let ghost rest = txs.subrange(i as int, txs.len() as int);
            assert(rest[0] == txs[i as int]);
            assert(rest.drop_first() =~= txs.subrange(i + 1, txs.len() as int));
            match apply_tx_to_state(&mut staged, &transactions[i]) {
                Ok(_) => {},
                Err(e) => return Err(e),
            }
            i = i + 1;
        }
        assert(txs.subrange(i as int, txs.len() as int) =~= Seq::<Transaction>::empty());
        Ok(staged)
    }

    // ── Block production (proposer path) ─────────────────────────────────

    /// Propose and immediately apply a new block. On any failing transaction
    /// nothing changes.
    pub fn produce_block(&mut self, proposer: &str, timestamp_ms: u64, transactions: Vec<Transaction>) -> (r: Result<
        &Block,
        ApplyError,
    >)
        requires
            height_of(old(self).blocks_view()) < u64::MAX,
            txs_nonce_safe(old(self).state_view(), transactions@),
        ensures
            final(self).config_view() == old(self).config_view(),
            match apply_txs(old(self).state_view(), transactions@) {
                Err(e) => r == Err::<&Block, ApplyError>(e) && final(self).state_view() == old(
                    self,
                ).state_view() && final(self).blocks_view() == old(self).blocks_view(),
                Ok(s) => {
                    let b = final(self).blocks_view().last();
                    &&& r matches Ok(rb) && *rb == b
                    &&& final(self).state_view() == s
                    &&& final(self).blocks_view() == old(self).blocks_view().push(b)
                    &&& b.header.height == height_of(old(self).blocks_view()) + 1
                    &&& b.header.previous_hash@ == tip_of(old(self).blocks_view())
                    &&& b.header.state_root@ == state_root_spec(s)
                    &&& b.header.transactions_root@ == transactions_root_spec(transactions@)
                    &&& b.header.timestamp_ms == timestamp_ms
                    &&& b.header.proposer@ == proposer@
                    &&& b.transactions@ == transactions@
                },
            },
    {
        let staged = match self.stage(&transactions) {
            Ok(s) => s,
            Err(e) => return Err(e),
        };
        let height = self.height() + 1;
        let tip = self.tip_hash();
        let root = staged.root();
        let block = Block::new(height, tip, root, timestamp_ms, proposer, transactions);
        self.blocks.push(block);
        self.state = staged;
        let last = self.blocks.len() - 1;
        Ok(&self.blocks[last])
    }

    // ── Block application (validator path) ───────────────────────────────

    /// Apply a block received from the network: its height must be the tip's
    /// plus one, it must link to the tip, all its transactions must apply,
    /// and the resulting state root must match its header. On any failure
    /// nothing changes.
    pub fn apply_block(&mut self, block: Block) -> (r: Result<(), ApplyError>)
        requires
            height_of(old(self).blocks_view()) < u64::MAX,
            txs_nonce_safe(old(self).state_view(), block.transactions@),
        ensures
            final(self).config_view() == old(self).config_view(),
            r is Ok <==> block_accepted(old(self).blocks_view(), old(self).state_view(), block),
            r is Ok ==> final(self).blocks_view() == old(self).blocks_view().push(block)
                && final(self).state_view() == apply_txs(old(self).state_view(), block.transactions@)->Ok_0,
            r is Err ==> final(self).blocks_view() == old(self).blocks_view() && final(self).state_view()
                == old(self).state_view(),
            block.header.height != height_of(old(self).blocks_view()) + 1 ==> r == Err::<(), ApplyError>(
                ApplyError::UnexpectedBlockHeight {
                    expected: (height_of(old(self).blocks_view()) + 1) as u64,
                    actual: block.header.height,
                },
            ),
            block.header.height == height_of(old(self).blocks_view()) + 1 && block.header.previous_hash@
                != tip_of(old(self).blocks_view()) ==> r == Err::<(), ApplyError>(
                ApplyError::PreviousHashMismatch,
            ),
            block.header.height == height_of(old(self).blocks_view()) + 1 && block.header.previous_hash@
                == tip_of(old(self).blocks_view()) ==> match apply_txs(
                old(self).state_view(),
                block.transactions@,
            ) {
                Err(e) => r == Err::<(), ApplyError>(e),
                Ok(s) => state_root_spec(s) != block.header.state_root@ ==> (r matches Err(
                    ApplyError::StateRootMismatch { expected, computed },
                ) && expected == block.header.state_root && computed@ == state_root_spec(s)),
            },
    {
        let expected_height = self.height() + 1;
        if block.header.height != expected_height {
            return Err(ApplyError::UnexpectedBlockHeight { expected: expected_height, actual: block.header.height });
        }
        let tip = self.tip_hash();
        if !hash_eq(&block.header.previous_hash, &tip) {
            return Err(ApplyError::PreviousHashMismatch);
        }
        let staged = match self.stage(&block.transactions) {
            Ok(s) => s,
            Err(e) => return Err(e),
        };
        let computed_root = staged.root();
        if !hash_eq(&computed_root, &block.header.state_root) {
            return Err(ApplyError::StateRootMismatch { expected: block.header.state_root, computed: computed_root });
        }
        self.blocks.push(block);
        self.state = staged;
        Ok(())
    }
}

/// The summed fees of a list of transactions, in micro-AC.
pub open spec fn fees_total(txs: Seq<Transaction>) -> nat
    decreases txs.len(),
{
    if txs.len() == 0 {
        0
    } else {
        txs[0].fee@ as nat + fees_total(txs.drop_first())
    }
}

/// An applied transaction moves its amount from the sender to the receiver
/// and burns its fee: the summed balances fall by exactly the fee, and no
/// coin is created.
pub proof fn lemma_transfer_burns_fee(s: StateView, tx: Transaction)
    requires
        sorted_keys(s.0),
        tx_step(s, tx) is Ok,
    ensures
        total_amount(tx_step(s, tx)->Ok_0.0) + tx.fee@ == total_amount(s.0),
        sorted_keys(tx_step(s, tx)->Ok_0.0),
{
    let from = tx.from@;
    let to = tx.to@;
    let left = (amount_of(s.0, from) - (tx.amount@ + tx.fee@)) as u64;
    let d = debited(s, tx);
    lemma_total_insert(s.0, from, left);
    lemma_sorted_insert_sorted(s.0, from, left);
    let credited = (amount_of(d, to) + tx.amount@) as u64;
    lemma_total_insert(d, to, credited);
    lemma_sorted_insert_sorted(d, to, credited);
}

/// What an applied transfer does to each account: the sender pays amount
/// plus fee, the receiver gets the amount, every other balance stays; the
/// sender's nonce, which was the transaction's, advances by one and every
/// other nonce stays. It is applied only for a non-zero amount between two
/// accounts that the sender can pay.
pub proof fn lemma_transfer_effects(s: StateView, tx: Transaction, a: Seq<char>)
    requires
        tx_step(s, tx) is Ok,
        tx.nonce < u64::MAX,
    ensures
        ({
            let n = tx_step(s, tx)->Ok_0;
            &&& tx.amount@ > 0
            &&& tx.from@ != tx.to@
            &&& tx.nonce == amount_of(s.1, tx.from@)
            &&& amount_of(s.0, tx.from@) >= tx.amount@ + tx.fee@
            &&& amount_of(n.0, tx.from@) == amount_of(s.0, tx.from@) - tx.amount@ - tx.fee@
            &&& amount_of(n.0, tx.to@) == amount_of(s.0, tx.to@) + tx.amount@
            &&& a != tx.from@ && a != tx.to@ ==> amount_of(n.0, a) == amount_of(s.0, a)
            &&& amount_of(n.1, tx.from@) == tx.nonce + 1
            &&& a != tx.from@ ==> amount_of(n.1, a) == amount_of(s.1, a)
        }),
{
    let from = tx.from@;
    let to = tx.to@;
    let left = (amount_of(s.0, from) - (tx.amount@ + tx.fee@)) as u64;
    let d = debited(s, tx);
    let credited = (amount_of(d, to) + tx.amount@) as u64;
    lemma_lookup_insert(s.0, from, left, from);
    lemma_lookup_insert(s.0, from, left, to);
    lemma_lookup_insert(s.0, from, left, a);
    lemma_lookup_insert(d, to, credited, from);
    lemma_lookup_insert(d, to, credited, to);
    lemma_lookup_insert(d, to, credited, a);
    lemma_lookup_insert(s.1, from, (tx.nonce + 1) as u64, from);
    lemma_lookup_insert(s.1, from, (tx.nonce + 1) as u64, a);
}

/// An applied block's transactions burn exactly their fees: the summed
/// balances fall by the sum of the fees.
pub proof fn lemma_block_burns_fees(s: StateView, txs: Seq<Transaction>)
    requires
        sorted_keys(s.0),
        apply_txs(s, txs) is Ok,
    ensures
        total_amount(apply_txs(s, txs)->Ok_0.0) + fees_total(txs) == total_amount(s.0),
    decreases txs.len(),
{
    if txs.len() > 0 {
        lemma_transfer_burns_fee(s, txs[0]);
        lemma_block_burns_fees(tx_step(s, txs[0])->Ok_0, txs.drop_first());
    }
}

proof fn lemma_alloc_total_first(a: Seq<(Address, Coin)>)
    requires
        a.len() > 0,
    ensures
        alloc_total(a) == a[0].1@ + alloc_total(a.drop_first()),
    decreases a.len(),
{
    if a.len() > 1 {
        lemma_alloc_total_first(a.drop_last());
        assert(a.drop_last().drop_first() =~= a.drop_first().drop_last());
        assert(a.drop_last()[0] == a[0]);
        assert(a.drop_first().last() == a.last());
        assert(alloc_total(a.drop_first()) == alloc_total(a.drop_first().drop_last()) + a.drop_first().last().1@);
    } else {
        assert(a.drop_first().len() == 0);
        assert(a.drop_last().len() == 0);
        assert(a.last() == a[0]);
        assert(alloc_total(a.drop_first()) == 0);
        assert(alloc_total(a.drop_last()) == 0);
    }
}

proof fn lemma_credit_all_total(s: StateView, allocs: Seq<(Address, Coin)>)
    requires
        sorted_keys(s.0),
        credit_all(s, allocs) is Ok,
    ensures
        total_amount(credit_all(s, allocs)->Ok_0.0) == total_amount(s.0) + alloc_total(allocs),
    decreases allocs.len(),
{
    if allocs.len() > 0 {
        let a = allocs[0].0@;
        let sum = (amount_of(s.0, a) + allocs[0].1@) as u64;
        lemma_total_insert(s.0, a, sum);
        lemma_sorted_insert_sorted(s.0, a, sum);
        lemma_credit_all_total((sorted_insert(s.0, a, sum), s.1), allocs.drop_first());
        lemma_alloc_total_first(allocs);
    }
}

proof fn lemma_alloc_total_nonneg(a: Seq<(Address, Coin)>)
    ensures
        alloc_total(a) >= 0,
    decreases a.len(),
{
    if a.len() > 0 {
        lemma_alloc_total_nonneg(a.drop_last());
    }
}

proof fn lemma_amount_le_total(e: Entries, k: Seq<char>)
    ensures
        amount_of(e, k) <= total_amount(e),
    decreases e.len(),
{
    if e.len() > 0 && e[0].0 != k {
        lemma_amount_le_total(e.drop_first(), k);
    }
}

/// Crediting allocations that fit the supply together with what the ledger
/// already holds never overflows, and leaves the nonces alone.
proof fn lemma_credit_all_ok(s: StateView, allocs: Seq<(Address, Coin)>)
    requires
        sorted_keys(s.0),
        total_amount(s.0) + alloc_total(allocs) <= MAX_SUPPLY,
    ensures
        credit_all(s, allocs) is Ok,
        credit_all(s, allocs)->Ok_0.1 == s.1,
    decreases allocs.len(),
{
    if allocs.len() > 0 {
        let a = allocs[0].0@;
        lemma_alloc_total_first(allocs);
        lemma_alloc_total_nonneg(allocs.drop_first());
        lemma_amount_le_total(s.0, a);
        let sum = (amount_of(s.0, a) + allocs[0].1@) as u64;
        lemma_total_insert(s.0, a, sum);
        lemma_sorted_insert_sorted(s.0, a, sum);
        lemma_credit_all_ok((sorted_insert(s.0, a, sum), s.1), allocs.drop_first());
    }
}

/// Genesis creates exactly the allocated coins: the summed balances of the
/// genesis ledger equal the summed allocations.
pub proof fn lemma_genesis_total(allocs: Seq<(Address, Coin)>)
    requires
        credit_all((Entries::empty(), Entries::empty()), allocs) is Ok,
    ensures
        total_amount(credit_all((Entries::empty(), Entries::empty()), allocs)->Ok_0.0) == alloc_total(allocs),
{
    lemma_credit_all_total((Entries::empty(), Entries::empty()), allocs);
}

/// A block made by `produce_block` on a chain is accepted by `apply_block`
/// on an identical chain, and leads to the same state and the same blocks:
/// proposer and validator agree.
pub proof fn lemma_produced_block_is_accepted(blocks: Seq<Block>, s: StateView, b: Block, s2: StateView)
    requires
        apply_txs(s, b.transactions@) == Ok::<StateView, ApplyError>(s2),
        b.header.height == height_of(blocks) + 1,
        b.header.previous_hash@ == tip_of(blocks),
        b.header.state_root@ == state_root_spec(s2),
    ensures
        block_accepted(blocks, s, b),
        apply_txs(s, b.transactions@)->Ok_0 == s2,
        height_of(blocks.push(b)) == height_of(blocks) + 1,
        tip_of(blocks.push(b)) == block_hash_spec(b.header),
{
}

} // verus!

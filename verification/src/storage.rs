//! Snapshots of a chain as plain values (hashes as hex strings), the
//! conversions to and from them, and the devnet genesis chain. Writing and
//! reading snapshot files is left to the caller.

use vstd::prelude::*;
use vstd::string::*;
use vstd::utf8::{decode_utf8, encode_utf8, encode_utf8_decode_utf8, is_ascii_chars, is_ascii_chars_encode_utf8, valid_utf8};
use vstd::utf8::encode_utf8_valid_utf8;
use crate::address::{address_char_ok, address_check, lemma_valid_address, valid_address, Address, AddressError};
use crate::block::{block_hash_spec, header_encoding, transactions_root_spec, tx_ids, Block, BlockHeader};
use crate::chain::{state_error_to_apply, ApplyError, Chain, ChainConfig};
use crate::coin::{Coin, MAX_SUPPLY};
use crate::hashing::{hex, Hash256, ZERO_HASH};
use crate::state::{amount_of, lemma_raw_round_trip, load_state, raw_views, state_view_ok, StateError, StateView};
use crate::text::{hex_chars, hex_digit_char};
use crate::transaction::{tx_id_spec, Transaction};

verus! {

// ── Hex digits of a hash ────────────────────────────────────────────────

/// A hexadecimal digit, in either case.
pub open spec fn is_hex_digit(c: char) -> bool {
    ('0' <= c && c <= '9') || ('a' <= c && c <= 'f') || ('A' <= c && c <= 'F')
}

/// The value of a hexadecimal digit.
pub open spec fn hex_digit_value(c: char) -> nat {
    if '0' <= c && c <= '9' {
        (c as u32 - 48) as nat
    } else if 'a' <= c && c <= 'f' {
        (c as u32 - 87) as nat
    } else {
        (c as u32 - 55) as nat
    }
}

/// Every character is a hexadecimal digit.
pub open spec fn all_hex(s: Seq<char>) -> bool {
    forall|i: int| 0 <= i < s.len() ==> is_hex_digit(#[trigger] s[i])
}

/// The value of a string of hexadecimal digits.
pub open spec fn hex_digits_value(s: Seq<char>) -> nat
    decreases s.len(),
{
    if s.len() == 0 {
        0
    } else {
        16 * hex_digits_value(s.drop_last()) + hex_digit_value(s.last())
    }
}

/// What `u8::from_str_radix(s, 16)` gives: an optional '+', then at least
/// one hexadecimal digit, with a value below 256.
pub open spec fn hex_u8_spec(s: Seq<char>) -> Option<u8> {
    let d = if s.len() > 0 && s[0] == '+' {
        s.drop_first()
    } else {
        s
    };
    if d.len() == 0 || !all_hex(d) || hex_digits_value(d) > 255 {
        None
    } else {
        Some(hex_digits_value(d) as u8)
    }
}

/// The message of the error `std::str::from_utf8` gives for `b`.
pub uninterp spec fn from_utf8_error_text(b: Seq<u8>) -> Seq<char>;

/// The message of the error `u8::from_str_radix(s, 16)` gives for `s`.
pub uninterp spec fn from_hex_error_text(s: Seq<char>) -> Seq<char>;

/// `std::str::from_utf8`: the bytes as a string when they are valid UTF-8,
/// else the message of the error.
#[verifier::external_body]
fn str_from_utf8(b: &[u8]) -> (r: Result<&str, String>)
    ensures
        r is Ok <==> valid_utf8(b@),
        r matches Ok(s) ==> s@ == decode_utf8(b@),
        r matches Err(m) ==> m@ == from_utf8_error_text(b@),
{
    match std::str::from_utf8(b) {
        Ok(s) => Ok(s),
        Err(e) => Err(e.to_string()),
    }
}

/// `u8::from_str_radix(s, 16)`: the value of an optionally '+'-signed
/// hexadecimal numeral, else the message of the error.
#[verifier::external_body]
fn u8_from_hex(s: &str) -> (r: Result<u8, String>)
    ensures
        match hex_u8_spec(s@) {
            Some(v) => r == Ok::<u8, String>(v),
            None => r matches Err(m) && m@ == from_hex_error_text(s@),
        },
{
    match u8::from_str_radix(s, 16) {
        Ok(v) => Ok(v),
        Err(e) => Err(e.to_string()),
    }
}

/// The message for a hex string of the wrong length.
pub open spec fn hex_length_message() -> Seq<char> {
    "hash hex must be 64 characters"@
}

/// Decoding one pair of bytes: UTF-8 first, then a hexadecimal numeral.
pub open spec fn pair_decode(p: Seq<u8>) -> Result<u8, Seq<char>> {
    if !valid_utf8(p) {
        Err(from_utf8_error_text(p))
    } else {
        match hex_u8_spec(decode_utf8(p)) {
            Some(v) => Ok(v),
            None => Err(from_hex_error_text(decode_utf8(p))),
        }
    }
}

/// Decoding the first `n` byte pairs of `b`, stopping at the first bad one.
pub open spec fn pairs_decode(b: Seq<u8>, n: nat) -> Result<Seq<u8>, Seq<char>>
    decreases n,
{
    if n == 0 {
        Ok(Seq::empty())
    } else {
        match pairs_decode(b, (n - 1) as nat) {
            Err(m) => Err(m),
            Ok(h) => match pair_decode(b.subrange(2 * (n - 1), 2 * n as int)) {
                Err(m) => Err(m),
                Ok(v) => Ok(h.push(v)),
            },
        }
    }
}

/// Decoding a 64-character hex string into 32 bytes, or the message of
/// the error.
pub open spec fn hash_decode(s: Seq<char>) -> Result<Seq<u8>, Seq<char>> {
    if encode_utf8(s).len() != 64 {
        Err(hex_length_message())
    } else {
        pairs_decode(encode_utf8(s), 32)
    }
}

fn hash_to_hex(hash: Hash256) -> (r: String)
    ensures
        r@ == hex_chars(hash@),
{
    hex(&hash)
}

fn hex_to_hash(value: &str) -> (r: Result<Hash256, StorageError>)
    ensures
        match hash_decode(value@) {
            Ok(h) => r matches Ok(x) && x@ == h,
            Err(m) => r matches Err(StorageError::Serde(x)) && x@ == m,
        },
{
    let bytes = value.as_bytes();
    if bytes.len() != 64 {
        let mut m = String::new();
        m.append("hash hex must be 64 characters");
        return Err(StorageError::Serde(m));
    }
    let ghost b = bytes@;
    let mut out: Hash256 = ZERO_HASH;
    let mut i: usize = 0;
    while i < 32
        invariant
            bytes@ == b,
            b.len() == 64,
            b == encode_utf8(value@),
            i <= 32,
            out@.len() == 32,
            pairs_decode(b, i as nat) matches Ok(h) && h == out@.take(i as int),
        decreases 32 - i,
    {
        let pair = slice_pair(bytes, 2 * i);
        assert(pair@ == b.subrange(2 * i, 2 * (i + 1)));
        let text = match str_from_utf8(pair.as_slice()) {
            Err(m) => {
                proof {
                    lemma_pairs_decode_err(b, (i + 1) as nat);
                }
                return Err(StorageError::Serde(m));
            },
            Ok(t) => t,
        };
        let v = match u8_from_hex(text) {
            Err(m) => {
                proof {
                    lemma_pairs_decode_err(b, (i + 1) as nat);
                }
                return Err(StorageError::Serde(m));
            },
            Ok(v) => v,
        };
        let ghost before = out@;
        out[i] = v;
        assert(out@.take(i + 1) =~= before.take(i as int).push(v));
        i = i + 1;
    }
    assert(out@.take(32) =~= out@);
    Ok(out)
}

/// The bytes `b[start..start + 2]`.
fn slice_pair(b: &[u8], start: usize) -> (r: Vec<u8>)
    requires
        start + 2 <= b@.len(),
    ensures
        r@ == b@.subrange(start as int, start + 2),
{
    let mut v: Vec<u8> = Vec::new();
    v.push(b[start]);
    v.push(b[start + 1]);
    assert(v@ =~= b@.subrange(start as int, start + 2));
    v
}

proof fn lemma_pairs_decode_err(b: Seq<u8>, n: nat)
    requires
        n >= 1,
        pairs_decode(b, (n - 1) as nat) is Ok,
        pair_decode(b.subrange(2 * (n - 1), 2 * n as int)) is Err,
        n <= 32,
    ensures
        pairs_decode(b, 32) == Err::<Seq<u8>, Seq<char>>(pair_decode(b.subrange(2 * (n - 1), 2 * n as int))->Err_0),
    decreases 32 - n,
{
    if n < 32 {
        lemma_pairs_decode_err_stays(b, n, 32);
    }
}

proof fn lemma_pairs_decode_err_stays(b: Seq<u8>, n: nat, m: nat)
    requires
        n <= m,
        pairs_decode(b, n) is Err,
    ensures
        pairs_decode(b, m) == pairs_decode(b, n),
    decreases m - n,
{
    if n < m {
        lemma_pairs_decode_err_stays(b, n, (m - 1) as nat);
    }
}

// ── The hex round trip ──────────────────────────────────────────────────

proof fn lemma_hex_chars_index(b: Seq<u8>, i: int)
    requires
        0 <= i < b.len(),
    ensures
        hex_chars(b).len() == 2 * b.len(),
        hex_chars(b)[2 * i] == hex_digit_char((b[i] / 16) as nat),
        hex_chars(b)[2 * i + 1] == hex_digit_char((b[i] % 16) as nat),
    decreases b.len(),
{
    lemma_hex_chars_len(b);
    if i < b.len() - 1 {
        lemma_hex_chars_index(b.drop_last(), i);
        lemma_hex_chars_len(b.drop_last());
        assert(b.drop_last()[i] == b[i]);
    }
}

proof fn lemma_hex_chars_len(b: Seq<u8>)
    ensures
        hex_chars(b).len() == 2 * b.len(),
        is_ascii_chars(hex_chars(b)),
    decreases b.len(),
{
    if b.len() > 0 {
        lemma_hex_chars_len(b.drop_last());
        let p = hex_chars(b.drop_last());
        let s = hex_chars(b);
        assert forall|i: int| 0 <= i < s.len() implies '\0' <= #[trigger] s[i] <= '\u{7f}' by {
            if i < p.len() {
                assert(s[i] == p[i]);
            }
        }
    }
}

proof fn lemma_pair_of_hex_digits(x: u8)
    ensures
        pair_decode(encode_utf8(seq![hex_digit_char((x / 16) as nat), hex_digit_char((x % 16) as nat)]))
            == Ok::<u8, Seq<char>>(x),
{
    let hi = hex_digit_char((x / 16) as nat);
    let lo = hex_digit_char((x % 16) as nat);
    let s = seq![hi, lo];
    encode_utf8_valid_utf8(s);
    encode_utf8_decode_utf8(s);
    let d = decode_utf8(encode_utf8(s));
    assert(d == s);
    assert(is_hex_digit(hi) && is_hex_digit(lo));
    assert(hex_digit_value(hi) == x / 16);
    assert(hex_digit_value(lo) == x % 16);
    assert(s.drop_last() =~= seq![hi]);
    assert(seq![hi].drop_last() =~= Seq::<char>::empty());
    assert(seq![hi].last() == hi);
    assert(hex_digits_value(seq![hi].drop_last()) == 0);
    assert(hex_digits_value(seq![hi]) == hex_digit_value(hi));
    assert(s.last() == lo);
    assert(hex_digits_value(s) == 16 * (x / 16) + x % 16);
    assert(s[0] != '+');
}

/// Decoding the hex rendering of 32 bytes gives them back.
pub proof fn lemma_hash_hex_round_trip(h: Seq<u8>)
    requires
        h.len() == 32,
    ensures
        hash_decode(hex_chars(h)) == Ok::<Seq<u8>, Seq<char>>(h),
{
    let s = hex_chars(h);
    lemma_hex_chars_len(h);
    is_ascii_chars_encode_utf8(s);
    let b = encode_utf8(s);
    assert(b.len() == 64);
    assert forall|n: nat| n <= 32 implies #[trigger] pairs_decode(b, n) == Ok::<Seq<u8>, Seq<char>>(h.take(n as int)) by {
        lemma_pairs_prefix(h, s, b, n);
    }
    assert(h.take(32) =~= h);
}

proof fn lemma_pairs_prefix(h: Seq<u8>, s: Seq<char>, b: Seq<u8>, n: nat)
    requires
        h.len() == 32,
        s == hex_chars(h),
        s.len() == 64,
        b == encode_utf8(s),
        b.len() == 64,
        is_ascii_chars(s),
        n <= 32,
    ensures
        pairs_decode(b, n) == Ok::<Seq<u8>, Seq<char>>(h.take(n as int)),
    decreases n,
{
    if n == 0 {
        assert(h.take(0) =~= Seq::<u8>::empty());
    } else {
        lemma_pairs_prefix(h, s, b, (n - 1) as nat);
        let i = n - 1;
        lemma_hex_chars_index(h, i as int);
        is_ascii_chars_encode_utf8(s);
        let two = seq![s[2 * i], s[2 * i + 1]];
        assert(is_ascii_chars(two));
        is_ascii_chars_encode_utf8(two);
        assert(b.subrange(2 * i, 2 * n as int) =~= encode_utf8(two)) by {
            assert forall|k: int| 0 <= k < 2 implies b.subrange(2 * i, 2 * n as int)[k] == encode_utf8(two)[k] by {
                assert(b[2 * i + k] == s[2 * i + k] as u8);
                assert(encode_utf8(two)[k] == two[k] as u8);
            }
        }
        lemma_pair_of_hex_digits(h[i as int]);
        assert(h.take(n as int) =~= h.take(i as int).push(h[i as int]));
    }
}

// ── Snapshots ───────────────────────────────────────────────────────────

#[derive(Clone, Debug, PartialEq, Eq)]
pub struct TransactionSnapshot {
    pub from: String,
    pub to: String,
    pub amount_micro_ac: u64,
    pub fee_micro_ac: u64,
    pub nonce: u64,
    pub memo_commitment: String,
}

#[derive(Clone, Debug, PartialEq, Eq)]
pub struct BlockSnapshot {
    pub height: u64,
    pub previous_hash: String,
    pub state_root: String,
    pub transactions_root: String,
    pub timestamp_ms: u64,
    pub proposer: String,
    pub transactions: Vec<TransactionSnapshot>,
}

#[derive(Clone, Debug, PartialEq, Eq)]
pub struct ChainSnapshot {
    pub config: ChainConfig,
    pub blocks: Vec<BlockSnapshot>,
    pub balances: Vec<(String, u64)>,
    pub nonces: Vec<(String, u64)>,
}

#[derive(Clone, Debug)]
pub enum StorageError {
    Address(AddressError),
    Apply(ApplyError),
    InvalidBalance,
    Io(String),
    Serde(String),
}

impl From<AddressError> for StorageError {
    fn from(value: AddressError) -> (r: StorageError) {
        StorageError::Address(value)
    }
}

impl vstd::std_specs::convert::FromSpecImpl<AddressError> for StorageError {
    open spec fn obeys_from_spec() -> bool {
        true
    }

    open spec fn from_spec(value: AddressError) -> StorageError {
        StorageError::Address(value)
    }
}

impl From<ApplyError> for StorageError {
    fn from(value: ApplyError) -> (r: StorageError) {
        StorageError::Apply(value)
    }
}

impl vstd::std_specs::convert::FromSpecImpl<ApplyError> for StorageError {
    open spec fn obeys_from_spec() -> bool {
        true
    }

    open spec fn from_spec(value: ApplyError) -> StorageError {
        StorageError::Apply(value)
    }
}

/// The error of a malformed address string.
pub open spec fn address_error_of(s: Seq<char>) -> AddressError {
    address_check(s, encode_utf8(s).len())->Err_0
}

/// A snapshot transaction `s` read into `t`.
pub open spec fn tx_read_from(t: Transaction, s: TransactionSnapshot, memo: Seq<u8>) -> bool {
    &&& t.from@ == s.from@
    &&& t.to@ == s.to@
    &&& t.amount@ == s.amount_micro_ac
    &&& t.fee@ == s.fee_micro_ac
    &&& t.nonce == s.nonce
    &&& t.memo_commitment@ == memo
}

/// What reading a snapshot transaction gives: the sender's address, the
/// receiver's, the amount and the fee within the supply, then the memo
/// commitment's hex, checked in that order.
pub open spec fn tx_read_outcome(s: TransactionSnapshot, r: Result<Transaction, StorageError>) -> bool {
    if !valid_address(s.from@) {
        r == Err::<Transaction, StorageError>(StorageError::Address(address_error_of(s.from@)))
    } else if !valid_address(s.to@) {
        r == Err::<Transaction, StorageError>(StorageError::Address(address_error_of(s.to@)))
    } else if s.amount_micro_ac > MAX_SUPPLY || s.fee_micro_ac > MAX_SUPPLY {
        r == Err::<Transaction, StorageError>(StorageError::InvalidBalance)
    } else {
        match hash_decode(s.memo_commitment@) {
            Err(m) => r matches Err(StorageError::Serde(x)) && x@ == m,
            Ok(h) => r matches Ok(t) && tx_read_from(t, s, h),
        }
    }
}

/// Whether a snapshot transaction reads without error.
pub open spec fn tx_readable(s: TransactionSnapshot) -> bool {
    valid_address(s.from@) && valid_address(s.to@) && s.amount_micro_ac <= MAX_SUPPLY && s.fee_micro_ac
        <= MAX_SUPPLY && hash_decode(s.memo_commitment@) is Ok
}

/// A transaction written as `s`.
pub open spec fn tx_written_as(t: Transaction, s: TransactionSnapshot) -> bool {
    &&& s.from@ == t.from@
    &&& s.to@ == t.to@
    &&& s.amount_micro_ac == t.amount@
    &&& s.fee_micro_ac == t.fee@
    &&& s.nonce == t.nonce
    &&& s.memo_commitment@ == hex_chars(t.memo_commitment@)
}

impl TransactionSnapshot {
    fn from_transaction(tx: &Transaction) -> (r: TransactionSnapshot)
        ensures
            tx_written_as(*tx, r),
    {
        TransactionSnapshot {
            from: tx.from.to_string(),
            to: tx.to.to_string(),
            amount_micro_ac: tx.amount.micro_ac(),
            fee_micro_ac: tx.fee.micro_ac(),
            nonce: tx.nonce,
            memo_commitment: hash_to_hex(tx.memo_commitment),
        }
    }

    fn into_transaction(&self) -> (r: Result<Transaction, StorageError>)
        ensures
            tx_read_outcome(*self, r),
            r is Ok <==> tx_readable(*self),
    {
        let from = match Address::new(self.from.as_str()) {
            Err(e) => return Err(StorageError::Address(e)),
            Ok(a) => a,
        };
        let to = match Address::new(self.to.as_str()) {
            Err(e) => return Err(StorageError::Address(e)),
            Ok(a) => a,
        };
        let amount = match Coin::from_micro_ac(self.amount_micro_ac) {
            None => return Err(StorageError::InvalidBalance),
            Some(c) => c,
        };
        let fee = match Coin::from_micro_ac(self.fee_micro_ac) {
            None => return Err(StorageError::InvalidBalance),
            Some(c) => c,
        };
        let memo_commitment = match hex_to_hash(self.memo_commitment.as_str()) {
            Err(e) => return Err(e),
            Ok(h) => h,
        };
        Ok(Transaction { from, to, amount, fee, nonce: self.nonce, memo_commitment })
    }
}

/// Position of the first snapshot transaction that does not read (the
/// length when all do).
pub open spec fn first_unreadable_tx(s: Seq<TransactionSnapshot>) -> nat
    decreases s.len(),
{
    if s.len() == 0 || !tx_readable(s[0]) {
        0
    } else {
        1 + first_unreadable_tx(s.drop_first())
    }
}

/// A block written as `s`.
pub open spec fn block_written_as(b: Block, s: BlockSnapshot) -> bool {
    &&& s.height == b.header.height
    &&& s.previous_hash@ == hex_chars(b.header.previous_hash@)
    &&& s.state_root@ == hex_chars(b.header.state_root@)
    &&& s.transactions_root@ == hex_chars(b.header.transactions_root@)
    &&& s.timestamp_ms == b.header.timestamp_ms
    &&& s.proposer@ == b.header.proposer@
    &&& s.transactions@.len() == b.transactions@.len()
    &&& forall|i: int| 0 <= i < s.transactions@.len() ==> tx_written_as(b.transactions@[i], #[trigger] s.transactions@[i])
}

/// Whether a snapshot block reads without error.
pub open spec fn block_readable(s: BlockSnapshot) -> bool {
    &&& hash_decode(s.previous_hash@) is Ok
    &&& hash_decode(s.state_root@) is Ok
    &&& hash_decode(s.transactions_root@) is Ok
    &&& forall|i: int| 0 <= i < s.transactions@.len() ==> tx_readable(#[trigger] s.transactions@[i])
}

/// A snapshot block `s` read into `b`.
pub open spec fn block_read_from(b: Block, s: BlockSnapshot) -> bool {
    &&& b.header.height == s.height
    &&& b.header.previous_hash@ == hash_decode(s.previous_hash@)->Ok_0
    &&& b.header.state_root@ == hash_decode(s.state_root@)->Ok_0
    &&& b.header.transactions_root@ == hash_decode(s.transactions_root@)->Ok_0
    &&& b.header.timestamp_ms == s.timestamp_ms
    &&& b.header.proposer@ == s.proposer@
    &&& b.transactions@.len() == s.transactions@.len()
    &&& forall|i: int|
        0 <= i < s.transactions@.len() ==> tx_read_from(
            #[trigger] b.transactions@[i],
            s.transactions@[i],
            hash_decode(s.transactions@[i].memo_commitment@)->Ok_0,
        )
}

/// What reading a snapshot block gives: the previous hash, the state root
/// and the transactions root, then the transactions in order; the first
/// failure is the error.
pub open spec fn block_read_outcome(s: BlockSnapshot, r: Result<Block, StorageError>) -> bool {
    match hash_decode(s.previous_hash@) {
        Err(m) => r matches Err(StorageError::Serde(x)) && x@ == m,
        Ok(_) => match hash_decode(s.state_root@) {
            Err(m) => r matches Err(StorageError::Serde(x)) && x@ == m,
            Ok(_) => match hash_decode(s.transactions_root@) {
                Err(m) => r matches Err(StorageError::Serde(x)) && x@ == m,
                Ok(_) => {
                    let k = first_unreadable_tx(s.transactions@) as int;
                    if k < s.transactions@.len() {
                        r matches Err(e) && tx_read_outcome(
                            s.transactions@[k],
                            Err::<Transaction, StorageError>(e),
                        )
                    } else {
                        r matches Ok(b) && block_read_from(b, s)
                    }
                },
            },
        },
    }
}

proof fn lemma_first_unreadable_tx(s: Seq<TransactionSnapshot>, k: int)
    requires
        0 <= k <= s.len(),
        forall|j: int| 0 <= j < k ==> tx_readable(#[trigger] s[j]),
        k < s.len() ==> !tx_readable(s[k]),
    ensures
        first_unreadable_tx(s) == k,
    decreases k,
{
    if k > 0 {
        let r = s.drop_first();
        assert forall|j: int| 0 <= j < k - 1 implies tx_readable(#[trigger] r[j]) by {
            assert(r[j] == s[j + 1]);
        }
        if k < s.len() {
            assert(r[k - 1] == s[k]);
        }
        assert(tx_readable(s[0]));
        lemma_first_unreadable_tx(r, k - 1);
    }
}

impl BlockSnapshot {
    fn from_block(block: &Block) -> (r: BlockSnapshot)
        ensures
            block_written_as(*block, r),
    {
        let mut transactions: Vec<TransactionSnapshot> = Vec::new();
        let mut i: usize = 0;
        while i < block.transactions.len()
            invariant
                i <= block.transactions@.len(),
                transactions@.len() == i,
                forall|j: int| 0 <= j < i ==> tx_written_as(block.transactions@[j], #[trigger] transactions@[j]),
            decreases block.transactions@.len() - i,
        {
            transactions.push(TransactionSnapshot::from_transaction(&block.transactions[i]));
            i = i + 1;
        }
        BlockSnapshot {
            height: block.header.height,
            previous_hash: hash_to_hex(block.header.previous_hash),
            state_root: hash_to_hex(block.header.state_root),
            transactions_root: hash_to_hex(block.header.transactions_root),
            timestamp_ms: block.header.timestamp_ms,
            proposer: block.header.proposer.clone(),
            transactions,
        }
    }

    fn into_block(&self) -> (r: Result<Block, StorageError>)
        ensures
            block_read_outcome(*self, r),
            r is Ok <==> block_readable(*self),
    {
        let previous_hash = match hex_to_hash(self.previous_hash.as_str()) {
            Err(e) => return Err(e),
            Ok(h) => h,
        };
        let state_root = match hex_to_hash(self.state_root.as_str()) {
            Err(e) => return Err(e),
            Ok(h) => h,
        };
        let transactions_root = match hex_to_hash(self.transactions_root.as_str()) {
            Err(e) => return Err(e),
            Ok(h) => h,
        };
        let ghost ts = self.transactions@;
        let mut transactions: Vec<Transaction> = Vec::new();
        let mut i: usize = 0;
        while i < self.transactions.len()
            invariant
                ts == self.transactions@,
                hash_decode(self.previous_hash@) is Ok,
                hash_decode(self.state_root@) is Ok,
                hash_decode(self.transactions_root@) is Ok,
                i <= ts.len(),
                transactions@.len() == i,
                forall|j: int| 0 <= j < i ==> tx_readable(#[trigger] ts[j]),
                forall|j: int|
                    0 <= j < i ==> tx_read_from(
                        #[trigger] transactions@[j],
                        ts[j],
                        hash_decode(ts[j].memo_commitment@)->Ok_0,
                    ),
            decreases ts.len() - i,
        {
            let t = match self.transactions[i].into_transaction() {
                Err(e) => {
                    proof {
                        lemma_first_unreadable_tx(ts, i as int);
                    }
                    return Err(e);
                },
                Ok(t) => t,
            };
            transactions.push(t);
            i = i + 1;
        }
        proof {
            lemma_first_unreadable_tx(ts, i as int);
        }
        Ok(
            Block {
                header: BlockHeader {
                    height: self.height,
                    previous_hash,
                    state_root,
                    transactions_root,
                    timestamp_ms: self.timestamp_ms,
                    proposer: self.proposer.clone(),
                },
                transactions,
            },
        )
    }
}

/// Position of the first snapshot block that does not read (the length
/// when all do).
pub open spec fn first_unreadable_block(s: Seq<BlockSnapshot>) -> nat
    decreases s.len(),
{
    if s.len() == 0 || !block_readable(s[0]) {
        0
    } else {
        1 + first_unreadable_block(s.drop_first())
    }
}

proof fn lemma_first_unreadable_block(s: Seq<BlockSnapshot>, k: int)
    requires
        0 <= k <= s.len(),
        forall|j: int| 0 <= j < k ==> block_readable(#[trigger] s[j]),
        k < s.len() ==> !block_readable(s[k]),
    ensures
        first_unreadable_block(s) == k,
    decreases k,
{
    if k > 0 {
        let r = s.drop_first();
        assert forall|j: int| 0 <= j < k - 1 implies block_readable(#[trigger] r[j]) by {
            assert(r[j] == s[j + 1]);
        }
        if k < s.len() {
            assert(r[k - 1] == s[k]);
        }
        assert(block_readable(s[0]));
        lemma_first_unreadable_block(r, k - 1);
    }
}

impl Chain {
    /// The chain as plain values.
    pub fn to_snapshot(&self) -> (r: ChainSnapshot)
        ensures
            r.config == self.config_view(),
            r.blocks@.len() == self.blocks_view().len(),
            forall|i: int| 0 <= i < r.blocks@.len() ==> block_written_as(self.blocks_view()[i], #[trigger] r.blocks@[i]),
            raw_views(r.balances@) == self.state_view().0,
            raw_views(r.nonces@) == self.state_view().1,
    {
        let (balances, nonces) = self.snapshot_state();
        let source = self.blocks();
        let mut blocks: Vec<BlockSnapshot> = Vec::new();
        let mut i: usize = 0;
        while i < source.len()
            invariant
                source@ == self.blocks_view(),
                i <= source@.len(),
                blocks@.len() == i,
                forall|j: int| 0 <= j < i ==> block_written_as(source@[j], #[trigger] blocks@[j]),
            decreases source@.len() - i,
        {
            blocks.push(BlockSnapshot::from_block(&source[i]));
            i = i + 1;
        }
        ChainSnapshot { config: self.config().clone(), blocks, balances, nonces }
    }

    /// A chain restored from a snapshot: every block must read, then the
    /// balances and nonces must load.
    pub fn from_snapshot(snapshot: ChainSnapshot) -> (r: Result<Chain, StorageError>)
        ensures
            ({
                let bs = snapshot.blocks@;
                let k = first_unreadable_block(bs) as int;
                &&& k < bs.len() ==> (r matches Err(e) && block_read_outcome(bs[k], Err::<Block, StorageError>(e)))
                &&& k == bs.len() ==> match load_state(raw_views(snapshot.balances@), raw_views(snapshot.nonces@)) {
                    Err(e) => r == Err::<Chain, StorageError>(StorageError::Apply(state_error_to_apply(e))),
                    Ok(st) => r matches Ok(c) && c.state_view() == st && c.config_view() == snapshot.config
                        && c.blocks_view().len() == bs.len() && forall|i: int|
                        0 <= i < bs.len() ==> block_read_from(#[trigger] c.blocks_view()[i], bs[i]),
                }
            }),
    {
        let ghost bs = snapshot.blocks@;
        let mut blocks: Vec<Block> = Vec::new();
        let mut i: usize = 0;
        while i < snapshot.blocks.len()
            invariant
                bs == snapshot.blocks@,
                i <= bs.len(),
                blocks@.len() == i,
                forall|j: int| 0 <= j < i ==> block_readable(#[trigger] bs[j]),
                forall|j: int| 0 <= j < i ==> block_read_from(#[trigger] blocks@[j], bs[j]),
            decreases bs.len() - i,
        {
            let b = match snapshot.blocks[i].into_block() {
                Err(e) => {
                    proof {
                        lemma_first_unreadable_block(bs, i as int);
                    }
                    return Err(e);
                },
                Ok(b) => b,
            };
            blocks.push(b);
            i = i + 1;
        }
        proof {
            lemma_first_unreadable_block(bs, i as int);
        }
        let ChainSnapshot { config, blocks: _, balances, nonces } = snapshot;
        match Chain::from_persisted(config, blocks, balances, nonces) {
            Err(e) => Err(StorageError::Apply(e)),
            Ok(c) => Ok(c),
        }
    }
}

/// The devnet chain at genesis: the default configuration, the whole supply
/// allocated to the devnet treasury.
pub fn init_devnet_chain(timestamp_ms: u64) -> (r: Result<Chain, StorageError>)
    ensures
        r matches Ok(c) && c.config_view().chain_id@ == "abyss-devnet-1"@ && c.blocks_view().len() == 1
            && c.blocks_view()[0].header.timestamp_ms == timestamp_ms && c.blocks_view()[0].header.height == 0
            && c.blocks_view()[0].transactions@.len() == 0 && c.state_view().0 == seq![
            ("abyss1dev_treasury"@, MAX_SUPPLY as u64),
        ] && c.state_view().1.len() == 0 && amount_of(c.state_view().0, "abyss1dev_treasury"@) == MAX_SUPPLY,
{
    proof {
        let s = "abyss1dev_treasury"@;
        reveal_strlit("abyss1dev_treasury");
        assert forall|i: int| 0 <= i < s.len() implies address_char_ok(#[trigger] s[i]) by {}
        lemma_valid_address(s);
    }
    let treasury = match Address::new("abyss1dev_treasury") {
        Err(e) => return Err(StorageError::Address(e)),
        Ok(a) => a,
    };
    let genesis = crate::genesis::GenesisConfig::single_treasury(treasury);
    let ghost allocs = genesis.allocations@;
    proof {
        let a = allocs[0].0@;
        reveal_with_fuel(crate::chain::credit_all, 2);
        reveal_with_fuel(crate::genesis::alloc_total, 2);
        assert(allocs.drop_first().len() == 0);
        assert(allocs.drop_last().len() == 0);
        crate::keymap::lemma_lookup_insert(crate::state::Entries::empty(), a, MAX_SUPPLY as u64, a);
    }
    match Chain::from_genesis(ChainConfig::default(), genesis, timestamp_ms) {
        Err(e) => Err(StorageError::Apply(e)),
        Ok(c) => Ok(c),
    }
}

// ── The snapshot round trip ─────────────────────────────────────────────

/// What values of a transaction must satisfy: valid addresses and amounts
/// within the supply.
pub open spec fn tx_values_valid(t: Transaction) -> bool {
    valid_address(t.from@) && valid_address(t.to@) && t.amount@ <= MAX_SUPPLY && t.fee@ <= MAX_SUPPLY
}

/// Two transactions hold the same values.
pub open spec fn same_tx(a: Transaction, b: Transaction) -> bool {
    &&& a.from@ == b.from@
    &&& a.to@ == b.to@
    &&& a.amount@ == b.amount@
    &&& a.fee@ == b.fee@
    &&& a.nonce == b.nonce
    &&& a.memo_commitment@ == b.memo_commitment@
}

/// Two blocks hold the same values.
pub open spec fn same_block(a: Block, b: Block) -> bool {
    &&& a.header.height == b.header.height
    &&& a.header.previous_hash@ == b.header.previous_hash@
    &&& a.header.state_root@ == b.header.state_root@
    &&& a.header.transactions_root@ == b.header.transactions_root@
    &&& a.header.timestamp_ms == b.header.timestamp_ms
    &&& a.header.proposer@ == b.header.proposer@
    &&& a.transactions@.len() == b.transactions@.len()
    &&& forall|i: int| 0 <= i < a.transactions@.len() ==> same_tx(#[trigger] a.transactions@[i], b.transactions@[i])
}

/// A transaction written to a snapshot reads back with the same values.
pub proof fn lemma_tx_round_trip(t: Transaction, s: TransactionSnapshot, t2: Transaction)
    requires
        tx_written_as(t, s),
        tx_values_valid(t),
        tx_read_from(t2, s, hash_decode(s.memo_commitment@)->Ok_0),
    ensures
        tx_readable(s),
        same_tx(t2, t),
        tx_id_spec(t2) == tx_id_spec(t),
{
    lemma_hash_hex_round_trip(t.memo_commitment@);
}

/// A block written to a snapshot reads back as a block with the same
/// values, so with the same hash and the same transactions root.
pub proof fn lemma_block_round_trip(b: Block, s: BlockSnapshot, b2: Block)
    requires
        block_written_as(b, s),
        forall|i: int| 0 <= i < b.transactions@.len() ==> tx_values_valid(#[trigger] b.transactions@[i]),
        block_read_from(b2, s),
    ensures
        block_readable(s),
        same_block(b2, b),
        block_hash_spec(b2.header) == block_hash_spec(b.header),
        transactions_root_spec(b2.transactions@) == transactions_root_spec(b.transactions@),
{
    lemma_hash_hex_round_trip(b.header.previous_hash@);
    lemma_hash_hex_round_trip(b.header.state_root@);
    lemma_hash_hex_round_trip(b.header.transactions_root@);
    assert forall|i: int| 0 <= i < s.transactions@.len() implies tx_readable(#[trigger] s.transactions@[i]) && same_tx(
        b2.transactions@[i],
        b.transactions@[i],
    ) && tx_id_spec(b2.transactions@[i]) == tx_id_spec(b.transactions@[i]) by {
        lemma_tx_round_trip(b.transactions@[i], s.transactions@[i], b2.transactions@[i]);
    }
    assert(header_encoding(b2.header) == header_encoding(b.header));
    assert(tx_ids(b2.transactions@) =~= tx_ids(b.transactions@));
}

/// A chain written to a snapshot reads back: every block reads, as a
/// block with the same values and hash, and the balances and nonces load
/// as the same state.
pub proof fn lemma_chain_snapshot_round_trip(blocks: Seq<Block>, state: StateView, snap: ChainSnapshot)
    requires
        snap.blocks@.len() == blocks.len(),
        forall|i: int| 0 <= i < blocks.len() ==> block_written_as(blocks[i], #[trigger] snap.blocks@[i]),
        forall|i: int, j: int|
            0 <= i < blocks.len() && 0 <= j < blocks[i].transactions@.len() ==> tx_values_valid(
                #[trigger] blocks[i].transactions@[j],
            ),
        raw_views(snap.balances@) == state.0,
        raw_views(snap.nonces@) == state.1,
        state_view_ok(state),
    ensures
        first_unreadable_block(snap.blocks@) == blocks.len(),
        load_state(raw_views(snap.balances@), raw_views(snap.nonces@)) == Ok::<StateView, StateError>(state),
        forall|i: int, b2: Block|
            0 <= i < blocks.len() && #[trigger] block_read_from(b2, snap.blocks@[i]) ==> same_block(b2, blocks[i])
                && block_hash_spec(b2.header) == block_hash_spec(blocks[i].header),
{
    assert forall|i: int| 0 <= i < blocks.len() implies block_readable(#[trigger] snap.blocks@[i]) by {
        let b = blocks[i];
        assert forall|j: int| 0 <= j < b.transactions@.len() implies tx_values_valid(#[trigger] b.transactions@[j]) by {
            assert(tx_values_valid(blocks[i].transactions@[j]));
        }
        lemma_hash_hex_round_trip(b.header.previous_hash@);
        lemma_hash_hex_round_trip(b.header.state_root@);
        lemma_hash_hex_round_trip(b.header.transactions_root@);
        assert forall|j: int| 0 <= j < snap.blocks@[i].transactions@.len() implies tx_readable(
            #[trigger] snap.blocks@[i].transactions@[j],
        ) by {
            lemma_hash_hex_round_trip(b.transactions@[j].memo_commitment@);
        }
    }
    lemma_first_unreadable_block(snap.blocks@, blocks.len() as int);
    lemma_raw_round_trip(state);
    assert forall|i: int, b2: Block|
        0 <= i < blocks.len() && #[trigger] block_read_from(b2, snap.blocks@[i]) implies same_block(b2, blocks[i])
            && block_hash_spec(b2.header) == block_hash_spec(blocks[i].header) by {
        let b = blocks[i];
        assert forall|j: int| 0 <= j < b.transactions@.len() implies tx_values_valid(#[trigger] b.transactions@[j]) by {
            assert(tx_values_valid(blocks[i].transactions@[j]));
        }
        lemma_block_round_trip(b, snap.blocks@[i], b2);
    }
}

} // verus!

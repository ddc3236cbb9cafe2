//! Ledger state: account balances and nonces, kept apart from block
//! sequencing. Both tables are ordered by address.

use vstd::prelude::*;
use vstd::utf8::encode_utf8;
use vstd::string::*;
use crate::address::{address_check, address_error_text, valid_address, Address, AddressError};
use crate::coin::{coin_text, Coin, MAX_SUPPLY};
use crate::hashing::{dev_hash, dev_hash_spec, enc_str, le64, push_str, push_u64, Hash256};
use crate::keymap::{
    key_lt, keys_valid, lemma_insert_split, lemma_key_order, lemma_lookup_absent, lookup, sorted_insert, sorted_keys,
    AddressMap,
};

verus! {

/// Address-ordered entries as plain values.
pub type Entries = Seq<(Seq<char>, u64)>;

/// The view of a state: balances (in micro-AC) and nonces.
pub type StateView = (Entries, Entries);

/// Balance entries as micro-AC values.
pub open spec fn coin_entries(e: Seq<(Seq<char>, Coin)>) -> Entries {
    e.map_values(|x: (Seq<char>, Coin)| (x.0, x.1@))
}

/// The amount stored for `a`, zero when there is none.
pub open spec fn amount_of(e: Entries, a: Seq<char>) -> u64 {
    match lookup(e, a) {
        Some(v) => v,
        None => 0,
    }
}

/// The sum of the values, in micro-AC.
pub open spec fn total_amount(e: Entries) -> nat
    decreases e.len(),
{
    if e.len() == 0 {
        0
    } else {
        e[0].1 as nat + total_amount(e.drop_first())
    }
}

/// Storing `v` under `k` replaces the amount stored there: the sum gains
/// `v` and loses what `k` held.
pub proof fn lemma_total_insert(e: Entries, k: Seq<char>, v: u64)
    requires
        sorted_keys(e),
    ensures
        total_amount(sorted_insert(e, k, v)) + amount_of(e, k) == total_amount(e) + v,
    decreases e.len(),
{
    if e.len() == 0 {
        let t = seq![(k, v)];
        assert(t.drop_first().len() == 0);
        assert(total_amount(t.drop_first()) == 0);
        assert(t[0] == (k, v));
        assert(total_amount(t) == v as nat);
    } else if e[0].0 == k {
        let t = e.update(0, (k, v));
        assert(t.drop_first() =~= e.drop_first());
        assert(total_amount(t) == v as nat + total_amount(e.drop_first()));
    } else if key_lt(k, e[0].0) {
        assert forall|j: int| 0 <= j < e.len() implies #[trigger] e[j].0 != k by {
            lemma_key_order(k, k, k);
            if j > 0 {
                lemma_key_order(k, e[0].0, e[j].0);
            }
        }
        lemma_lookup_absent(e, k);
        let t = seq![(k, v)] + e;
        assert(t.drop_first() =~= e);
        assert(t[0] == (k, v));
        assert(total_amount(t) == v as nat + total_amount(e));
    } else {
        let rest = e.drop_first();
        assert forall|a: int, b: int| 0 <= a < b < rest.len() implies key_lt(
            #[trigger] rest[a].0,
            #[trigger] rest[b].0,
        ) by {
            assert(rest[a] == e[a + 1] && rest[b] == e[b + 1]);
        }
        lemma_total_insert(rest, k, v);
        let t = seq![e[0]] + sorted_insert(rest, k, v);
        assert(t.drop_first() =~= sorted_insert(rest, k, v));
        assert(t[0] == e[0]);
        assert(sorted_insert(e, k, v) == t);
        assert(total_amount(t) == e[0].1 as nat + total_amount(sorted_insert(rest, k, v)));
        assert(amount_of(e, k) == amount_of(rest, k));
    }
}

/// Every value is at most the maximum supply.
pub open spec fn values_bounded(e: Entries) -> bool {
    forall|i: int| 0 <= i < e.len() ==> (#[trigger] e[i]).1 <= MAX_SUPPLY
}

/// Encoding of the entries: each address string, then its value.
pub open spec fn enc_entries(e: Entries) -> Seq<u8>
    decreases e.len(),
{
    if e.len() == 0 {
        Seq::empty()
    } else {
        enc_entries(e.drop_last()) + enc_str(e.last().0) + le64(e.last().1)
    }
}

/// Encoding of an address-ordered table: its size, then its entries.
pub open spec fn enc_table(e: Entries) -> Seq<u8> {
    le64(e.len() as u64) + enc_entries(e)
}

/// The state root: the digest of the balance table followed by the nonce
/// table.
pub open spec fn state_root_spec(v: StateView) -> Seq<u8> {
    dev_hash_spec(enc_table(v.0) + enc_table(v.1))
}

/// A well-formed state view: both tables in address order, keys valid,
/// balances within the supply.
pub open spec fn state_view_ok(v: StateView) -> bool {
    &&& sorted_keys(v.0)
    &&& sorted_keys(v.1)
    &&& keys_valid(v.0)
    &&& keys_valid(v.1)
    &&& values_bounded(v.0)
}

proof fn lemma_coin_entries_insert(e: Seq<(Seq<char>, Coin)>, k: Seq<char>, c: Coin)
    ensures
        coin_entries(sorted_insert(e, k, c)) == sorted_insert(coin_entries(e), k, c@),
    decreases e.len(),
{
    if e.len() == 0 {
        assert(coin_entries(seq![(k, c)]) =~= seq![(k, c@)]);
    } else if e[0].0 == k {
        assert(coin_entries(e.update(0, (k, c))) =~= coin_entries(e).update(0, (k, c@)));
    } else if crate::keymap::key_lt(k, e[0].0) {
        assert(coin_entries(seq![(k, c)] + e) =~= seq![(k, c@)] + coin_entries(e));
    } else {
        lemma_coin_entries_insert(e.drop_first(), k, c);
        assert(coin_entries(seq![e[0]] + sorted_insert(e.drop_first(), k, c)) =~= seq![
            coin_entries(e)[0],
        ] + coin_entries(sorted_insert(e.drop_first(), k, c)));
        assert(coin_entries(e.drop_first()) =~= coin_entries(e).drop_first());
    }
}

proof fn lemma_lookup_coin(e: Seq<(Seq<char>, Coin)>, k: Seq<char>)
    ensures
        lookup(coin_entries(e), k) == match lookup(e, k) {
            Some(c) => Some(c@),
            None => None::<u64>,
        },
    decreases e.len(),
{
    if e.len() > 0 && e[0].0 != k {
        lemma_lookup_coin(e.drop_first(), k);
        assert(coin_entries(e.drop_first()) =~= coin_entries(e).drop_first());
    }
}

/// The bound on stored values survives an insert of a bounded value.
proof fn lemma_bounded_insert(e: Entries, k: Seq<char>, v: u64)
    requires
        values_bounded(e),
        v <= MAX_SUPPLY,
    ensures
        values_bounded(sorted_insert(e, k, v)),
    decreases e.len(),
{
    if e.len() == 0 {
    } else if e[0].0 == k {
    } else if crate::keymap::key_lt(k, e[0].0) {
        assert forall|i: int| 0 <= i < e.len() + 1 implies (#[trigger] (seq![(k, v)] + e)[i]).1
            <= MAX_SUPPLY by {
            if i > 0 {
                assert((seq![(k, v)] + e)[i] == e[i - 1]);
            }
        }
    } else {
        lemma_bounded_insert(e.drop_first(), k, v);
        let r = sorted_insert(e.drop_first(), k, v);
        assert forall|i: int| 0 <= i < r.len() + 1 implies (#[trigger] (seq![e[0]] + r)[i]).1
            <= MAX_SUPPLY by {
            if i > 0 {
                assert((seq![e[0]] + r)[i] == r[i - 1]);
            }
        }
    }
}

/// Plain views of string-keyed entries.
pub open spec fn raw_views(v: Seq<(String, u64)>) -> Entries {
    v.map_values(|x: (String, u64)| (x.0@, x.1))
}

/// Loading balance entries in order into `acc`: the first entry with a bad
/// address or a value above the supply stops the load.
pub open spec fn load_balances(acc: Entries, input: Entries) -> Result<Entries, StateError>
    decreases input.len(),
{
    if input.len() == 0 {
        Ok(acc)
    } else {
        let k = input[0].0;
        let v = input[0].1;
        match address_check(k, encode_utf8(k).len()) {
            Err(e) => Err(StateError::Address(e)),
            Ok(_) => if v > MAX_SUPPLY {
                Err(StateError::BalanceOverflow)
            } else {
                load_balances(sorted_insert(acc, k, v), input.drop_first())
            },
        }
    }
}

/// Loading nonce entries in order into `acc`: the first entry with a bad
/// address stops the load.
pub open spec fn load_nonces(acc: Entries, input: Entries) -> Result<Entries, StateError>
    decreases input.len(),
{
    if input.len() == 0 {
        Ok(acc)
    } else {
        let k = input[0].0;
        match address_check(k, encode_utf8(k).len()) {
            Err(e) => Err(StateError::Address(e)),
            Ok(_) => load_nonces(sorted_insert(acc, k, input[0].1), input.drop_first()),
        }
    }
}

/// Restoring a state from raw tables: balances first, then nonces.
pub open spec fn load_state(balances: Entries, nonces: Entries) -> Result<StateView, StateError> {
    match load_balances(Entries::empty(), balances) {
        Err(e) => Err(e),
        Ok(b) => match load_nonces(Entries::empty(), nonces) {
            Err(e) => Err(e),
            Ok(n) => Ok((b, n)),
        },
    }
}

proof fn lemma_load_sorted(e: Entries, i: int, balances: bool)
    requires
        0 <= i <= e.len(),
        sorted_keys(e),
        keys_valid(e),
        balances ==> values_bounded(e),
    ensures
        balances ==> load_balances(e.subrange(0, i), e.subrange(i, e.len() as int)) == Ok::<Entries, StateError>(e),
        !balances ==> load_nonces(e.subrange(0, i), e.subrange(i, e.len() as int)) == Ok::<Entries, StateError>(e),
    decreases e.len() - i,
{
    if i == e.len() {
        assert(e.subrange(0, i) =~= e);
    } else {
        let acc = e.subrange(0, i);
        let k = e[i].0;
        let v = e[i].1;
        assert forall|j: int| 0 <= j < acc.len() implies crate::keymap::key_lt(#[trigger] acc[j].0, k) by {
            assert(acc[j] == e[j]);
        }
        lemma_insert_split(acc, k, v, acc.len() as int);
        assert(acc.subrange(acc.len() as int, acc.len() as int) =~= Entries::empty());
        assert(acc.subrange(0, acc.len() as int) =~= acc);
        assert(sorted_insert(acc, k, v) =~= e.subrange(0, i + 1));
        assert(e.subrange(i, e.len() as int).drop_first() =~= e.subrange(i + 1, e.len() as int));
        assert(e.subrange(i, e.len() as int)[0] == e[i]);
        assert(valid_address(e[i].0));
        lemma_load_sorted(e, i + 1, balances);
    }
}

/// Restoring the raw tables of a well-formed state gives that state back.
pub proof fn lemma_raw_round_trip(v: StateView)
    requires
        state_view_ok(v),
    ensures
        load_state(v.0, v.1) == Ok::<StateView, StateError>(v),
{
    lemma_load_sorted(v.0, 0, true);
    lemma_load_sorted(v.1, 0, false);
    assert(v.0.subrange(0, 0) =~= Entries::empty());
    assert(v.1.subrange(0, 0) =~= Entries::empty());
    assert(v.0.subrange(0, v.0.len() as int) =~= v.0);
    assert(v.1.subrange(0, v.1.len() as int) =~= v.1);
}

/// Balances and nonces of all accounts.
#[derive(Debug)]
pub struct AccountState {
    balances: AddressMap<Coin>,
    nonces: AddressMap<u64>,
}

impl AccountState {
    #[verifier::type_invariant]
    spec fn balances_bounded(self) -> bool {
        values_bounded(coin_entries(self.balances@))
    }

    /// The balance table as micro-AC values.
    pub closed spec fn balances_view(self) -> Entries {
        coin_entries(self.balances@)
    }

    /// The nonce table.
    pub closed spec fn nonces_view(self) -> Entries {
        self.nonces@
    }
}

/// All persistent ledger state for the chain.
#[derive(Debug)]
pub struct State {
    pub accounts: AccountState,
}

impl View for State {
    type V = StateView;

    open spec fn view(&self) -> StateView {
        (self.accounts.balances_view(), self.accounts.nonces_view())
    }
}

#[derive(Clone, Debug, PartialEq, Eq, Structural)]
pub enum StateError {
    Address(AddressError),
    BalanceOverflow,
    InsufficientFunds { available: Coin, required: Coin },
}

/// The message of a ledger error.
pub open spec fn state_error_text(e: StateError) -> Seq<char> {
    match e {
        StateError::Address(a) => "invalid address: "@ + address_error_text(a),
        StateError::BalanceOverflow => "balance overflow"@,
        StateError::InsufficientFunds { available, required } => "insufficient funds: have "@
            + coin_text(available@) + ", need "@ + coin_text(required@),
    }
}

impl StateError {
    /// The message of this error.
    pub fn to_string(&self) -> (r: String)
        ensures
            r@ == state_error_text(*self),
    {
        let mut s = String::new();
        match self {
            StateError::Address(a) => {
                s.append("invalid address: ");
                s.append(a.to_string().as_str());
            },
            StateError::BalanceOverflow => s.append("balance overflow"),
            StateError::InsufficientFunds { available, required } => {
                s.append("insufficient funds: have ");
                s.append(available.to_string().as_str());
                s.append(", need ");
                s.append(required.to_string().as_str());
            },
        }
        assert(s@ =~= state_error_text(*self));
        s
    }
}

impl State {
    pub fn new() -> (r: State)
        ensures
            r@ == (Entries::empty(), Entries::empty()),
    {
        let r = State { accounts: AccountState { balances: AddressMap::new(), nonces: AddressMap::new() } };
        assert(coin_entries(Seq::<(Seq<char>, Coin)>::empty()) =~= Entries::empty());
        r
    }

    /// Every state is well formed.
    pub fn well_formed(&self)
        ensures
            state_view_ok(self@),
    {
        proof {
            use_type_invariant(&self.accounts);
        }
        self.accounts.balances.entries_sorted();
        self.accounts.nonces.entries_sorted();
        proof {
            let b = self.accounts.balances@;
            assert forall|i: int, j: int| 0 <= i < j < coin_entries(b).len() implies crate::keymap::key_lt(
                #[trigger] coin_entries(b)[i].0,
                #[trigger] coin_entries(b)[j].0,
            ) by {
                assert(crate::keymap::key_lt(b[i].0, b[j].0));
            }
            assert forall|i: int| 0 <= i < coin_entries(b).len() implies valid_address(
                #[trigger] coin_entries(b)[i].0,
            ) by {
                assert(valid_address(b[i].0));
            }
        }
    }

    /// Deterministic hash of the whole state, used as a block's state root.
    pub fn root(&self) -> (r: Hash256)
        ensures
            r@ == state_root_spec(self@),
    {
        let mut enc: Vec<u8> = Vec::new();
        let ghost bal = self@.0;
        let ghost non = self@.1;
        let nb = self.accounts.balances.len();
        push_u64(&mut enc, nb as u64);
        let mut i: usize = 0;
        while i < nb
            invariant
                nb == bal.len(),
                bal == self@.0,
                i <= nb,
                enc@ == le64(nb as u64) + enc_entries(bal.subrange(0, i as int)),
            decreases nb - i,
        {
            let key = self.accounts.balances.key_at(i);
            let value = self.accounts.balances.value_at(i);
            push_str(&mut enc, key.as_str());
            push_u64(&mut enc, value.micro_ac());
            proof {
                let s = bal.subrange(0, i + 1);
                assert(s.drop_last() =~= bal.subrange(0, i as int));
                assert(s.last() == bal[i as int]);
            }
            assert(enc@ =~= le64(nb as u64) + enc_entries(bal.subrange(0, i + 1)));
            i = i + 1;
        }
        assert(bal.subrange(0, nb as int) =~= bal);
        let ghost mid = enc@;
        let nn = self.accounts.nonces.len();
        push_u64(&mut enc, nn as u64);
        let mut j: usize = 0;
        while j < nn
            invariant
                nn == non.len(),
                non == self@.1,
                j <= nn,
                enc@ == mid + le64(nn as u64) + enc_entries(non.subrange(0, j as int)),
            decreases nn - j,
        {
            let key = self.accounts.nonces.key_at(j);
            let value = self.accounts.nonces.value_at(j);
            push_str(&mut enc, key.as_str());
            push_u64(&mut enc, value);
            proof {
                let s = non.subrange(0, j + 1);
                assert(s.drop_last() =~= non.subrange(0, j as int));
                assert(s.last() == non[j as int]);
            }
            assert(enc@ =~= mid + le64(nn as u64) + enc_entries(non.subrange(0, j + 1)));
            j = j + 1;
        }
        assert(non.subrange(0, nn as int) =~= non);
        assert(enc@ =~= enc_table(bal) + enc_table(non));
        dev_hash(enc.as_slice())
    }

    pub fn balance_of(&self, address: &Address) -> (r: Coin)
        ensures
            r@ == amount_of(self@.0, address@),
    {
        proof {
            lemma_lookup_coin(self.accounts.balances@, address@);
        }
        match self.accounts.balances.get(address) {
            Some(c) => c,
            None => Coin::zero(),
        }
    }

    pub fn nonce_of(&self, address: &Address) -> (r: u64)
        ensures
            r == amount_of(self@.1, address@),
    {
        match self.accounts.nonces.get(address) {
            Some(n) => n,
            None => 0,
        }
    }

    /// The tables as string-keyed entries in address order (micro-AC
    /// balances, then nonces), for snapshots.
    pub fn to_raw(&self) -> (r: (Vec<(String, u64)>, Vec<(String, u64)>))
        ensures
            raw_views(r.0@) == self@.0,
            raw_views(r.1@) == self@.1,
    {
        let mut balances: Vec<(String, u64)> = Vec::new();
        let ghost bal = self@.0;
        let nb = self.accounts.balances.len();
        let mut i: usize = 0;
        while i < nb
            invariant
                nb == bal.len(),
                bal == self@.0,
                i <= nb,
                raw_views(balances@) == bal.subrange(0, i as int),
            decreases nb - i,
        {
            let key = self.accounts.balances.key_at(i).to_string();
            let value = self.accounts.balances.value_at(i).micro_ac();
            let ghost before = balances@;
            balances.push((key, value));
            assert(raw_views(balances@) =~= raw_views(before).push((key@, value)));
            assert(bal.subrange(0, i + 1) =~= bal.subrange(0, i as int).push(bal[i as int]));
            i = i + 1;
        }
        assert(bal.subrange(0, nb as int) =~= bal);
        let mut nonces: Vec<(String, u64)> = Vec::new();
        let ghost non = self@.1;
        let nn = self.accounts.nonces.len();
        let mut j: usize = 0;
        while j < nn
            invariant
                nn == non.len(),
                non == self@.1,
                j <= nn,
                raw_views(nonces@) == non.subrange(0, j as int),
            decreases nn - j,
        {
            let key = self.accounts.nonces.key_at(j).to_string();
            let value = self.accounts.nonces.value_at(j);
            let ghost before = nonces@;
            nonces.push((key, value));
            assert(raw_views(nonces@) =~= raw_views(before).push((key@, value)));
            assert(non.subrange(0, j + 1) =~= non.subrange(0, j as int).push(non[j as int]));
            j = j + 1;
        }
        assert(non.subrange(0, nn as int) =~= non);
        (balances, nonces)
    }

    /// Restore a state from string-keyed entries (balances in micro-AC).
    pub fn from_raw(balances: Vec<(String, u64)>, nonces: Vec<(String, u64)>) -> (r: Result<State, StateError>)
        ensures
            match r {
                Ok(s) => load_state(raw_views(balances@), raw_views(nonces@)) == Ok::<StateView, StateError>(s@),
                Err(e) => load_state(raw_views(balances@), raw_views(nonces@)) == Err::<StateView, StateError>(e),
            },
    {
        let mut state = State::new();
        let ghost input = raw_views(balances@);
        let mut i: usize = 0;
        assert(input.subrange(0, input.len() as int) =~= input);
        assert(state@.0 =~= Entries::empty());
        while i < balances.len()
            invariant
                input == raw_views(balances@),
                i <= balances@.len(),
                state@.1 == Entries::empty(),
                load_balances(Entries::empty(), input) == load_balances(state@.0, input.subrange(i as int, input.len() as int)),
            decreases balances@.len() - i,
        {
            let ghost rest = input.subrange(i as int, input.len() as int);
            assert(rest[0] == input[i as int]);
            assert(rest.drop_first() =~= input.subrange(i + 1, input.len() as int));
            let addr = match Address::new(balances[i].0.as_str()) {
                Ok(a) => a,
                Err(e) => return Err(StateError::Address(e)),
            };
            let coin = match Coin::from_micro_ac(balances[i].1) {
                Some(c) => c,
                None => return Err(StateError::BalanceOverflow),
            };
            state.insert_balance(&addr, coin);
            i = i + 1;
        }
        assert(input.subrange(i as int, input.len() as int) =~= Entries::empty());
        let ghost loaded_balances = state@.0;
        let ghost ninput = raw_views(nonces@);
        let mut j: usize = 0;
        assert(ninput.subrange(0, ninput.len() as int) =~= ninput);
        assert(state@.1 =~= Entries::empty());
        while j < nonces.len()
            invariant
                ninput == raw_views(nonces@),
                input == raw_views(balances@),
                load_balances(Entries::empty(), input) == Ok::<Entries, StateError>(loaded_balances),
                j <= nonces@.len(),
                state@.0 == loaded_balances,
                load_nonces(Entries::empty(), ninput) == load_nonces(state@.1, ninput.subrange(j as int, ninput.len() as int)),
            decreases nonces@.len() - j,
        {
            let ghost rest = ninput.subrange(j as int, ninput.len() as int);
            assert(rest[0] == ninput[j as int]);
            assert(rest.drop_first() =~= ninput.subrange(j + 1, ninput.len() as int));
            let addr = match Address::new(nonces[j].0.as_str()) {
                Ok(a) => a,
                Err(e) => return Err(StateError::Address(e)),
            };
            state.insert_nonce(&addr, nonces[j].1);
            j = j + 1;
        }
        assert(ninput.subrange(j as int, ninput.len() as int) =~= Entries::empty());
        Ok(state)
    }

    fn insert_nonce(&mut self, address: &Address, value: u64)
        ensures
            final(self)@ == (old(self)@.0, sorted_insert(old(self)@.1, address@, value)),
    {
        proof {
            use_type_invariant(&self.accounts);
        }
        let mut nonces = AddressMap::new();
        std::mem::swap(&mut nonces, &mut self.accounts.nonces);
        nonces.insert(address, value);
        self.accounts.nonces = nonces;
    }

    /// Credit `amount` to `address`, creating the account if needed.
    pub fn credit(&mut self, address: &Address, amount: Coin) -> (r: Result<(), StateError>)
        ensures
            r is Ok <==> amount_of(old(self)@.0, address@) + amount@ <= MAX_SUPPLY,
            r is Ok ==> final(self)@ == (
                sorted_insert(
                    old(self)@.0,
                    address@,
                    (amount_of(old(self)@.0, address@) + amount@) as u64,
                ),
                old(self)@.1,
            ),
            r is Err ==> r == Err::<(), StateError>(StateError::BalanceOverflow) && final(self)@
                == old(self)@,
    {
        let next = match self.balance_of(address).checked_add(amount) {
            Some(c) => c,
            None => return Err(StateError::BalanceOverflow),
        };
        self.insert_balance(address, next);
        Ok(())
    }

    fn insert_balance(&mut self, address: &Address, value: Coin)
        ensures
            final(self)@ == (sorted_insert(old(self)@.0, address@, value@), old(self)@.1),
    {
        let _ = value.micro_ac();
        proof {
            use_type_invariant(&self.accounts);
            lemma_coin_entries_insert(self.accounts.balances@, address@, value);
            lemma_bounded_insert(coin_entries(self.accounts.balances@), address@, value@);
        }
        let mut balances = AddressMap::new();
        std::mem::swap(&mut balances, &mut self.accounts.balances);
        balances.insert(address, value);
        self.accounts.balances = balances;
    }

    /// Debit `amount` from `address`; fails when the balance is too small.
    pub fn debit(&mut self, address: &Address, amount: Coin) -> (r: Result<(), StateError>)
        ensures
            r is Ok <==> amount@ <= amount_of(old(self)@.0, address@),
            r is Ok ==> final(self)@ == (
                sorted_insert(
                    old(self)@.0,
                    address@,
                    (amount_of(old(self)@.0, address@) - amount@) as u64,
                ),
                old(self)@.1,
            ),
            r matches Err(e) ==> final(self)@ == old(self)@ && (e matches StateError::InsufficientFunds {
                available,
                required,
            } && available@ == amount_of(old(self)@.0, address@) && required == amount),
    {
        let current = self.balance_of(address);
        let next = match current.checked_sub(amount) {
            Some(c) => c,
            None => return Err(StateError::InsufficientFunds { available: current, required: amount }),
        };
        self.insert_balance(address, next);
        Ok(())
    }

    /// Advance the nonce of `address` by one.
    pub fn increment_nonce(&mut self, address: &Address)
        requires
            amount_of(old(self)@.1, address@) < u64::MAX,
        ensures
            final(self)@ == (
                old(self)@.0,
                sorted_insert(old(self)@.1, address@, (amount_of(old(self)@.1, address@) + 1) as u64),
            ),
    {
        let next = self.nonce_of(address) + 1;
        self.insert_nonce(address, next);
    }
}

impl Clone for State {
    fn clone(&self) -> (r: State)
        ensures
            r@ == self@,
    {
        proof {
            use_type_invariant(&self.accounts);
        }
        State {
            accounts: AccountState {
                balances: self.accounts.balances.clone(),
                nonces: self.accounts.nonces.clone(),
            },
        }
    }
}

} // verus!

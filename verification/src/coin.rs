//! The native AC coin, held as an integer count of micro-AC units and
//! capped at the maximum supply.

use vstd::prelude::*;
use vstd::string::*;
use crate::text::{decimal, push_decimal, push_decimal_padded, zero_padded};

verus! {

/// Number of micro-AC units in one AC.
pub const COIN: u64 = 100_000_000;

/// Maximum supply of AC, in micro-AC (55,000,000 AC).
pub const MAX_SUPPLY: u64 = 5_500_000_000_000_000;

/// An amount of AC. Every value lies within `0..=MAX_SUPPLY` micro-AC.
#[derive(Clone, Copy, Debug, PartialEq, Eq, Structural, Hash, PartialOrd, Ord)]
pub struct Coin(u64);

impl View for Coin {
    type V = u64;

    closed spec fn view(&self) -> u64 {
        self.0
    }
}

impl Coin {
    #[verifier::type_invariant]
    spec fn within_supply(self) -> bool {
        self.0 <= MAX_SUPPLY
    }

    /// The amount holding `value` micro-AC (meaningful for values within the
    /// supply).
    pub closed spec fn spec_of(value: u64) -> Coin {
        Coin(value)
    }

    pub proof fn lemma_spec_of(value: u64)
        ensures
            Coin::spec_of(value)@ == value,
    {
    }

    /// Amounts are determined by their value.
    pub proof fn lemma_eq(a: Coin, b: Coin)
        requires
            a@ == b@,
        ensures
            a == b,
    {
    }

    /// The empty amount.
    pub fn zero() -> (r: Coin)
        ensures
            r@ == 0,
    {
        Coin(0)
    }

    /// The whole supply.
    pub fn max_supply() -> (r: Coin)
        ensures
            r@ == MAX_SUPPLY,
    {
        Coin(MAX_SUPPLY)
    }

    pub fn from_micro_ac(value: u64) -> (r: Option<Coin>)
        ensures
            r matches Some(c) ==> c@ == value,
            r is Some <==> value <= MAX_SUPPLY,
    {
        if value <= MAX_SUPPLY {
            Some(Coin(value))
        } else {
            None
        }
    }

    pub fn from_ac(value: u64) -> (r: Option<Coin>)
        ensures
            r matches Some(c) ==> c@ == value * COIN,
            r is Some <==> value * COIN <= MAX_SUPPLY,
    {
        match value.checked_mul(COIN) {
            Some(v) => {
                if v <= MAX_SUPPLY {
                    Some(Coin(v))
                } else {
                    None
                }
            },
            None => None,
        }
    }

    pub fn micro_ac(self) -> (r: u64)
        ensures
            r == self@,
            r <= MAX_SUPPLY,
    {
        proof {
            use_type_invariant(&self);
        }
        self.0
    }

    pub fn checked_add(self, rhs: Coin) -> (r: Option<Coin>)
        ensures
            r matches Some(c) ==> c@ == self@ + rhs@,
            r is Some <==> self@ + rhs@ <= MAX_SUPPLY,
    {
        proof {
            use_type_invariant(&self);
            use_type_invariant(&rhs);
        }
        let sum = self.0 + rhs.0;
        if sum <= MAX_SUPPLY {
            Some(Coin(sum))
        } else {
            None
        }
    }

    pub fn checked_sub(self, rhs: Coin) -> (r: Option<Coin>)
        ensures
            r matches Some(c) ==> c@ == self@ - rhs@,
            r is Some <==> rhs@ <= self@,
    {
        proof {
            use_type_invariant(&self);
        }
        if rhs.0 <= self.0 {
            Some(Coin(self.0 - rhs.0))
        } else {
            None
        }
    }

    pub fn is_zero(self) -> (r: bool)
        ensures
            r == (self@ == 0),
    {
        self.0 == 0
    }

    /// The amount in whole AC with eight decimals, e.g. "1.23456789 AC".
    pub fn to_string(&self) -> (r: String)
        ensures
            r@ == coin_text(self@),
    {
        let mut s = String::new();
        push_decimal(&mut s, self.0 / COIN);
        s.append(".");
        push_decimal_padded(&mut s, self.0 % COIN, 8);
        s.append(" AC");
        assert(s@ =~= coin_text(self@));
        s
    }
}

/// The text of an amount of `v` micro-AC: whole AC, a point, the
/// remainder on eight digits, then " AC".
pub open spec fn coin_text(v: u64) -> Seq<char> {
    decimal((v / COIN) as nat) + "."@ + zero_padded(decimal((v % COIN) as nat), 8) + " AC"@
}

impl Default for Coin {
    fn default() -> (r: Coin)
        ensures
            r@ == 0,
    {
        Coin(0)
    }
}

impl std::ops::Add for Coin {
    type Output = Option<Coin>;

    /// `checked_add`.
    fn add(self, rhs: Coin) -> (r: Option<Coin>)
        ensures
            r matches Some(c) ==> c@ == self@ + rhs@,
            r is Some <==> self@ + rhs@ <= MAX_SUPPLY,
    {
        self.checked_add(rhs)
    }
}

impl vstd::std_specs::ops::AddSpecImpl for Coin {
    open spec fn obeys_add_spec() -> bool {
        true
    }

    open spec fn add_req(self, rhs: Coin) -> bool {
        true
    }

    open spec fn add_spec(self, rhs: Coin) -> Option<Coin> {
        if self@ + rhs@ <= MAX_SUPPLY {
            Some(Coin::spec_of((self@ + rhs@) as u64))
        } else {
            None
        }
    }
}

impl std::ops::Sub for Coin {
    type Output = Option<Coin>;

    /// `checked_sub`.
    fn sub(self, rhs: Coin) -> (r: Option<Coin>)
        ensures
            r matches Some(c) ==> c@ == self@ - rhs@,
            r is Some <==> rhs@ <= self@,
    {
        self.checked_sub(rhs)
    }
}

impl vstd::std_specs::ops::SubSpecImpl for Coin {
    open spec fn obeys_sub_spec() -> bool {
        true
    }

    open spec fn sub_req(self, rhs: Coin) -> bool {
        true
    }

    open spec fn sub_spec(self, rhs: Coin) -> Option<Coin> {
        if rhs@ <= self@ {
            Some(Coin::spec_of((self@ - rhs@) as u64))
        } else {
            None
        }
    }
}

} // verus!

//! Genesis allocations.

use vstd::prelude::*;
use crate::address::Address;
use crate::coin::{Coin, MAX_SUPPLY};

verus! {

#[derive(Clone, Debug, PartialEq, Eq)]
pub struct GenesisConfig {
    pub allocations: Vec<(Address, Coin)>,
}

#[derive(Clone, Copy, Debug, PartialEq, Eq, Structural)]
pub enum GenesisError {
    SupplyOverflow,
}

/// The name of a genesis error.
pub open spec fn genesis_error_name(e: GenesisError) -> Seq<char> {
    match e {
        GenesisError::SupplyOverflow => "SupplyOverflow"@,
    }
}

impl GenesisError {
    /// The name of this error.
    pub fn name(&self) -> (r: &'static str)
        ensures
            r@ == genesis_error_name(*self),
    {
        match self {
            GenesisError::SupplyOverflow => "SupplyOverflow",
        }
    }
}

/// Sum of the allocated amounts, in micro-AC.
pub open spec fn alloc_total(a: Seq<(Address, Coin)>) -> int
    decreases a.len(),
{
    if a.len() == 0 {
        0
    } else {
        alloc_total(a.drop_last()) + a.last().1@
    }
}

proof fn lemma_alloc_total_prefix(a: Seq<(Address, Coin)>, i: int)
    requires
        0 <= i <= a.len(),
    ensures
        alloc_total(a.subrange(0, i)) <= alloc_total(a),
    decreases a.len() - i,
{
    if i < a.len() {
        lemma_alloc_total_prefix(a, i + 1);
        assert(a.subrange(0, i + 1).drop_last() =~= a.subrange(0, i));
    } else {
        assert(a.subrange(0, i) =~= a);
    }
}

impl GenesisConfig {
    /// The whole supply allocated to one address.
    pub fn single_treasury(address: Address) -> (r: GenesisConfig)
        ensures
            r.allocations@.len() == 1,
            r.allocations@[0].0 == address,
            r.allocations@[0].1@ == MAX_SUPPLY,
    {
        GenesisConfig { allocations: vec![(address, Coin::max_supply())] }
    }

    /// Total allocation, when it fits within the supply.
    pub fn total_allocated(&self) -> (r: Option<Coin>)
        ensures
            r is Some <==> alloc_total(self.allocations@) <= MAX_SUPPLY,
            r matches Some(c) ==> c@ == alloc_total(self.allocations@),
    {
        let ghost a = self.allocations@;
        let mut acc = Coin::zero();
        let mut i: usize = 0;
        while i < self.allocations.len()
            invariant
                a == self.allocations@,
                i <= a.len(),
                acc@ == alloc_total(a.subrange(0, i as int)),
            decreases a.len() - i,
        {
            assert(a.subrange(0, i + 1).drop_last() =~= a.subrange(0, i as int));
            match acc.checked_add(self.allocations[i].1) {
                Some(next) => {
                    acc = next;
                },
                None => {
                    proof {
                        lemma_alloc_total_prefix(a, i + 1);
                    }
                    return None;
                },
            }
            i = i + 1;
        }
        assert(a.subrange(0, i as int) =~= a);
        let _ = acc.micro_ac();
        Some(acc)
    }

    pub fn validate(&self) -> (r: Result<(), GenesisError>)
        ensures
            r is Ok <==> alloc_total(self.allocations@) <= MAX_SUPPLY,
            r is Err ==> r == Err::<(), GenesisError>(GenesisError::SupplyOverflow),
    {
        let total = match self.total_allocated() {
            Some(t) => t,
            None => return Err(GenesisError::SupplyOverflow),
        };
        if total.micro_ac() > MAX_SUPPLY {
            return Err(GenesisError::SupplyOverflow);
        }
        Ok(())
    }
}

} // verus!

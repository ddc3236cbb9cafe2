//! Tokenomics and sale planning: the supply split, the sale rounds, the
//! investor secondary window, the final DEX sale, team vesting, and the
//! USD amounts they are priced in.
//!
//! This is a deterministic planning model, not a legal wrapper and not an
//! on-chain sale contract.

use vstd::prelude::*;
use vstd::string::*;
use crate::chars::{
    lemma_decimal_digits, lemma_decimal_parses_back, lemma_padded_parses_back, lead_ws, trail_ws, is_digit,
    eq_ascii_case, eq_ignore_ascii_case, is_blank, lemma_trimmed_empty, parse_u64_chars,
    parse_u64_spec, str_chars, str_eq, trim_chars, trimmed, is_whitespace_char, is_white,
};
use crate::coin::{Coin, COIN, MAX_SUPPLY};
use crate::text::{decimal, push_decimal, push_decimal_padded, zero_padded};

verus! {

pub const BASIS_POINTS: u16 = 10_000;

/// The name of the allocation that funds the public sale.
pub const PUBLIC_SALE_ALLOCATION: &'static str = "Public sale and liquidity formation";

/// Largest whole-AC amount within the supply.
pub const MAX_SUPPLY_AC: u64 = 55_000_000;

#[derive(Clone, Debug, PartialEq, Eq, Structural)]
pub enum TokenomicsError {
    AllocationBasisPointsMustEqual10000 { actual: u16 },
    BasisPointOverflow,
    ContributionBelowMinimum,
    ContributionExceedsInvestorLimit,
    ContributionExceedsRoundCap,
    InvalidRoundPrice,
    InvalidUsdAmount,
    InvestorNotApproved,
    MissingJurisdiction,
    MissingPublicSaleAllocation,
    ProfessionalInvestorRequired,
    SaleRoundsExceedPublicAllocation { rounds: Coin, allocation: Coin },
    SecondaryWindowNotEligible,
    SecondaryListingBelowMinimum { min_ac: u64, actual_ac: u64 },
    SupplyOverflow,
}

/// A result carrying an amount, by the amount's micro-AC value.
pub open spec fn micro_result(r: Result<Coin, TokenomicsError>) -> Result<u64, TokenomicsError> {
    match r {
        Ok(c) => Ok(c@),
        Err(e) => Err(e),
    }
}

/// The amount of `ac` whole AC, when it fits the supply.
fn coin_of_ac(ac: u64) -> (r: Option<Coin>)
    ensures
        r is Some <==> ac <= MAX_SUPPLY_AC,
        r matches Some(c) ==> c@ == ac * COIN,
{
    let r = Coin::from_ac(ac);
    r
}

// ── Allocations ─────────────────────────────────────────────────────────

#[derive(Clone, Debug, PartialEq, Eq)]
pub struct Allocation {
    pub name: &'static str,
    pub basis_points: u16,
    pub exact_amount_ac: u64,
}

impl Allocation {
    /// The exact size of the allocation, in whole AC.
    pub open spec fn exact_ac(&self) -> u64 {
        self.exact_amount_ac
    }

    pub fn new(name: &'static str, basis_points: u16, exact_amount_ac: u64) -> (r: Allocation)
        ensures
            r.name == name,
            r.basis_points == basis_points,
            r.exact_ac() == exact_amount_ac,
    {
        Allocation { name, basis_points, exact_amount_ac }
    }

    pub fn amount(&self) -> (r: Coin)
        requires
            self.exact_ac() <= MAX_SUPPLY_AC,
        ensures
            r@ == self.exact_ac() * COIN,
    {
        coin_of_ac(self.exact_amount_ac).unwrap()
    }
}

/// Sum of the basis points.
pub open spec fn bps_total(a: Seq<Allocation>) -> nat
    decreases a.len(),
{
    if a.len() == 0 {
        0
    } else {
        bps_total(a.drop_last()) + a.last().basis_points as nat
    }
}

/// The first allocation with the given name.
pub open spec fn find_allocation(a: Seq<Allocation>, name: Seq<char>) -> Option<Allocation>
    decreases a.len(),
{
    if a.len() == 0 {
        None
    } else if a[0].name@ == name {
        Some(a[0])
    } else {
        find_allocation(a.drop_first(), name)
    }
}

/// Summed size, in micro-AC, of the allocations other than the public sale.
pub open spec fn team_total(a: Seq<Allocation>) -> nat
    decreases a.len(),
{
    if a.len() == 0 {
        0
    } else {
        team_total(a.drop_last()) + if a.last().name@ == PUBLIC_SALE_ALLOCATION@ {
            0nat
        } else {
            a.last().exact_ac() as nat * COIN as nat
        }
    }
}

/// Every allocation other than the public sale fits the supply.
pub open spec fn team_allocations_fit(a: Seq<Allocation>) -> bool {
    forall|i: int|
        0 <= i < a.len() && (#[trigger] a[i]).name@ != PUBLIC_SALE_ALLOCATION@ ==> a[i].exact_ac()
            <= MAX_SUPPLY_AC
}

// ── Sale rounds ─────────────────────────────────────────────────────────

#[derive(Clone, Debug, PartialEq, Eq)]
pub struct SaleRound {
    pub id: &'static str,
    pub name: &'static str,
    pub token_cap: Coin,
    pub price_usd_cents: u64,
    pub minimum_ticket_usd: u64,
    pub lockup_months: u16,
}

/// The identifier of a round, by its name.
pub open spec fn round_id_for(name: Seq<char>) -> Seq<char> {
    if name == "Sale to Investors"@ {
        "sale-to-investors"@
    } else if name == "Pre-Sale"@ {
        "pre-sale"@
    } else if name == "Sale Stage 1"@ {
        "public-stage-1"@
    } else if name == "Sale Stage 2"@ {
        "public-stage-2"@
    } else if name == "Sale Stage 3"@ {
        "public-stage-3"@
    } else {
        "custom"@
    }
}

/// The most a round can raise, in US cents.
pub open spec fn raise_cap(r: SaleRound) -> nat {
    (r.token_cap@ / COIN) as nat * r.price_usd_cents as nat
}

/// What a purchase of `cents` at `price` cents per AC buys, in micro-AC.
pub open spec fn purchase_spec(cents: u64, price: u64) -> Result<u64, TokenomicsError> {
    if cents * COIN > u64::MAX {
        Err(TokenomicsError::SupplyOverflow)
    } else if price == 0 {
        Err(TokenomicsError::InvalidRoundPrice)
    } else if (cents * COIN) / (price as int) > MAX_SUPPLY {
        Err(TokenomicsError::SupplyOverflow)
    } else {
        Ok(((cents * COIN) / (price as int)) as u64)
    }
}

/// What a contribution of `cents` to round `r` buys, in micro-AC.
pub open spec fn round_purchase_spec(r: SaleRound, cents: u64) -> Result<u64, TokenomicsError> {
    purchase_at(r.minimum_ticket_usd, r.price_usd_cents, r.token_cap@, cents)
}

/// What `cents` buys in a round with the given minimum ticket (dollars),
/// price (cents) and cap (micro-AC).
pub open spec fn purchase_at(minimum_ticket_usd: u64, price: u64, cap: u64, cents: u64) -> Result<
    u64,
    TokenomicsError,
> {
    if cents < minimum_ticket_usd * 100 {
        Err(TokenomicsError::ContributionBelowMinimum)
    } else {
        match purchase_spec(cents, price) {
            Err(e) => Err(e),
            Ok(m) => if m > cap {
                Err(TokenomicsError::ContributionExceedsRoundCap)
            } else {
                Ok(m)
            },
        }
    }
}

/// A contribution is accepted only from an investor with approved KYC and a
/// jurisdiction, with professional status for a round whose minimum ticket
/// is at least $100,000, for at least the minimum ticket and at most the
/// investor's limit, at a positive price; and it buys `m` micro-AC, within
/// the round cap, where `m` is the contribution divided by the price and
/// rounded down: `m * price <= cents * COIN < (m + 1) * price`.
pub proof fn lemma_accepted_contribution_terms(
    kyc: KycStatus,
    jurisdiction: Seq<char>,
    professional: bool,
    max: u64,
    minimum_ticket_usd: u64,
    price: u64,
    cap: u64,
    cents: u64,
)
    ensures
        contribution_at(kyc, jurisdiction, professional, max, minimum_ticket_usd, price, cap, cents)
            matches Ok(m) ==> {
            &&& kyc == KycStatus::Approved
            &&& trimmed(jurisdiction).len() > 0
            &&& minimum_ticket_usd >= 100_000 ==> professional
            &&& cents <= max
            &&& purchase_at(minimum_ticket_usd, price, cap, cents) == Ok::<u64, TokenomicsError>(m)
        },
        purchase_at(minimum_ticket_usd, price, cap, cents) matches Ok(m) ==> {
            &&& cents >= minimum_ticket_usd * 100
            &&& price > 0
            &&& m <= cap
            &&& m <= MAX_SUPPLY
            &&& m * price <= cents * COIN
            &&& cents * COIN < (m + 1) * price
        },
        purchase_spec(cents, price) matches Ok(m) ==> {
            &&& price > 0
            &&& m <= MAX_SUPPLY
            &&& m * price <= cents * COIN
            &&& cents * COIN < (m + 1) * price
        },
{
    if purchase_spec(cents, price) is Ok {
        let n = cents * COIN;
        let q = n / (price as int);
        assert(q * price <= n && n < (q + 1) * price) by (nonlinear_arith)
            requires
                price > 0,
                n >= 0,
                q == n / (price as int),
        ;
    }
}

fn purchase(cents: u64, price: u64) -> (r: Result<Coin, TokenomicsError>)
    ensures
        micro_result(r) == purchase_spec(cents, price),
{
    let micro = match cents.checked_mul(COIN) {
        None => return Err(TokenomicsError::SupplyOverflow),
        Some(m) => m,
    };
    let micro = match micro.checked_div(price) {
        None => return Err(TokenomicsError::InvalidRoundPrice),
        Some(m) => m,
    };
    match Coin::from_micro_ac(micro) {
        None => Err(TokenomicsError::SupplyOverflow),
        Some(c) => Ok(c),
    }
}

impl SaleRound {
    pub fn new(name: &'static str, token_cap_ac: u64, price_usd_cents: u64, minimum_ticket_usd: u64, lockup_months: u16) -> (r: SaleRound)
        requires
            token_cap_ac <= MAX_SUPPLY_AC,
        ensures
            r.id@ == round_id_for(name@),
            r.name == name,
            r.token_cap@ == token_cap_ac * COIN,
            r.price_usd_cents == price_usd_cents,
            r.minimum_ticket_usd == minimum_ticket_usd,
            r.lockup_months == lockup_months,
    {
        let id = if str_eq(name, "Sale to Investors") {
            "sale-to-investors"
        } else if str_eq(name, "Pre-Sale") {
            "pre-sale"
        } else if str_eq(name, "Sale Stage 1") {
            "public-stage-1"
        } else if str_eq(name, "Sale Stage 2") {
            "public-stage-2"
        } else if str_eq(name, "Sale Stage 3") {
            "public-stage-3"
        } else {
            "custom"
        };
        let token_cap = coin_of_ac(token_cap_ac).unwrap();
        SaleRound { id, name, token_cap, price_usd_cents, minimum_ticket_usd, lockup_months }
    }

    pub fn raise_cap_usd_cents(&self) -> (r: u64)
        requires
            raise_cap(*self) <= u64::MAX,
        ensures
            r == raise_cap(*self),
    {
        (self.token_cap.micro_ac() / COIN) * self.price_usd_cents
    }

    /// The tokens a contribution buys: at least the minimum ticket, at the
    /// round price, within the round cap.
    pub fn tokens_for_usd_cents(&self, contribution_usd_cents: u64) -> (r: Result<Coin, TokenomicsError>)
        requires
            self.minimum_ticket_usd * 100 <= u64::MAX,
        ensures
            micro_result(r) == round_purchase_spec(*self, contribution_usd_cents),
    {
        if contribution_usd_cents < self.minimum_ticket_usd * 100 {
            return Err(TokenomicsError::ContributionBelowMinimum);
        }
        let tokens = match purchase(contribution_usd_cents, self.price_usd_cents) {
            Err(e) => return Err(e),
            Ok(t) => t,
        };
        if tokens.micro_ac() > self.token_cap.micro_ac() {
            return Err(TokenomicsError::ContributionExceedsRoundCap);
        }
        Ok(tokens)
    }
}

/// Summed token caps of the rounds, in micro-AC.
pub open spec fn caps_total(r: Seq<SaleRound>) -> nat
    decreases r.len(),
{
    if r.len() == 0 {
        0
    } else {
        caps_total(r.drop_last()) + r.last().token_cap@ as nat
    }
}

/// Summed raise caps of the rounds, in US cents.
pub open spec fn raise_total(r: Seq<SaleRound>) -> nat
    decreases r.len(),
{
    if r.len() == 0 {
        0
    } else {
        raise_total(r.drop_last()) + raise_cap(r.last())
    }
}

/// The first round whose identifier is `id` or whose name is `id` up to
/// ASCII case.
pub open spec fn find_round(r: Seq<SaleRound>, id: Seq<char>) -> Option<SaleRound>
    decreases r.len(),
{
    if r.len() == 0 {
        None
    } else if r[0].id@ == id || eq_ascii_case(r[0].name@, id) {
        Some(r[0])
    } else {
        find_round(r.drop_first(), id)
    }
}

/// The first round, given by its terms, whose identifier is `id` or whose
/// name is `id` up to ASCII case.
pub open spec fn find_round_terms(r: Seq<(Seq<char>, Seq<char>, u64, u64, u64, u16)>, id: Seq<char>) -> Option<
    (Seq<char>, Seq<char>, u64, u64, u64, u16),
>
    decreases r.len(),
{
    if r.len() == 0 {
        None
    } else if r[0].0 == id || eq_ascii_case(r[0].1, id) {
        Some(r[0])
    } else {
        find_round_terms(r.drop_first(), id)
    }
}

/// Looking a round up among rounds finds the round whose terms looking it
/// up among their terms finds.
pub proof fn lemma_find_round_by_terms(
    rs: Seq<SaleRound>,
    ds: Seq<(Seq<char>, Seq<char>, u64, u64, u64, u16)>,
    id: Seq<char>,
)
    requires
        rs.len() == ds.len(),
        forall|i: int| 0 <= i < rs.len() ==> round_terms(#[trigger] rs[i]) == ds[i],
    ensures
        find_round(rs, id) is None <==> find_round_terms(ds, id) is None,
        find_round(rs, id) matches Some(x) ==> round_terms(x) == find_round_terms(ds, id)->Some_0,
    decreases rs.len(),
{
    if rs.len() > 0 {
        assert(round_terms(rs[0]) == ds[0]);
        let (rt, dt) = (rs.drop_first(), ds.drop_first());
        assert forall|i: int| 0 <= i < rt.len() implies round_terms(#[trigger] rt[i]) == dt[i] by {
            assert(rt[i] == rs[i + 1]);
            assert(round_terms(rs[i + 1]) == ds[i + 1]);
        }
        lemma_find_round_by_terms(rt, dt, id);
    }
}

// ── The plan ────────────────────────────────────────────────────────────

#[derive(Clone, Debug, PartialEq, Eq)]
pub struct TokenomicsPlan {
    pub symbol: &'static str,
    pub max_supply: Coin,
    pub allocations: Vec<Allocation>,
    pub sale_rounds: Vec<SaleRound>,
}

/// What validating a plan gives: the basis points must add up to exactly
/// 10,000, a public-sale allocation must exist, and the rounds' caps must
/// fit within it.
pub open spec fn validate_spec(p: TokenomicsPlan) -> Result<(), TokenomicsError> {
    let bps = bps_total(p.allocations@);
    if bps > u16::MAX {
        Err(TokenomicsError::BasisPointOverflow)
    } else if bps != BASIS_POINTS {
        Err(TokenomicsError::AllocationBasisPointsMustEqual10000 { actual: bps as u16 })
    } else {
        match find_allocation(p.allocations@, PUBLIC_SALE_ALLOCATION@) {
            None => Err(TokenomicsError::MissingPublicSaleAllocation),
            Some(a) => {
                let caps = caps_total(p.sale_rounds@);
                if caps > MAX_SUPPLY {
                    Err(TokenomicsError::SupplyOverflow)
                } else if caps > a.exact_ac() * COIN {
                    Err(
                        TokenomicsError::SaleRoundsExceedPublicAllocation {
                            rounds: Coin::spec_of(caps as u64),
                            allocation: Coin::spec_of((a.exact_ac() * COIN) as u64),
                        },
                    )
                } else {
                    Ok(())
                }
            },
        }
    }
}

/// A plan that validates has allocations summing to exactly 10,000 basis
/// points and a public-sale allocation, and the summed token caps of its
/// sale rounds are at most that allocation's amount.
pub proof fn lemma_valid_plan_fits_public_sale(p: TokenomicsPlan)
    ensures
        validate_spec(p) is Ok ==> bps_total(p.allocations@) == BASIS_POINTS,
        validate_spec(p) is Ok ==> (find_allocation(p.allocations@, PUBLIC_SALE_ALLOCATION@) matches Some(
            a,
        ) && caps_total(p.sale_rounds@) <= a.exact_ac() * COIN),
{
}

/// The public-sale allocation, where there is one, fits the supply.
pub open spec fn public_sale_fits(p: TokenomicsPlan) -> bool {
    find_allocation(p.allocations@, PUBLIC_SALE_ALLOCATION@) matches Some(a) ==> a.exact_ac()
        <= MAX_SUPPLY_AC
}

proof fn lemma_find_allocation_at(a: Seq<Allocation>, name: Seq<char>, i: int)
    requires
        0 <= i <= a.len(),
        forall|j: int| 0 <= j < i ==> (#[trigger] a[j]).name@ != name,
    ensures
        find_allocation(a, name) == find_allocation(a.skip(i), name),
    decreases i,
{
    if i > 0 {
        let r = a.drop_first();
        assert forall|j: int| 0 <= j < i - 1 implies (#[trigger] r[j]).name@ != name by {
            assert(r[j] == a[j + 1]);
        }
        lemma_find_allocation_at(r, name, i - 1);
        assert(r.skip(i - 1) =~= a.skip(i));
    } else {
        assert(a.skip(0) =~= a);
    }
}

proof fn lemma_find_round_at(r: Seq<SaleRound>, id: Seq<char>, i: int)
    requires
        0 <= i <= r.len(),
        forall|j: int| 0 <= j < i ==> !((#[trigger] r[j]).id@ == id || eq_ascii_case(r[j].name@, id)),
    ensures
        find_round(r, id) == find_round(r.skip(i), id),
    decreases i,
{
    if i > 0 {
        let t = r.drop_first();
        assert forall|j: int| 0 <= j < i - 1 implies !((#[trigger] t[j]).id@ == id || eq_ascii_case(
            t[j].name@,
            id,
        )) by {
            assert(t[j] == r[j + 1]);
        }
        lemma_find_round_at(t, id, i - 1);
        assert(t.skip(i - 1) =~= r.skip(i));
    } else {
        assert(r.skip(0) =~= r);
    }
}

proof fn lemma_caps_prefix(r: Seq<SaleRound>, n: int)
    requires
        0 <= n <= r.len(),
    ensures
        caps_total(r.take(n)) <= caps_total(r),
    decreases r.len() - n,
{
    if n < r.len() {
        lemma_caps_prefix(r, n + 1);
        assert(r.take(n + 1).drop_last() =~= r.take(n));
    } else {
        assert(r.take(n) =~= r);
    }
}

proof fn lemma_raise_prefix(r: Seq<SaleRound>, n: int)
    requires
        0 <= n <= r.len(),
    ensures
        raise_total(r.take(n)) <= raise_total(r),
    decreases r.len() - n,
{
    if n < r.len() {
        lemma_raise_prefix(r, n + 1);
        assert(r.take(n + 1).drop_last() =~= r.take(n));
    } else {
        assert(r.take(n) =~= r);
    }
}

proof fn lemma_bps_prefix(a: Seq<Allocation>, n: int)
    requires
        0 <= n <= a.len(),
    ensures
        bps_total(a.take(n)) <= bps_total(a),
    decreases a.len() - n,
{
    if n < a.len() {
        lemma_bps_prefix(a, n + 1);
        assert(a.take(n + 1).drop_last() =~= a.take(n));
    } else {
        assert(a.take(n) =~= a);
    }
}

proof fn lemma_team_prefix(a: Seq<Allocation>, n: int)
    requires
        0 <= n <= a.len(),
    ensures
        team_total(a.take(n)) <= team_total(a),
    decreases a.len() - n,
{
    if n < a.len() {
        lemma_team_prefix(a, n + 1);
        assert(a.take(n + 1).drop_last() =~= a.take(n));
    } else {
        assert(a.take(n) =~= a);
    }
}

impl TokenomicsPlan {
    pub fn validate(&self) -> (r: Result<(), TokenomicsError>)
        requires
            public_sale_fits(*self),
        ensures
            r == validate_spec(*self),
            r is Ok ==> bps_total(self.allocations@) == BASIS_POINTS,
            r is Ok ==> (find_allocation(self.allocations@, PUBLIC_SALE_ALLOCATION@) matches Some(a)
                && caps_total(self.sale_rounds@) <= a.exact_ac() * COIN),
    {
        let ghost a = self.allocations@;
        let mut bps: u16 = 0;
        let mut i: usize = 0;
        while i < self.allocations.len()
            invariant
                a == self.allocations@,
                i <= a.len(),
                bps == bps_total(a.take(i as int)),
            decreases a.len() - i,
        {
            assert(a.take(i + 1).drop_last() =~= a.take(i as int));
            assert(a.take(i + 1).last() == a[i as int]);
            match bps.checked_add(self.allocations[i].basis_points) {
                None => {
                    proof {
                        lemma_bps_prefix(a, i + 1);
                    }
                    return Err(TokenomicsError::BasisPointOverflow);
                },
                Some(b) => {
                    bps = b;
                },
            }
            i = i + 1;
        }
        assert(a.take(i as int) =~= a);
        if bps != BASIS_POINTS {
            return Err(TokenomicsError::AllocationBasisPointsMustEqual10000 { actual: bps });
        }
        let public_sale = match self.allocation_amount(PUBLIC_SALE_ALLOCATION) {
            None => return Err(TokenomicsError::MissingPublicSaleAllocation),
            Some(c) => c,
        };
        let ghost rs = self.sale_rounds@;
        let mut round_tokens = Coin::zero();
        let mut j: usize = 0;
        while j < self.sale_rounds.len()
            invariant
                rs == self.sale_rounds@,
                j <= rs.len(),
                round_tokens@ == caps_total(rs.take(j as int)),
                bps_total(self.allocations@) == BASIS_POINTS,
                find_allocation(self.allocations@, PUBLIC_SALE_ALLOCATION@) is Some,
            decreases rs.len() - j,
        {
            assert(rs.take(j + 1).drop_last() =~= rs.take(j as int));
            assert(rs.take(j + 1).last() == rs[j as int]);
            match round_tokens.checked_add(self.sale_rounds[j].token_cap) {
                None => {
                    proof {
                        lemma_caps_prefix(rs, j + 1);
                    }
                    return Err(TokenomicsError::SupplyOverflow);
                },
                Some(t) => {
                    round_tokens = t;
                },
            }
            j = j + 1;
        }
        assert(rs.take(j as int) =~= rs);
        if round_tokens.micro_ac() > public_sale.micro_ac() {
            proof {
                let caps = caps_total(rs);
                Coin::lemma_spec_of(caps as u64);
                Coin::lemma_eq(round_tokens, Coin::spec_of(caps as u64));
                let alloc = find_allocation(a, PUBLIC_SALE_ALLOCATION@)->Some_0;
                Coin::lemma_spec_of((alloc.exact_ac() * COIN) as u64);
                Coin::lemma_eq(public_sale, Coin::spec_of((alloc.exact_ac() * COIN) as u64));
            }
            return Err(
                TokenomicsError::SaleRoundsExceedPublicAllocation {
                    rounds: round_tokens,
                    allocation: public_sale,
                },
            );
        }
        Ok(())
    }

    /// The size of the first allocation called `name`.
    pub fn allocation_amount(&self, name: &str) -> (r: Option<Coin>)
        requires
            find_allocation(self.allocations@, name@) matches Some(a) ==> a.exact_ac() <= MAX_SUPPLY_AC,
        ensures
            match find_allocation(self.allocations@, name@) {
                Some(a) => r matches Some(c) && c@ == a.exact_ac() * COIN,
                None => r is None,
            },
    {
        let ghost a = self.allocations@;
        let mut i: usize = 0;
        while i < self.allocations.len()
            invariant
                a == self.allocations@,
                i <= a.len(),
                forall|j: int| 0 <= j < i ==> (#[trigger] a[j]).name@ != name@,
                find_allocation(a, name@) matches Some(x) ==> x.exact_ac() <= MAX_SUPPLY_AC,
            decreases a.len() - i,
        {
            if str_eq(self.allocations[i].name, name) {
                proof {
                    lemma_find_allocation_at(a, name@, i as int);
                    assert(a.skip(i as int)[0] == a[i as int]);
                }
                return Some(self.allocations[i].amount());
            }
            i = i + 1;
        }
        proof {
            lemma_find_allocation_at(a, name@, i as int);
            assert(a.skip(i as int).len() == 0);
        }
        None
    }

    /// The most the rounds can raise together, in US cents, when that fits.
    pub fn total_sale_cap_usd_cents(&self) -> (r: Option<u64>)
        requires
            forall|i: int| 0 <= i < self.sale_rounds@.len() ==> raise_cap(#[trigger] self.sale_rounds@[i])
                <= u64::MAX,
        ensures
            r == if raise_total(self.sale_rounds@) <= u64::MAX {
                Some(raise_total(self.sale_rounds@) as u64)
            } else {
                None
            },
    {
        let ghost rs = self.sale_rounds@;
        let mut total: u64 = 0;
        let mut j: usize = 0;
        while j < self.sale_rounds.len()
            invariant
                rs == self.sale_rounds@,
                j <= rs.len(),
                total == raise_total(rs.take(j as int)),
                forall|i: int| 0 <= i < rs.len() ==> raise_cap(#[trigger] rs[i]) <= u64::MAX,
            decreases rs.len() - j,
        {
            assert(rs.take(j + 1).drop_last() =~= rs.take(j as int));
            assert(rs.take(j + 1).last() == rs[j as int]);
            let cap = self.sale_rounds[j].raise_cap_usd_cents();
            match total.checked_add(cap) {
                None => {
                    proof {
                        lemma_raise_prefix(rs, j + 1);
                    }
                    return None;
                },
                Some(t) => {
                    total = t;
                },
            }
            j = j + 1;
        }
        assert(rs.take(j as int) =~= rs);
        Some(total)
    }

    /// The first round whose identifier is `round_id`, or whose name is
    /// `round_id` up to ASCII case.
    pub fn sale_round(&self, round_id: &str) -> (r: Option<&SaleRound>)
        ensures
            match find_round(self.sale_rounds@, round_id@) {
                Some(x) => r matches Some(y) && *y == x,
                None => r is None,
            },
            r matches Some(y) ==> exists|j: int| 0 <= j < self.sale_rounds@.len() && self.sale_rounds@[j] == *y,
    {
        let ghost rs = self.sale_rounds@;
        let mut i: usize = 0;
        while i < self.sale_rounds.len()
            invariant
                rs == self.sale_rounds@,
                i <= rs.len(),
                forall|j: int| 0 <= j < i ==> !((#[trigger] rs[j]).id@ == round_id@ || eq_ascii_case(
                    rs[j].name@,
                    round_id@,
                )),
            decreases rs.len() - i,
        {
            let r = &self.sale_rounds[i];
            if str_eq(r.id, round_id) || eq_ignore_ascii_case(r.name, round_id) {
                proof {
                    lemma_find_round_at(rs, round_id@, i as int);
                    assert(rs.skip(i as int)[0] == rs[i as int]);
                }
                assert(self.sale_rounds@[i as int] == *r);
                return Some(r);
            }
            i = i + 1;
        }
        proof {
            lemma_find_round_at(rs, round_id@, i as int);
            assert(rs.skip(i as int).len() == 0);
        }
        None
    }

    /// Summed size of every allocation other than the public sale.
    pub fn team_reserve_amount(&self) -> (r: Coin)
        requires
            team_allocations_fit(self.allocations@),
            team_total(self.allocations@) <= MAX_SUPPLY,
        ensures
            r@ == team_total(self.allocations@),
    {
        let ghost a = self.allocations@;
        let mut total = Coin::zero();
        let mut i: usize = 0;
        while i < self.allocations.len()
            invariant
                a == self.allocations@,
                i <= a.len(),
                total@ == team_total(a.take(i as int)),
                team_allocations_fit(a),
                team_total(a) <= MAX_SUPPLY,
            decreases a.len() - i,
        {
            assert(a.take(i + 1).drop_last() =~= a.take(i as int));
            assert(a.take(i + 1).last() == a[i as int]);
            proof {
                lemma_team_prefix(a, i + 1);
            }
            let item = &self.allocations[i];
            if !str_eq(item.name, PUBLIC_SALE_ALLOCATION) {
                let amount = item.amount();
                total = total.checked_add(amount).unwrap();
            }
            i = i + 1;
        }
        assert(a.take(i as int) =~= a);
        total
    }

    /// The ABYSS default plan: 55,000,000 AC, of which 30,000,000 AC form
    /// the team reserve and 25,000,000 AC the public sale, spread over five
    /// sale rounds.
    pub fn abyss_default() -> (r: TokenomicsPlan)
        ensures
            r.symbol@ == "AC"@,
            r.max_supply@ == MAX_SUPPLY,
            r.allocations@.map_values(|a: Allocation| (a.name@, a.basis_points, a.exact_ac()))
                == default_allocations(),
            r.sale_rounds@.map_values(
                |s: SaleRound|
                    (s.id@, s.name@, s.token_cap@, s.price_usd_cents, s.minimum_ticket_usd, s.lockup_months),
            ) == default_rounds(),
            r.allocations@.len() == 6,
            r.sale_rounds@.len() == 5,
            forall|i: int| 0 <= i < 5 ==> round_terms(#[trigger] r.sale_rounds@[i]) == default_rounds()[i],
            forall|i: int| 0 <= i < 6 ==> allocation_terms(#[trigger] r.allocations@[i]) == default_allocations()[i],
            validate_spec(r) == Ok::<(), TokenomicsError>(()),
            public_sale_fits(r),
            forall|i: int|
                0 <= i < r.sale_rounds@.len() ==> (#[trigger] r.sale_rounds@[i]).minimum_ticket_usd
                    <= 500_000,
            forall|i: int| 0 <= i < r.allocations@.len() ==> (#[trigger] r.allocations@[i]).exact_ac() <= MAX_SUPPLY_AC,
            team_allocations_fit(r.allocations@),
            team_total(r.allocations@) == 30_000_000 * COIN,
            find_allocation(r.allocations@, PUBLIC_SALE_ALLOCATION@) == Some(r.allocations@[5]),
            forall|i: int| 0 <= i < r.sale_rounds@.len() ==> raise_cap(#[trigger] r.sale_rounds@[i]) <= u64::MAX,
            raise_total(r.sale_rounds@) == 9_300_000_000,
    {
        let allocations = vec![
            Allocation::new("Validator rewards and network security", 1_500, 8_250_000),
            Allocation::new("Ecosystem grants, apps, audits, bug bounties", 1_000, 5_500_000),
            Allocation::new("Foundation treasury with long vesting", 1_000, 5_500_000),
            Allocation::new("Core contributors with long vesting", 1_000, 5_500_000),
            Allocation::new("DEX liquidity reserve", 1_000, 5_250_000),
            Allocation::new(PUBLIC_SALE_ALLOCATION, 4_500, 25_000_000),
        ];
        let sale_rounds = vec![
            SaleRound::new("Sale to Investors", 2_000_000, 100, 500_000, 0),
            SaleRound::new("Pre-Sale", 3_000_000, 200, 0, 0),
            SaleRound::new("Sale Stage 1", 5_000_000, 300, 0, 0),
            SaleRound::new("Sale Stage 2", 5_000_000, 400, 0, 0),
            SaleRound::new("Sale Stage 3", 10_000_000, 500, 0, 0),
        ];
        let r = TokenomicsPlan { symbol: "AC", max_supply: Coin::max_supply(), allocations, sale_rounds };
        assert(r.allocations@.map_values(|a: Allocation| (a.name@, a.basis_points, a.exact_ac()))
            =~= default_allocations());
        assert(r.sale_rounds@.map_values(
            |s: SaleRound|
                (s.id@, s.name@, s.token_cap@, s.price_usd_cents, s.minimum_ticket_usd, s.lockup_months),
        ) =~= default_rounds());
        proof {
            let ma = r.allocations@.map_values(|a: Allocation| (a.name@, a.basis_points, a.exact_ac()));
            let mr = r.sale_rounds@.map_values(
                |s: SaleRound|
                    (s.id@, s.name@, s.token_cap@, s.price_usd_cents, s.minimum_ticket_usd, s.lockup_months),
            );
            assert forall|i: int| 0 <= i < 6 implies allocation_terms(
                #[trigger] r.allocations@[i],
            ) == default_allocations()[i] by {
                assert(ma[i] == default_allocations()[i]);
            }
            assert forall|i: int| 0 <= i < 5 implies round_terms(#[trigger] r.sale_rounds@[i])
                == default_rounds()[i] by {
                assert(mr[i] == default_rounds()[i]);
            }
            lemma_default_plan(r);
        }
        r
    }
}

/// The default plan validates: its basis points add up to 10,000, and its
/// rounds' caps, 25,000,000 AC in all, fit the public-sale allocation.
proof fn lemma_default_plan(p: TokenomicsPlan)
    requires
        p.allocations@.len() == 6,
        p.sale_rounds@.len() == 5,
        forall|i: int|
            0 <= i < 6 ==> allocation_terms(#[trigger] p.allocations@[i]) == default_allocations()[i],
        forall|i: int| 0 <= i < 5 ==> round_terms(#[trigger] p.sale_rounds@[i]) == default_rounds()[i],
    ensures
        validate_spec(p) == Ok::<(), TokenomicsError>(()),
        public_sale_fits(p),
        forall|i: int|
            0 <= i < p.sale_rounds@.len() ==> (#[trigger] p.sale_rounds@[i]).minimum_ticket_usd
                <= 500_000,
        forall|i: int| 0 <= i < p.allocations@.len() ==> (#[trigger] p.allocations@[i]).exact_ac() <= MAX_SUPPLY_AC,
        team_allocations_fit(p.allocations@),
        team_total(p.allocations@) == 30_000_000 * COIN,
        find_allocation(p.allocations@, PUBLIC_SALE_ALLOCATION@) == Some(p.allocations@[5]),
        forall|i: int| 0 <= i < p.sale_rounds@.len() ==> raise_cap(#[trigger] p.sale_rounds@[i]) <= u64::MAX,
        raise_total(p.sale_rounds@) == 9_300_000_000,
{
    let a = p.allocations@;
    let r = p.sale_rounds@;
    let da = default_allocations();
    let dr = default_rounds();
    assert(allocation_terms(a[0]) == da[0] && allocation_terms(a[1]) == da[1]);
    assert(allocation_terms(a[2]) == da[2] && allocation_terms(a[3]) == da[3]);
    assert(allocation_terms(a[4]) == da[4] && allocation_terms(a[5]) == da[5]);
    assert(round_terms(r[0]) == dr[0] && round_terms(r[1]) == dr[1] && round_terms(r[2]) == dr[2]);
    assert(round_terms(r[3]) == dr[3] && round_terms(r[4]) == dr[4]);
    // the sum of the basis points
    reveal_with_fuel(bps_total, 7);
    assert(a.take(1).drop_last() =~= a.take(0));
    assert(a.take(2).drop_last() =~= a.take(1));
    assert(a.take(3).drop_last() =~= a.take(2));
    assert(a.take(4).drop_last() =~= a.take(3));
    assert(a.take(5).drop_last() =~= a.take(4));
    assert(a.take(6).drop_last() =~= a.take(5));
    assert(a.take(6) =~= a);
    assert(bps_total(a.take(1)) == 1_500);
    assert(bps_total(a.take(2)) == 2_500);
    assert(bps_total(a.take(3)) == 3_500);
    assert(bps_total(a.take(4)) == 4_500);
    assert(bps_total(a.take(5)) == 5_500);
    assert(bps_total(a) == 10_000);
    // the public-sale allocation is the last one
    reveal_strlit("Validator rewards and network security");
    reveal_strlit("Ecosystem grants, apps, audits, bug bounties");
    reveal_strlit("Foundation treasury with long vesting");
    reveal_strlit("Core contributors with long vesting");
    reveal_strlit("DEX liquidity reserve");
    reveal_strlit("Public sale and liquidity formation");
    let pub_name = PUBLIC_SALE_ALLOCATION@;
    assert(a[0].name@[0] != pub_name[0]);
    assert(a[1].name@[0] != pub_name[0]);
    assert(a[2].name@[0] != pub_name[0]);
    assert(a[3].name@[0] != pub_name[0]);
    assert(a[4].name@[0] != pub_name[0]);
    assert(find_allocation(a, pub_name) == Some(a[5])) by {
        reveal_with_fuel(find_allocation, 7);
        assert(a.drop_first().drop_first().drop_first().drop_first().drop_first()[0] == a[5]);
        assert(a.drop_first()[0] == a[1]);
        assert(a.drop_first().drop_first()[0] == a[2]);
        assert(a.drop_first().drop_first().drop_first()[0] == a[3]);
        assert(a.drop_first().drop_first().drop_first().drop_first()[0] == a[4]);
    }
    assert(a[5].exact_ac() == 25_000_000);
    // the rounds' caps
    reveal_with_fuel(caps_total, 6);
    assert(r.take(1).drop_last() =~= r.take(0));
    assert(r.take(2).drop_last() =~= r.take(1));
    assert(r.take(3).drop_last() =~= r.take(2));
    assert(r.take(4).drop_last() =~= r.take(3));
    assert(r.take(5).drop_last() =~= r.take(4));
    assert(r.take(5) =~= r);
    assert(caps_total(r.take(1)) == 2_000_000 * COIN);
    assert(caps_total(r.take(2)) == 5_000_000 * COIN);
    assert(caps_total(r.take(3)) == 10_000_000 * COIN);
    assert(caps_total(r.take(4)) == 15_000_000 * COIN);
    assert(caps_total(r) == 25_000_000 * COIN);
    assert forall|i: int| 0 <= i < r.len() implies (#[trigger] r[i]).minimum_ticket_usd <= 500_000 by {
        assert(round_terms(r[i]) == dr[i]);
    }
    assert forall|i: int| 0 <= i < a.len() implies (#[trigger] a[i]).exact_ac() <= MAX_SUPPLY_AC by {
        assert(allocation_terms(a[i]) == da[i]);
    }
    // the team reserve: every allocation but the last
    reveal_with_fuel(team_total, 7);
    assert(team_total(a.take(1)) == 8_250_000 * COIN);
    assert(team_total(a.take(2)) == 13_750_000 * COIN);
    assert(team_total(a.take(3)) == 19_250_000 * COIN);
    assert(team_total(a.take(4)) == 24_750_000 * COIN);
    assert(team_total(a.take(5)) == 30_000_000 * COIN);
    assert(team_total(a) == 30_000_000 * COIN);
    // the raise caps
    assert forall|i: int| 0 <= i < r.len() implies raise_cap(#[trigger] r[i]) <= u64::MAX by {
        assert(round_terms(r[i]) == dr[i]);
    }
    reveal_with_fuel(raise_total, 6);
    assert(raise_cap(r[0]) == 200_000_000);
    assert(raise_cap(r[1]) == 600_000_000);
    assert(raise_cap(r[2]) == 1_500_000_000);
    assert(raise_cap(r[3]) == 2_000_000_000);
    assert(raise_cap(r[4]) == 5_000_000_000);
    assert(raise_total(r.take(1)) == 200_000_000);
    assert(raise_total(r.take(2)) == 800_000_000);
    assert(raise_total(r.take(3)) == 2_300_000_000);
    assert(raise_total(r.take(4)) == 4_300_000_000);
    assert(raise_total(r) == 9_300_000_000);
}

/// An allocation's name, basis points and size in whole AC.
pub open spec fn allocation_terms(a: Allocation) -> (Seq<char>, u16, u64) {
    (a.name@, a.basis_points, a.exact_ac())
}

/// A round's identifier, name, cap in micro-AC, price in cents, minimum
/// ticket in dollars and lockup in months.
pub open spec fn round_terms(s: SaleRound) -> (Seq<char>, Seq<char>, u64, u64, u64, u16) {
    (s.id@, s.name@, s.token_cap@, s.price_usd_cents, s.minimum_ticket_usd, s.lockup_months)
}

/// The default allocations: name, basis points, size in whole AC.
pub open spec fn default_allocations() -> Seq<(Seq<char>, u16, u64)> {
    seq![
        ("Validator rewards and network security"@, 1_500u16, 8_250_000u64),
        ("Ecosystem grants, apps, audits, bug bounties"@, 1_000u16, 5_500_000u64),
        ("Foundation treasury with long vesting"@, 1_000u16, 5_500_000u64),
        ("Core contributors with long vesting"@, 1_000u16, 5_500_000u64),
        ("DEX liquidity reserve"@, 1_000u16, 5_250_000u64),
        (PUBLIC_SALE_ALLOCATION@, 4_500u16, 25_000_000u64),
    ]
}

/// The default rounds: identifier, name, cap in micro-AC, price in cents,
/// minimum ticket in dollars, lockup in months.
pub open spec fn default_rounds() -> Seq<(Seq<char>, Seq<char>, u64, u64, u64, u16)> {
    seq![
        (round_id_for("Sale to Investors"@), "Sale to Investors"@, (2_000_000 * COIN) as u64, 100u64, 500_000u64, 0u16),
        (round_id_for("Pre-Sale"@), "Pre-Sale"@, (3_000_000 * COIN) as u64, 200u64, 0u64, 0u16),
        (round_id_for("Sale Stage 1"@), "Sale Stage 1"@, (5_000_000 * COIN) as u64, 300u64, 0u64, 0u16),
        (round_id_for("Sale Stage 2"@), "Sale Stage 2"@, (5_000_000 * COIN) as u64, 400u64, 0u64, 0u16),
        (round_id_for("Sale Stage 3"@), "Sale Stage 3"@, (10_000_000 * COIN) as u64, 500u64, 0u64, 0u16),
    ]
}

// ── Investor secondary window ───────────────────────────────────────────
//
// After Sale Stage 1 closes, Stage I investors may list tokens for sale to
// other participants at a fixed price. The listing must cover at least a
// set share of a Stage I slot. ABYSS only facilitates the matching; it has
// no obligation to buy.

#[derive(Clone, Debug, PartialEq, Eq)]
pub struct InvestorSecondaryWindow {
    pub id: &'static str,
    pub name: &'static str,
    /// Price at which listed tokens trade, in cents.
    pub price_usd_cents: u64,
    /// Duration of the registration phase in days.
    pub registration_days: u32,
    /// Minimum share of a slot to list, in basis points.
    pub min_listing_bps: u16,
    /// Size of a Stage I slot in AC.
    pub stage1_slot_ac: u64,
}

/// An investor's intent to list tokens in the secondary window.
#[derive(Clone, Debug, PartialEq, Eq)]
pub struct SecondaryListing {
    pub investor_id: String,
    pub tokens_to_list: Coin,
    /// Only Stage I investors may list.
    pub is_stage1_investor: bool,
}

impl SecondaryListing {
    pub fn new(investor_id: &str, tokens_ac: u64, is_stage1_investor: bool) -> (r: Result<
        SecondaryListing,
        TokenomicsError,
    >)
        ensures
            tokens_ac > MAX_SUPPLY_AC ==> r == Err::<SecondaryListing, TokenomicsError>(
                TokenomicsError::SupplyOverflow,
            ),
            tokens_ac <= MAX_SUPPLY_AC ==> (r matches Ok(l) && l.investor_id@ == investor_id@
                && l.tokens_to_list@ == tokens_ac * COIN && l.is_stage1_investor == is_stage1_investor),
    {
        let tokens_to_list = match coin_of_ac(tokens_ac) {
            None => return Err(TokenomicsError::SupplyOverflow),
            Some(c) => c,
        };
        Ok(SecondaryListing { investor_id: investor_id.to_owned(), tokens_to_list, is_stage1_investor })
    }
}

/// The minimum listing of a window, in whole AC.
pub open spec fn min_listing_spec(w: InvestorSecondaryWindow) -> nat {
    (w.stage1_slot_ac as nat * w.min_listing_bps as nat) / (BASIS_POINTS as nat)
}

/// A listing is accepted only from a stage-1 investor, for at least the
/// window's minimum: the stage-1 slot times the minimum share in basis
/// points, divided by 10,000 and rounded down, in whole AC.
pub proof fn lemma_accepted_listing(w: InvestorSecondaryWindow, l: SecondaryListing)
    ensures
        listing_check(w, l) is Ok ==> {
            &&& l.is_stage1_investor
            &&& l.tokens_to_list@ >= ((w.stage1_slot_ac * w.min_listing_bps) / 10_000) * COIN
        },
{
}

/// What validating a listing gives.
pub open spec fn listing_check(w: InvestorSecondaryWindow, l: SecondaryListing) -> Result<(), TokenomicsError> {
    if !l.is_stage1_investor {
        Err(TokenomicsError::SecondaryWindowNotEligible)
    } else if min_listing_spec(w) > MAX_SUPPLY_AC {
        Err(TokenomicsError::SupplyOverflow)
    } else if l.tokens_to_list@ < min_listing_spec(w) * COIN {
        Err(
            TokenomicsError::SecondaryListingBelowMinimum {
                min_ac: min_listing_spec(w) as u64,
                actual_ac: l.tokens_to_list@ / COIN,
            },
        )
    } else {
        Ok(())
    }
}

impl InvestorSecondaryWindow {
    pub fn abyss_default() -> (r: InvestorSecondaryWindow)
        ensures
            r.id@ == "investor-secondary-window"@,
            r.name@ == "Investor Secondary Window"@,
            r.price_usd_cents == 300,
            r.registration_days == 14,
            r.min_listing_bps == 5_000,
            r.stage1_slot_ac == 500_000,
    {
        InvestorSecondaryWindow {
            id: "investor-secondary-window",
            name: "Investor Secondary Window",
            price_usd_cents: 300,
            registration_days: 14,
            min_listing_bps: 5_000,
            stage1_slot_ac: 500_000,
        }
    }

    /// The least a Stage I investor must list, in AC: the slot size times
    /// the minimum share.
    pub fn min_listing_ac(&self) -> (r: u64)
        requires
            self.stage1_slot_ac * self.min_listing_bps <= u64::MAX,
        ensures
            r == min_listing_spec(*self),
    {
        self.stage1_slot_ac * (self.min_listing_bps as u64) / (BASIS_POINTS as u64)
    }

    /// What the seller receives for `tokens`, in cents: whole AC times the
    /// price, when that fits.
    pub fn seller_payout_usd_cents(&self, tokens: Coin) -> (r: Option<u64>)
        ensures
            r == if (tokens@ / COIN) * self.price_usd_cents <= u64::MAX {
                Some(((tokens@ / COIN) * self.price_usd_cents) as u64)
            } else {
                None
            },
    {
        let ac_units = tokens.micro_ac() / COIN;
        ac_units.checked_mul(self.price_usd_cents)
    }

    pub fn validate_listing(&self, listing: &SecondaryListing) -> (r: Result<(), TokenomicsError>)
        requires
            self.stage1_slot_ac * self.min_listing_bps <= u64::MAX,
        ensures
            r == listing_check(*self, *listing),
    {
        if !listing.is_stage1_investor {
            return Err(TokenomicsError::SecondaryWindowNotEligible);
        }
        let min = match coin_of_ac(self.min_listing_ac()) {
            None => return Err(TokenomicsError::SupplyOverflow),
            Some(c) => c,
        };
        if listing.tokens_to_list.micro_ac() < min.micro_ac() {
            return Err(
                TokenomicsError::SecondaryListingBelowMinimum {
                    min_ac: self.min_listing_ac(),
                    actual_ac: listing.tokens_to_list.micro_ac() / COIN,
                },
            );
        }
        Ok(())
    }
}

// ── Final sale on the DEX ───────────────────────────────────────────────

/// The final sale, executed through DEX orders at a fixed price, with no
/// token cap.
#[derive(Clone, Debug, PartialEq, Eq)]
pub struct DexFinalSale {
    pub id: &'static str,
    pub name: &'static str,
    pub price_usd_cents: u64,
}

impl DexFinalSale {
    pub fn abyss_default() -> (r: DexFinalSale)
        ensures
            r.id@ == "final-sale-dex"@,
            r.name@ == "Final Sale (ABYSS DEX)"@,
            r.price_usd_cents == 500,
    {
        DexFinalSale { id: "final-sale-dex", name: "Final Sale (ABYSS DEX)", price_usd_cents: 500 }
    }

    pub fn tokens_for_usd_cents(&self, contribution_usd_cents: u64) -> (r: Result<Coin, TokenomicsError>)
        ensures
            micro_result(r) == purchase_spec(contribution_usd_cents, self.price_usd_cents),
    {
        purchase(contribution_usd_cents, self.price_usd_cents)
    }
}

// ── Vesting ─────────────────────────────────────────────────────────────

#[derive(Clone, Copy, Debug, PartialEq, Eq, Structural)]
pub struct VestingSchedule {
    pub cliff_months: u16,
    pub duration_months: u16,
}

/// What is unlocked of `total` after `elapsed` months: nothing before the
/// cliff, everything from the end of the duration, and in between the
/// elapsed share of the duration, rounded down.
pub open spec fn vested(s: VestingSchedule, total: u64, elapsed: u16) -> u64 {
    if elapsed < s.cliff_months {
        0
    } else if s.duration_months == 0 || elapsed >= s.duration_months {
        total
    } else {
        ((total as nat * elapsed as nat) / (s.duration_months as nat)) as u64
    }
}

/// The product that `unlocked_amount` computes fits `u64`.
pub open spec fn vesting_fits(s: VestingSchedule, total: u64, elapsed: u16) -> bool {
    s.cliff_months <= elapsed < s.duration_months ==> total as nat * elapsed as nat <= u64::MAX
}

impl VestingSchedule {
    /// Everything unlocks at once after `months`.
    pub fn locked(months: u16) -> (r: VestingSchedule)
        ensures
            r.cliff_months == months,
            r.duration_months == months,
    {
        VestingSchedule { cliff_months: months, duration_months: months }
    }

    pub fn linear(cliff_months: u16, duration_months: u16) -> (r: VestingSchedule)
        ensures
            r.cliff_months == cliff_months,
            r.duration_months == duration_months,
    {
        VestingSchedule { cliff_months, duration_months }
    }

    pub fn unlocked_amount(&self, total: Coin, elapsed_months: u16) -> (r: Coin)
        requires
            vesting_fits(*self, total@, elapsed_months),
        ensures
            r@ == vested(*self, total@, elapsed_months),
    {
        if elapsed_months < self.cliff_months {
            return Coin::zero();
        }
        if self.duration_months == 0 || elapsed_months >= self.duration_months {
            return total;
        }
        let t = total.micro_ac();
        let unlocked = t * (elapsed_months as u64) / (self.duration_months as u64);
        proof {
            lemma_vested_bounded(*self, t, elapsed_months);
        }
        Coin::from_micro_ac(unlocked).unwrap()
    }
}

/// Nothing beyond the total ever unlocks.
pub proof fn lemma_vested_bounded(s: VestingSchedule, total: u64, elapsed: u16)
    ensures
        vested(s, total, elapsed) <= total,
{
    if s.cliff_months <= elapsed && s.duration_months != 0 && elapsed < s.duration_months {
        assert((total as nat * elapsed as nat) / (s.duration_months as nat) <= total as nat) by (
        nonlinear_arith)
            requires
                elapsed < s.duration_months,
        ;
    }
}

/// Unlocking never goes backwards: a later month unlocks at least as much.
pub proof fn lemma_vested_monotonic(s: VestingSchedule, total: u64, m1: u16, m2: u16)
    requires
        m1 <= m2,
    ensures
        vested(s, total, m1) <= vested(s, total, m2),
{
    lemma_vested_bounded(s, total, m1);
    lemma_vested_bounded(s, total, m2);
    if s.cliff_months <= m1 && s.duration_months != 0 && m2 < s.duration_months {
        let d = s.duration_months as nat;
        assert((total as nat * m1 as nat) / d <= (total as nat * m2 as nat) / d) by (nonlinear_arith)
            requires
                m1 <= m2,
                d > 0,
        ;
        assert((total as nat * m2 as nat) / d <= total as nat) by (nonlinear_arith)
            requires
                m2 < d,
        ;
    }
}

/// Before the cliff nothing is unlocked, from the end of the duration
/// everything is, and in between the unlocked amount `v` is the elapsed
/// share of the total rounded down: `v * duration <= total * elapsed <
/// (v + 1) * duration`.
pub proof fn lemma_vested_is_elapsed_share(s: VestingSchedule, total: u64, elapsed: u16)
    ensures
        elapsed < s.cliff_months ==> vested(s, total, elapsed) == 0,
        s.cliff_months <= elapsed && (s.duration_months == 0 || elapsed >= s.duration_months) ==> vested(
            s,
            total,
            elapsed,
        ) == total,
        s.cliff_months <= elapsed < s.duration_months ==> ({
            let v = vested(s, total, elapsed) as int;
            &&& v * s.duration_months <= total * elapsed
            &&& total * elapsed < (v + 1) * s.duration_months
        }),
{
    if s.cliff_months <= elapsed < s.duration_months {
        let d = s.duration_months as int;
        let n = total as int * elapsed as int;
        let q = n / d;
        assert(q * d <= n && n < (q + 1) * d && q <= total) by (nonlinear_arith)
            requires
                d > 0,
                n >= 0,
                q == n / d,
                n == total as int * elapsed as int,
                elapsed < d,
        ;
        assert(vested(s, total, elapsed) as int == q);
    }
}

#[derive(Clone, Copy, Debug, PartialEq, Eq, Structural)]
pub struct TeamVesting {
    pub tranche_a_total: Coin,
    pub tranche_a_months: u16,
    pub tranche_b_total: Coin,
    pub tranche_b_months: u16,
    pub tranche_b_annual_cap: Coin,
}

/// The linear schedule without cliff over `months`.
pub open spec fn linear_over(months: u16) -> VestingSchedule {
    VestingSchedule { cliff_months: 0, duration_months: months }
}

/// What both tranches have unlocked after `m` months, in micro-AC.
pub open spec fn team_unlocked(v: TeamVesting, m: u16) -> nat {
    vested(linear_over(v.tranche_a_months), v.tranche_a_total@, m) as nat + vested(
        linear_over(v.tranche_b_months),
        v.tranche_b_total@,
        m,
    ) as nat
}

/// The longer of the two tranches, in months.
pub open spec fn longest_tranche(v: TeamVesting) -> u16 {
    if v.tranche_b_months >= v.tranche_a_months {
        v.tranche_b_months
    } else {
        v.tranche_a_months
    }
}

/// The last month of year `year >= 1`: month `12 * year` (the largest
/// month when that does not fit).
pub open spec fn year_end(year: u16) -> u16 {
    if year as nat * 12 > u16::MAX {
        u16::MAX
    } else {
        (year * 12) as u16
    }
}

/// The month year `year >= 1` starts after: month `12 * (year - 1)` (the
/// largest month when that does not fit).
pub open spec fn year_start(year: u16) -> u16 {
    if (year as nat - 1) * 12 > u16::MAX {
        u16::MAX
    } else {
        ((year - 1) * 12) as u16
    }
}

/// The products the tranches compute fit `u64` for every month.
pub open spec fn team_vesting_fits(v: TeamVesting) -> bool {
    &&& v.tranche_a_total@ as nat * v.tranche_a_months as nat <= u64::MAX
    &&& v.tranche_b_total@ as nat * v.tranche_b_months as nat <= u64::MAX
    &&& v.tranche_a_total@ + v.tranche_b_total@ <= MAX_SUPPLY
}

proof fn lemma_team_fits(v: TeamVesting, m: u16)
    requires
        team_vesting_fits(v),
    ensures
        vesting_fits(linear_over(v.tranche_a_months), v.tranche_a_total@, m),
        vesting_fits(linear_over(v.tranche_b_months), v.tranche_b_total@, m),
        team_unlocked(v, m) <= v.tranche_a_total@ + v.tranche_b_total@,
{
    if m < v.tranche_a_months {
        assert(v.tranche_a_total@ as nat * m as nat <= v.tranche_a_total@ as nat * v.tranche_a_months as nat)
            by (nonlinear_arith)
            requires
                m < v.tranche_a_months,
        ;
    }
    if m < v.tranche_b_months {
        assert(v.tranche_b_total@ as nat * m as nat <= v.tranche_b_total@ as nat * v.tranche_b_months as nat)
            by (nonlinear_arith)
            requires
                m < v.tranche_b_months,
        ;
    }
    lemma_vested_bounded(linear_over(v.tranche_a_months), v.tranche_a_total@, m);
    lemma_vested_bounded(linear_over(v.tranche_b_months), v.tranche_b_total@, m);
}

impl TeamVesting {
    /// Tranche A: 10,000,000 AC over 12 months; tranche B: 20,000,000 AC
    /// over 48 months, at most 5,000,000 AC a year.
    pub fn abyss_default() -> (r: TeamVesting)
        ensures
            r.tranche_a_total@ == 10_000_000 * COIN,
            r.tranche_a_months == 12,
            r.tranche_b_total@ == 20_000_000 * COIN,
            r.tranche_b_months == 48,
            r.tranche_b_annual_cap@ == 5_000_000 * COIN,
            team_vesting_fits(r),
    {
        let a = coin_of_ac(10_000_000).unwrap();
        let b = coin_of_ac(20_000_000).unwrap();
        let cap = coin_of_ac(5_000_000).unwrap();
        TeamVesting {
            tranche_a_total: a,
            tranche_a_months: 12,
            tranche_b_total: b,
            tranche_b_months: 48,
            tranche_b_annual_cap: cap,
        }
    }

    pub fn total(&self) -> (r: Coin)
        requires
            self.tranche_a_total@ + self.tranche_b_total@ <= MAX_SUPPLY,
        ensures
            r@ == self.tranche_a_total@ + self.tranche_b_total@,
    {
        self.tranche_a_total.checked_add(self.tranche_b_total).unwrap()
    }

    pub fn tranche_a_unlocked(&self, elapsed_months: u16) -> (r: Coin)
        requires
            team_vesting_fits(*self),
        ensures
            r@ == vested(linear_over(self.tranche_a_months), self.tranche_a_total@, elapsed_months),
    {
        proof {
            lemma_team_fits(*self, elapsed_months);
        }
        VestingSchedule::linear(0, self.tranche_a_months).unlocked_amount(self.tranche_a_total, elapsed_months)
    }

    pub fn tranche_b_unlocked(&self, elapsed_months: u16) -> (r: Coin)
        requires
            team_vesting_fits(*self),
        ensures
            r@ == vested(linear_over(self.tranche_b_months), self.tranche_b_total@, elapsed_months),
    {
        proof {
            lemma_team_fits(*self, elapsed_months);
        }
        VestingSchedule::linear(0, self.tranche_b_months).unlocked_amount(self.tranche_b_total, elapsed_months)
    }

    pub fn total_unlocked(&self, elapsed_months: u16) -> (r: Coin)
        requires
            team_vesting_fits(*self),
        ensures
            r@ == team_unlocked(*self, elapsed_months),
    {
        proof {
            lemma_team_fits(*self, elapsed_months);
        }
        let a = self.tranche_a_unlocked(elapsed_months);
        let b = self.tranche_b_unlocked(elapsed_months);
        a.checked_add(b).unwrap()
    }

    /// What unlocks during year `year` (from 1): the growth of the combined
    /// unlock from month `12 * (year - 1)` to month `12 * year`. A year that
    /// starts once both tranches are complete unlocks nothing.
    pub fn unlocked_in_year(&self, year: u16) -> (r: Coin)
        requires
            team_vesting_fits(*self),
        ensures
            year == 0 ==> r@ == 0,
            year > 0 ==> r@ == team_unlocked(*self, year_end(year)) - team_unlocked(*self, year_start(year)),
            year > 0 && year_start(year) >= longest_tranche(*self) ==> r@ == 0,
    {
        if year == 0 {
            return Coin::zero();
        }
        let months_end: u16 = if year > 5461 {
            u16::MAX
        } else {
            year * 12
        };
        let months_start: u16 = if year - 1 > 5461 {
            u16::MAX
        } else {
            (year - 1) * 12
        };
        let end = self.total_unlocked(months_end);
        let start = self.total_unlocked(months_start);
        proof {
            lemma_team_unlocked_monotonic(*self, months_start, months_end);
        }
        end.checked_sub(start).unwrap()
    }
}

/// The combined unlock never goes backwards.
pub proof fn lemma_team_unlocked_monotonic(v: TeamVesting, m1: u16, m2: u16)
    requires
        m1 <= m2,
    ensures
        team_unlocked(v, m1) <= team_unlocked(v, m2),
{
    lemma_vested_monotonic(linear_over(v.tranche_a_months), v.tranche_a_total@, m1, m2);
    lemma_vested_monotonic(linear_over(v.tranche_b_months), v.tranche_b_total@, m1, m2);
}

// ── Investors and receipts ──────────────────────────────────────────────

#[derive(Clone, Copy, Debug, PartialEq, Eq, Structural)]
pub enum KycStatus {
    NotStarted,
    Pending,
    Approved,
    Rejected,
}

#[derive(Clone, Debug, PartialEq, Eq)]
pub struct InvestorProfile {
    pub investor_id: String,
    pub jurisdiction: String,
    pub kyc_status: KycStatus,
    pub accredited_or_professional: bool,
    pub max_contribution_usd_cents: u64,
}

/// Whether an investor may join a round: approved KYC, a jurisdiction that
/// is not blank, and professional status for rounds whose minimum ticket is
/// at least $100,000.
pub open spec fn eligibility(i: InvestorProfile, r: SaleRound) -> Result<(), TokenomicsError> {
    eligibility_terms(i.kyc_status, i.jurisdiction@, i.accredited_or_professional, r)
}

/// Eligibility by the investor's KYC status, jurisdiction and professional
/// status.
pub open spec fn eligibility_terms(kyc: KycStatus, jurisdiction: Seq<char>, professional: bool, r: SaleRound) -> Result<
    (),
    TokenomicsError,
> {
    eligibility_at(kyc, jurisdiction, professional, r.minimum_ticket_usd)
}

/// Eligibility for a round with the given minimum ticket, in dollars.
pub open spec fn eligibility_at(kyc: KycStatus, jurisdiction: Seq<char>, professional: bool, minimum_ticket_usd: u64) -> Result<
    (),
    TokenomicsError,
> {
    if kyc != KycStatus::Approved {
        Err(TokenomicsError::InvestorNotApproved)
    } else if trimmed(jurisdiction).len() == 0 {
        Err(TokenomicsError::MissingJurisdiction)
    } else if minimum_ticket_usd >= 100_000 && !professional {
        Err(TokenomicsError::ProfessionalInvestorRequired)
    } else {
        Ok(())
    }
}

fn is_blank_str(s: &str) -> (r: bool)
    ensures
        r == (trimmed(s@).len() == 0),
{
    proof {
        lemma_trimmed_empty(s@);
    }
    let n = s.unicode_len();
    let mut i: usize = 0;
    while i < n
        invariant
            n == s@.len(),
            i <= n,
            forall|j: int| 0 <= j < i ==> is_white(#[trigger] s@[j]),
            trimmed(s@).len() == 0 <==> is_blank(s@),
        decreases n - i,
    {
        if !is_whitespace_char(s.get_char(i)) {
            return false;
        }
        i = i + 1;
    }
    true
}

impl InvestorProfile {
    pub fn eligible_for(&self, round: &SaleRound) -> (r: Result<(), TokenomicsError>)
        ensures
            r == eligibility(*self, *round),
    {
        if self.kyc_status != KycStatus::Approved {
            return Err(TokenomicsError::InvestorNotApproved);
        }
        if is_blank_str(self.jurisdiction.as_str()) {
            return Err(TokenomicsError::MissingJurisdiction);
        }
        if round.minimum_ticket_usd >= 100_000 && !self.accredited_or_professional {
            return Err(TokenomicsError::ProfessionalInvestorRequired);
        }
        Ok(())
    }
}

#[derive(Clone, Debug, PartialEq, Eq)]
pub struct ContributionReceipt {
    pub investor_id: String,
    pub jurisdiction: String,
    pub round_id: &'static str,
    pub round_name: &'static str,
    pub contribution_usd_cents: u64,
    pub token_amount: Coin,
    pub vesting: VestingSchedule,
}

/// What a contribution of `cents` by `i` to `r` gives, by the token amount
/// in micro-AC: eligibility first, then the investor's limit, then the
/// round's terms.
pub open spec fn contribution_spec(i: InvestorProfile, r: SaleRound, cents: u64) -> Result<
    u64,
    TokenomicsError,
> {
    contribution_terms(i.kyc_status, i.jurisdiction@, i.accredited_or_professional, i.max_contribution_usd_cents, r, cents)
}

/// A contribution by the investor's terms: KYC status, jurisdiction,
/// professional status and limit.
pub open spec fn contribution_terms(
    kyc: KycStatus,
    jurisdiction: Seq<char>,
    professional: bool,
    max: u64,
    r: SaleRound,
    cents: u64,
) -> Result<u64, TokenomicsError> {
    contribution_at(kyc, jurisdiction, professional, max, r.minimum_ticket_usd, r.price_usd_cents, r.token_cap@, cents)
}

/// A contribution by the investor's terms to a round with the given
/// minimum ticket (dollars), price (cents) and cap (micro-AC).
pub open spec fn contribution_at(
    kyc: KycStatus,
    jurisdiction: Seq<char>,
    professional: bool,
    max: u64,
    minimum_ticket_usd: u64,
    price: u64,
    cap: u64,
    cents: u64,
) -> Result<u64, TokenomicsError> {
    match eligibility_at(kyc, jurisdiction, professional, minimum_ticket_usd) {
        Err(e) => Err(e),
        Ok(()) => if cents > max {
            Err(TokenomicsError::ContributionExceedsInvestorLimit)
        } else {
            purchase_at(minimum_ticket_usd, price, cap, cents)
        },
    }
}

impl ContributionReceipt {
    pub fn create(investor: &InvestorProfile, round: &SaleRound, contribution_usd_cents: u64) -> (r: Result<
        ContributionReceipt,
        TokenomicsError,
    >)
        requires
            round.minimum_ticket_usd * 100 <= u64::MAX,
        ensures
            match contribution_spec(*investor, *round, contribution_usd_cents) {
                Err(e) => r == Err::<ContributionReceipt, TokenomicsError>(e),
                Ok(m) => r matches Ok(c) && c.token_amount@ == m && c.investor_id@ == investor.investor_id@
                    && c.jurisdiction@ == investor.jurisdiction@ && c.round_id == round.id && c.round_name
                    == round.name && c.contribution_usd_cents == contribution_usd_cents && c.vesting
                    == VestingSchedule::locked_spec(round.lockup_months),
            },
    {
        match investor.eligible_for(round) {
            Err(e) => return Err(e),
            Ok(()) => {},
        }
        if contribution_usd_cents > investor.max_contribution_usd_cents {
            return Err(TokenomicsError::ContributionExceedsInvestorLimit);
        }
        let investor_id = investor.investor_id.clone();
        let jurisdiction = investor.jurisdiction.clone();
        let token_amount = match round.tokens_for_usd_cents(contribution_usd_cents) {
            Err(e) => return Err(e),
            Ok(t) => t,
        };
        Ok(
            ContributionReceipt {
                investor_id,
                jurisdiction,
                round_id: round.id,
                round_name: round.name,
                contribution_usd_cents,
                token_amount,
                vesting: VestingSchedule::locked(round.lockup_months),
            },
        )
    }
}

impl VestingSchedule {
    /// The schedule `locked(months)` builds.
    pub open spec fn locked_spec(months: u16) -> VestingSchedule {
        VestingSchedule { cliff_months: months, duration_months: months }
    }
}

// ── USD amounts ─────────────────────────────────────────────────────────

/// The text of an amount in cents: "$", the dollars, ".", two digits.
pub open spec fn usd_text(cents: u64) -> Seq<char> {
    "$"@ + decimal((cents / 100) as nat) + "."@ + zero_padded(decimal((cents % 100) as nat), 2)
}

pub fn usd_cents_to_string(cents: u64) -> (r: String)
    ensures
        r@ == usd_text(cents),
{
    let mut s = String::new();
    s.append("$");
    push_decimal(&mut s, cents / 100);
    s.append(".");
    push_decimal_padded(&mut s, cents % 100, 2);
    assert(s@ =~= usd_text(cents));
    s
}

/// `s` without its leading '$' characters.
pub open spec fn strip_dollars(s: Seq<char>) -> Seq<char>
    decreases s.len(),
{
    if s.len() > 0 && s[0] == '$' {
        strip_dollars(s.drop_first())
    } else {
        s
    }
}

/// `s` without its ',' characters.
pub open spec fn drop_commas(s: Seq<char>) -> Seq<char>
    decreases s.len(),
{
    if s.len() == 0 {
        s
    } else if s.last() == ',' {
        drop_commas(s.drop_last())
    } else {
        drop_commas(s.drop_last()).push(s.last())
    }
}

/// Position of the first '.' (the length when there is none).
pub open spec fn first_dot(s: Seq<char>) -> nat
    decreases s.len(),
{
    if s.len() == 0 || s[0] == '.' {
        0
    } else {
        1 + first_dot(s.drop_first())
    }
}

/// The cents part: at most two characters, padded on the right with '0'
/// to two, read as an integer. (A part of at most two bytes but two
/// characters or more that are not ASCII fails to parse either way.)
pub open spec fn cents_part(part: Seq<char>) -> Option<u64> {
    if part.len() > 2 {
        None
    } else {
        parse_u64_spec(part + Seq::new((2 - part.len()) as nat, |i: int| '0'))
    }
}

proof fn lemma_first_dot_at(s: Seq<char>, k: int)
    requires
        0 <= k <= s.len(),
        forall|j: int| 0 <= j < k ==> #[trigger] s[j] != '.',
        k < s.len() ==> s[k] == '.',
    ensures
        first_dot(s) == k,
    decreases k,
{
    if k > 0 {
        let r = s.drop_first();
        assert forall|j: int| 0 <= j < k - 1 implies #[trigger] r[j] != '.' by {
            assert(r[j] == s[j + 1]);
        }
        if k < s.len() {
            assert(r[k - 1] == s[k]);
        }
        lemma_first_dot_at(r, k - 1);
    }
}

proof fn lemma_no_commas(s: Seq<char>)
    requires
        forall|j: int| 0 <= j < s.len() ==> #[trigger] s[j] != ',',
    ensures
        drop_commas(s) == s,
    decreases s.len(),
{
    if s.len() > 0 {
        lemma_no_commas(s.drop_last());
        assert(s.drop_last().push(s.last()) =~= s);
    }
}

/// What is printed as a USD amount parses back to the same number of
/// cents.
pub proof fn lemma_usd_text_parses_back(cents: u64)
    ensures
        usd_spec(usd_text(cents)) == Ok::<u64, TokenomicsError>(cents),
{
    let dollars = (cents / 100) as nat;
    let rem = (cents % 100) as nat;
    let d = decimal(dollars);
    let p = zero_padded(decimal(rem), 2);
    let t = usd_text(cents);
    let u = d + seq!['.'] + p;
    reveal_strlit("$");
    reveal_strlit(".");
    lemma_decimal_digits(dollars);
    lemma_padded_parses_back(rem);
    lemma_decimal_parses_back((cents / 100) as u64);
    assert(t =~= seq!['$'] + u);
    assert(!is_white(t[0]));
    assert(t.last() == p[1]);
    assert(is_digit(p[1]));
    assert(lead_ws(t) == 0);
    assert(trail_ws(t) == 0);
    assert(trimmed(t) =~= t);
    assert(t.drop_first() =~= u);
    assert(is_digit(d[0]));
    assert(u[0] == d[0]);
    assert(strip_dollars(u) == u);
    assert(strip_dollars(t) == u);
    assert forall|j: int| 0 <= j < u.len() implies #[trigger] u[j] != ',' by {
        if j < d.len() {
            assert(u[j] == d[j]);
            assert(is_digit(d[j]));
        } else if j > d.len() {
            assert(u[j] == p[j - d.len() - 1]);
            assert(is_digit(p[j - d.len() - 1]));
        }
    }
    lemma_no_commas(u);
    assert forall|j: int| 0 <= j < d.len() implies #[trigger] u[j] != '.' by {
        assert(u[j] == d[j]);
        assert(is_digit(d[j]));
    }
    assert(u[d.len() as int] == '.');
    lemma_first_dot_at(u, d.len() as int);
    assert(u.take(d.len() as int) =~= d);
    let rest = u.skip(d.len() as int + 1);
    assert(rest =~= p);
    assert forall|j: int| 0 <= j < p.len() implies #[trigger] p[j] != '.' by {
        assert(is_digit(p[j]));
    }
    lemma_first_dot_at(p, 2);
    assert(p.take(2) =~= p);
    assert(p + Seq::new(0, |i: int| '0') =~= p);
    assert(dollars * 100 + rem == cents);
}

/// What parsing a USD amount gives, in cents: surrounding whitespace,
/// leading '$' signs and every ',' are dropped; then dollars, optionally a
/// '.' and a cents part, and nothing after a second '.'.
pub open spec fn usd_spec(value: Seq<char>) -> Result<u64, TokenomicsError> {
    let c = drop_commas(strip_dollars(trimmed(value)));
    let d = first_dot(c) as int;
    let dollars = parse_u64_spec(c.take(d));
    let rest = c.skip(d + 1);
    let e = first_dot(rest) as int;
    let cents = if d < c.len() {
        cents_part(rest.take(e))
    } else {
        Some(0u64)
    };
    let extra = d < c.len() && e < rest.len();
    if c.len() == 0 {
        Err(TokenomicsError::InvalidUsdAmount)
    } else if dollars is None || cents is None || extra {
        Err(TokenomicsError::InvalidUsdAmount)
    } else if dollars->Some_0 * 100 + cents->Some_0 > u64::MAX {
        Err(TokenomicsError::InvalidUsdAmount)
    } else {
        Ok((dollars->Some_0 * 100 + cents->Some_0) as u64)
    }
}

proof fn lemma_strip_dollars(s: Seq<char>, k: int)
    requires
        0 <= k <= s.len(),
        forall|j: int| 0 <= j < k ==> #[trigger] s[j] == '$',
        k < s.len() ==> s[k] != '$',
    ensures
        strip_dollars(s) == s.skip(k),
    decreases k,
{
    if k > 0 {
        let r = s.drop_first();
        assert forall|j: int| 0 <= j < k - 1 implies #[trigger] r[j] == '$' by {
            assert(r[j] == s[j + 1]);
        }
        if k < s.len() {
            assert(r[k - 1] == s[k]);
        }
        lemma_strip_dollars(r, k - 1);
        assert(r.skip(k - 1) =~= s.skip(k));
    } else {
        assert(s.skip(0) =~= s);
    }
}

proof fn lemma_first_dot(s: Seq<char>, k: int)
    requires
        0 <= k <= s.len(),
        forall|j: int| 0 <= j < k ==> #[trigger] s[j] != '.',
        k < s.len() ==> s[k] == '.',
    ensures
        first_dot(s) == k,
    decreases k,
{
    if k > 0 {
        let r = s.drop_first();
        assert forall|j: int| 0 <= j < k - 1 implies #[trigger] r[j] != '.' by {
            assert(r[j] == s[j + 1]);
        }
        if k < s.len() {
            assert(r[k - 1] == s[k]);
        }
        lemma_first_dot(r, k - 1);
    }
}

/// The position of the first '.' at or after `from` (the length when none).
fn find_dot(c: &Vec<char>, from: usize) -> (r: usize)
    requires
        from <= c@.len(),
    ensures
        from <= r <= c@.len(),
        r - from == first_dot(c@.skip(from as int)),
{
    let mut i: usize = from;
    while i < c.len() && c[i] != '.'
        invariant
            from <= i <= c@.len(),
            forall|j: int| from <= j < i ==> #[trigger] c@[j] != '.',
        decreases c@.len() - i,
    {
        i = i + 1;
    }
    proof {
        let t = c@.skip(from as int);
        assert forall|j: int| 0 <= j < i - from implies #[trigger] t[j] != '.' by {
            assert(t[j] == c@[j + from]);
        }
        if i < c@.len() {
            assert(t[i - from] == c@[i as int]);
        }
        lemma_first_dot(t, i - from);
    }
    i
}

pub fn parse_usd_to_cents(value: &str) -> (r: Result<u64, TokenomicsError>)
    ensures
        r == usd_spec(value@),
{
    let chars = str_chars(value);
    let t = trim_chars(&chars);
    let mut k: usize = 0;
    while k < t.len() && t[k] == '$'
        invariant
            k <= t@.len(),
            forall|j: int| 0 <= j < k ==> #[trigger] t@[j] == '$',
        decreases t@.len() - k,
    {
        k = k + 1;
    }
    proof {
        lemma_strip_dollars(t@, k as int);
    }
    let mut c: Vec<char> = Vec::new();
    let mut i: usize = k;
    assert(t@.subrange(k as int, k as int) =~= Seq::<char>::empty());
    while i < t.len()
        invariant
            k <= i <= t@.len(),
            c@ == drop_commas(t@.subrange(k as int, i as int)),
        decreases t@.len() - i,
    {
        let ch = t[i];
        assert(t@.subrange(k as int, i + 1).drop_last() =~= t@.subrange(k as int, i as int));
        assert(t@.subrange(k as int, i + 1).last() == ch);
        if ch != ',' {
            c.push(ch);
        }
        i = i + 1;
    }
    assert(t@.subrange(k as int, i as int) =~= t@.skip(k as int));
    let ghost cs = c@;
    assert(cs == drop_commas(strip_dollars(trimmed(value@))));
    if c.len() == 0 {
        return Err(TokenomicsError::InvalidUsdAmount);
    }
    let d = find_dot(&c, 0);
    assert(c@.skip(0) =~= c@);
    assert(c@.subrange(0, d as int) =~= cs.take(d as int));
    let dollars = match parse_u64_chars(&c, 0, d) {
        None => return Err(TokenomicsError::InvalidUsdAmount),
        Some(x) => x,
    };
    let mut cents: u64 = 0;
    if d < c.len() {
        let e = find_dot(&c, d + 1);
        let ghost rest = cs.skip(d + 1);
        assert(c@.subrange(d + 1, e as int) =~= rest.take(e - (d + 1)));
        if e - (d + 1) > 2 {
            return Err(TokenomicsError::InvalidUsdAmount);
        }
        let mut part: Vec<char> = Vec::new();
        let mut j: usize = d + 1;
        while j < e
            invariant
                d + 1 <= j <= e,
                e <= c@.len(),
                part@ == c@.subrange(d + 1, j as int),
            decreases e - j,
        {
            part.push(c[j]);
            assert(c@.subrange(d + 1, j + 1) =~= c@.subrange(d + 1, j as int).push(c@[j as int]));
            j = j + 1;
        }
        let ghost p = part@;
        while part.len() < 2
            invariant
                part@ == p + Seq::new((part@.len() - p.len()) as nat, |i: int| '0'),
                p.len() <= part@.len() <= 2,
            decreases 2 - part@.len(),
        {
            part.push('0');
            assert(part@ =~= p + Seq::new((part@.len() - p.len()) as nat, |i: int| '0'));
        }
        assert(part@.subrange(0, part@.len() as int) =~= part@);
        cents = match parse_u64_chars(&part, 0, part.len()) {
            None => return Err(TokenomicsError::InvalidUsdAmount),
            Some(x) => x,
        };
        if e < c.len() {
            return Err(TokenomicsError::InvalidUsdAmount);
        }
    }
    let total = match dollars.checked_mul(100) {
        None => return Err(TokenomicsError::InvalidUsdAmount),
        Some(x) => x,
    };
    match total.checked_add(cents) {
        None => Err(TokenomicsError::InvalidUsdAmount),
        Some(x) => Ok(x),
    }
}

} // verus!

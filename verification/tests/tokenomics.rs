use abyss::coin::Coin;
use abyss::tokenomics::{
    parse_usd_to_cents, DexFinalSale, InvestorSecondaryWindow, SaleRound, SecondaryListing, TeamVesting,
    TokenomicsError, TokenomicsPlan,
};

#[test]
fn default_tokenomics_is_valid() {
    let plan = TokenomicsPlan::abyss_default();
    assert_eq!(plan.validate(), Ok(()));
    assert_eq!(plan.max_supply, Coin::from_ac(55_000_000).unwrap());
}

#[test]
fn team_reserve_and_public_sale_reconcile_to_55m() {
    let plan = TokenomicsPlan::abyss_default();
    let team = plan.team_reserve_amount();
    let public = plan.allocation_amount("Public sale and liquidity formation").unwrap();
    assert_eq!(team, Coin::from_ac(30_000_000).unwrap());
    assert_eq!(public, Coin::from_ac(25_000_000).unwrap());
    assert_eq!(team.checked_add(public).unwrap(), Coin::from_ac(55_000_000).unwrap());
}

#[test]
fn sale_rounds_fit_public_allocation() {
    let plan = TokenomicsPlan::abyss_default();
    let public = plan.allocation_amount("Public sale and liquidity formation").unwrap();
    let round_total = plan.sale_rounds.iter().try_fold(Coin::zero(), |acc, r| acc.checked_add(r.token_cap)).unwrap();
    assert_eq!(round_total, Coin::from_ac(25_000_000).unwrap());
    assert_eq!(public, Coin::from_ac(25_000_000).unwrap());
}

#[test]
fn total_sale_cap_matches_expected_raise() {
    let plan = TokenomicsPlan::abyss_default();
    // 2M*$1 + 3M*$2 + 5M*$3 + 5M*$4 + 10M*$5 = $93M
    let expected_cents = 9_300_000_000_u64;
    assert_eq!(plan.total_sale_cap_usd_cents(), Some(expected_cents));
}

#[test]
fn sale_to_investors_enforces_500k_minimum() {
    let round = SaleRound::new("Sale to Investors", 2_000_000, 100, 500_000, 0);
    assert_eq!(round.tokens_for_usd_cents(49_999_900), Err(TokenomicsError::ContributionBelowMinimum));
    assert_eq!(round.tokens_for_usd_cents(50_000_000), Ok(Coin::from_ac(500_000).unwrap()));
}

#[test]
fn secondary_window_parameters_are_correct() {
    let w = InvestorSecondaryWindow::abyss_default();
    assert_eq!(w.price_usd_cents, 300); // $3.00
    assert_eq!(w.registration_days, 14); // 2 weeks
    assert_eq!(w.min_listing_bps, 5_000); // 50%
    assert_eq!(w.min_listing_ac(), 250_000); // 50% of 500,000 AC
}

#[test]
fn valid_stage1_listing_is_accepted() {
    let w = InvestorSecondaryWindow::abyss_default();
    let listing = SecondaryListing::new("investor-001", 300_000, true).unwrap();
    assert_eq!(w.validate_listing(&listing), Ok(()));
}

#[test]
fn listing_below_minimum_is_rejected() {
    let w = InvestorSecondaryWindow::abyss_default();
    // 200,000 AC < minimum 250,000 AC
    let listing = SecondaryListing::new("investor-001", 200_000, true).unwrap();
    assert_eq!(
        w.validate_listing(&listing),
        Err(TokenomicsError::SecondaryListingBelowMinimum { min_ac: 250_000, actual_ac: 200_000 })
    );
}

#[test]
fn non_stage1_investor_cannot_list() {
    let w = InvestorSecondaryWindow::abyss_default();
    let listing = SecondaryListing::new("presale-investor", 300_000, false).unwrap();
    assert_eq!(w.validate_listing(&listing), Err(TokenomicsError::SecondaryWindowNotEligible));
}

#[test]
fn seller_payout_is_correct_at_3_dollars() {
    let w = InvestorSecondaryWindow::abyss_default();
    // 300,000 AC × $3.00 = $900,000
    let tokens = Coin::from_ac(300_000).unwrap();
    assert_eq!(w.seller_payout_usd_cents(tokens), Some(90_000_000));
}

#[test]
fn full_slot_listing_payout_is_1_5m() {
    let w = InvestorSecondaryWindow::abyss_default();
    // 500,000 AC × $3.00 = $1,500,000
    let tokens = Coin::from_ac(500_000).unwrap();
    assert_eq!(w.seller_payout_usd_cents(tokens), Some(150_000_000));
}

#[test]
fn stage1_investor_3x_return_on_entry_price() {
    // Bought at $1.00, sells at $3.00 → 3× return confirmed by payout math
    let w = InvestorSecondaryWindow::abyss_default();
    let tokens = Coin::from_ac(500_000).unwrap();
    let payout = w.seller_payout_usd_cents(tokens).unwrap();
    let entry_cost = 500_000_u64 * 100; // 500,000 AC × $1.00 in cents
    assert_eq!(payout, entry_cost * 3);
}

#[test]
fn dex_final_sale_prices_at_5_dollars() {
    let dex = DexFinalSale::abyss_default();
    assert_eq!(dex.tokens_for_usd_cents(50_000), Ok(Coin::from_ac(100).unwrap()));
}

#[test]
fn team_vesting_tranches_sum_to_30m() {
    let v = TeamVesting::abyss_default();
    assert_eq!(v.total(), Coin::from_ac(30_000_000).unwrap());
}

#[test]
fn year_by_year_unlock_matches_published_schedule() {
    let v = TeamVesting::abyss_default();
    assert_eq!(v.unlocked_in_year(1), Coin::from_ac(15_000_000).unwrap()); // A+B yr1
    assert_eq!(v.unlocked_in_year(2), Coin::from_ac(5_000_000).unwrap()); // B only
    assert_eq!(v.unlocked_in_year(3), Coin::from_ac(5_000_000).unwrap());
    assert_eq!(v.unlocked_in_year(4), Coin::from_ac(5_000_000).unwrap());
}

#[test]
fn parses_usd_amounts() {
    assert_eq!(parse_usd_to_cents("$1,250.50"), Ok(125_050));
    assert_eq!(parse_usd_to_cents("900"), Ok(90_000));
    assert_eq!(parse_usd_to_cents("1.234"), Err(TokenomicsError::InvalidUsdAmount));
}

use abyss::address::Address;
use abyss::coin::Coin;
use abyss::data::{account_path, accounts_dir, chain_path, parse_data_dir, StoredAccount};
use abyss::node::{
    dex_quote, json_escape, parse_command, presale_quote, publish_request, run_devnet,
    secondary_quote, social_demo, split_once_eq, tokenomics_summary, vesting_report, ArgError, BuybackRequest,
    Command, CommandError, DexQuoteRequest, PresaleQuoteRequest, QuoteError, SocialPostRequest,
};
use abyss::social::{PostId, SocialError, Visibility};
use abyss::tokenomics::TokenomicsError;
use abyss::wallet::WalletAccount;

fn args(list: &[&str]) -> Vec<String> {
    list.iter().map(|s| s.to_string()).collect()
}

// ── commands ────────────────────────────────────────────────────────────

#[test]
fn no_arguments_and_help_flags_ask_for_help() {
    assert!(matches!(parse_command(&args(&[])), Ok(Command::Help)));
    assert!(matches!(parse_command(&args(&["--help"])), Ok(Command::Help)));
    assert!(matches!(parse_command(&args(&["-h"])), Ok(Command::Help)));
}

#[test]
fn account_new_defaults_its_label() {
    match parse_command(&args(&["account", "new"])) {
        Ok(Command::AccountNew { label }) => assert_eq!(label, "default"),
        other => panic!("unexpected {other:?}"),
    }
    match parse_command(&args(&["account", "new", "savings"])) {
        Ok(Command::AccountNew { label }) => assert_eq!(label, "savings"),
        other => panic!("unexpected {other:?}"),
    }
}

#[test]
fn presale_quote_keeps_the_remaining_arguments() {
    match parse_command(&args(&["presale", "quote", "--amount=10", "--json"])) {
        Ok(Command::PresaleQuote(rest)) => assert_eq!(rest, args(&["--amount=10", "--json"])),
        other => panic!("unexpected {other:?}"),
    }
}

#[test]
fn unknown_and_missing_commands_are_refused_with_their_messages() {
    let e = parse_command(&args(&["launch"])).unwrap_err();
    assert!(matches!(e, CommandError::UnknownCommand(_)));
    assert_eq!(e.message(), "unknown command 'launch'");
    let e = parse_command(&args(&["presale"])).unwrap_err();
    assert_eq!(e.message(), "missing presale command");
    let e = parse_command(&args(&["social", "shout"])).unwrap_err();
    assert_eq!(e.message(), "unknown social command 'shout'");
    let e = parse_command(&args(&["account", "delete"])).unwrap_err();
    assert_eq!(e.message(), "unknown account command 'delete'");
}

// ── options ─────────────────────────────────────────────────────────────

#[test]
fn split_once_splits_at_the_first_equals_sign() {
    assert_eq!(split_once_eq("--body=a=b"), Some(("--body".to_string(), "a=b".to_string())));
    assert_eq!(split_once_eq("--json"), None);
}

#[test]
fn presale_request_defaults_and_last_occurrence() {
    let r = PresaleQuoteRequest::parse(&args(&["--amount=$1,000", "--amount=250.5", "--kyc-approved"])).unwrap();
    assert_eq!(r.contribution_usd_cents, 25_050);
    assert_eq!(r.max_contribution_usd_cents, 1_000_000);
    assert_eq!(r.investor_id, "demo-investor");
    assert_eq!(r.jurisdiction, "EU");
    assert_eq!(r.round_id, "public-stage-1");
    assert!(r.kyc_approved);
    assert!(!r.professional);
    assert!(!r.json);
}

#[test]
fn presale_request_errors() {
    assert!(matches!(PresaleQuoteRequest::parse(&args(&[])), Err(ArgError::MissingAmount)));
    assert!(matches!(
        PresaleQuoteRequest::parse(&args(&["oops"])),
        Err(ArgError::InvalidArgument(a)) if a == "oops"
    ));
    assert!(matches!(
        PresaleQuoteRequest::parse(&args(&["--colour=red", "--amount=1"])),
        Err(ArgError::UnknownArgument(k)) if k == "--colour"
    ));
    assert!(matches!(
        PresaleQuoteRequest::parse(&args(&["--amount=1.234"])),
        Err(ArgError::InvalidAmount(TokenomicsError::InvalidUsdAmount))
    ));
    assert!(matches!(
        PresaleQuoteRequest::parse(&args(&["--amount=1", "--max=x"])),
        Err(ArgError::InvalidMax(TokenomicsError::InvalidUsdAmount))
    ));
}

#[test]
fn buyback_and_dex_requests() {
    let b = BuybackRequest::parse(&args(&["--tokens=300000", "--json"])).unwrap();
    assert_eq!(b.tokens_ac, 300_000);
    assert!(b.json);
    assert!(matches!(BuybackRequest::parse(&args(&[])), Err(ArgError::MissingTokens)));
    assert!(matches!(
        BuybackRequest::parse(&args(&["--tokens=12a"])),
        Err(ArgError::InvalidTokens(v)) if v == "12a"
    ));
    let d = DexQuoteRequest::parse(&args(&["--amount=500"])).unwrap();
    assert_eq!(d.amount_usd_cents, 50_000);
    assert!(!d.json);
}

#[test]
fn social_post_request_requires_author_and_body() {
    assert!(matches!(SocialPostRequest::parse(&args(&["--body=hi"])), Err(ArgError::MissingAuthor)));
    assert!(matches!(SocialPostRequest::parse(&args(&["--author=abyss1a"])), Err(ArgError::MissingBody)));
    let r = SocialPostRequest::parse(&args(&["--author=abyss1a", "--body=hi there", "--shielded"])).unwrap();
    assert_eq!(r.author, "abyss1a");
    assert_eq!(r.body, "hi there");
    assert!(r.shielded);
}

#[test]
fn json_escape_doubles_backslashes_and_escapes_quotes() {
    assert_eq!(json_escape(r#"a"b\c"#), r#"a\"b\\c"#);
    assert_eq!(json_escape("plain"), "plain");
}

// ── quotes ──────────────────────────────────────────────────────────────

fn presale(list: &[&str]) -> Result<abyss::node::PresaleQuote, QuoteError> {
    presale_quote(&PresaleQuoteRequest::parse(&args(list)).unwrap())
}

#[test]
fn presale_quote_at_stage_one_price() {
    let q = presale(&["--amount=900", "--kyc-approved"]).unwrap();
    assert_eq!(q.price_usd_cents, 300);
    assert_eq!(q.receipt.token_amount, Coin::from_ac(300).unwrap());
    assert_eq!(q.receipt.round_id, "public-stage-1");
    assert_eq!(q.receipt.round_name, "Sale Stage 1");
}

#[test]
fn presale_quote_finds_rounds_by_name_ignoring_case() {
    let q = presale(&["--amount=100", "--kyc-approved", "--round=pre-SALE"]).unwrap();
    assert_eq!(q.receipt.round_id, "pre-sale");
    assert_eq!(q.receipt.token_amount, Coin::from_ac(50).unwrap());
}

#[test]
fn presale_quote_refusals() {
    assert!(matches!(
        presale(&["--amount=900", "--kyc-approved", "--round=moon"]),
        Err(QuoteError::UnknownRound(id)) if id == "moon"
    ));
    assert!(matches!(presale(&["--amount=900"]), Err(QuoteError::Rejected(TokenomicsError::InvestorNotApproved))));
    assert!(matches!(
        presale(&["--amount=900", "--kyc-approved", "--jurisdiction=  "]),
        Err(QuoteError::Rejected(TokenomicsError::MissingJurisdiction))
    ));
    assert!(matches!(
        presale(&["--amount=20000", "--kyc-approved"]),
        Err(QuoteError::Rejected(TokenomicsError::ContributionExceedsInvestorLimit))
    ));
    assert!(matches!(
        presale(&["--amount=600000", "--max=1000000", "--kyc-approved", "--round=sale-to-investors"]),
        Err(QuoteError::Rejected(TokenomicsError::ProfessionalInvestorRequired))
    ));
}

#[test]
fn secondary_and_dex_quotes() {
    let q = secondary_quote(300_000).unwrap();
    assert_eq!(q.payout_usd_cents, 90_000_000);
    assert_eq!(q.tokens, Coin::from_ac(300_000).unwrap());
    assert!(matches!(secondary_quote(55_000_001), Err(QuoteError::InvalidTokenAmount(55_000_001))));
    let d = dex_quote(50_000).unwrap();
    assert_eq!(d.tokens, Coin::from_ac(100).unwrap());
}

// ── reports and scenarios ───────────────────────────────────────────────

#[test]
fn tokenomics_summary_of_the_default_plan() {
    let s = tokenomics_summary().unwrap();
    assert_eq!(s.team_reserve, Coin::from_ac(30_000_000).unwrap());
    assert_eq!(s.public_sale, Coin::from_ac(25_000_000).unwrap());
    assert_eq!(s.total_sale_cap_usd_cents, Some(9_300_000_000));
    assert_eq!(s.raise_caps_usd_cents, vec![200_000_000, 600_000_000, 1_500_000_000, 2_000_000_000, 5_000_000_000]);
    assert_eq!(s.allocation_amounts[0], Coin::from_ac(8_250_000).unwrap());
}

#[test]
fn vesting_report_by_year() {
    let (_, years) = vesting_report();
    let this_year: Vec<u64> = years.iter().map(|y| y.unlocked_this_year.micro_ac() / 100_000_000).collect();
    let cumulative: Vec<u64> = years.iter().map(|y| y.cumulative_unlocked.micro_ac() / 100_000_000).collect();
    assert_eq!(this_year, vec![15_000_000, 5_000_000, 5_000_000, 5_000_000, 0]);
    assert_eq!(cumulative, vec![15_000_000, 20_000_000, 25_000_000, 30_000_000, 30_000_000]);
}

#[test]
fn social_demo_ends_with_the_rate_limit() {
    let demo = social_demo(1_000);
    assert_eq!(demo.feed.len(), 3);
    assert_eq!((demo.post1, demo.post2, demo.post3), (PostId(0), PostId(1), PostId(2)));
    assert_eq!(demo.feed.get(PostId(1)).unwrap().visibility, Visibility::Shielded);
    assert_eq!(demo.feed.replies_to(PostId(0)).len(), 1);
    assert_eq!(
        demo.rate_limit_result,
        Err(SocialError::AgentExceedsPostingRate { limit_per_window: 10, window_seconds: 3_600 })
    );
}

#[test]
fn publishing_a_request() {
    let r = SocialPostRequest::parse(&args(&["--author=abyss1a", "--body=hello"])).unwrap();
    let (feed, id) = publish_request(&r, 7).unwrap();
    assert_eq!(id, PostId(0));
    assert_eq!(feed.get(id).unwrap().created_at_ms, 7);
    assert_eq!(feed.get(id).unwrap().visibility, Visibility::Attributed);
}

#[test]
fn devnet_moves_funds_in_two_blocks() {
    let report = run_devnet(10, 20, 30).unwrap();
    let chain = &report.chain;
    assert_eq!(chain.height(), 2);
    assert_eq!(chain.balance_of(&report.treasury).micro_ac(), 5_500_000_000_000_000 - 100_000_000_000 - 10_000);
    assert_eq!(chain.balance_of(&report.alice).micro_ac(), 100_000_000_000 - 12_500_000_000 - 2_500);
    assert_eq!(chain.balance_of(&report.bob), Coin::from_ac(125).unwrap());
    assert_eq!(chain.next_nonce(&report.alice), 1);
    assert_eq!(chain.blocks()[2].header.timestamp_ms, 30);
    let expected_alice = WalletAccount::from_dev_seed("alice", b"abyss:dev:alice").address();
    assert_eq!(report.alice, expected_alice);
}

// ── data directory and account records ──────────────────────────────────

#[test]
fn data_paths_join_like_unix_paths() {
    assert_eq!(chain_path(".abyss"), ".abyss/chain.json");
    assert_eq!(chain_path("data/"), "data/chain.json");
    assert_eq!(accounts_dir(""), "accounts");
    assert_eq!(account_path(".abyss", "alice"), ".abyss/accounts/alice.json");
    assert_eq!(parse_data_dir(&args(&["x", "--data-dir=/tmp/n", "--data-dir=/other"])), "/tmp/n");
    assert_eq!(parse_data_dir(&args(&["x"])), ".abyss");
}

#[test]
fn stored_accounts_rebuild_seeded_wallets_only() {
    let account = WalletAccount::from_dev_seed("alice", b"seed-a");
    let stored = StoredAccount::from_account(&account, Some("seed-a".to_string()));
    assert_eq!(stored.label, "alice");
    assert_eq!(stored.address, account.address().as_str());
    assert_eq!(stored.public_key, account.public_key().to_string());
    let wallet = stored.load_wallet().unwrap();
    assert_eq!(wallet.address(), account.address());

    let bare = StoredAccount::from_account(&account, None);
    assert_eq!(
        bare.load_wallet().unwrap_err(),
        "account 'alice' has no dev_seed; only seed-backed dev accounts can sign"
    );
    let _ = Address::new("abyss1a").unwrap();
}

//! The node's command line: which command the arguments name, the options
//! of each command, and the quotes, scenarios and records the commands
//! compute. Printing and files are left to the caller.

use vstd::prelude::*;
use vstd::string::*;
use crate::chars::{parse_u64_chars, parse_u64_spec, str_chars, str_eq};
use crate::text::push_char;
use crate::address::Address;
use crate::chain::{apply_txs, tx_step, txs_nonce_safe, ApplyError, Chain, ChainConfig};
use crate::coin::{Coin, COIN};
use crate::crypto::{dev_address_spec, dev_public_spec, dev_secret_spec};
use crate::genesis::GenesisConfig;
use crate::keymap::lemma_lookup_insert;
use crate::mempool::{Mempool, MempoolError};
use crate::state::amount_of;
use crate::transaction::Transaction;
use crate::wallet::{AgentPermission, WalletAccount, WalletError};
use vstd::utf8::encode_utf8;
use crate::social::{
    body_check, AgentActivityWindow, AgentSocialAction, AgentSocialPolicy, DevFeed, PostId,
    SocialError, Visibility,
};
use crate::tokenomics::{
    allocation_terms, default_allocations, raise_cap, team_unlocked, year_end, year_start, DexFinalSale,
    InvestorSecondaryWindow, TeamVesting, MAX_SUPPLY_AC, PUBLIC_SALE_ALLOCATION, round_terms, contribution_at, default_rounds, find_round_terms, lemma_find_round_by_terms, parse_usd_to_cents,
    usd_spec, ContributionReceipt, InvestorProfile, KycStatus, SaleRound, TokenomicsError,
    TokenomicsPlan, VestingSchedule,
};

verus! {

// ── Arguments of the form `--key=value` ─────────────────────────────────

/// Position of the first '=' (the length when there is none).
pub open spec fn eq_index(s: Seq<char>) -> nat
    decreases s.len(),
{
    if s.len() == 0 || s[0] == '=' {
        0
    } else {
        1 + eq_index(s.drop_first())
    }
}

/// An argument split at its first '=' into key and value.
pub open spec fn split_eq(s: Seq<char>) -> Option<(Seq<char>, Seq<char>)> {
    let i = eq_index(s) as int;
    if i < s.len() {
        Some((s.take(i), s.skip(i + 1)))
    } else {
        None
    }
}

proof fn lemma_eq_index(s: Seq<char>, k: int)
    requires
        0 <= k <= s.len(),
        forall|j: int| 0 <= j < k ==> #[trigger] s[j] != '=',
        k < s.len() ==> s[k] == '=',
    ensures
        eq_index(s) == k,
    decreases k,
{
    if k > 0 {
        let r = s.drop_first();
        assert forall|j: int| 0 <= j < k - 1 implies #[trigger] r[j] != '=' by {
            assert(r[j] == s[j + 1]);
        }
        if k < s.len() {
            assert(r[k - 1] == s[k]);
        }
        lemma_eq_index(r, k - 1);
    }
}

proof fn lemma_eq_index_props(s: Seq<char>)
    ensures
        eq_index(s) <= s.len(),
        forall|j: int| 0 <= j < eq_index(s) ==> #[trigger] s[j] != '=',
        eq_index(s) < s.len() ==> s[eq_index(s) as int] == '=',
    decreases s.len(),
{
    if s.len() > 0 && s[0] != '=' {
        let r = s.drop_first();
        lemma_eq_index_props(r);
        assert forall|j: int| 0 <= j < eq_index(s) implies #[trigger] s[j] != '=' by {
            if j > 0 {
                assert(s[j] == r[j - 1]);
            }
        }
        if eq_index(s) < s.len() {
            assert(s[eq_index(s) as int] == r[eq_index(r) as int]);
        }
    }
}

/// An argument splits exactly when it holds an '=': the key is what comes
/// before its first '=', which the key does not hold, and the value is
/// everything after it; key, '=' and value make up the argument.
pub proof fn lemma_split_eq_parts(s: Seq<char>)
    ensures
        split_eq(s) is None <==> !s.contains('='),
        split_eq(s) matches Some(kv) ==> s == kv.0 + seq!['='] + kv.1 && !kv.0.contains('='),
{
    lemma_eq_index_props(s);
    let i = eq_index(s) as int;
    if i < s.len() {
        assert(s =~= s.take(i) + seq!['='] + s.skip(i + 1));
        assert(s.contains('=')) by {
            assert(s[i] == '=');
        }
        if s.take(i).contains('=') {
            let j = choose|j: int| 0 <= j < s.take(i).len() && s.take(i)[j] == '=';
            assert(s[j] == '=');
        }
    } else if s.contains('=') {
        let j = choose|j: int| 0 <= j < s.len() && s[j] == '=';
        assert(s[j] != '=');
    }
}

/// The value given for a key is that of the last argument with that key:
/// some argument reads `key=value`, and no later one has the key.
pub proof fn lemma_last_value_is_last(args: Seq<Seq<char>>, key: Seq<char>)
    ensures
        last_value(args, key) is None <==> forall|i: int|
            0 <= i < args.len() ==> !(split_eq(#[trigger] args[i]) matches Some(kv) && kv.0 == key),
        last_value(args, key) matches Some(v) ==> exists|i: int|
            0 <= i < args.len() && split_eq(#[trigger] args[i]) == Some((key, v)) && forall|j: int|
                i < j < args.len() ==> !(split_eq(#[trigger] args[j]) matches Some(kv) && kv.0 == key),
    decreases args.len(),
{
    if args.len() > 0 {
        let pre = args.drop_last();
        lemma_last_value_is_last(pre, key);
        let n = args.len() - 1;
        assert(args[n] == args.last());
        if split_eq(args.last()) matches Some(kv) && kv.0 == key {
            let v = split_eq(args.last())->Some_0.1;
            assert(split_eq(args[n]) == Some((key, v)));
        } else {
            assert forall|i: int| 0 <= i < pre.len() implies pre[i] == args[i] by {}
            if let Some(v) = last_value(pre, key) {
                let i = choose|i: int|
                    0 <= i < pre.len() && split_eq(#[trigger] pre[i]) == Some((key, v)) && forall|j: int|
                        i < j < pre.len() ==> !(split_eq(#[trigger] pre[j]) matches Some(kv) && kv.0 == key);
                assert(split_eq(args[i]) == Some((key, v)));
                assert forall|j: int| i < j < args.len() implies !(split_eq(#[trigger] args[j]) matches Some(
                    kv,
                ) && kv.0 == key) by {
                    if j < pre.len() {
                        assert(args[j] == pre[j]);
                    }
                }
            } else {
                assert forall|i: int| 0 <= i < args.len() implies !(split_eq(#[trigger] args[i]) matches Some(
                    kv,
                ) && kv.0 == key) by {
                    if i < pre.len() {
                        assert(args[i] == pre[i]);
                    }
                }
            }
        }
    }
}

/// The characters `v[a..b]` as a string.
pub(crate) fn string_of(v: &Vec<char>, a: usize, b: usize) -> (r: String)
    requires
        a <= b <= v@.len(),
    ensures
        r@ == v@.subrange(a as int, b as int),
{
    let mut s = String::new();
    let mut i: usize = a;
    while i < b
        invariant
            a <= i <= b,
            b <= v@.len(),
            s@ == v@.subrange(a as int, i as int),
        decreases b - i,
    {
        push_char(&mut s, v[i]);
        assert(s@ =~= v@.subrange(a as int, i + 1));
        i = i + 1;
    }
    s
}

/// `str::split_once('=')`.
pub fn split_once_eq(s: &str) -> (r: Option<(String, String)>)
    ensures
        match split_eq(s@) {
            None => r is None,
            Some(kv) => r matches Some(p) && p.0@ == kv.0 && p.1@ == kv.1,
        },
{
    let c = str_chars(s);
    let mut i: usize = 0;
    while i < c.len() && c[i] != '='
        invariant
            c@ == s@,
            i <= c@.len(),
            forall|j: int| 0 <= j < i ==> #[trigger] c@[j] != '=',
        decreases c@.len() - i,
    {
        i = i + 1;
    }
    proof {
        lemma_eq_index(s@, i as int);
    }
    if i == c.len() {
        return None;
    }
    let key = string_of(&c, 0, i);
    let value = string_of(&c, i + 1, c.len());
    assert(s@.take(i as int) =~= c@.subrange(0, i as int));
    assert(s@.skip(i + 1) =~= c@.subrange(i + 1, c@.len() as int));
    Some((key, value))
}

/// The value of the last `--key=value` argument with the given key.
pub open spec fn last_value(args: Seq<Seq<char>>, key: Seq<char>) -> Option<Seq<char>>
    decreases args.len(),
{
    if args.len() == 0 {
        None
    } else if split_eq(args.last()) matches Some(kv) && kv.0 == key {
        Some(split_eq(args.last())->Some_0.1)
    } else {
        last_value(args.drop_last(), key)
    }
}

/// Position of the first argument that fails `ok` (the length when none).
pub open spec fn first_failing(args: Seq<Seq<char>>, ok: spec_fn(Seq<char>) -> bool) -> nat
    decreases args.len(),
{
    if args.len() == 0 || !ok(args[0]) {
        0
    } else {
        1 + first_failing(args.drop_first(), ok)
    }
}

proof fn lemma_first_failing(args: Seq<Seq<char>>, ok: spec_fn(Seq<char>) -> bool, k: int)
    requires
        0 <= k <= args.len(),
        forall|j: int| 0 <= j < k ==> ok(#[trigger] args[j]),
        k < args.len() ==> !ok(args[k]),
    ensures
        first_failing(args, ok) == k,
    decreases k,
{
    if k > 0 {
        let r = args.drop_first();
        assert forall|j: int| 0 <= j < k - 1 implies ok(#[trigger] r[j]) by {
            assert(r[j] == args[j + 1]);
        }
        if k < args.len() {
            assert(r[k - 1] == args[k]);
        }
        assert(ok(args[0]));
        lemma_first_failing(r, ok, k - 1);
    }
}

/// The views of a list of strings.
pub open spec fn arg_views(args: Seq<String>) -> Seq<Seq<char>> {
    args.map_values(|a: String| a@)
}

/// Why the options of a command were refused.
#[derive(Debug)]
pub enum ArgError {
    /// An argument that is neither a known flag nor `--key=value`.
    InvalidArgument(String),
    /// A key that the command does not take.
    UnknownArgument(String),
    InvalidAmount(TokenomicsError),
    InvalidMax(TokenomicsError),
    InvalidTokens(String),
    MissingAmount,
    MissingTokens,
    MissingAuthor,
    MissingBody,
}

// ── presale quote ───────────────────────────────────────────────────────

/// The options of a presale quote.
#[derive(Debug)]
pub struct PresaleQuoteRequest {
    pub investor_id: String,
    pub jurisdiction: String,
    pub round_id: String,
    pub contribution_usd_cents: u64,
    pub max_contribution_usd_cents: u64,
    pub kyc_approved: bool,
    pub professional: bool,
    pub json: bool,
}

/// A flag of the presale quote.
pub open spec fn is_presale_flag(a: Seq<char>) -> bool {
    a == "--kyc-approved"@ || a == "--professional"@ || a == "--json"@
}

/// An argument the presale quote accepts.
pub open spec fn presale_arg_ok(a: Seq<char>) -> bool {
    ||| is_presale_flag(a)
    ||| split_eq(a) matches Some(kv) && (kv.0 == "--investor"@ || kv.0 == "--jurisdiction"@ || kv.0
        == "--round"@ || (kv.0 == "--amount"@ && usd_spec(kv.1) is Ok) || (kv.0 == "--max"@ && usd_spec(
        kv.1,
    ) is Ok))
}

/// The error a refused presale argument raises.
pub open spec fn presale_arg_error(a: Seq<char>, e: ArgError) -> bool {
    match split_eq(a) {
        None => e matches ArgError::InvalidArgument(s) && s@ == a,
        Some(kv) => if kv.0 == "--amount"@ {
            e == ArgError::InvalidAmount(usd_spec(kv.1)->Err_0)
        } else if kv.0 == "--max"@ {
            e == ArgError::InvalidMax(usd_spec(kv.1)->Err_0)
        } else {
            e matches ArgError::UnknownArgument(s) && s@ == kv.0
        },
    }
}

/// The value of the last `--key=` argument, or `default`.
pub open spec fn value_or(args: Seq<Seq<char>>, key: Seq<char>, default: Seq<char>) -> Seq<char> {
    match last_value(args, key) {
        Some(v) => v,
        None => default,
    }
}

/// What the presale quote options give.
pub open spec fn presale_request_ok(args: Seq<Seq<char>>, r: PresaleQuoteRequest) -> bool {
    &&& r.investor_id@ == value_or(args, "--investor"@, "demo-investor"@)
    &&& r.jurisdiction@ == value_or(args, "--jurisdiction"@, "EU"@)
    &&& r.round_id@ == value_or(args, "--round"@, "public-stage-1"@)
    &&& r.contribution_usd_cents == usd_spec(last_value(args, "--amount"@)->Some_0)->Ok_0
    &&& r.max_contribution_usd_cents == match last_value(args, "--max"@) {
        Some(v) => usd_spec(v)->Ok_0,
        None => 1_000_000,
    }
    &&& r.kyc_approved == args.contains("--kyc-approved"@)
    &&& r.professional == args.contains("--professional"@)
    &&& r.json == args.contains("--json"@)
}

proof fn lemma_last_value_push(args: Seq<Seq<char>>, a: Seq<char>, key: Seq<char>)
    ensures
        last_value(args.push(a), key) == if split_eq(a) matches Some(kv) && kv.0 == key {
            Some(split_eq(a)->Some_0.1)
        } else {
            last_value(args, key)
        },
{
    assert(args.push(a).drop_last() =~= args);
    assert(args.push(a).last() == a);
}

/// The value of the last `--key=value` argument with key `key`.
pub fn last_value_of(args: &Vec<String>, key: &str) -> (r: Option<String>)
    ensures
        match last_value(arg_views(args@), key@) {
            Some(v) => r matches Some(s) && s@ == v,
            None => r is None,
        },
{
    let ghost a = arg_views(args@);
    let mut i: usize = args.len();
    assert(a.take(a.len() as int) =~= a);
    while i > 0
        invariant
            a == arg_views(args@),
            i <= a.len(),
            last_value(a, key@) == last_value(a.take(i as int), key@),
        decreases i,
    {
        let ghost pre = a.take(i - 1);
        assert(a.take(i as int) =~= pre.push(a[i - 1]));
        assert(a[i - 1] == args@[i - 1]@);
        proof {
            lemma_last_value_push(pre, a[i - 1], key@);
        }
        match split_once_eq(args[i - 1].as_str()) {
            Some((k, v)) => {
                if str_eq(k.as_str(), key) {
                    return Some(v);
                }
            },
            None => {},
        }
        i = i - 1;
    }
    assert(a.take(0) =~= Seq::<Seq<char>>::empty());
    None
}

/// Whether `flag` is one of the arguments.
pub fn has_arg(args: &Vec<String>, flag: &str) -> (r: bool)
    ensures
        r == arg_views(args@).contains(flag@),
{
    let ghost a = arg_views(args@);
    let mut i: usize = 0;
    while i < args.len()
        invariant
            a == arg_views(args@),
            i <= a.len(),
            forall|j: int| 0 <= j < i ==> a[j] != flag@,
        decreases a.len() - i,
    {
        assert(a[i as int] == args@[i as int]@);
        if str_eq(args[i].as_str(), flag) {
            return true;
        }
        i = i + 1;
    }
    false
}

fn presale_arg_check(arg: &String) -> (r: Result<(), ArgError>)
    ensures
        r is Ok <==> presale_arg_ok(arg@),
        r matches Err(e) ==> presale_arg_error(arg@, e),
{
    let s = arg.as_str();
    if str_eq(s, "--kyc-approved") || str_eq(s, "--professional") || str_eq(s, "--json") {
        return Ok(());
    }
    let (key, value) = match split_once_eq(s) {
        None => return Err(ArgError::InvalidArgument(arg.clone())),
        Some(kv) => kv,
    };
    let k = key.as_str();
    if str_eq(k, "--investor") || str_eq(k, "--jurisdiction") || str_eq(k, "--round") {
        return Ok(());
    }
    if str_eq(k, "--amount") {
        return match parse_usd_to_cents(value.as_str()) {
            Err(e) => Err(ArgError::InvalidAmount(e)),
            Ok(_) => Ok(()),
        };
    }
    if str_eq(k, "--max") {
        return match parse_usd_to_cents(value.as_str()) {
            Err(e) => Err(ArgError::InvalidMax(e)),
            Ok(_) => Ok(()),
        };
    }
    Err(ArgError::UnknownArgument(key))
}

fn value_or_default(args: &Vec<String>, key: &str, default: &str) -> (r: String)
    ensures
        r@ == value_or(arg_views(args@), key@, default@),
{
    match last_value_of(args, key) {
        Some(v) => v,
        None => default.to_owned(),
    }
}

impl PresaleQuoteRequest {
    /// Reads the options of a presale quote: `--investor=`,
    /// `--jurisdiction=`, `--round=`, `--amount=` (required), `--max=`, and
    /// the flags `--kyc-approved`, `--professional`, `--json`. The last
    /// occurrence of an option counts; the first bad argument is the error.
    pub fn parse(args: &Vec<String>) -> (r: Result<PresaleQuoteRequest, ArgError>)
        ensures
            ({
                let a = arg_views(args@);
                let k = first_failing(a, |x: Seq<char>| presale_arg_ok(x)) as int;
                &&& k < a.len() ==> (r matches Err(e) && presale_arg_error(a[k], e))
                &&& k == a.len() && last_value(a, "--amount"@) is None ==> (r matches Err(
                    ArgError::MissingAmount,
                ))
                &&& k == a.len() && last_value(a, "--amount"@) is Some ==> (r matches Ok(q)
                    && presale_request_ok(a, q))
            }),
    {
        let ghost a = arg_views(args@);
        let ghost ok = |x: Seq<char>| presale_arg_ok(x);
        let mut i: usize = 0;
        while i < args.len()
            invariant
                a == arg_views(args@),
                ok == (|x: Seq<char>| presale_arg_ok(x)),
                i <= a.len(),
                forall|j: int| 0 <= j < i ==> presale_arg_ok(#[trigger] a[j]),
            decreases a.len() - i,
        {
            assert(a[i as int] == args@[i as int]@);
            match presale_arg_check(&args[i]) {
                Err(e) => {
                    proof {
                        lemma_first_failing(a, ok, i as int);
                    }
                    return Err(e);
                },
                Ok(()) => {},
            }
            i = i + 1;
        }
        proof {
            lemma_first_failing(a, ok, i as int);
        }
        let contribution_usd_cents = match last_value_of(args, "--amount") {
            None => return Err(ArgError::MissingAmount),
            Some(v) => {
                proof {
                    lemma_last_value_ok(a, "--amount"@, ok);
                }
                match parse_usd_to_cents(v.as_str()) {
                    Ok(c) => c,
                    Err(e) => return Err(ArgError::InvalidAmount(e)),
                }
            },
        };
        let max_contribution_usd_cents = match last_value_of(args, "--max") {
            None => 1_000_000,
            Some(v) => {
                proof {
                    lemma_last_value_ok(a, "--max"@, ok);
                }
                match parse_usd_to_cents(v.as_str()) {
                    Ok(c) => c,
                    Err(e) => return Err(ArgError::InvalidMax(e)),
                }
            },
        };
        Ok(
            PresaleQuoteRequest {
                investor_id: value_or_default(args, "--investor", "demo-investor"),
                jurisdiction: value_or_default(args, "--jurisdiction", "EU"),
                round_id: value_or_default(args, "--round", "public-stage-1"),
                contribution_usd_cents,
                max_contribution_usd_cents,
                kyc_approved: has_arg(args, "--kyc-approved"),
                professional: has_arg(args, "--professional"),
                json: has_arg(args, "--json"),
            },
        )
    }
}

/// Why a quote was refused.
#[derive(Debug)]
pub enum QuoteError {
    /// The tokenomics plan does not validate.
    InvalidPlan(TokenomicsError),
    /// No sale round has the requested identifier or name.
    UnknownRound(String),
    /// The contribution was refused.
    Rejected(TokenomicsError),
    /// The token amount exceeds the supply.
    InvalidTokenAmount(u64),
    /// The payout does not fit 64 bits.
    PayoutOverflow,
}

/// A presale quote: the receipt, and the price of the round in cents.
#[derive(Debug)]
pub struct PresaleQuote {
    pub receipt: ContributionReceipt,
    pub price_usd_cents: u64,
}

/// The KYC status a quote request stands for.
pub open spec fn request_kyc(approved: bool) -> KycStatus {
    if approved {
        KycStatus::Approved
    } else {
        KycStatus::Pending
    }
}

/// What a presale quote request gives under the default plan: the round
/// is looked up by identifier or name, and the contribution is checked
/// against the investor's terms and the round's.
pub open spec fn presale_quote_outcome(q: PresaleQuoteRequest, r: Result<PresaleQuote, QuoteError>) -> bool {
    match find_round_terms(default_rounds(), q.round_id@) {
        None => r matches Err(QuoteError::UnknownRound(id)) && id@ == q.round_id@,
        Some(t) => match contribution_at(
            request_kyc(q.kyc_approved),
            q.jurisdiction@,
            q.professional,
            q.max_contribution_usd_cents,
            t.4,
            t.3,
            t.2,
            q.contribution_usd_cents,
        ) {
            Err(e) => r matches Err(QuoteError::Rejected(f)) && f == e,
            Ok(m) => r matches Ok(p) && p.receipt.token_amount@ == m && p.receipt.investor_id@
                == q.investor_id@ && p.receipt.jurisdiction@ == q.jurisdiction@ && p.receipt.round_id@
                == t.0 && p.receipt.round_name@ == t.1 && p.receipt.contribution_usd_cents
                == q.contribution_usd_cents && p.receipt.vesting == VestingSchedule::locked_spec(t.5)
                && p.price_usd_cents == t.3,
        },
    }
}

/// Quotes a presale contribution under the default plan.
pub fn presale_quote(request: &PresaleQuoteRequest) -> (r: Result<PresaleQuote, QuoteError>)
    ensures
        presale_quote_outcome(*request, r),
{
    let plan = TokenomicsPlan::abyss_default();
    match plan.validate() {
        Ok(()) => {},
        Err(e) => return Err(QuoteError::InvalidPlan(e)),
    }
    proof {
        lemma_find_round_by_terms(plan.sale_rounds@, default_rounds(), request.round_id@);
    }
    let round: &SaleRound = match plan.sale_round(request.round_id.as_str()) {
        None => return Err(QuoteError::UnknownRound(request.round_id.clone())),
        Some(r) => r,
    };
    let investor = InvestorProfile {
        investor_id: request.investor_id.clone(),
        jurisdiction: request.jurisdiction.clone(),
        kyc_status: if request.kyc_approved {
            KycStatus::Approved
        } else {
            KycStatus::Pending
        },
        accredited_or_professional: request.professional,
        max_contribution_usd_cents: request.max_contribution_usd_cents,
    };
    assert(investor.investor_id@ == request.investor_id@ && investor.jurisdiction@ == request.jurisdiction@);
    match ContributionReceipt::create(&investor, round, request.contribution_usd_cents) {
        Err(e) => Err(QuoteError::Rejected(e)),
        Ok(receipt) => Ok(PresaleQuote { receipt, price_usd_cents: round.price_usd_cents }),
    }
}

/// When every argument is accepted, the value of an option with a numeric
/// check passed that check.
proof fn lemma_last_value_ok(a: Seq<Seq<char>>, key: Seq<char>, ok: spec_fn(Seq<char>) -> bool)
    requires
        first_failing(a, ok) == a.len(),
        ok == (|x: Seq<char>| presale_arg_ok(x)),
        key == "--amount"@ || key == "--max"@,
        last_value(a, key) is Some,
    ensures
        usd_spec(last_value(a, key)->Some_0) is Ok,
    decreases a.len(),
{
    lemma_first_failing_all(a, ok);
    let x = a.last();
    assert(a[a.len() - 1] == x);
    if split_eq(x) matches Some(kv) && kv.0 == key {
        reveal_strlit("--amount");
        reveal_strlit("--max");
        reveal_strlit("--investor");
        reveal_strlit("--jurisdiction");
        reveal_strlit("--round");
        assert(ok(x));
        if is_presale_flag(x) {
            lemma_flags_do_not_split(x);
        }
        assert(!is_presale_flag(x));
        let kv = split_eq(x)->Some_0;
        assert(last_value(a, key) == Some(kv.1));
        assert("--amount"@.len() == 8 && "--max"@.len() == 5 && "--investor"@.len() == 10);
        assert("--jurisdiction"@.len() == 14 && "--round"@.len() == 7);
        assert(kv.0 != "--investor"@ && kv.0 != "--jurisdiction"@ && kv.0 != "--round"@);
        assert(key == "--amount"@ ==> kv.0 != "--max"@);
        assert(usd_spec(kv.1) is Ok);
    } else {
        let p = a.drop_last();
        assert forall|j: int| 0 <= j < p.len() implies ok(#[trigger] p[j]) by {
            assert(p[j] == a[j]);
        }
        lemma_first_failing(p, ok, p.len() as int);
        lemma_last_value_ok(p, key, ok);
    }
}

/// A flag holds no '=', so it never reads as an option.
proof fn lemma_flags_do_not_split(x: Seq<char>)
    requires
        is_presale_flag(x),
    ensures
        split_eq(x) is None,
{
    reveal_strlit("--kyc-approved");
    reveal_strlit("--professional");
    reveal_strlit("--json");
    lemma_eq_index(x, x.len() as int);
}

proof fn lemma_first_failing_all(a: Seq<Seq<char>>, ok: spec_fn(Seq<char>) -> bool)
    requires
        first_failing(a, ok) == a.len(),
    ensures
        forall|j: int| 0 <= j < a.len() ==> ok(#[trigger] a[j]),
    decreases a.len(),
{
    if a.len() > 0 {
        lemma_first_failing_all(a.drop_first(), ok);
        assert forall|j: int| 0 <= j < a.len() implies ok(#[trigger] a[j]) by {
            if j > 0 {
                assert(a[j] == a.drop_first()[j - 1]);
            }
        }
    }
}

// ── The command ─────────────────────────────────────────────────────────

/// The command the arguments name, with the arguments it reads.
#[derive(Debug)]
pub enum Command {
    AccountNew { label: String },
    Devnet,
    PresaleQuote(Vec<String>),
    PresaleBuyback(Vec<String>),
    PresaleDexQuote(Vec<String>),
    Tokenomics(Vec<String>),
    Vesting(Vec<String>),
    SocialDemo,
    SocialPost(Vec<String>),
    Help,
}

/// Arguments that name no command.
#[derive(Debug)]
pub enum CommandError {
    UnknownAccountCommand(String),
    MissingAccountCommand,
    UnknownPresaleCommand(String),
    MissingPresaleCommand,
    UnknownSocialCommand(String),
    MissingSocialCommand,
    UnknownCommand(String),
}

/// The message of a command error.
pub open spec fn command_error_text(e: CommandError) -> Seq<char> {
    match e {
        CommandError::UnknownAccountCommand(c) => "unknown account command '"@ + c@ + "'"@,
        CommandError::MissingAccountCommand => "missing account command"@,
        CommandError::UnknownPresaleCommand(c) => "unknown presale command '"@ + c@ + "'"@,
        CommandError::MissingPresaleCommand => "missing presale command"@,
        CommandError::UnknownSocialCommand(c) => "unknown social command '"@ + c@ + "'"@,
        CommandError::MissingSocialCommand =>
            "missing social command. Try: social demo | social post --author=<addr> --body=<text>"@,
        CommandError::UnknownCommand(c) => "unknown command '"@ + c@ + "'"@,
    }
}

impl CommandError {
    /// The message of this error.
    pub fn message(&self) -> (r: String)
        ensures
            r@ == command_error_text(*self),
    {
        let mut s = String::new();
        match self {
            CommandError::UnknownAccountCommand(c) => {
                s.append("unknown account command '");
                s.append(c.as_str());
                s.append("'");
            },
            CommandError::MissingAccountCommand => s.append("missing account command"),
            CommandError::UnknownPresaleCommand(c) => {
                s.append("unknown presale command '");
                s.append(c.as_str());
                s.append("'");
            },
            CommandError::MissingPresaleCommand => s.append("missing presale command"),
            CommandError::UnknownSocialCommand(c) => {
                s.append("unknown social command '");
                s.append(c.as_str());
                s.append("'");
            },
            CommandError::MissingSocialCommand => s.append(
                "missing social command. Try: social demo | social post --author=<addr> --body=<text>",
            ),
            CommandError::UnknownCommand(c) => {
                s.append("unknown command '");
                s.append(c.as_str());
                s.append("'");
            },
        }
        assert(s@ =~= command_error_text(*self));
        s
    }
}

/// What the first one or two arguments select: the rest as `rest`.
pub open spec fn rest_is(v: Vec<String>, a: Seq<Seq<char>>, from: int) -> bool {
    arg_views(v@) == a.skip(from)
}

/// What reading the command gives.
pub open spec fn command_outcome(a: Seq<Seq<char>>, r: Result<Command, CommandError>) -> bool {
    if a.len() == 0 || a[0] == "help"@ || a[0] == "--help"@ || a[0] == "-h"@ {
        r matches Ok(Command::Help)
    } else if a[0] == "account"@ {
        if a.len() < 2 {
            r matches Err(CommandError::MissingAccountCommand)
        } else if a[1] == "new"@ {
            r matches Ok(Command::AccountNew { label }) && label@ == (if a.len() > 2 {
                a[2]
            } else {
                "default"@
            })
        } else {
            r matches Err(CommandError::UnknownAccountCommand(c)) && c@ == a[1]
        }
    } else if a[0] == "devnet"@ {
        r matches Ok(Command::Devnet)
    } else if a[0] == "presale"@ {
        if a.len() < 2 {
            r matches Err(CommandError::MissingPresaleCommand)
        } else if a[1] == "quote"@ {
            r matches Ok(Command::PresaleQuote(v)) && rest_is(v, a, 2)
        } else if a[1] == "buyback"@ {
            r matches Ok(Command::PresaleBuyback(v)) && rest_is(v, a, 2)
        } else if a[1] == "dex-quote"@ {
            r matches Ok(Command::PresaleDexQuote(v)) && rest_is(v, a, 2)
        } else {
            r matches Err(CommandError::UnknownPresaleCommand(c)) && c@ == a[1]
        }
    } else if a[0] == "tokenomics"@ {
        r matches Ok(Command::Tokenomics(v)) && rest_is(v, a, 1)
    } else if a[0] == "vesting"@ {
        r matches Ok(Command::Vesting(v)) && rest_is(v, a, 1)
    } else if a[0] == "social"@ {
        if a.len() < 2 {
            r matches Err(CommandError::MissingSocialCommand)
        } else if a[1] == "demo"@ {
            r matches Ok(Command::SocialDemo)
        } else if a[1] == "post"@ {
            r matches Ok(Command::SocialPost(v)) && rest_is(v, a, 2)
        } else {
            r matches Err(CommandError::UnknownSocialCommand(c)) && c@ == a[1]
        }
    } else {
        r matches Err(CommandError::UnknownCommand(c)) && c@ == a[0]
    }
}

/// The arguments from position `from` on.
fn rest_from(args: &Vec<String>, from: usize) -> (r: Vec<String>)
    requires
        from <= args@.len(),
    ensures
        arg_views(r@) == arg_views(args@).skip(from as int),
{
    let mut out: Vec<String> = Vec::new();
    let mut i: usize = from;
    while i < args.len()
        invariant
            from <= i <= args@.len(),
            arg_views(out@) == arg_views(args@).subrange(from as int, i as int),
        decreases args@.len() - i,
    {
        let ghost before = out@;
        out.push(args[i].clone());
        assert(arg_views(out@) =~= arg_views(before).push(args@[i as int]@));
        assert(arg_views(args@).subrange(from as int, i + 1) =~= arg_views(args@).subrange(
            from as int,
            i as int,
        ).push(args@[i as int]@));
        i = i + 1;
    }
    assert(arg_views(args@).subrange(from as int, i as int) =~= arg_views(args@).skip(from as int));
    out
}

/// Reads the command named by the arguments (the program name excluded).
pub fn parse_command(args: &Vec<String>) -> (r: Result<Command, CommandError>)
    ensures
        command_outcome(arg_views(args@), r),
{
    let ghost a = arg_views(args@);
    if args.len() == 0 {
        return Ok(Command::Help);
    }
    assert(a[0] == args@[0]@);
    let first = args[0].as_str();
    if str_eq(first, "help") || str_eq(first, "--help") || str_eq(first, "-h") {
        return Ok(Command::Help);
    }
    if args.len() >= 2 {
        assert(a[1] == args@[1]@);
    }
    if str_eq(first, "account") {
        if args.len() < 2 {
            return Err(CommandError::MissingAccountCommand);
        }
        if str_eq(args[1].as_str(), "new") {
            let label = if args.len() > 2 {
                assert(a[2] == args@[2]@);
                args[2].clone()
            } else {
                "default".to_owned()
            };
            return Ok(Command::AccountNew { label });
        }
        return Err(CommandError::UnknownAccountCommand(args[1].clone()));
    }
    if str_eq(first, "devnet") {
        return Ok(Command::Devnet);
    }
    if str_eq(first, "presale") {
        if args.len() < 2 {
            return Err(CommandError::MissingPresaleCommand);
        }
        let second = args[1].as_str();
        if str_eq(second, "quote") {
            return Ok(Command::PresaleQuote(rest_from(args, 2)));
        }
        if str_eq(second, "buyback") {
            return Ok(Command::PresaleBuyback(rest_from(args, 2)));
        }
        if str_eq(second, "dex-quote") {
            return Ok(Command::PresaleDexQuote(rest_from(args, 2)));
        }
        return Err(CommandError::UnknownPresaleCommand(args[1].clone()));
    }
    if str_eq(first, "tokenomics") {
        return Ok(Command::Tokenomics(rest_from(args, 1)));
    }
    if str_eq(first, "vesting") {
        return Ok(Command::Vesting(rest_from(args, 1)));
    }
    if str_eq(first, "social") {
        if args.len() < 2 {
            return Err(CommandError::MissingSocialCommand);
        }
        let second = args[1].as_str();
        if str_eq(second, "demo") {
            return Ok(Command::SocialDemo);
        }
        if str_eq(second, "post") {
            return Ok(Command::SocialPost(rest_from(args, 2)));
        }
        return Err(CommandError::UnknownSocialCommand(args[1].clone()));
    }
    Err(CommandError::UnknownCommand(args[0].clone()))
}

/// Text with every '\' doubled and every '"' preceded by '\'.
pub open spec fn json_escaped(s: Seq<char>) -> Seq<char>
    decreases s.len(),
{
    if s.len() == 0 {
        s
    } else {
        json_escaped(s.drop_last()) + if s.last() == '\\' {
            seq!['\\', '\\']
        } else if s.last() == '"' {
            seq!['\\', '"']
        } else {
            seq![s.last()]
        }
    }
}

/// Escaping works character by character: the escape of a concatenation is
/// the concatenation of the escapes, a backslash becomes two backslashes, a
/// quote becomes a backslash and a quote, and any other character stays.
pub proof fn lemma_json_escaped_by_char(a: Seq<char>, b: Seq<char>, c: char)
    ensures
        json_escaped(a + b) == json_escaped(a) + json_escaped(b),
        json_escaped(seq![c]) == if c == '\\' {
            seq!['\\', '\\']
        } else if c == '"' {
            seq!['\\', '"']
        } else {
            seq![c]
        },
    decreases b.len(),
{
    assert(seq![c].drop_last() =~= Seq::<char>::empty());
    if b.len() == 0 {
        assert(a + b =~= a);
        assert(json_escaped(b) =~= Seq::<char>::empty());
    } else {
        lemma_json_escaped_by_char(a, b.drop_last(), c);
        assert((a + b).drop_last() =~= a + b.drop_last());
        assert((a + b).last() == b.last());
    }
}

/// Escapes a value for a JSON string.
pub fn json_escape(value: &str) -> (r: String)
    ensures
        r@ == json_escaped(value@),
{
    let c = str_chars(value);
    let mut s = String::new();
    let mut i: usize = 0;
    while i < c.len()
        invariant
            c@ == value@,
            i <= c@.len(),
            s@ == json_escaped(c@.take(i as int)),
        decreases c@.len() - i,
    {
        let ch = c[i];
        assert(c@.take(i + 1).drop_last() =~= c@.take(i as int));
        assert(c@.take(i + 1).last() == ch);
        if ch == '\\' {
            push_char(&mut s, '\\');
            push_char(&mut s, '\\');
        } else if ch == '"' {
            push_char(&mut s, '\\');
            push_char(&mut s, '"');
        } else {
            push_char(&mut s, ch);
        }
        assert(s@ =~= json_escaped(c@.take(i + 1)));
        i = i + 1;
    }
    assert(c@.take(i as int) =~= c@);
    s
}

/// When every argument is accepted and every accepted `key=` argument's
/// value has property `p`, so has the last value of `key`.
proof fn lemma_last_value_has(
    a: Seq<Seq<char>>,
    key: Seq<char>,
    ok: spec_fn(Seq<char>) -> bool,
    p: spec_fn(Seq<char>) -> bool,
)
    requires
        forall|j: int| 0 <= j < a.len() ==> ok(#[trigger] a[j]),
        forall|x: Seq<char>| #[trigger] ok(x) && split_eq(x) is Some && split_eq(x)->Some_0.0 == key ==> p(
            split_eq(x)->Some_0.1,
        ),
        last_value(a, key) is Some,
    ensures
        p(last_value(a, key)->Some_0),
    decreases a.len(),
{
    let x = a.last();
    assert(a[a.len() - 1] == x);
    if split_eq(x) matches Some(kv) && kv.0 == key {
    } else {
        let q = a.drop_last();
        assert forall|j: int| 0 <= j < q.len() implies ok(#[trigger] q[j]) by {
            assert(q[j] == a[j]);
        }
        lemma_last_value_has(q, key, ok, p);
    }
}

/// Validates every argument with `check`; answers the first error.
fn first_arg_error<F: Fn(&String) -> Result<(), ArgError>>(
    args: &Vec<String>,
    Ghost(ok): Ghost<spec_fn(Seq<char>) -> bool>,
    Ghost(fails): Ghost<spec_fn(Seq<char>, ArgError) -> bool>,
    check: F,
) -> (r: Option<ArgError>)
    requires
        forall|s: &String| #[trigger] check.requires((s,)),
        forall|s: &String, res: Result<(), ArgError>| #[trigger] check.ensures((s,), res) ==> (res is Ok
            <==> ok(s@)) && (res matches Err(e) ==> fails(s@, e)),
    ensures
        ({
            let a = arg_views(args@);
            let k = first_failing(a, ok) as int;
            &&& k <= a.len()
            &&& k < a.len() ==> (r matches Some(e) && fails(a[k], e))
            &&& k == a.len() ==> r is None
        }),
{
    let ghost a = arg_views(args@);
    let mut i: usize = 0;
    while i < args.len()
        invariant
            a == arg_views(args@),
            i <= a.len(),
            forall|j: int| 0 <= j < i ==> ok(#[trigger] a[j]),
            forall|s: &String| #[trigger] check.requires((s,)),
            forall|s: &String, res: Result<(), ArgError>| #[trigger] check.ensures((s,), res) ==> (res is Ok
                <==> ok(s@)) && (res matches Err(e) ==> fails(s@, e)),
        decreases a.len() - i,
    {
        assert(a[i as int] == args@[i as int]@);
        match check(&args[i]) {
            Err(e) => {
                proof {
                    lemma_first_failing(a, ok, i as int);
                }
                return Some(e);
            },
            Ok(()) => {},
        }
        i = i + 1;
    }
    proof {
        lemma_first_failing(a, ok, i as int);
    }
    None
}

// ── presale buyback (the investor secondary window) ─────────────────────

/// The options of a secondary-window quote.
#[derive(Debug)]
pub struct BuybackRequest {
    pub tokens_ac: u64,
    pub json: bool,
}

/// An argument the secondary-window quote accepts.
pub open spec fn buyback_arg_ok(a: Seq<char>) -> bool {
    ||| a == "--json"@
    ||| split_eq(a) matches Some(kv) && kv.0 == "--tokens"@ && parse_u64_spec(kv.1) is Some
}

/// The error a refused secondary-window argument raises.
pub open spec fn buyback_arg_error(a: Seq<char>, e: ArgError) -> bool {
    match split_eq(a) {
        None => e matches ArgError::InvalidArgument(s) && s@ == a,
        Some(kv) => if kv.0 == "--tokens"@ {
            e matches ArgError::InvalidTokens(s) && s@ == kv.1
        } else {
            e matches ArgError::UnknownArgument(s) && s@ == kv.0
        },
    }
}

fn buyback_arg_check(arg: &String) -> (r: Result<(), ArgError>)
    ensures
        r is Ok <==> buyback_arg_ok(arg@),
        r matches Err(e) ==> buyback_arg_error(arg@, e),
{
    let s = arg.as_str();
    if str_eq(s, "--json") {
        return Ok(());
    }
    let (key, value) = match split_once_eq(s) {
        None => return Err(ArgError::InvalidArgument(arg.clone())),
        Some(kv) => kv,
    };
    if str_eq(key.as_str(), "--tokens") {
        let c = str_chars(value.as_str());
        assert(c@.subrange(0, c@.len() as int) =~= c@);
        return match parse_u64_chars(&c, 0, c.len()) {
            None => Err(ArgError::InvalidTokens(value)),
            Some(_) => Ok(()),
        };
    }
    Err(ArgError::UnknownArgument(key))
}

fn parse_u64_str(s: &str) -> (r: Option<u64>)
    ensures
        r == parse_u64_spec(s@),
{
    let c = str_chars(s);
    assert(c@.subrange(0, c@.len() as int) =~= c@);
    parse_u64_chars(&c, 0, c.len())
}

impl BuybackRequest {
    /// Reads `--tokens=<whole AC>` (required) and the flag `--json`.
    pub fn parse(args: &Vec<String>) -> (r: Result<BuybackRequest, ArgError>)
        ensures
            ({
                let a = arg_views(args@);
                let k = first_failing(a, |x: Seq<char>| buyback_arg_ok(x)) as int;
                &&& k < a.len() ==> (r matches Err(e) && buyback_arg_error(a[k], e))
                &&& k == a.len() && last_value(a, "--tokens"@) is None ==> (r matches Err(
                    ArgError::MissingTokens,
                ))
                &&& k == a.len() && last_value(a, "--tokens"@) is Some ==> (r matches Ok(q) && Some(
                    q.tokens_ac,
                ) == parse_u64_spec(last_value(a, "--tokens"@)->Some_0) && q.json == a.contains("--json"@))
            }),
    {
        let ghost ok = |x: Seq<char>| buyback_arg_ok(x);
        let ghost fails = |x: Seq<char>, e: ArgError| buyback_arg_error(x, e);
        match first_arg_error(args, Ghost(ok), Ghost(fails), buyback_arg_check) {
            Some(e) => return Err(e),
            None => {},
        }
        let tokens_ac = match last_value_of(args, "--tokens") {
            None => return Err(ArgError::MissingTokens),
            Some(v) => {
                proof {
                    let a = arg_views(args@);
                    lemma_first_failing_all(a, ok);
                    assert forall|x: Seq<char>| #[trigger] ok(x) && split_eq(x) is Some && split_eq(x)->Some_0.0
                        == "--tokens"@ implies (|v: Seq<char>| parse_u64_spec(v) is Some)(split_eq(x)->Some_0.1) by {
                        if x == "--json"@ {
                            reveal_strlit("--json");
                            lemma_eq_index(x, x.len() as int);
                        }
                    }
                    lemma_last_value_has(a, "--tokens"@, ok, |v: Seq<char>| parse_u64_spec(v) is Some);
                }
                match parse_u64_str(v.as_str()) {
                    Some(t) => t,
                    None => return Err(ArgError::InvalidTokens(v)),
                }
            },
        };
        Ok(BuybackRequest { tokens_ac, json: has_arg(args, "--json") })
    }
}

// ── presale dex-quote ───────────────────────────────────────────────────

/// The options of a DEX final-sale quote.
#[derive(Debug)]
pub struct DexQuoteRequest {
    pub amount_usd_cents: u64,
    pub json: bool,
}

/// An argument the DEX quote accepts.
pub open spec fn dex_arg_ok(a: Seq<char>) -> bool {
    ||| a == "--json"@
    ||| split_eq(a) matches Some(kv) && kv.0 == "--amount"@ && usd_spec(kv.1) is Ok
}

/// The error a refused DEX-quote argument raises.
pub open spec fn dex_arg_error(a: Seq<char>, e: ArgError) -> bool {
    match split_eq(a) {
        None => e matches ArgError::InvalidArgument(s) && s@ == a,
        Some(kv) => if kv.0 == "--amount"@ {
            e == ArgError::InvalidAmount(usd_spec(kv.1)->Err_0)
        } else {
            e matches ArgError::UnknownArgument(s) && s@ == kv.0
        },
    }
}

fn dex_arg_check(arg: &String) -> (r: Result<(), ArgError>)
    ensures
        r is Ok <==> dex_arg_ok(arg@),
        r matches Err(e) ==> dex_arg_error(arg@, e),
{
    let s = arg.as_str();
    if str_eq(s, "--json") {
        return Ok(());
    }
    let (key, value) = match split_once_eq(s) {
        None => return Err(ArgError::InvalidArgument(arg.clone())),
        Some(kv) => kv,
    };
    if str_eq(key.as_str(), "--amount") {
        return match parse_usd_to_cents(value.as_str()) {
            Err(e) => Err(ArgError::InvalidAmount(e)),
            Ok(_) => Ok(()),
        };
    }
    Err(ArgError::UnknownArgument(key))
}

impl DexQuoteRequest {
    /// Reads `--amount=<usd>` (required) and the flag `--json`.
    pub fn parse(args: &Vec<String>) -> (r: Result<DexQuoteRequest, ArgError>)
        ensures
            ({
                let a = arg_views(args@);
                let k = first_failing(a, |x: Seq<char>| dex_arg_ok(x)) as int;
                &&& k < a.len() ==> (r matches Err(e) && dex_arg_error(a[k], e))
                &&& k == a.len() && last_value(a, "--amount"@) is None ==> (r matches Err(
                    ArgError::MissingAmount,
                ))
                &&& k == a.len() && last_value(a, "--amount"@) is Some ==> (r matches Ok(q) && Ok::<
                    u64,
                    TokenomicsError,
                >(q.amount_usd_cents) == usd_spec(last_value(a, "--amount"@)->Some_0) && q.json == a.contains(
                    "--json"@,
                ))
            }),
    {
        let ghost ok = |x: Seq<char>| dex_arg_ok(x);
        let ghost fails = |x: Seq<char>, e: ArgError| dex_arg_error(x, e);
        match first_arg_error(args, Ghost(ok), Ghost(fails), dex_arg_check) {
            Some(e) => return Err(e),
            None => {},
        }
        let amount_usd_cents = match last_value_of(args, "--amount") {
            None => return Err(ArgError::MissingAmount),
            Some(v) => {
                proof {
                    let a = arg_views(args@);
                    lemma_first_failing_all(a, ok);
                    assert forall|x: Seq<char>| #[trigger] ok(x) && split_eq(x) is Some && split_eq(x)->Some_0.0
                        == "--amount"@ implies (|v: Seq<char>| usd_spec(v) is Ok)(split_eq(x)->Some_0.1) by {
                        if x == "--json"@ {
                            reveal_strlit("--json");
                            lemma_eq_index(x, x.len() as int);
                        }
                    }
                    lemma_last_value_has(a, "--amount"@, ok, |v: Seq<char>| usd_spec(v) is Ok);
                }
                match parse_usd_to_cents(v.as_str()) {
                    Ok(c) => c,
                    Err(e) => return Err(ArgError::InvalidAmount(e)),
                }
            },
        };
        Ok(DexQuoteRequest { amount_usd_cents, json: has_arg(args, "--json") })
    }
}

// ── social post ─────────────────────────────────────────────────────────

/// The options of a social post.
#[derive(Debug)]
pub struct SocialPostRequest {
    pub author: String,
    pub body: String,
    pub shielded: bool,
}

/// An argument a social post accepts.
pub open spec fn post_arg_ok(a: Seq<char>) -> bool {
    ||| a == "--shielded"@
    ||| split_eq(a) matches Some(kv) && (kv.0 == "--author"@ || kv.0 == "--body"@)
}

/// The error a refused social-post argument raises.
pub open spec fn post_arg_error(a: Seq<char>, e: ArgError) -> bool {
    match split_eq(a) {
        None => e matches ArgError::InvalidArgument(s) && s@ == a,
        Some(kv) => e matches ArgError::UnknownArgument(s) && s@ == kv.0,
    }
}

fn post_arg_check(arg: &String) -> (r: Result<(), ArgError>)
    ensures
        r is Ok <==> post_arg_ok(arg@),
        r matches Err(e) ==> post_arg_error(arg@, e),
{
    let s = arg.as_str();
    if str_eq(s, "--shielded") {
        return Ok(());
    }
    let (key, _value) = match split_once_eq(s) {
        None => return Err(ArgError::InvalidArgument(arg.clone())),
        Some(kv) => kv,
    };
    if str_eq(key.as_str(), "--author") || str_eq(key.as_str(), "--body") {
        return Ok(());
    }
    Err(ArgError::UnknownArgument(key))
}

impl SocialPostRequest {
    /// Reads `--author=`, `--body=` (both required and non-empty) and the
    /// flag `--shielded`.
    pub fn parse(args: &Vec<String>) -> (r: Result<SocialPostRequest, ArgError>)
        ensures
            ({
                let a = arg_views(args@);
                let k = first_failing(a, |x: Seq<char>| post_arg_ok(x)) as int;
                let author = value_or(a, "--author"@, Seq::empty());
                let body = value_or(a, "--body"@, Seq::empty());
                &&& k < a.len() ==> (r matches Err(e) && post_arg_error(a[k], e))
                &&& k == a.len() && author.len() == 0 ==> (r matches Err(ArgError::MissingAuthor))
                &&& k == a.len() && author.len() > 0 && body.len() == 0 ==> (r matches Err(
                    ArgError::MissingBody,
                ))
                &&& k == a.len() && author.len() > 0 && body.len() > 0 ==> (r matches Ok(q) && q.author@
                    == author && q.body@ == body && q.shielded == a.contains("--shielded"@))
            }),
    {
        let ghost ok = |x: Seq<char>| post_arg_ok(x);
        let ghost fails = |x: Seq<char>, e: ArgError| post_arg_error(x, e);
        match first_arg_error(args, Ghost(ok), Ghost(fails), post_arg_check) {
            Some(e) => return Err(e),
            None => {},
        }
        let author = value_or_default(args, "--author", "");
        let body = value_or_default(args, "--body", "");
        proof {
            reveal_strlit("");
        }
        if author.as_str().unicode_len() == 0 {
            return Err(ArgError::MissingAuthor);
        }
        if body.as_str().unicode_len() == 0 {
            return Err(ArgError::MissingBody);
        }
        Ok(SocialPostRequest { author, body, shielded: has_arg(args, "--shielded") })
    }
}

// ── social demo ──────────────────────────────────────────────────────────

/// What the social demonstration leaves: the feed, its three posts, the
/// agent's policy, and the answer to the agent's eleventh repost in one
/// window.
#[derive(Debug)]
pub struct SocialDemo {
    pub feed: DevFeed,
    pub post1: PostId,
    pub post2: PostId,
    pub post3: PostId,
    pub agent_policy: AgentSocialPolicy,
    pub rate_limit_result: Result<(), SocialError>,
}

/// The author of the demonstration's attributed posts.
pub const DEMO_ALICE: &'static str = "abyss1dev_alice";

/// The author of the demonstration's shielded post.
pub const DEMO_BOB: &'static str = "abyss1dev_bob";

proof fn lemma_ascii_body(s: Seq<char>)
    requires
        0 < s.len() <= 2_000,
        vstd::utf8::is_ascii_chars(s),
    ensures
        body_check(s) == Ok::<(), SocialError>(()),
{
    vstd::utf8::is_ascii_chars_encode_utf8(s);
}

/// Runs the social layer's demonstration at time `now_ms`: alice publishes
/// an attributed post, bob a shielded one, alice replies to her own post;
/// then alice's curator agent reposts ten times within one window, and its
/// eleventh repost is refused by the rate limit.
pub fn social_demo(now_ms: u64) -> (r: SocialDemo)
    requires
        now_ms <= u64::MAX - 5_000,
    ensures
        r.post1 == PostId(0) && r.post2 == PostId(1) && r.post3 == PostId(2),
        r.feed@.len() == 3,
        r.feed@[0].id == PostId(0) && r.feed@[1].id == PostId(1) && r.feed@[2].id == PostId(2),
        !r.feed@[0].authored_by_agent && !r.feed@[1].authored_by_agent && !r.feed@[2].authored_by_agent,
        r.feed@[0].body@ == "Hello ABYSS. The future of private social is here."@,
        r.feed@[1].body@ == "This message is mine. The network cannot prove it."@,
        r.feed@[2].body@ == "Building in public. Transacting in private."@,
        r.feed@[0].author@ == DEMO_ALICE@ && r.feed@[0].visibility == Visibility::Attributed
            && r.feed@[0].created_at_ms == now_ms && r.feed@[0].in_reply_to is None,
        r.feed@[1].author@ == DEMO_BOB@ && r.feed@[1].visibility == Visibility::Shielded
            && r.feed@[1].created_at_ms == now_ms + 1_000 && r.feed@[1].in_reply_to is None,
        r.feed@[2].author@ == DEMO_ALICE@ && r.feed@[2].visibility == Visibility::Attributed
            && r.feed@[2].created_at_ms == now_ms + 2_000 && r.feed@[2].in_reply_to == Some(PostId(0)),
        r.agent_policy.can_repost && !r.agent_policy.can_post && !r.agent_policy.can_reply,
        r.agent_policy.max_posts_per_window == 10 && r.agent_policy.rate_window_seconds == 3_600,
        r.rate_limit_result == Err::<(), SocialError>(
            SocialError::AgentExceedsPostingRate { limit_per_window: 10, window_seconds: 3_600 },
        ),
{
    let body1 = "Hello ABYSS. The future of private social is here.";
    let body2 = "This message is mine. The network cannot prove it.";
    let body3 = "Building in public. Transacting in private.";
    proof {
        reveal_strlit("Hello ABYSS. The future of private social is here.");
        reveal_strlit("This message is mine. The network cannot prove it.");
        reveal_strlit("Building in public. Transacting in private.");
        assert(vstd::utf8::is_ascii_chars(body1@));
        assert(vstd::utf8::is_ascii_chars(body2@));
        assert(vstd::utf8::is_ascii_chars(body3@));
        lemma_ascii_body(body1@);
        lemma_ascii_body(body2@);
        lemma_ascii_body(body3@);
    }
    let mut feed = DevFeed::new();
    let post1 = feed.publish(DEMO_ALICE, body1, Visibility::Attributed, now_ms).unwrap();
    let post2 = feed.publish(DEMO_BOB, body2, Visibility::Shielded, now_ms + 1_000).unwrap();
    let post3 = feed.reply(DEMO_ALICE, body3, Visibility::Attributed, now_ms + 2_000, post1).unwrap();
    let agent_policy = AgentSocialPolicy::curator_default();
    let mut agent_window = AgentActivityWindow::new(now_ms);
    let _ = agent_window.record_post(&agent_policy, AgentSocialAction::Repost, now_ms + 3_000);
    let mut i: u64 = 0;
    while i < 9
        invariant
            i <= 9,
            now_ms <= u64::MAX - 5_000,
            agent_window.start_spec() == now_ms,
            agent_window.posts_spec() == 1 + i,
            agent_policy.can_repost,
            agent_policy.max_posts_per_window == 10,
            agent_policy.rate_window_seconds == 3_600,
        decreases 9 - i,
    {
        let _ = agent_window.record_post(&agent_policy, AgentSocialAction::Repost, now_ms + 4_000 + i);
        i = i + 1;
    }
    let rate_limit_result = agent_window.record_post(&agent_policy, AgentSocialAction::Repost, now_ms + 5_000);
    SocialDemo { feed, post1, post2, post3, agent_policy, rate_limit_result }
}

// ── devnet ───────────────────────────────────────────────────────────────

/// The address of the development account with the given seed.
pub open spec fn seeded_address(seed: Seq<char>) -> Seq<char> {
    dev_address_spec(dev_public_spec(dev_secret_spec(encode_utf8(seed))))
}

/// A step of the devnet run that failed.
#[derive(Debug)]
pub enum DevnetError {
    Genesis(ApplyError),
    Mempool(MempoolError),
    Policy(WalletError),
    FirstBlock(ApplyError),
    SecondBlock(ApplyError),
}

/// The chain a devnet run leaves, and its three accounts' addresses.
#[derive(Debug)]
pub struct DevnetReport {
    pub chain: Chain,
    pub treasury: Address,
    pub alice: Address,
    pub bob: Address,
}

/// The proposer of the devnet's blocks.
pub const DEVNET_PROPOSER: &'static str = "abyss-validator-1";

/// Boots a devnet at `genesis_ms`: the treasury holds the supply; at
/// `first_ms` a block moves 1,000 AC (fee 0.01 AC) from the treasury to
/// alice; alice's agent, granted limited trades up to 250 AC, then pays bob
/// 125 AC (fee 0.0025 AC) in a block at `second_ms`.
pub fn run_devnet(genesis_ms: u64, first_ms: u64, second_ms: u64) -> (r: Result<DevnetReport, DevnetError>)
    ensures
        match r {
            Ok(rep) => {
                let b = rep.chain.blocks_view();
                &&& rep.treasury@ == seeded_address("abyss:genesis:treasury"@)
                &&& rep.alice@ == seeded_address("abyss:dev:alice"@)
                &&& rep.bob@ == seeded_address("abyss:dev:bob"@)
                &&& b.len() == 3
                &&& b[0].header.timestamp_ms == genesis_ms
                &&& b[1].header.timestamp_ms == first_ms
                &&& b[2].header.timestamp_ms == second_ms
                &&& b[1].header.proposer@ == DEVNET_PROPOSER@
                &&& b[2].header.proposer@ == DEVNET_PROPOSER@
                &&& b[1].transactions@.len() == 1
                &&& b[1].transactions@[0].from@ == rep.treasury@
                &&& b[1].transactions@[0].to@ == rep.alice@
                &&& b[1].transactions@[0].amount@ == 1_000 * COIN
                &&& b[1].transactions@[0].fee@ == 10_000
                &&& b[1].transactions@[0].nonce == 0
                &&& b[2].transactions@.len() == 1
                &&& b[2].transactions@[0].from@ == rep.alice@
                &&& b[2].transactions@[0].to@ == rep.bob@
                &&& b[2].transactions@[0].amount@ == 125 * COIN
                &&& b[2].transactions@[0].fee@ == 2_500
            },
            Err(e) => e is FirstBlock || e is SecondBlock,
        },
        seeded_address("abyss:genesis:treasury"@) != seeded_address("abyss:dev:alice"@)
            && seeded_address("abyss:dev:alice"@) != seeded_address("abyss:dev:bob"@) ==> r is Ok,
        seeded_address("abyss:genesis:treasury"@) != seeded_address("abyss:dev:alice"@)
            && seeded_address("abyss:dev:alice"@) != seeded_address("abyss:dev:bob"@)
            && seeded_address("abyss:genesis:treasury"@) != seeded_address("abyss:dev:bob"@) ==> (r matches Ok(
            rep,
        ) && amount_of(rep.chain.state_view().0, rep.treasury@) == crate::coin::MAX_SUPPLY - 1_000 * COIN
            - 10_000 && amount_of(rep.chain.state_view().0, rep.alice@) == 1_000 * COIN - 125 * COIN - 2_500
            && amount_of(rep.chain.state_view().0, rep.bob@) == 125 * COIN),
{
    let treasury_account = WalletAccount::from_dev_seed("treasury", "abyss:genesis:treasury".as_bytes());
    let alice_account = WalletAccount::from_dev_seed("alice", "abyss:dev:alice".as_bytes());
    let bob_account = WalletAccount::from_dev_seed("bob", "abyss:dev:bob".as_bytes());
    let treasury = treasury_account.address();
    let alice = alice_account.address();
    let bob = bob_account.address();

    let genesis = GenesisConfig::single_treasury(treasury.clone());
    let ghost allocs = genesis.allocations@;
    proof {
        reveal_with_fuel(crate::chain::credit_all, 2);
        reveal_with_fuel(crate::genesis::alloc_total, 2);
        assert(allocs.drop_first().len() == 0);
        assert(allocs.drop_last().len() == 0);
    }
    let mut chain = match Chain::from_genesis(ChainConfig::default(), genesis, genesis_ms) {
        Ok(c) => c,
        Err(e) => return Err(DevnetError::Genesis(e)),
    };
    let ghost s0 = chain.state_view();
    assert(s0.1 == crate::state::Entries::empty());
    proof {
        lemma_lookup_insert(crate::state::Entries::empty(), treasury@, crate::coin::MAX_SUPPLY as u64, treasury@);
        lemma_lookup_insert(crate::state::Entries::empty(), treasury@, crate::coin::MAX_SUPPLY as u64, alice@);
        lemma_lookup_insert(crate::state::Entries::empty(), treasury@, crate::coin::MAX_SUPPLY as u64, bob@);
    }

    let tx1 = Transaction::new(
        treasury.clone(),
        alice.clone(),
        Coin::from_ac(1_000).unwrap(),
        Coin::from_micro_ac(10_000).unwrap(),
        chain.next_nonce(&treasury),
    );
    assert(tx1.nonce == 0);
    let ghost t1 = tx1;
    let mut mempool = Mempool::new();
    match mempool.insert(tx1) {
        Ok(_) => {},
        Err(e) => return Err(DevnetError::Mempool(e)),
    }
    assert(mempool@ =~= seq![(crate::transaction::tx_id_spec(t1), t1)]);
    let first = mempool.drain_for_block(128);
    proof {
        let tx1 = t1;
        assert(first@ =~= seq![tx1]);
        reveal_with_fuel(txs_nonce_safe, 2);
        assert(seq![tx1].drop_first().len() == 0);
    }
    proof {
        let tx1 = t1;
        if treasury@ != alice@ {
            let left = (crate::coin::MAX_SUPPLY - (1_000 * COIN + 10_000)) as u64;
            assert(amount_of(s0.0, treasury@) == crate::coin::MAX_SUPPLY);
            assert(amount_of(s0.0, alice@) == 0);
            assert(tx1.from@ == treasury@ && tx1.to@ == alice@);
            assert(tx1.amount@ == 1_000 * COIN && tx1.fee@ == 10_000);
            lemma_lookup_insert(s0.0, treasury@, left, alice@);
            assert(amount_of(crate::chain::debited(s0, tx1), alice@) == 0);
            assert(tx_step(s0, tx1) is Ok);
            reveal_with_fuel(apply_txs, 2);
            assert(apply_txs(s0, seq![tx1]) is Ok);
        }
    }
    match chain.produce_block(DEVNET_PROPOSER, first_ms, first) {
        Ok(_) => {},
        Err(e) => return Err(DevnetError::FirstBlock(e)),
    }
    let ghost s1 = chain.state_view();
    proof {
        let tx1 = t1;
        reveal_with_fuel(apply_txs, 2);
        assert(seq![tx1].drop_first().len() == 0);
        assert(s1 == tx_step(s0, tx1)->Ok_0);
        lemma_lookup_insert(s0.1, treasury@, 1u64, alice@);
    }

    let mut alice_agent = alice_account.clone();
    alice_agent.agent_policy_mut().grant(AgentPermission::ExecuteLimitedTrades);
    alice_agent.agent_policy_mut().set_agent_trade_limit(Coin::from_ac(250).unwrap());
    assert(alice_agent.policy_spec().perms().contains(AgentPermission::ExecuteLimitedTrades)) by {
        let p = alice_agent.policy_spec().perms();
        if !alice_account.policy_spec().perms().contains(AgentPermission::ExecuteLimitedTrades) {
            assert(p[p.len() - 1] == AgentPermission::ExecuteLimitedTrades);
        }
    }
    let tx2 = match alice_agent.create_agent_payment(
        bob.clone(),
        Coin::from_ac(125).unwrap(),
        Coin::from_micro_ac(2_500).unwrap(),
        chain.next_nonce(&alice),
    ) {
        Ok(t) => t,
        Err(e) => return Err(DevnetError::Policy(e)),
    };
    let ghost t2 = tx2;
    assert(mempool@.len() == 0);
    match mempool.insert(tx2) {
        Ok(_) => {},
        Err(e) => return Err(DevnetError::Mempool(e)),
    }
    assert(mempool@ =~= seq![(crate::transaction::tx_id_spec(t2), t2)]);
    let second = mempool.drain_for_block(128);
    proof {
        let tx2 = t2;
        assert(second@ =~= seq![tx2]);
        reveal_with_fuel(txs_nonce_safe, 2);
        assert(seq![tx2].drop_first().len() == 0);
    }
    proof {
        let (tx1, tx2) = (t1, t2);
        if treasury@ != alice@ && alice@ != bob@ {
            let left = (crate::coin::MAX_SUPPLY - (1_000 * COIN + 10_000)) as u64;
            let d = crate::chain::debited(s0, tx1);
            lemma_lookup_insert(s0.0, treasury@, left, alice@);
            lemma_lookup_insert(s0.0, treasury@, left, bob@);
            lemma_lookup_insert(d, alice@, (1_000 * COIN) as u64, alice@);
            lemma_lookup_insert(d, alice@, (1_000 * COIN) as u64, bob@);
            assert(s1.0 == crate::keymap::sorted_insert(d, alice@, (1_000 * COIN) as u64));
            assert(amount_of(s1.0, alice@) == 1_000 * COIN);
            assert(amount_of(s1.0, bob@) <= crate::coin::MAX_SUPPLY - 1_000 * COIN);
            assert(tx2.from@ == alice@ && tx2.to@ == bob@);
            assert(tx2.amount@ == 125 * COIN && tx2.fee@ == 2_500);
            let d2 = crate::chain::debited(s1, tx2);
            let left2 = (1_000 * COIN - (125 * COIN + 2_500)) as u64;
            lemma_lookup_insert(s1.0, alice@, left2, bob@);
            assert(amount_of(d2, bob@) == amount_of(s1.0, bob@));
            assert(tx_step(s1, tx2) is Ok);
            reveal_with_fuel(apply_txs, 2);
            assert(apply_txs(s1, seq![tx2]) is Ok);
        }
    }
    match chain.produce_block(DEVNET_PROPOSER, second_ms, second) {
        Ok(_) => {},
        Err(e) => return Err(DevnetError::SecondBlock(e)),
    }
    proof {
        let (tx1, tx2) = (t1, t2);
        if treasury@ != alice@ && alice@ != bob@ && treasury@ != bob@ {
            let left = (crate::coin::MAX_SUPPLY - (1_000 * COIN + 10_000)) as u64;
            let d = crate::chain::debited(s0, tx1);
            lemma_lookup_insert(s0.0, treasury@, left, treasury@);
            lemma_lookup_insert(d, alice@, (1_000 * COIN) as u64, treasury@);
            let d2 = crate::chain::debited(s1, tx2);
            let left2 = (1_000 * COIN - (125 * COIN + 2_500)) as u64;
            lemma_lookup_insert(s1.0, alice@, left2, treasury@);
            lemma_lookup_insert(s1.0, alice@, left2, alice@);
            lemma_lookup_insert(s1.0, alice@, left2, bob@);
            let bob_after = (amount_of(d2, bob@) + 125 * COIN) as u64;
            lemma_lookup_insert(d2, bob@, bob_after, treasury@);
            lemma_lookup_insert(d2, bob@, bob_after, alice@);
            lemma_lookup_insert(d2, bob@, bob_after, bob@);
            reveal_with_fuel(apply_txs, 2);
            assert(seq![tx2].drop_first().len() == 0);
            assert(chain.state_view() == tx_step(s1, tx2)->Ok_0);
        }
    }
    Ok(DevnetReport { chain, treasury, alice, bob })
}

// ── tokenomics and vesting reports ──────────────────────────────────────

/// What the tokenomics report shows: the default plan, the team reserve,
/// the public sale, each allocation's amount and each round's raise cap,
/// the summed raise cap, the investor secondary window and the final DEX
/// sale.
#[derive(Debug)]
pub struct TokenomicsSummary {
    pub plan: TokenomicsPlan,
    pub team_reserve: Coin,
    pub public_sale: Coin,
    pub allocation_amounts: Vec<Coin>,
    pub raise_caps_usd_cents: Vec<u64>,
    pub total_sale_cap_usd_cents: Option<u64>,
    pub secondary_window: InvestorSecondaryWindow,
    pub dex_sale: DexFinalSale,
}

/// Computes the tokenomics report of the default plan, after validating it.
pub fn tokenomics_summary() -> (r: Result<TokenomicsSummary, TokenomicsError>)
    ensures
        r matches Ok(s) && {
            &&& s.team_reserve@ == 30_000_000 * COIN
            &&& s.public_sale@ == 25_000_000 * COIN
            &&& s.allocation_amounts@.len() == s.plan.allocations@.len() == 6
            &&& forall|i: int|
                0 <= i < 6 ==> (#[trigger] s.allocation_amounts@[i])@ == default_allocations()[i].2 * COIN
            &&& forall|i: int| 0 <= i < 6 ==> allocation_terms(#[trigger] s.plan.allocations@[i]) == default_allocations()[i]
            &&& s.raise_caps_usd_cents@.len() == s.plan.sale_rounds@.len() == 5
            &&& forall|i: int| 0 <= i < 5 ==> #[trigger] s.raise_caps_usd_cents@[i] == raise_cap(s.plan.sale_rounds@[i])
            &&& forall|i: int| 0 <= i < 5 ==> round_terms(#[trigger] s.plan.sale_rounds@[i]) == default_rounds()[i]
            &&& s.total_sale_cap_usd_cents == Some(9_300_000_000u64)
            &&& s.secondary_window.price_usd_cents == 300
            &&& s.secondary_window.stage1_slot_ac == 500_000
            &&& s.secondary_window.min_listing_bps == 5_000
            &&& s.dex_sale.price_usd_cents == 500
        },
{
    let plan = TokenomicsPlan::abyss_default();
    match plan.validate() {
        Ok(()) => {},
        Err(e) => return Err(e),
    }
    let team_reserve = plan.team_reserve_amount();
    assert(allocation_terms(plan.allocations@[5]) == default_allocations()[5]);
    let public_sale = plan.allocation_amount(PUBLIC_SALE_ALLOCATION).unwrap();
    let mut allocation_amounts: Vec<Coin> = Vec::new();
    let mut i: usize = 0;
    while i < plan.allocations.len()
        invariant
            i <= plan.allocations@.len() == 6,
            allocation_amounts@.len() == i,
            forall|j: int| 0 <= j < 6 ==> allocation_terms(#[trigger] plan.allocations@[j]) == default_allocations()[j],
            forall|j: int| 0 <= j < plan.allocations@.len() ==> (#[trigger] plan.allocations@[j]).exact_ac() <= MAX_SUPPLY_AC,
            forall|j: int| 0 <= j < i ==> (#[trigger] allocation_amounts@[j])@ == default_allocations()[j].2 * COIN,
        decreases plan.allocations@.len() - i,
    {
        assert(allocation_terms(plan.allocations@[i as int]) == default_allocations()[i as int]);
        allocation_amounts.push(plan.allocations[i].amount());
        i = i + 1;
    }
    let mut raise_caps_usd_cents: Vec<u64> = Vec::new();
    let mut k: usize = 0;
    while k < plan.sale_rounds.len()
        invariant
            k <= plan.sale_rounds@.len() == 5,
            raise_caps_usd_cents@.len() == k,
            forall|j: int| 0 <= j < plan.sale_rounds@.len() ==> raise_cap(#[trigger] plan.sale_rounds@[j]) <= u64::MAX,
            forall|j: int| 0 <= j < k ==> #[trigger] raise_caps_usd_cents@[j] == raise_cap(plan.sale_rounds@[j]),
        decreases plan.sale_rounds@.len() - k,
    {
        raise_caps_usd_cents.push(plan.sale_rounds[k].raise_cap_usd_cents());
        k = k + 1;
    }
    let total_sale_cap_usd_cents = plan.total_sale_cap_usd_cents();
    Ok(
        TokenomicsSummary {
            plan,
            team_reserve,
            public_sale,
            allocation_amounts,
            raise_caps_usd_cents,
            total_sale_cap_usd_cents,
            secondary_window: InvestorSecondaryWindow::abyss_default(),
            dex_sale: DexFinalSale::abyss_default(),
        },
    )
}

/// One year of the team vesting report.
#[derive(Debug, Clone, Copy)]
pub struct VestingYear {
    pub year: u16,
    pub unlocked_this_year: Coin,
    pub cumulative_unlocked: Coin,
}

/// The default team vesting, and what it unlocks in each of years 1 to 5:
/// during the year, and in all by the year's end (month 12 × year).
pub fn vesting_report() -> (r: (TeamVesting, Vec<VestingYear>))
    ensures
        r.0.tranche_a_total@ == 10_000_000 * COIN && r.0.tranche_a_months == 12,
        r.0.tranche_b_total@ == 20_000_000 * COIN && r.0.tranche_b_months == 48,
        r.0.tranche_b_annual_cap@ == 5_000_000 * COIN,
        r.1@.len() == 5,
        forall|i: int|
            0 <= i < 5 ==> {
                let y = #[trigger] r.1@[i];
                &&& y.year == i + 1
                &&& y.unlocked_this_year@ == team_unlocked(r.0, year_end(y.year)) - team_unlocked(
                    r.0,
                    year_start(y.year),
                )
                &&& y.cumulative_unlocked@ == team_unlocked(r.0, (y.year * 12) as u16)
            },
        r.1@[0].unlocked_this_year@ == 15_000_000 * COIN && r.1@[0].cumulative_unlocked@ == 15_000_000 * COIN,
        r.1@[1].unlocked_this_year@ == 5_000_000 * COIN && r.1@[1].cumulative_unlocked@ == 20_000_000 * COIN,
        r.1@[2].unlocked_this_year@ == 5_000_000 * COIN && r.1@[2].cumulative_unlocked@ == 25_000_000 * COIN,
        r.1@[3].unlocked_this_year@ == 5_000_000 * COIN && r.1@[3].cumulative_unlocked@ == 30_000_000 * COIN,
        r.1@[4].unlocked_this_year@ == 0 && r.1@[4].cumulative_unlocked@ == 30_000_000 * COIN,
{
    let vesting = TeamVesting::abyss_default();
    let mut years: Vec<VestingYear> = Vec::new();
    let mut year: u16 = 1;
    while year <= 5
        invariant
            1 <= year <= 6,
            years@.len() == year - 1,
            crate::tokenomics::team_vesting_fits(vesting),
            forall|i: int|
                0 <= i < year - 1 ==> {
                    let y = #[trigger] years@[i];
                    &&& y.year == i + 1
                    &&& y.unlocked_this_year@ == team_unlocked(vesting, year_end(y.year))
                        - team_unlocked(vesting, year_start(y.year))
                    &&& y.cumulative_unlocked@ == team_unlocked(vesting, (y.year * 12) as u16)
                },
        decreases 6 - year,
    {
        let entry = VestingYear {
            year,
            unlocked_this_year: vesting.unlocked_in_year(year),
            cumulative_unlocked: vesting.total_unlocked(year * 12),
        };
        years.push(entry);
        year = year + 1;
    }
    proof {
        let v = vesting;
        let a = crate::tokenomics::linear_over(12);
        let b = crate::tokenomics::linear_over(48);
        let ta = (10_000_000 * COIN) as u64;
        let tb = (20_000_000 * COIN) as u64;
        assert(crate::tokenomics::vested(b, tb, 12) == 5_000_000 * COIN);
        assert(crate::tokenomics::vested(b, tb, 24) == 10_000_000 * COIN);
        assert(crate::tokenomics::vested(b, tb, 36) == 15_000_000 * COIN);
        assert(crate::tokenomics::vested(b, tb, 48) == 20_000_000 * COIN);
        assert(crate::tokenomics::vested(b, tb, 60) == 20_000_000 * COIN);
        assert(crate::tokenomics::vested(a, ta, 0) == 0);
        assert(crate::tokenomics::vested(b, tb, 0) == 0);
        assert(team_unlocked(v, 0) == 0);
        assert(team_unlocked(v, 12) == 15_000_000 * COIN);
        assert(team_unlocked(v, 24) == 20_000_000 * COIN);
        assert(team_unlocked(v, 36) == 25_000_000 * COIN);
        assert(team_unlocked(v, 48) == 30_000_000 * COIN);
        assert(team_unlocked(v, 60) == 30_000_000 * COIN);
        assert(year_end(5) == 60 && year_start(5) == 48);
        assert(year_end(4) == 48 && year_start(4) == 36);
        assert(year_end(3) == 36 && year_start(3) == 24);
        assert(year_end(2) == 24 && year_start(2) == 12);
        assert(year_end(1) == 12 && year_start(1) == 0);
        assert(years@[0].year == 1 && years@[1].year == 2 && years@[2].year == 3);
        assert(years@[3].year == 4 && years@[4].year == 5);
    }
    (vesting, years)
}

// ── secondary-window and DEX quotes, and a single post ──────────────────

/// A quote of the investor secondary window: the tokens offered and what
/// the seller receives for them, in cents.
#[derive(Debug)]
pub struct SecondaryQuote {
    pub window: InvestorSecondaryWindow,
    pub tokens: Coin,
    pub payout_usd_cents: u64,
}

/// Quotes a listing of `tokens_ac` whole AC in the investor secondary
/// window at its fixed price.
pub fn secondary_quote(tokens_ac: u64) -> (r: Result<SecondaryQuote, QuoteError>)
    ensures
        tokens_ac > MAX_SUPPLY_AC ==> (r matches Err(QuoteError::InvalidTokenAmount(t)) && t == tokens_ac),
        tokens_ac <= MAX_SUPPLY_AC ==> (r matches Ok(q) && q.tokens@ == tokens_ac * COIN && q.payout_usd_cents
            == tokens_ac * 300 && q.window.price_usd_cents == 300),
{
    let window = InvestorSecondaryWindow::abyss_default();
    let tokens = match Coin::from_ac(tokens_ac) {
        Some(t) => t,
        None => return Err(QuoteError::InvalidTokenAmount(tokens_ac)),
    };
    assert((tokens_ac * COIN) / (COIN as int) == tokens_ac) by (nonlinear_arith);
    let payout_usd_cents = match window.seller_payout_usd_cents(tokens) {
        Some(p) => p,
        None => return Err(QuoteError::PayoutOverflow),
    };
    Ok(SecondaryQuote { window, tokens, payout_usd_cents })
}

/// A quote of the final DEX sale: the tokens a contribution buys at the
/// sale's price.
#[derive(Debug)]
pub struct DexQuote {
    pub sale: DexFinalSale,
    pub tokens: Coin,
}

/// Quotes a contribution of `amount_usd_cents` to the final DEX sale.
pub fn dex_quote(amount_usd_cents: u64) -> (r: Result<DexQuote, QuoteError>)
    ensures
        match crate::tokenomics::purchase_spec(amount_usd_cents, 500) {
            Ok(m) => r matches Ok(q) && q.tokens@ == m && q.sale.price_usd_cents == 500,
            Err(e) => r matches Err(QuoteError::Rejected(f)) && f == e,
        },
{
    let sale = DexFinalSale::abyss_default();
    match sale.tokens_for_usd_cents(amount_usd_cents) {
        Ok(tokens) => Ok(DexQuote { sale, tokens }),
        Err(e) => Err(QuoteError::Rejected(e)),
    }
}

/// Publishes the post a request describes into a fresh devnet feed at
/// `now_ms`: shielded when the request asks for it, attributed otherwise.
pub fn publish_request(request: &SocialPostRequest, now_ms: u64) -> (r: Result<(DevFeed, PostId), SocialError>)
    ensures
        match body_check(request.body@) {
            Err(e) => r == Err::<(DevFeed, PostId), SocialError>(e),
            Ok(()) => r matches Ok((feed, id)) && id == PostId(0) && feed@.len() == 1 && feed@[0].id == PostId(0)
                && feed@[0].in_reply_to is None && !feed@[0].authored_by_agent && feed@[0].author@
                == request.author@ && feed@[0].body@ == request.body@ && feed@[0].visibility == (if request.shielded {
                Visibility::Shielded
            } else {
                Visibility::Attributed
            }) && feed@[0].created_at_ms == now_ms,
        },
{
    let visibility = if request.shielded {
        Visibility::Shielded
    } else {
        Visibility::Attributed
    };
    let mut feed = DevFeed::new();
    match feed.publish(request.author.as_str(), request.body.as_str(), visibility, now_ms) {
        Ok(id) => Ok((feed, id)),
        Err(e) => Err(e),
    }
}

} // verus!

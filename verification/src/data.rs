//! Records the node keeps on disk: where its files live and what an
//! account record holds. Reading and writing the files is left to the
//! caller.

use vstd::prelude::*;
use vstd::string::*;
use crate::chars::{str_chars, str_eq};
use crate::crypto::{dev_address_spec, dev_public_spec, dev_secret_spec};
use crate::text::hex_chars;
use vstd::utf8::encode_utf8;
use crate::node::{arg_views, string_of};
use crate::wallet::{AgentPermission, WalletAccount};

verus! {

// ── Paths ───────────────────────────────────────────────────────────────

/// `base` joined with `name` as a Unix path: an absolute `name` replaces
/// `base`, an empty `base` gives `name`, and one separator stands between
/// them.
pub open spec fn path_join(base: Seq<char>, name: Seq<char>) -> Seq<char> {
    if name.len() > 0 && name[0] == '/' {
        name
    } else if base.len() == 0 {
        name
    } else if base.last() == '/' {
        base + name
    } else {
        base + "/"@ + name
    }
}

fn join_path(base: &str, name: &str) -> (r: String)
    ensures
        r@ == path_join(base@, name@),
{
    proof {
        reveal_strlit("/");
    }
    let n = name.unicode_len();
    if n > 0 && name.get_char(0) == '/' {
        return name.to_owned();
    }
    let b = base.unicode_len();
    if b == 0 {
        return name.to_owned();
    }
    let mut s = base.to_owned();
    if base.get_char(b - 1) != '/' {
        s.append("/");
    }
    s.append(name);
    s
}

/// The data directory named by a `--data-dir=` argument (the first one),
/// else ".abyss".
pub open spec fn data_dir_spec(a: Seq<Seq<char>>) -> Seq<char>
    decreases a.len(),
{
    if a.len() == 0 {
        ".abyss"@
    } else if a[0].len() >= 11 && a[0].take(11) == "--data-dir="@ {
        a[0].skip(11)
    } else {
        data_dir_spec(a.drop_first())
    }
}

/// The default data directory.
pub fn default_data_dir() -> (r: String)
    ensures
        r@ == ".abyss"@,
{
    ".abyss".to_owned()
}

/// The data directory named by the arguments.
pub fn parse_data_dir(args: &Vec<String>) -> (r: String)
    ensures
        r@ == data_dir_spec(arg_views(args@)),
{
    let ghost a = arg_views(args@);
    proof {
        reveal_strlit("--data-dir=");
    }
    let mut i: usize = 0;
    assert(a.skip(0) =~= a);
    while i < args.len()
        invariant
            a == arg_views(args@),
            i <= a.len(),
            data_dir_spec(a) == data_dir_spec(a.skip(i as int)),
            "--data-dir="@.len() == 11,
        decreases a.len() - i,
    {
        let c = str_chars(args[i].as_str());
        let ghost rest = a.skip(i as int);
        assert(rest[0] == a[i as int]);
        assert(a[i as int] == args@[i as int]@);
        assert(rest.drop_first() =~= a.skip(i + 1));
        if c.len() >= 11 {
            let head = string_of(&c, 0, 11);
            if str_eq(head.as_str(), "--data-dir=") {
                assert(c@.take(11) =~= c@.subrange(0, 11));
                let value = string_of(&c, 11, c.len());
                assert(c@.skip(11) =~= c@.subrange(11, c@.len() as int));
                return value;
            }
            assert(c@.take(11) =~= c@.subrange(0, 11));
        }
        i = i + 1;
    }
    assert(a.skip(i as int).len() == 0);
    default_data_dir()
}

/// The chain file inside a data directory.
pub fn chain_path(data_dir: &str) -> (r: String)
    ensures
        r@ == path_join(data_dir@, "chain.json"@),
{
    join_path(data_dir, "chain.json")
}

/// The directory of the account records inside a data directory.
pub fn accounts_dir(data_dir: &str) -> (r: String)
    ensures
        r@ == path_join(data_dir@, "accounts"@),
{
    join_path(data_dir, "accounts")
}

/// The record file of the account with the given label.
pub fn account_path(data_dir: &str, label: &str) -> (r: String)
    ensures
        r@ == path_join(path_join(data_dir@, "accounts"@), label@ + ".json"@),
{
    let dir = accounts_dir(data_dir);
    let mut file = label.to_owned();
    file.append(".json");
    join_path(dir.as_str(), file.as_str())
}

// ── Account records ─────────────────────────────────────────────────────

/// What the node stores of an account: its label, address and public key,
/// and, for development accounts, the seed its keys come from.
#[derive(Clone, Debug, PartialEq, Eq)]
pub struct StoredAccount {
    pub label: String,
    pub address: String,
    pub public_key: String,
    pub dev_seed: Option<String>,
}

/// The message of a record that cannot sign.
pub open spec fn no_seed_text(label: Seq<char>) -> Seq<char> {
    "account '"@ + label + "' has no dev_seed; only seed-backed dev accounts can sign"@
}

impl StoredAccount {
    /// The record of an account.
    pub fn from_account(account: &WalletAccount, dev_seed: Option<String>) -> (r: StoredAccount)
        ensures
            r.label@ == account.label_spec(),
            r.address@ == dev_address_spec(account.keypair_spec().public_spec()),
            r.public_key@ == hex_chars(account.keypair_spec().public_spec()),
            r.dev_seed == dev_seed,
    {
        StoredAccount {
            label: account.label().to_owned(),
            address: account.address().to_string(),
            public_key: account.public_key().to_string(),
            dev_seed,
        }
    }

    /// The account a record stands for: rebuilt from its seed, or refused
    /// when it has none.
    pub fn load_wallet(&self) -> (r: Result<WalletAccount, String>)
        ensures
            match self.dev_seed {
                Some(seed) => r matches Ok(w) && w.label_spec() == self.label@
                    && w.keypair_spec().secret_spec() == dev_secret_spec(encode_utf8(seed@))
                    && w.keypair_spec().public_spec() == dev_public_spec(dev_secret_spec(encode_utf8(seed@)))
                    && w.policy_spec().perms() == seq![
                    AgentPermission::ReadPortfolio,
                    AgentPermission::DraftTransactions,
                    AgentPermission::DetectScams,
                ] && w.policy_spec().limit() == 0,
                None => r matches Err(m) && m@ == no_seed_text(self.label@),
            },
    {
        match &self.dev_seed {
            Some(seed) => Ok(WalletAccount::from_dev_seed(self.label.as_str(), seed.as_str().as_bytes())),
            None => {
                let mut m = String::new();
                m.append("account '");
                m.append(self.label.as_str());
                m.append("' has no dev_seed; only seed-backed dev accounts can sign");
                Err(m)
            },
        }
    }
}

} // verus!

//! Wallet accounts and the permissions of the agent that may act for them.

use vstd::prelude::*;
use vstd::string::*;
use crate::address::Address;
use crate::coin::Coin;
use vstd::utf8::encode_utf8;
use crate::crypto::{dev_address_spec, dev_public_spec, dev_secret_spec, generation_seed, DevKeypair, PublicKey};
use crate::transaction::{memo_commitment_spec, Transaction};

verus! {

#[derive(Clone, Copy, Debug, PartialEq, Eq, Structural)]
pub enum AgentPermission {
    ReadPortfolio,
    DraftTransactions,
    ExecuteLimitedTrades,
    DetectScams,
    ModerateSocial,
    SummarizePrivateMessages,
    AnalyzeGovernance,
}

/// `s` without any `p`.
pub open spec fn without_permission(s: Seq<AgentPermission>, p: AgentPermission) -> Seq<AgentPermission>
    decreases s.len(),
{
    if s.len() == 0 {
        s
    } else if s.last() == p {
        without_permission(s.drop_last(), p)
    } else {
        without_permission(s.drop_last(), p).push(s.last())
    }
}

/// Whether an agent holding `perms` with trade limit `limit` may send
/// `amount`: only with `ExecuteLimitedTrades`, and only up to the limit.
pub open spec fn trade_allowed(perms: Seq<AgentPermission>, limit: u64, amount: u64) -> bool {
    perms.contains(AgentPermission::ExecuteLimitedTrades) && amount <= limit
}

/// What an agent may do for an account: a set of permissions (each held
/// once) and a limit on the amount of a trade.
#[derive(Debug, PartialEq, Eq)]
pub struct AgentPolicy {
    permissions: Vec<AgentPermission>,
    agent_trade_limit: Coin,
}

impl AgentPolicy {
    #[verifier::type_invariant]
    spec fn each_once(self) -> bool {
        self.permissions@.no_duplicates()
    }

    /// The permissions held, in the order they were granted.
    pub closed spec fn perms(&self) -> Seq<AgentPermission> {
        self.permissions@
    }

    /// The trade limit, in micro-AC.
    pub closed spec fn limit(&self) -> u64 {
        self.agent_trade_limit@
    }

    pub fn permissions(&self) -> (r: &[AgentPermission])
        ensures
            r@ == self.perms(),
            r@.no_duplicates(),
    {
        proof {
            use_type_invariant(self);
        }
        self.permissions.as_slice()
    }

    fn holds(&self, permission: AgentPermission) -> (r: bool)
        ensures
            r == self.perms().contains(permission),
    {
        let mut i: usize = 0;
        while i < self.permissions.len()
            invariant
                i <= self.permissions@.len(),
                forall|j: int| 0 <= j < i ==> self.permissions@[j] != permission,
            decreases self.permissions@.len() - i,
        {
            if self.permissions[i] == permission {
                assert(self.permissions@[i as int] == permission);
                return true;
            }
            i = i + 1;
        }
        false
    }

    /// Adds `permission` unless it is already held.
    pub fn grant(&mut self, permission: AgentPermission)
        ensures
            final(self).perms() == if old(self).perms().contains(permission) {
                old(self).perms()
            } else {
                old(self).perms().push(permission)
            },
            final(self).limit() == old(self).limit(),
    {
        proof {
            use_type_invariant(&*self);
        }
        if !self.holds(permission) {
            let ghost old_p = self.permissions@;
            let mut perms: Vec<AgentPermission> = Vec::new();
            std::mem::swap(&mut perms, &mut self.permissions);
            perms.push(permission);
            proof {
                let n = perms@;
                assert forall|a: int, b: int| 0 <= a < n.len() && 0 <= b < n.len() && a != b implies n[a]
                    != n[b] by {
                    if a < old_p.len() && b < old_p.len() {
                        assert(n[a] == old_p[a] && n[b] == old_p[b]);
                    } else if a < old_p.len() {
                        assert(n[a] == old_p[a]);
                        assert(old_p.contains(old_p[a]));
                    } else {
                        assert(n[b] == old_p[b]);
                        assert(old_p.contains(old_p[b]));
                    }
                }
            }
            self.permissions = perms;
        }
    }

    /// Removes `permission`.
    pub fn revoke(&mut self, permission: AgentPermission)
        ensures
            final(self).perms() == without_permission(old(self).perms(), permission),
            final(self).limit() == old(self).limit(),
            !final(self).perms().contains(permission),
            forall|q: AgentPermission|
                q != permission ==> (#[trigger] final(self).perms().contains(q) <==> old(
                    self,
                ).perms().contains(q)),
    {
        proof {
            use_type_invariant(&*self);
            lemma_revoke_removes_only_that_permission(self.permissions@, permission);
        }
        let ghost old_p = self.permissions@;
        let mut kept: Vec<AgentPermission> = Vec::new();
        let mut i: usize = 0;
        while i < self.permissions.len()
            invariant
                old_p == self.permissions@,
                old_p.no_duplicates(),
                i <= old_p.len(),
                kept@ == without_permission(old_p.take(i as int), permission),
                forall|x: AgentPermission| #[trigger] kept@.contains(x) ==> old_p.take(i as int).contains(x),
                kept@.no_duplicates(),
            decreases old_p.len() - i,
        {
            let p = self.permissions[i];
            let ghost before = kept@;
            assert(old_p.take(i + 1).drop_last() =~= old_p.take(i as int));
            assert(old_p.take(i + 1).last() == p);
            if p != permission {
                kept.push(p);
                proof {
                    assert(!old_p.take(i as int).contains(p)) by {
                        if old_p.take(i as int).contains(p) {
                            let j = choose|j: int| 0 <= j < i && old_p.take(i as int)[j] == p;
                            assert(old_p[j] == old_p[i as int]);
                        }
                    }
                    let n = kept@;
                    assert forall|a: int, b: int| 0 <= a < n.len() && 0 <= b < n.len() && a != b implies n[a]
                        != n[b] by {
                        if a < before.len() && b < before.len() {
                            assert(n[a] == before[a] && n[b] == before[b]);
                        } else if a < before.len() {
                            assert(n[a] == before[a]);
                            assert(before.contains(before[a]));
                        } else {
                            assert(n[b] == before[b]);
                            assert(before.contains(before[b]));
                        }
                    }
                }
            }
            proof {
                assert forall|x: AgentPermission| #[trigger] kept@.contains(x) implies old_p.take(i + 1).contains(
                    x,
                ) by {
                    let j = choose|j: int| 0 <= j < kept@.len() && kept@[j] == x;
                    if j < before.len() {
                        assert(before[j] == x);
                        assert(before.contains(x));
                        let k = choose|k: int| 0 <= k < i && old_p.take(i as int)[k] == x;
                        assert(old_p.take(i + 1)[k] == x);
                    } else {
                        assert(old_p.take(i + 1)[i as int] == x);
                    }
                }
            }
            i = i + 1;
        }
        assert(old_p.take(i as int) =~= old_p);
        self.permissions = kept;
    }

    pub fn set_agent_trade_limit(&mut self, limit: Coin)
        ensures
            final(self).perms() == old(self).perms(),
            final(self).limit() == limit@,
    {
        proof {
            use_type_invariant(&*self);
        }
        self.agent_trade_limit = limit;
    }

    /// Whether the agent may send `amount`.
    pub fn transaction_allowed(&self, amount: Coin) -> (r: bool)
        ensures
            r == trade_allowed(self.perms(), self.limit(), amount@),
    {
        self.holds(AgentPermission::ExecuteLimitedTrades) && amount.micro_ac() <= self.agent_trade_limit.micro_ac()
    }
}

/// Once `ExecuteLimitedTrades` is revoked, an agent may send no payment at
/// all, whatever the amount and the limit.
pub proof fn lemma_revoked_agent_sends_nothing(perms: Seq<AgentPermission>, limit: u64, amount: u64)
    ensures
        !trade_allowed(without_permission(perms, AgentPermission::ExecuteLimitedTrades), limit, amount),
{
    lemma_without_lacks(perms, AgentPermission::ExecuteLimitedTrades);
}

/// Revoking `p` removes `p` and nothing else: every other permission is
/// held afterwards exactly when it was held before, `p` is not held, and
/// the kept permissions stay in their order (the list with each `p`
/// filtered out).
pub proof fn lemma_revoke_removes_only_that_permission(s: Seq<AgentPermission>, p: AgentPermission)
    ensures
        !without_permission(s, p).contains(p),
        forall|q: AgentPermission|
            q != p ==> (#[trigger] without_permission(s, p).contains(q) <==> s.contains(q)),
        without_permission(s, p) == s.filter(|x: AgentPermission| x != p),
    decreases s.len(),
{
    lemma_without_lacks(s, p);
    if s.len() > 0 {
        let pre = s.drop_last();
        lemma_revoke_removes_only_that_permission(pre, p);
        let w = without_permission(pre, p);
        assert forall|q: AgentPermission| q != p implies (#[trigger] without_permission(s, p).contains(q)
            <==> s.contains(q)) by {
            if s.contains(q) {
                let j = choose|j: int| 0 <= j < s.len() && s[j] == q;
                if j < s.len() - 1 {
                    assert(pre[j] == q);
                    assert(pre.contains(q));
                    assert(without_permission(pre, p).contains(q));
                    let k = choose|k: int| 0 <= k < w.len() && w[k] == q;
                    assert(w[k] == q);
                    if s.last() != p {
                        assert(w.push(s.last())[k] == q);
                        assert(without_permission(s, p)[k] == q);
                    }
                } else {
                    assert(s.last() == q);
                    assert(w.push(s.last())[w.len() as int] == q);
                    assert(without_permission(s, p)[w.len() as int] == q);
                }
            }
            if without_permission(s, p).contains(q) {
                let k = choose|k: int| 0 <= k < without_permission(s, p).len() && without_permission(s, p)[k] == q;
                if s.last() != p && k == w.len() {
                    assert(s[s.len() - 1] == q);
                } else {
                    if s.last() != p {
                        assert(w.push(s.last())[k] == w[k]);
                    }
                    assert(w[k] == q);
                    assert(w.contains(q));
                    assert(without_permission(pre, p).contains(q));
                    let j = choose|j: int| 0 <= j < pre.len() && pre[j] == q;
                    assert(s[j] == q);
                }
            }
        }
        reveal(Seq::filter);
    } else {
        assert(s.filter(|x: AgentPermission| x != p) =~= s);
    }
}

proof fn lemma_without_lacks(s: Seq<AgentPermission>, p: AgentPermission)
    ensures
        !without_permission(s, p).contains(p),
    decreases s.len(),
{
    if s.len() > 0 {
        lemma_without_lacks(s.drop_last(), p);
        let w = without_permission(s.drop_last(), p);
        if s.last() != p {
            assert forall|i: int| 0 <= i < w.push(s.last()).len() implies w.push(s.last())[i] != p by {
                if i < w.len() {
                    assert(w.push(s.last())[i] == w[i]);
                }
            }
        }
    }
}

impl Default for AgentPolicy {
    /// Reading the portfolio, drafting transactions and detecting scams,
    /// with a zero trade limit.
    fn default() -> (r: AgentPolicy)
        ensures
            r.perms() == seq![
                AgentPermission::ReadPortfolio,
                AgentPermission::DraftTransactions,
                AgentPermission::DetectScams,
            ],
            r.limit() == 0,
    {
        let permissions = vec![
            AgentPermission::ReadPortfolio,
            AgentPermission::DraftTransactions,
            AgentPermission::DetectScams,
        ];
        assert(permissions@ =~= seq![
            AgentPermission::ReadPortfolio,
            AgentPermission::DraftTransactions,
            AgentPermission::DetectScams,
        ]);
        AgentPolicy { permissions, agent_trade_limit: Coin::zero() }
    }
}

impl Clone for AgentPolicy {
    fn clone(&self) -> (r: AgentPolicy)
        ensures
            r.perms() == self.perms(),
            r.limit() == self.limit(),
    {
        proof {
            use_type_invariant(self);
        }
        let mut permissions: Vec<AgentPermission> = Vec::new();
        let mut i: usize = 0;
        while i < self.permissions.len()
            invariant
                i <= self.permissions@.len(),
                permissions@ == self.permissions@.take(i as int),
            decreases self.permissions@.len() - i,
        {
            permissions.push(self.permissions[i]);
            assert(self.permissions@.take(i + 1) =~= self.permissions@.take(i as int).push(
                self.permissions@[i as int],
            ));
            i = i + 1;
        }
        assert(self.permissions@.take(i as int) =~= self.permissions@);
        AgentPolicy { permissions, agent_trade_limit: self.agent_trade_limit }
    }
}

#[derive(Clone, Debug, PartialEq, Eq, Structural)]
pub enum WalletError {
    PolicyRejected,
}

/// A labelled development account with its key pair and agent policy.
#[derive(Debug)]
pub struct WalletAccount {
    label: String,
    keypair: DevKeypair,
    agent_policy: AgentPolicy,
}

impl WalletAccount {
    pub closed spec fn label_spec(&self) -> Seq<char> {
        self.label@
    }

    pub closed spec fn keypair_spec(&self) -> DevKeypair {
        self.keypair
    }

    pub closed spec fn policy_spec(&self) -> AgentPolicy {
        self.agent_policy
    }

    /// An account whose key pair is derived from `seed`, with the default
    /// agent policy.
    pub fn from_dev_seed(label: &str, seed: &[u8]) -> (r: WalletAccount)
        ensures
            r.label_spec() == label@,
            r.keypair_spec().public_spec() == dev_public_spec(dev_secret_spec(seed@)),
            r.keypair_spec().secret_spec() == dev_secret_spec(seed@),
            r.policy_spec().perms() == seq![
                AgentPermission::ReadPortfolio,
                AgentPermission::DraftTransactions,
                AgentPermission::DetectScams,
            ],
            r.policy_spec().limit() == 0,
    {
        WalletAccount {
            label: label.to_owned(),
            keypair: DevKeypair::from_seed(seed),
            agent_policy: AgentPolicy::default(),
        }
    }

    /// An account with a fresh key pair derived from the label, a process
    /// identifier and a time in nanoseconds.
    pub fn generate(label: &str, pid: u32, now_nanos: u128) -> (r: WalletAccount)
        ensures
            r.label_spec() == label@,
            r.keypair_spec().secret_spec() == dev_secret_spec(
                encode_utf8(generation_seed(label@, pid, now_nanos)),
            ),
            r.keypair_spec().public_spec() == dev_public_spec(
                dev_secret_spec(encode_utf8(generation_seed(label@, pid, now_nanos))),
            ),
            r.policy_spec().perms() == seq![
                AgentPermission::ReadPortfolio,
                AgentPermission::DraftTransactions,
                AgentPermission::DetectScams,
            ],
            r.policy_spec().limit() == 0,
    {
        WalletAccount {
            label: label.to_owned(),
            keypair: DevKeypair::generate(label, pid, now_nanos),
            agent_policy: AgentPolicy::default(),
        }
    }

    pub fn label(&self) -> (r: &str)
        ensures
            r@ == self.label_spec(),
    {
        self.label.as_str()
    }

    pub fn address(&self) -> (r: Address)
        ensures
            r@ == dev_address_spec(self.keypair_spec().public_spec()),
    {
        self.keypair.dev_address()
    }

    pub fn public_key(&self) -> (r: &PublicKey)
        ensures
            r.bytes_spec() == self.keypair_spec().public_spec(),
    {
        self.keypair.public()
    }

    pub fn agent_policy(&self) -> (r: &AgentPolicy)
        ensures
            *r == self.policy_spec(),
    {
        &self.agent_policy
    }

    pub fn agent_policy_mut(&mut self) -> (r: &mut AgentPolicy)
        ensures
            *r == old(self).policy_spec(),
            final(self).policy_spec() == *final(r),
            final(self).label_spec() == old(self).label_spec(),
            final(self).keypair_spec() == old(self).keypair_spec(),
    {
        &mut self.agent_policy
    }

    /// A transfer from this account.
    pub fn create_payment(&self, to: Address, amount: Coin, fee: Coin, nonce: u64) -> (r: Transaction)
        ensures
            r.from@ == dev_address_spec(self.keypair_spec().public_spec()),
            r.to == to,
            r.amount == amount,
            r.fee == fee,
            r.nonce == nonce,
            r.memo_commitment@ == memo_commitment_spec(nonce),
    {
        Transaction::new(self.address(), to, amount, fee, nonce)
    }

    /// A transfer made by the account's agent: refused unless the policy
    /// allows the amount.
    pub fn create_agent_payment(&self, to: Address, amount: Coin, fee: Coin, nonce: u64) -> (r: Result<
        Transaction,
        WalletError,
    >)
        ensures
            !trade_allowed(self.policy_spec().perms(), self.policy_spec().limit(), amount@) ==> r == Err::<
                Transaction,
                WalletError,
            >(WalletError::PolicyRejected),
            trade_allowed(self.policy_spec().perms(), self.policy_spec().limit(), amount@) ==> (r matches Ok(
                t,
            ) && t.from@ == dev_address_spec(self.keypair_spec().public_spec()) && t.to == to && t.amount
                == amount && t.fee == fee && t.nonce == nonce && t.memo_commitment@ == memo_commitment_spec(
                nonce,
            )),
    {
        if !self.agent_policy.transaction_allowed(amount) {
            return Err(WalletError::PolicyRejected);
        }
        Ok(Transaction::new(self.address(), to, amount, fee, nonce))
    }
}

impl Clone for WalletAccount {
    fn clone(&self) -> (r: WalletAccount)
        ensures
            r.label_spec() == self.label_spec(),
            r.keypair_spec() == self.keypair_spec(),
            r.policy_spec().perms() == self.policy_spec().perms(),
            r.policy_spec().limit() == self.policy_spec().limit(),
    {
        WalletAccount {
            label: self.label.clone(),
            keypair: self.keypair.clone(),
            agent_policy: self.agent_policy.clone(),
        }
    }
}

} // verus!

//! Validator identities, the validator set, leader rotation and quorum
//! certification.

use vstd::prelude::*;
use vstd::utf8::encode_utf8;
use crate::consensus::error::ConsensusError;
use crate::consensus::vote::{QuorumCertificate, Vote, VoteSet, VoteType};
use crate::hashing::{hash_eq, ZERO_HASH};
use crate::keymap::{
    compare_bytes, key_lt, lemma_encode_injective, lemma_insert_new_key, lemma_key_order,
    lemma_lookup_absent, lemma_lookup_at, lemma_lookup_insert, lookup, sorted_insert, sorted_keys,
};

use crate::consensus::safety::lemma_certificate_matches_every_vote;

verus! {

/// The identity of a validator: a non-empty name.
#[derive(Debug, PartialOrd, Ord, Hash)]
pub struct ValidatorId(String);

impl View for ValidatorId {
    type V = Seq<char>;

    closed spec fn view(&self) -> Seq<char> {
        self.0@
    }
}

impl ValidatorId {
    pub fn new(value: &str) -> (r: Result<ValidatorId, ConsensusError>)
        ensures
            r is Err <==> value@.len() == 0,
            r matches Ok(id) ==> id@ == value@,
            r matches Err(e) ==> e == ConsensusError::InvalidValidatorId,
    {
        if value.unicode_len() == 0 {
            return Err(ConsensusError::InvalidValidatorId);
        }
        Ok(ValidatorId(value.to_owned()))
    }

    pub fn as_str(&self) -> (r: &str)
        ensures
            r@ == self@,
    {
        self.0.as_str()
    }

    /// The identifier as an owned string.
    pub fn to_string(&self) -> (r: String)
        ensures
            r@ == self@,
    {
        self.0.clone()
    }
}

impl Clone for ValidatorId {
    fn clone(&self) -> (r: ValidatorId)
        ensures
            r == *self,
    {
        ValidatorId(self.0.clone())
    }
}

impl PartialEq for ValidatorId {
    fn eq(&self, other: &ValidatorId) -> (r: bool) {
        self.0 == other.0
    }
}

impl vstd::std_specs::cmp::PartialEqSpecImpl for ValidatorId {
    open spec fn obeys_eq_spec() -> bool {
        true
    }

    open spec fn eq_spec(&self, other: &ValidatorId) -> bool {
        self@ == other@
    }
}

impl Eq for ValidatorId {
}

/// Three-way comparison of identifiers in key order.
pub fn compare_ids(a: &ValidatorId, b: &ValidatorId) -> (r: i8)
    ensures
        r == -1 <==> key_lt(a@, b@),
        r == 0 <==> a@ == b@,
        r == 1 <==> key_lt(b@, a@),
        -1 <= r <= 1,
{
    let r = compare_bytes(a.as_str().as_bytes(), b.as_str().as_bytes());
    proof {
        if encode_utf8(a@) == encode_utf8(b@) {
            lemma_encode_injective(a@, b@);
        }
    }
    r
}

#[derive(Debug, PartialEq, Eq)]
pub struct Validator {
    pub id: ValidatorId,
    pub voting_power: u64,
}

impl Clone for Validator {
    fn clone(&self) -> (r: Validator)
        ensures
            r == *self,
    {
        Validator { id: self.id.clone(), voting_power: self.voting_power }
    }
}

/// Validators as (identifier, voting power) pairs.
pub type PowerEntries = Seq<(Seq<char>, u64)>;

/// The entries given by a list of validators, in the given order.
pub open spec fn validator_views(v: Seq<Validator>) -> PowerEntries {
    v.map_values(|x: Validator| (x.id@, x.voting_power))
}

/// The entries of a list of identified values.
pub open spec fn id_entries<T>(s: Seq<(ValidatorId, T)>) -> Seq<(Seq<char>, T)> {
    s.map_values(|x: (ValidatorId, T)| (x.0@, x.1))
}

/// Sum of the voting powers.
pub open spec fn power_sum(e: PowerEntries) -> nat
    decreases e.len(),
{
    if e.len() == 0 {
        0
    } else {
        e[0].1 as nat + power_sum(e.drop_first())
    }
}

/// Some entry has key `k`.
pub open spec fn has_key(e: PowerEntries, k: Seq<char>) -> bool {
    exists|j: int| 0 <= j < e.len() && (#[trigger] e[j]).0 == k
}

/// The first problem met when reading the validators in order: a zero
/// power, then an identifier seen before, then a total that leaves `u64`.
pub open spec fn validators_error(v: PowerEntries) -> Option<ConsensusError>
    decreases v.len(),
{
    if v.len() == 0 {
        None
    } else {
        let pre = v.drop_last();
        let x = v.last();
        if validators_error(pre) is Some {
            validators_error(pre)
        } else if x.1 == 0 {
            Some(ConsensusError::ZeroVotingPower)
        } else if has_key(pre, x.0) {
            Some(ConsensusError::DuplicateValidator)
        } else if power_sum(pre) + x.1 > u64::MAX {
            Some(ConsensusError::VotingPowerOverflow)
        } else {
            None
        }
    }
}

/// The validators in increasing identifier order.
pub open spec fn insert_all(v: PowerEntries) -> PowerEntries
    decreases v.len(),
{
    if v.len() == 0 {
        Seq::empty()
    } else {
        sorted_insert(insert_all(v.drop_last()), v.last().0, v.last().1)
    }
}

/// A validator set: non-empty, identifiers strictly increasing, every power
/// positive, and `total` the sum of the powers.
pub open spec fn set_valid(e: PowerEntries, total: u64) -> bool {
    &&& e.len() > 0
    &&& sorted_keys(e)
    &&& forall|i: int| 0 <= i < e.len() ==> (#[trigger] e[i]).1 > 0
    &&& total == power_sum(e)
}

/// The voting power of `k` (zero for an unknown identifier).
pub open spec fn power_of(e: PowerEntries, k: Seq<char>) -> nat {
    match lookup(e, k) {
        Some(p) => p as nat,
        None => 0,
    }
}

/// The quorum threshold for a total power: more than two thirds.
pub open spec fn quorum_for(total: u64) -> u64 {
    ((total / 3) * 2 + ((total % 3) * 2) / 3 + 1) as u64
}

/// The identifiers of the voters, in order.
pub open spec fn voters(votes: Seq<Vote>) -> Seq<Seq<char>> {
    votes.map_values(|v: Vote| v.validator@)
}

/// Summed voting power of a list of identifiers.
pub open spec fn ids_power(e: PowerEntries, ids: Seq<Seq<char>>) -> nat
    decreases ids.len(),
{
    if ids.len() == 0 {
        0
    } else {
        ids_power(e, ids.drop_last()) + power_of(e, ids.last())
    }
}

/// Two votes are for the same block, height and phase.
pub open spec fn same_target(a: Vote, b: Vote) -> bool {
    a.block_hash@ == b.block_hash@ && a.height == b.height && a.vote_type == b.vote_type
}

/// The first problem met when reading the votes in order: a validator
/// voting twice, then an unknown validator, then a vote that differs from
/// the first in block, height or phase, then a sum that leaves `u64`.
pub open spec fn certify_error(e: PowerEntries, votes: Seq<Vote>) -> Option<ConsensusError>
    decreases votes.len(),
{
    if votes.len() == 0 {
        None
    } else {
        let pre = votes.drop_last();
        let v = votes.last();
        if certify_error(e, pre) is Some {
            certify_error(e, pre)
        } else if voters(pre).contains(v.validator@) {
            Some(ConsensusError::DuplicateVote)
        } else if lookup(e, v.validator@) is None {
            Some(ConsensusError::UnknownValidator)
        } else if !same_target(votes[0], v) {
            Some(ConsensusError::ConflictingVotes)
        } else if ids_power(e, voters(pre)) + power_of(e, v.validator@) > u64::MAX {
            Some(ConsensusError::VotingPowerOverflow)
        } else {
            None
        }
    }
}

/// What certifying `votes` against the validators `e` of total power
/// `total` gives.
pub open spec fn certify_spec(e: PowerEntries, total: u64, votes: Seq<Vote>) -> Result<
    QuorumCertificate,
    ConsensusError,
> {
    match certify_error(e, votes) {
        Some(err) => Err(err),
        None => {
            let signed = ids_power(e, voters(votes)) as u64;
            if signed < quorum_for(total) {
                Err(
                    ConsensusError::InsufficientQuorum {
                        signed_power: signed,
                        required_power: quorum_for(total),
                    },
                )
            } else {
                Ok(
                    QuorumCertificate {
                        height: if votes.len() > 0 {
                            votes[0].height
                        } else {
                            0
                        },
                        block_hash: if votes.len() > 0 {
                            votes[0].block_hash
                        } else {
                            ZERO_HASH
                        },
                        vote_type: if votes.len() > 0 {
                            votes[0].vote_type
                        } else {
                            VoteType::PreCommit
                        },
                        signed_power: signed,
                    },
                )
            }
        },
    }
}

proof fn lemma_power_sum_push(e: PowerEntries, x: (Seq<char>, u64))
    ensures
        power_sum(e.push(x)) == power_sum(e) + x.1,
    decreases e.len(),
{
    if e.len() == 0 {
        assert(e.push(x).drop_first() =~= Seq::<(Seq<char>, u64)>::empty());
        assert(power_sum(e.push(x).drop_first()) == 0);
        assert(e.push(x)[0] == x);
    } else {
        lemma_power_sum_push(e.drop_first(), x);
        assert(e.push(x).drop_first() =~= e.drop_first().push(x));
        assert(e.push(x)[0] == e[0]);
    }
}

proof fn lemma_power_sum_insert(e: PowerEntries, k: Seq<char>, p: u64)
    requires
        lookup(e, k) is None,
    ensures
        power_sum(sorted_insert(e, k, p)) == power_sum(e) + p,
    decreases e.len(),
{
    let s = sorted_insert(e, k, p);
    if e.len() == 0 {
        assert(s.drop_first() =~= Seq::<(Seq<char>, u64)>::empty());
        assert(power_sum(s.drop_first()) == 0);
    } else if key_lt(k, e[0].0) {
        assert(e[0].0 != k);
        assert(s.drop_first() =~= e);
        assert(s[0] == (k, p));
    } else {
        assert(e[0].0 != k);
        lemma_power_sum_insert(e.drop_first(), k, p);
        assert(s.drop_first() =~= sorted_insert(e.drop_first(), k, p));
        assert(s[0] == e[0]);
    }
}

proof fn lemma_insert_all_lookup(v: PowerEntries, k: Seq<char>)
    ensures
        lookup(insert_all(v), k) is Some <==> has_key(v, k),
    decreases v.len(),
{
    if v.len() > 0 {
        let pre = v.drop_last();
        lemma_insert_all_lookup(pre, k);
        lemma_lookup_insert(insert_all(pre), v.last().0, v.last().1, k);
        if has_key(v, k) && k != v.last().0 {
            let j = choose|j: int| 0 <= j < v.len() && (#[trigger] v[j]).0 == k;
            assert(pre[j] == v[j]);
        }
        if has_key(pre, k) {
            let j = choose|j: int| 0 <= j < pre.len() && (#[trigger] pre[j]).0 == k;
            assert(v[j] == pre[j]);
        }
        if k == v.last().0 {
            assert(v[v.len() - 1] == v.last());
        }
    }
}

/// An error in a prefix is the error of the whole list.
proof fn lemma_validators_error_prefix(v: PowerEntries, n: int)
    requires
        0 <= n <= v.len(),
        validators_error(v.take(n)) is Some,
    ensures
        validators_error(v) == validators_error(v.take(n)),
    decreases v.len() - n,
{
    if n < v.len() {
        assert(v.take(n + 1).drop_last() =~= v.take(n));
        lemma_validators_error_prefix(v, n + 1);
    } else {
        assert(v.take(n) =~= v);
    }
}

/// An error in a prefix of the votes is the error of all of them.
proof fn lemma_certify_error_prefix(e: PowerEntries, votes: Seq<Vote>, n: int)
    requires
        0 <= n <= votes.len(),
        certify_error(e, votes.take(n)) is Some,
    ensures
        certify_error(e, votes) == certify_error(e, votes.take(n)),
    decreases votes.len() - n,
{
    if n < votes.len() {
        assert(votes.take(n + 1).drop_last() =~= votes.take(n));
        lemma_certify_error_prefix(e, votes, n + 1);
    } else {
        assert(votes.take(n) =~= votes);
    }
}

/// Whether the `i`-th voter already voted earlier in `votes`.
fn seen_before(votes: &[Vote], i: usize) -> (r: bool)
    requires
        i < votes@.len(),
    ensures
        r == voters(votes@.take(i as int)).contains(votes@[i as int].validator@),
{
    let ghost pre = voters(votes@.take(i as int));
    let mut j: usize = 0;
    while j < i
        invariant
            i < votes@.len(),
            j <= i,
            pre == voters(votes@.take(i as int)),
            forall|k: int| 0 <= k < j ==> (#[trigger] votes@[k]).validator@ != votes@[i as int].validator@,
        decreases i - j,
    {
        if votes[j].validator == votes[i].validator {
            assert(pre[j as int] == votes@[j as int].validator@);
            return true;
        }
        j = j + 1;
    }
    proof {
        if pre.contains(votes@[i as int].validator@) {
            let k = choose|k: int| 0 <= k < pre.len() && pre[k] == votes@[i as int].validator@;
            assert(pre[k] == votes@[k].validator@);
        }
    }
    false
}

/// The position of the first entry whose identifier is not below `k`, and
/// whether it has identifier `k`.
fn locate_id<T>(entries: &Vec<(ValidatorId, T)>, k: &ValidatorId) -> (r: (usize, bool))
    requires
        sorted_keys(id_entries(entries@)),
    ensures
        r.0 <= entries@.len(),
        forall|j: int| 0 <= j < r.0 ==> key_lt(#[trigger] entries@[j].0@, k@),
        r.1 <==> (r.0 < entries@.len() && entries@[r.0 as int].0@ == k@),
        !r.1 && r.0 < entries@.len() ==> key_lt(k@, entries@[r.0 as int].0@),
{
    let ghost e = id_entries(entries@);
    let mut i: usize = 0;
    while i < entries.len()
        invariant
            e == id_entries(entries@),
            i <= entries@.len(),
            forall|j: int| 0 <= j < i ==> key_lt(#[trigger] entries@[j].0@, k@),
        decreases entries@.len() - i,
    {
        let c = compare_ids(&entries[i].0, k);
        if c == 0 {
            return (i, true);
        }
        if c == 1 {
            return (i, false);
        }
        i = i + 1;
    }
    (i, false)
}

/// The set of validators, in increasing identifier order.
#[derive(Debug, PartialEq, Eq)]
pub struct ValidatorSet {
    entries: Vec<(ValidatorId, u64)>,
    ordered_ids: Vec<ValidatorId>,
    total_power: u64,
}

impl View for ValidatorSet {
    type V = PowerEntries;

    closed spec fn view(&self) -> PowerEntries {
        id_entries(self.entries@)
    }
}

impl ValidatorSet {
    #[verifier::type_invariant]
    spec fn well_formed(self) -> bool {
        &&& set_valid(self@, self.total_power)
        &&& self.ordered_ids@.len() == self.entries@.len()
        &&& forall|i: int|
            0 <= i < self.ordered_ids@.len() ==> (#[trigger] self.ordered_ids@[i])@
                == self.entries@[i].0@
    }

    /// The total voting power.
    pub closed spec fn total_spec(&self) -> u64 {
        self.total_power
    }

    /// Every validator set is valid: see [`set_valid`].
    pub fn check_valid(&self)
        ensures
            set_valid(self@, self.total_spec()),
    {
        proof {
            use_type_invariant(self);
        }
    }

    fn ids_of(entries: &Vec<(ValidatorId, u64)>) -> (r: Vec<ValidatorId>)
        ensures
            r@.len() == entries@.len(),
            forall|i: int| 0 <= i < r@.len() ==> (#[trigger] r@[i])@ == entries@[i].0@,
    {
        let mut out: Vec<ValidatorId> = Vec::new();
        let mut i: usize = 0;
        while i < entries.len()
            invariant
                i <= entries@.len(),
                out@.len() == i,
                forall|j: int| 0 <= j < i ==> (#[trigger] out@[j])@ == entries@[j].0@,
            decreases entries@.len() - i,
        {
            out.push(entries[i].0.clone());
            i = i + 1;
        }
        out
    }

    /// Builds the set from validators given in any order.
    pub fn new(validators: Vec<Validator>) -> (r: Result<ValidatorSet, ConsensusError>)
        ensures
            validators@.len() == 0 ==> r == Err::<ValidatorSet, ConsensusError>(
                ConsensusError::EmptyValidatorSet,
            ),
            validators@.len() > 0 ==> match validators_error(validator_views(validators@)) {
                Some(e) => r == Err::<ValidatorSet, ConsensusError>(e),
                None => r matches Ok(set) && set@ == insert_all(validator_views(validators@))
                    && set.total_spec() == power_sum(validator_views(validators@)),
            },
    {
        if validators.len() == 0 {
            return Err(ConsensusError::EmptyValidatorSet);
        }
        let ghost vv = validator_views(validators@);
        let mut entries: Vec<(ValidatorId, u64)> = Vec::new();
        let mut total: u64 = 0;
        let mut i: usize = 0;
        assert(vv.take(0) =~= Seq::<(Seq<char>, u64)>::empty());
        while i < validators.len()
            invariant
                vv == validator_views(validators@),
                vv.len() == validators@.len(),
                i <= vv.len(),
                validators_error(vv.take(i as int)) is None,
                id_entries(entries@) == insert_all(vv.take(i as int)),
                sorted_keys(id_entries(entries@)),
                forall|j: int|
                    0 <= j < entries@.len() ==> (#[trigger] id_entries(entries@)[j]).1 > 0,
                total == power_sum(vv.take(i as int)),
                power_sum(id_entries(entries@)) == total,
            decreases vv.len() - i,
        {
            let ghost pre = vv.take(i as int);
            let ghost cur = vv.take(i + 1);
            assert(cur.drop_last() =~= pre);
            assert(cur =~= pre.push(vv[i as int]));
            assert(cur.last() == vv[i as int]);
            assert(vv[i as int] == (validators@[i as int].id@, validators@[i as int].voting_power));
            let v = &validators[i];
            if v.voting_power == 0 {
                proof {
                    lemma_validators_error_prefix(vv, i + 1);
                }
                return Err(ConsensusError::ZeroVotingPower);
            }
            let (pos, found) = locate_id(&entries, &v.id);
            proof {
                lemma_insert_all_lookup(pre, v.id@);
                let e = id_entries(entries@);
                assert forall|j: int| 0 <= j < pos implies key_lt(#[trigger] e[j].0, v.id@) by {
                    assert(e[j].0 == entries@[j].0@);
                }
                if found {
                    assert(e[pos as int].0 == v.id@);
                    assert forall|j: int| 0 <= j < pos implies #[trigger] e[j].0 != v.id@ by {
                        lemma_key_order(e[j].0, v.id@, v.id@);
                    }
                    lemma_lookup_at(e, v.id@, pos as int);
                } else {
                    if pos < entries@.len() {
                        assert(e[pos as int].0 == entries@[pos as int].0@);
                    }
                    lemma_insert_new_key(e, v.id@, v.voting_power, pos as int);
                }
            }
            if found {
                proof {
                    lemma_validators_error_prefix(vv, i + 1);
                }
                return Err(ConsensusError::DuplicateValidator);
            }
            match total.checked_add(v.voting_power) {
                None => {
                    proof {
                        lemma_validators_error_prefix(vv, i + 1);
                    }
                    return Err(ConsensusError::VotingPowerOverflow);
                },
                Some(t) => {
                    proof {
                        lemma_power_sum_push(pre, vv[i as int]);
                        lemma_power_sum_insert(id_entries(entries@), v.id@, v.voting_power);
                    }
                    total = t;
                },
            }
            let ghost old_e = id_entries(entries@);
            entries.insert(pos, (v.id.clone(), v.voting_power));
            assert(id_entries(entries@) =~= old_e.insert(pos as int, (v.id@, v.voting_power)));
            proof {
                let ne = id_entries(entries@);
                assert forall|j: int| 0 <= j < entries@.len() implies (#[trigger] id_entries(
                    entries@,
                )[j]).1 > 0 by {
                    if j < pos {
                        assert(ne[j] == old_e[j]);
                    } else if j > pos {
                        assert(ne[j] == old_e[j - 1]);
                    }
                }
            }
            i = i + 1;
        }
        assert(vv.take(i as int) =~= vv);
        let ordered_ids = ValidatorSet::ids_of(&entries);
        Ok(ValidatorSet { entries, ordered_ids, total_power: total })
    }

    /// A set holding one validator with power 1.
    pub fn single_dev_validator(id: ValidatorId) -> (r: ValidatorSet)
        ensures
            r@ == seq![(id@, 1u64)],
            r.total_spec() == 1,
    {
        let ordered_ids = vec![id.clone()];
        let entries = vec![(id, 1u64)];
        assert(id_entries(entries@) =~= seq![(id@, 1u64)]);
        assert(id_entries(entries@).drop_first() =~= Seq::<(Seq<char>, u64)>::empty());
        assert(id_entries(entries@)[0] == (id@, 1u64));
        assert(power_sum(id_entries(entries@).drop_first()) == 0);
        assert(power_sum(id_entries(entries@)) == 1);
        assert(ordered_ids@[0]@ == entries@[0].0@);
        ValidatorSet { entries, ordered_ids, total_power: 1 }
    }

    pub fn total_power(&self) -> (r: u64)
        ensures
            r == self.total_spec(),
    {
        self.total_power
    }

    /// Minimum voting power of a quorum: strictly more than two thirds.
    pub fn quorum_power(&self) -> (r: u64)
        ensures
            r == quorum_for(self.total_spec()),
            3 * r > 2 * self.total_spec(),
            3 * (r - 1) <= 2 * self.total_spec(),
    {
        proof {
            lemma_quorum_bounds(self.total_power);
        }
        ((self.total_power / 3) * 2) + (((self.total_power % 3) * 2) / 3) + 1
    }

    pub fn voting_power(&self, id: &ValidatorId) -> (r: Option<u64>)
        ensures
            r == lookup(self@, id@),
    {
        proof {
            use_type_invariant(self);
        }
        let (pos, found) = locate_id(&self.entries, id);
        proof {
            let e = self@;
            assert forall|j: int| 0 <= j < pos implies #[trigger] e[j].0 != id@ by {
                assert(e[j].0 == self.entries@[j].0@);
                lemma_key_order(e[j].0, id@, id@);
            }
            if found {
                lemma_lookup_at(e, id@, pos as int);
            } else {
                assert forall|j: int| 0 <= j < e.len() implies #[trigger] e[j].0 != id@ by {
                    if j >= pos {
                        assert(e[pos as int].0 == self.entries@[pos as int].0@);
                        lemma_key_order(id@, e[pos as int].0, e[j].0);
                        lemma_key_order(id@, id@, id@);
                    }
                }
                lemma_lookup_absent(e, id@);
            }
        }
        if found {
            Some(self.entries[pos].1)
        } else {
            None
        }
    }

    pub fn contains(&self, id: &ValidatorId) -> (r: bool)
        ensures
            r == lookup(self@, id@) is Some,
    {
        self.voting_power(id).is_some()
    }

    pub fn len(&self) -> (r: usize)
        ensures
            r == self@.len(),
    {
        self.entries.len()
    }

    pub fn is_empty(&self) -> (r: bool)
        ensures
            r == (self@.len() == 0),
            !r,
    {
        proof {
            use_type_invariant(self);
        }
        self.entries.len() == 0
    }

    /// All validator identifiers, in increasing order.
    pub fn validator_ids(&self) -> (r: &[ValidatorId])
        ensures
            r@.len() == self@.len(),
            forall|i: int| 0 <= i < r@.len() ==> (#[trigger] r@[i])@ == self@[i].0,
    {
        proof {
            use_type_invariant(self);
        }
        self.ordered_ids.as_slice()
    }

    /// Certifies `vote_set`: the votes must come from distinct known
    /// validators, agree on block, height and phase, and together hold at
    /// least the quorum power.
    pub fn certify(&self, vote_set: VoteSet) -> (r: Result<QuorumCertificate, ConsensusError>)
        ensures
            r == certify_spec(self@, self.total_spec(), vote_set@),
            r matches Ok(qc) ==> forall|i: int|
                0 <= i < vote_set@.len() ==> (#[trigger] vote_set@[i]).vote_type == qc.vote_type
                    && vote_set@[i].height == qc.height && vote_set@[i].block_hash@ == qc.block_hash@,
    {
        proof {
            use_type_invariant(self);
            if certify_spec(self@, self.total_spec(), vote_set@) is Ok {
                lemma_certificate_matches_every_vote(self@, self.total_spec(), vote_set@);
            }
        }
        let votes = vote_set.votes();
        let ghost vs = vote_set@;
        let ghost e = self@;
        let mut signed: u64 = 0;
        let mut i: usize = 0;
        assert(vs.take(0) =~= Seq::<Vote>::empty());
        assert(voters(vs.take(0)) =~= Seq::<Seq<char>>::empty());
        while i < votes.len()
            invariant
                votes@ == vs,
                vs == vote_set@,
                e == self@,
                i <= vs.len(),
                certify_error(e, vs.take(i as int)) is None,
                signed == ids_power(e, voters(vs.take(i as int))),
            decreases vs.len() - i,
        {
            let ghost pre = vs.take(i as int);
            let ghost cur = vs.take(i + 1);
            assert(cur.drop_last() =~= pre);
            assert(cur.last() == vs[i as int]);
            assert(voters(cur).drop_last() =~= voters(pre));
            assert(voters(cur).last() == vs[i as int].validator@);
            if i > 0 {
                assert(cur[0] == vs[0]);
            }
            let v = &votes[i];
            if seen_before(votes, i) {
                assert(certify_error(e, cur) == Some(ConsensusError::DuplicateVote));
                proof {
                    lemma_certify_error_prefix(e, vs, i + 1);
                }
                return Err(ConsensusError::DuplicateVote);
            }
            let power = match self.voting_power(&v.validator) {
                None => {
                    assert(certify_error(e, cur) == Some(ConsensusError::UnknownValidator));
                    proof {
                        lemma_certify_error_prefix(e, vs, i + 1);
                    }
                    return Err(ConsensusError::UnknownValidator);
                },
                Some(p) => p,
            };
            if !hash_eq(&votes[0].block_hash, &v.block_hash) || votes[0].height != v.height
                || votes[0].vote_type != v.vote_type {
                assert(certify_error(e, cur) == Some(ConsensusError::ConflictingVotes));
                proof {
                    lemma_certify_error_prefix(e, vs, i + 1);
                }
                return Err(ConsensusError::ConflictingVotes);
            }
            match signed.checked_add(power) {
                None => {
                    assert(certify_error(e, cur) == Some(ConsensusError::VotingPowerOverflow));
                    proof {
                        lemma_certify_error_prefix(e, vs, i + 1);
                    }
                    return Err(ConsensusError::VotingPowerOverflow);
                },
                Some(t) => {
                    signed = t;
                },
            }
            i = i + 1;
        }
        assert(vs.take(i as int) =~= vs);
        let q = self.quorum_power();
        if signed < q {
            return Err(ConsensusError::InsufficientQuorum { signed_power: signed, required_power: q });
        }
        if votes.len() == 0 {
            Ok(
                QuorumCertificate {
                    height: 0,
                    block_hash: ZERO_HASH,
                    vote_type: VoteType::PreCommit,
                    signed_power: signed,
                },
            )
        } else {
            Ok(
                QuorumCertificate {
                    height: votes[0].height,
                    block_hash: votes[0].block_hash,
                    vote_type: votes[0].vote_type,
                    signed_power: signed,
                },
            )
        }
    }

    /// The leader of a (height, round): the validator at position
    /// `(height + round) mod n` in identifier order.
    pub fn leader(&self, height: u64, round: u32) -> (r: &ValidatorId)
        requires
            height + round <= u64::MAX,
        ensures
            r@ == self@[((height + round) % (self@.len() as int))].0,
    {
        proof {
            use_type_invariant(self);
        }
        let n = self.ordered_ids.len() as u64;
        let index = ((height + round as u64) % n) as usize;
        &self.ordered_ids[index]
    }
}

impl Clone for ValidatorSet {
    fn clone(&self) -> (r: ValidatorSet)
        ensures
            r@ == self@,
            r.total_spec() == self.total_spec(),
    {
        proof {
            use_type_invariant(self);
        }
        let mut entries: Vec<(ValidatorId, u64)> = Vec::new();
        let mut i: usize = 0;
        while i < self.entries.len()
            invariant
                i <= self.entries@.len(),
                id_entries(entries@) == self@.take(i as int),
                self@ == id_entries(self.entries@),
            decreases self.entries@.len() - i,
        {
            let ghost before = entries@;
            entries.push((self.entries[i].0.clone(), self.entries[i].1));
            assert(id_entries(entries@) =~= id_entries(before).push(self@[i as int]));
            assert(self@.take(i + 1) =~= self@.take(i as int).push(self@[i as int]));
            i = i + 1;
        }
        assert(self@.take(i as int) =~= self@);
        let ordered_ids = ValidatorSet::ids_of(&entries);
        ValidatorSet { entries, ordered_ids, total_power: self.total_power }
    }
}

/// The voting power of `id` in the set, zero for an unknown identifier.
pub fn lookup_power(set: &ValidatorSet, id: &ValidatorId) -> (r: u64)
    ensures
        r == power_of(set@, id@),
{
    match set.voting_power(id) {
        Some(p) => p,
        None => 0,
    }
}

/// `quorum_for(t)` is the least power strictly above two thirds of `t`.
pub proof fn lemma_quorum_bounds(t: u64)
    ensures
        quorum_for(t) == (2 * t) / 3 + 1,
        3 * quorum_for(t) > 2 * t,
        3 * (quorum_for(t) - 1) <= 2 * t,
        t > 0 ==> quorum_for(t) <= t,
{
    assert((t / 3) * 2 + ((t % 3) * 2) / 3 == (2 * t) / 3) by (nonlinear_arith);
    assert(3 * ((2 * t) / 3) <= 2 * t && 2 * t < 3 * ((2 * t) / 3) + 3) by (nonlinear_arith);
}

} // verus!

//! View change: leaving a round whose leader failed.
//!
//! When a validator's round timer expires without a valid proposal or a
//! quorum, it sends a `TimeoutVote`. Once validators holding more than a
//! third of the voting power have timed out, the round is abandoned and
//! consensus moves to the next round, and so to the next leader.

use vstd::prelude::*;
use crate::consensus::error::ConsensusError;
use crate::consensus::safety::lemma_distinct_ids_power_bounded;
use crate::consensus::validator::{ids_power, lookup_power, ValidatorId, ValidatorSet};
use crate::keymap::lookup;

verus! {

/// A timeout message from a validator.
#[derive(Debug, PartialEq, Eq)]
pub struct TimeoutVote {
    pub validator: ValidatorId,
    pub height: u64,
    pub round: u32,
}

impl Clone for TimeoutVote {
    fn clone(&self) -> (r: TimeoutVote)
        ensures
            r == *self,
    {
        TimeoutVote { validator: self.validator.clone(), height: self.height, round: self.round }
    }
}

#[derive(Clone, Copy, Debug, PartialEq, Eq, Structural)]
pub enum ViewChangeDecision {
    Wait,
    ChangeView,
}

/// The identifiers of the validators that timed out, in order.
pub open spec fn timeout_voters(s: Seq<TimeoutVote>) -> Seq<Seq<char>> {
    s.map_values(|t: TimeoutVote| t.validator@)
}

/// Records `t`: it replaces the timeout of the same validator, or is added.
pub open spec fn record_timeout(s: Seq<TimeoutVote>, t: TimeoutVote) -> Seq<TimeoutVote>
    decreases s.len(),
{
    if s.len() == 0 {
        seq![t]
    } else if s[0].validator@ == t.validator@ {
        s.update(0, t)
    } else {
        seq![s[0]] + record_timeout(s.drop_first(), t)
    }
}

/// The power at which the timeouts force a view change: more than a third
/// of the total.
pub open spec fn view_change_threshold(total: u64) -> u64 {
    (total / 3 + 1) as u64
}

/// Timed-out power `p` reaches the view-change threshold of a total power
/// `t` exactly when it is more than a third of `t`.
pub proof fn lemma_threshold_is_more_than_a_third(t: u64, p: int)
    ensures
        p >= view_change_threshold(t) <==> 3 * p > t,
        3 * view_change_threshold(t) > t,
        3 * (view_change_threshold(t) - 1) <= t,
{
}

/// Recording a timeout counts its validator as timed out and changes the
/// status of no other validator.
pub proof fn lemma_record_timeout_counts_only_its_validator(s: Seq<TimeoutVote>, t: TimeoutVote, x: Seq<char>)
    ensures
        timeout_voters(record_timeout(s, t)).contains(t.validator@),
        x != t.validator@ ==> (timeout_voters(record_timeout(s, t)).contains(x) <==> timeout_voters(s).contains(
            x,
        )),
    decreases s.len(),
{
    let r = record_timeout(s, t);
    let rv = timeout_voters(r);
    let sv = timeout_voters(s);
    if s.len() == 0 {
        assert(rv[0] == t.validator@);
    } else if s[0].validator@ == t.validator@ {
        assert(rv[0] == t.validator@);
        if x != t.validator@ {
            if rv.contains(x) {
                let i = choose|i: int| 0 <= i < rv.len() && rv[i] == x;
                assert(i != 0);
                assert(rv[i] == sv[i]);
            }
            if sv.contains(x) {
                let i = choose|i: int| 0 <= i < sv.len() && sv[i] == x;
                assert(i != 0);
                assert(rv[i] == sv[i]);
            }
        }
    } else {
        let rest = s.drop_first();
        lemma_record_timeout_counts_only_its_validator(rest, t, x);
        let rr = record_timeout(rest, t);
        assert(r == seq![s[0]] + rr);
        let rrv = timeout_voters(rr);
        let restv = timeout_voters(rest);
        let k = choose|k: int| 0 <= k < rrv.len() && rrv[k] == t.validator@;
        assert(rv[k + 1] == rrv[k]);
        if x != t.validator@ {
            if rv.contains(x) {
                let i = choose|i: int| 0 <= i < rv.len() && rv[i] == x;
                if i == 0 {
                    assert(sv[0] == x);
                } else {
                    assert(rv[i] == rrv[i - 1]);
                    assert(rrv.contains(x));
                    let j = choose|j: int| 0 <= j < restv.len() && restv[j] == x;
                    assert(sv[j + 1] == restv[j]);
                }
            }
            if sv.contains(x) {
                let i = choose|i: int| 0 <= i < sv.len() && sv[i] == x;
                if i == 0 {
                    assert(rv[0] == x);
                } else {
                    assert(sv[i] == restv[i - 1]);
                    assert(restv.contains(x));
                    let j = choose|j: int| 0 <= j < rrv.len() && rrv[j] == x;
                    assert(rv[j + 1] == rrv[j]);
                }
            }
        }
    }
}

proof fn lemma_record_at(s: Seq<TimeoutVote>, t: TimeoutVote, i: int)
    requires
        0 <= i <= s.len(),
        forall|j: int| 0 <= j < i ==> (#[trigger] s[j]).validator@ != t.validator@,
        i < s.len() ==> s[i].validator@ == t.validator@,
    ensures
        record_timeout(s, t) == if i < s.len() {
            s.update(i, t)
        } else {
            s.push(t)
        },
    decreases i,
{
    if i == 0 {
        if s.len() == 0 {
            assert(seq![t] =~= s.push(t));
        }
    } else {
        let rest = s.drop_first();
        assert forall|j: int| 0 <= j < i - 1 implies (#[trigger] rest[j]).validator@ != t.validator@ by {
            assert(rest[j] == s[j + 1]);
        }
        lemma_record_at(rest, t, i - 1);
        if i < s.len() {
            assert(seq![s[0]] + rest.update(i - 1, t) =~= s.update(i, t));
        } else {
            assert(seq![s[0]] + rest.push(t) =~= s.push(t));
        }
    }
}

/// Collects timeout votes, at most one per validator.
#[derive(Debug, Default)]
pub struct ViewChangeCollector {
    timeouts: Vec<TimeoutVote>,
}

impl View for ViewChangeCollector {
    type V = Seq<TimeoutVote>;

    closed spec fn view(&self) -> Seq<TimeoutVote> {
        self.timeouts@
    }
}

impl ViewChangeCollector {
    #[verifier::type_invariant]
    spec fn one_per_validator(self) -> bool {
        timeout_voters(self@).no_duplicates()
    }

    /// The timed-out validators of every collector are distinct.
    pub fn check_distinct(&self)
        ensures
            timeout_voters(self@).no_duplicates(),
    {
        proof {
            use_type_invariant(self);
        }
    }

    pub fn new() -> (r: ViewChangeCollector)
        ensures
            r@ == Seq::<TimeoutVote>::empty(),
    {
        let r = ViewChangeCollector { timeouts: Vec::new() };
        assert(timeout_voters(r@) =~= Seq::<Seq<char>>::empty());
        r
    }

    /// Records a timeout from a validator of the set and decides whether the
    /// timed-out power now forces a view change.
    pub fn add_timeout(&mut self, timeout: TimeoutVote, validator_set: &ValidatorSet) -> (r: Result<
        ViewChangeDecision,
        ConsensusError,
    >)
        ensures
            lookup(validator_set@, timeout.validator@) is None ==> r == Err::<
                ViewChangeDecision,
                ConsensusError,
            >(ConsensusError::UnknownValidator) && final(self)@ == old(self)@,
            lookup(validator_set@, timeout.validator@) is Some ==> ({
                let s = record_timeout(old(self)@, timeout);
                &&& final(self)@ == s
                &&& r == Ok::<ViewChangeDecision, ConsensusError>(
                    if ids_power(validator_set@, timeout_voters(s)) >= view_change_threshold(
                        validator_set.total_spec(),
                    ) {
                        ViewChangeDecision::ChangeView
                    } else {
                        ViewChangeDecision::Wait
                    },
                )
            }),
            r == Ok::<ViewChangeDecision, ConsensusError>(ViewChangeDecision::ChangeView) <==> (lookup(
                validator_set@,
                timeout.validator@,
            ) is Some && 3 * ids_power(validator_set@, timeout_voters(final(self)@))
                > validator_set.total_spec()),
    {
        proof {
            use_type_invariant(&*self);
        }
        if !validator_set.contains(&timeout.validator) {
            return Err(ConsensusError::UnknownValidator);
        }
        let ghost old_s = self@;
        let mut timeouts: Vec<TimeoutVote> = Vec::new();
        std::mem::swap(&mut timeouts, &mut self.timeouts);
        let mut i: usize = 0;
        while i < timeouts.len()
            invariant
                timeouts@ == old_s,
                i <= old_s.len(),
                forall|j: int| 0 <= j < i ==> (#[trigger] old_s[j]).validator@ != timeout.validator@,
            ensures
                i <= old_s.len(),
                forall|j: int| 0 <= j < i ==> (#[trigger] old_s[j]).validator@ != timeout.validator@,
                i < old_s.len() ==> old_s[i as int].validator@ == timeout.validator@,
            decreases old_s.len() - i,
        {
            if timeouts[i].validator == timeout.validator {
                break;
            }
            i = i + 1;
        }
        proof {
            lemma_record_at(old_s, timeout, i as int);
        }
        let ghost tv = timeout.validator@;
        if i < timeouts.len() {
            timeouts.set(i, timeout);
        } else {
            timeouts.push(timeout);
        }
        let ghost s = timeouts@;
        assert(s == record_timeout(old_s, timeout));
        proof {
            let ov = timeout_voters(old_s);
            let nv = timeout_voters(s);
            assert forall|a: int, b: int| 0 <= a < nv.len() && 0 <= b < nv.len() && a != b implies nv[a]
                != nv[b] by {
                if a < old_s.len() && b < old_s.len() {
                    assert(ov[a] == old_s[a].validator@ && ov[b] == old_s[b].validator@);
                    if a != i && b != i {
                        assert(nv[a] == ov[a] && nv[b] == ov[b]);
                    } else if a == i {
                        assert(nv[b] == ov[b]);
                        assert(ov[a] == tv);
                    } else {
                        assert(nv[a] == ov[a]);
                        assert(ov[b] == tv);
                    }
                } else if a < old_s.len() {
                    assert(nv[a] == ov[a]);
                    assert(ov[a] == old_s[a].validator@);
                } else {
                    assert(nv[b] == ov[b]);
                    assert(ov[b] == old_s[b].validator@);
                }
            }
        }
        self.timeouts = timeouts;
        let timed_out = self.timed_out_power(validator_set);
        proof {
            lemma_threshold_is_more_than_a_third(validator_set.total_spec(), timed_out as int);
        }
        if timed_out >= validator_set.total_power() / 3 + 1 {
            Ok(ViewChangeDecision::ChangeView)
        } else {
            Ok(ViewChangeDecision::Wait)
        }
    }

    /// Summed voting power of the timed-out validators in the set.
    fn timed_out_power(&self, validator_set: &ValidatorSet) -> (r: u64)
        ensures
            r == ids_power(validator_set@, timeout_voters(self@)),
    {
        proof {
            use_type_invariant(self);
        }
        validator_set.check_valid();
        let ghost tv = timeout_voters(self@);
        proof {
            lemma_distinct_ids_power_bounded(validator_set@, validator_set.total_spec(), tv);
        }
        let mut sum: u64 = 0;
        let mut i: usize = 0;
        while i < self.timeouts.len()
            invariant
                tv == timeout_voters(self@),
                i <= tv.len(),
                sum == ids_power(validator_set@, tv.take(i as int)),
                ids_power(validator_set@, tv) <= validator_set.total_spec(),
                tv.no_duplicates(),
            decreases tv.len() - i,
        {
            assert(tv.take(i + 1).drop_last() =~= tv.take(i as int));
            assert(tv.take(i + 1).last() == self.timeouts@[i as int].validator@);
            proof {
                lemma_prefix_power_bounded(validator_set, tv, i + 1);
            }
            let p = lookup_power(validator_set, &self.timeouts[i].validator);
            sum = sum + p;
            i = i + 1;
        }
        assert(tv.take(i as int) =~= tv);
        sum
    }

    pub fn timeout_count(&self) -> (r: usize)
        ensures
            r == self@.len(),
    {
        self.timeouts.len()
    }
}

proof fn lemma_prefix_power_bounded(set: &ValidatorSet, ids: Seq<Seq<char>>, n: int)
    requires
        0 <= n <= ids.len(),
        ids.no_duplicates(),
        ids_power(set@, ids) <= set.total_spec(),
    ensures
        ids_power(set@, ids.take(n)) <= set.total_spec(),
    decreases ids.len() - n,
{
    if n < ids.len() {
        lemma_prefix_power_bounded(set, ids, n + 1);
        assert(ids.take(n + 1).drop_last() =~= ids.take(n));
    } else {
        assert(ids.take(n) =~= ids);
    }
}

} // verus!

//! The safety of quorum certification: what any certificate, and any two
//! certificates, from one validator set are backed by.

use vstd::prelude::*;
use crate::consensus::error::ConsensusError;
use crate::consensus::validator::{
    certify_error, certify_spec, ids_power, power_of, power_sum, set_valid, voters,
    lemma_quorum_bounds, PowerEntries,
};
use crate::consensus::vote::Vote;
use crate::keymap::{key_lt, lemma_key_order, lookup, sorted_keys};

verus! {

/// Summed power of the validators whose identifier is not in `s`.
pub open spec fn except_power(e: PowerEntries, s: Seq<Seq<char>>) -> nat
    decreases e.len(),
{
    if e.len() == 0 {
        0
    } else {
        (if s.contains(e[0].0) {
            0
        } else {
            e[0].1 as nat
        }) + except_power(e.drop_first(), s)
    }
}

/// Identifiers that are pairwise distinct and all belong to validators.
pub open spec fn distinct_known(e: PowerEntries, ids: Seq<Seq<char>>) -> bool {
    &&& ids.no_duplicates()
    &&& forall|i: int| 0 <= i < ids.len() ==> lookup(e, #[trigger] ids[i]) is Some
}

/// The identifiers of `x` that occur in `y`, in the order of `x`.
pub open spec fn ids_in(x: Seq<Seq<char>>, y: Seq<Seq<char>>) -> Seq<Seq<char>>
    decreases x.len(),
{
    if x.len() == 0 {
        x
    } else if y.contains(x.last()) {
        ids_in(x.drop_last(), y).push(x.last())
    } else {
        ids_in(x.drop_last(), y)
    }
}

/// The identifiers of `x` that do not occur in `y`, in the order of `x`.
pub open spec fn ids_not_in(x: Seq<Seq<char>>, y: Seq<Seq<char>>) -> Seq<Seq<char>>
    decreases x.len(),
{
    if x.len() == 0 {
        x
    } else if y.contains(x.last()) {
        ids_not_in(x.drop_last(), y)
    } else {
        ids_not_in(x.drop_last(), y).push(x.last())
    }
}

proof fn lemma_except_empty(e: PowerEntries)
    ensures
        except_power(e, Seq::empty()) == power_sum(e),
    decreases e.len(),
{
    if e.len() > 0 {
        lemma_except_empty(e.drop_first());
    }
}

proof fn lemma_except_non_key(e: PowerEntries, s: Seq<Seq<char>>, k: Seq<char>)
    requires
        forall|j: int| 0 <= j < e.len() ==> #[trigger] e[j].0 != k,
    ensures
        except_power(e, s.push(k)) == except_power(e, s),
    decreases e.len(),
{
    if e.len() > 0 {
        let rest = e.drop_first();
        assert forall|j: int| 0 <= j < rest.len() implies #[trigger] rest[j].0 != k by {
            assert(rest[j] == e[j + 1]);
        }
        lemma_except_non_key(rest, s, k);
        assert(s.push(k).contains(e[0].0) == s.contains(e[0].0)) by {
            if s.push(k).contains(e[0].0) {
                let i = choose|i: int| 0 <= i < s.push(k).len() && s.push(k)[i] == e[0].0;
                assert(s[i] == e[0].0);
            }
            if s.contains(e[0].0) {
                let i = choose|i: int| 0 <= i < s.len() && s[i] == e[0].0;
                assert(s.push(k)[i] == e[0].0);
            }
        }
    }
}

proof fn lemma_except_take(e: PowerEntries, s: Seq<Seq<char>>, x: Seq<char>)
    requires
        sorted_keys(e),
        !s.contains(x),
        lookup(e, x) is Some,
    ensures
        except_power(e, s) == power_of(e, x) + except_power(e, s.push(x)),
    decreases e.len(),
{
    let rest = e.drop_first();
    assert(sorted_keys(rest)) by {
        assert forall|i: int, j: int| 0 <= i < j < rest.len() implies key_lt(
            #[trigger] rest[i].0,
            #[trigger] rest[j].0,
        ) by {
            assert(rest[i] == e[i + 1] && rest[j] == e[j + 1]);
        }
    }
    if e[0].0 == x {
        assert forall|j: int| 0 <= j < rest.len() implies #[trigger] rest[j].0 != x by {
            assert(rest[j] == e[j + 1]);
            lemma_key_order(e[0].0, e[j + 1].0, e[j + 1].0);
        }
        lemma_except_non_key(rest, s, x);
        assert(s.push(x).contains(x)) by {
            assert(s.push(x)[s.len() as int] == x);
        }
    } else {
        lemma_except_take(rest, s, x);
        assert(s.push(x).contains(e[0].0) == s.contains(e[0].0)) by {
            if s.push(x).contains(e[0].0) {
                let i = choose|i: int| 0 <= i < s.push(x).len() && s.push(x)[i] == e[0].0;
                assert(s[i] == e[0].0);
            }
            if s.contains(e[0].0) {
                let i = choose|i: int| 0 <= i < s.len() && s[i] == e[0].0;
                assert(s.push(x)[i] == e[0].0);
            }
        }
    }
}

proof fn lemma_lookup_none(e: PowerEntries, x: Seq<char>)
    requires
        lookup(e, x) is None,
    ensures
        forall|j: int| 0 <= j < e.len() ==> #[trigger] e[j].0 != x,
    decreases e.len(),
{
    if e.len() > 0 {
        lemma_lookup_none(e.drop_first(), x);
        assert forall|j: int| 0 <= j < e.len() implies #[trigger] e[j].0 != x by {
            if j > 0 {
                assert(e[j] == e.drop_first()[j - 1]);
            }
        }
    }
}

/// For distinct identifiers, their power and the power of all other
/// validators add up to the total.
proof fn lemma_power_split(e: PowerEntries, ids: Seq<Seq<char>>)
    requires
        sorted_keys(e),
        ids.no_duplicates(),
    ensures
        ids_power(e, ids) + except_power(e, ids) == power_sum(e),
    decreases ids.len(),
{
    if ids.len() == 0 {
        lemma_except_empty(e);
        assert(ids =~= Seq::<Seq<char>>::empty());
    } else {
        let pre = ids.drop_last();
        let x = ids.last();
        assert(pre.no_duplicates()) by {
            assert forall|i: int, j: int| 0 <= i < pre.len() && 0 <= j < pre.len() && i != j implies pre[i]
                != pre[j] by {
                assert(pre[i] == ids[i] && pre[j] == ids[j]);
            }
        }
        lemma_power_split(e, pre);
        assert(!pre.contains(x)) by {
            if pre.contains(x) {
                let i = choose|i: int| 0 <= i < pre.len() && pre[i] == x;
                assert(ids[i] == ids[ids.len() - 1]);
            }
        }
        if lookup(e, x) is Some {
            lemma_except_take(e, pre, x);
        } else {
            lemma_lookup_none(e, x);
            lemma_except_non_key(e, pre, x);
        }
        assert(pre.push(x) =~= ids);
    }
}

/// Distinct identifiers never hold more than the total power.
pub proof fn lemma_distinct_ids_power_bounded(e: PowerEntries, t: u64, ids: Seq<Seq<char>>)
    requires
        set_valid(e, t),
        ids.no_duplicates(),
    ensures
        ids_power(e, ids) <= t,
{
    lemma_power_split(e, ids);
}

/// Distinct validators never hold more than the total power.
pub proof fn lemma_distinct_power_bounded(e: PowerEntries, t: u64, ids: Seq<Seq<char>>)
    requires
        set_valid(e, t),
        distinct_known(e, ids),
    ensures
        ids_power(e, ids) <= t,
{
    lemma_power_split(e, ids);
}

/// Votes that raise no error come from distinct known validators.
pub proof fn lemma_accepted_voters(e: PowerEntries, votes: Seq<Vote>)
    requires
        certify_error(e, votes) is None,
    ensures
        distinct_known(e, voters(votes)),
    decreases votes.len(),
{
    if votes.len() > 0 {
        let pre = votes.drop_last();
        lemma_accepted_voters(e, pre);
        let vs = voters(votes);
        let vp = voters(pre);
        assert(vs.drop_last() =~= vp);
        assert(vs.last() == votes.last().validator@);
        assert forall|i: int| 0 <= i < vs.len() implies lookup(e, #[trigger] vs[i]) is Some by {
            if i < vp.len() {
                assert(vs[i] == vp[i]);
            }
        }
        assert forall|i: int, j: int| 0 <= i < vs.len() && 0 <= j < vs.len() && i != j implies vs[i]
            != vs[j] by {
            if i < vp.len() && j < vp.len() {
                assert(vs[i] == vp[i] && vs[j] == vp[j]);
            } else if i < vp.len() {
                assert(vs[i] == vp[i]);
                assert(vp.contains(vp[i]));
            } else {
                assert(vs[j] == vp[j]);
                assert(vp.contains(vp[j]));
            }
        }
    }
}

/// Certification against a valid set never runs out of `u64`: the power
/// of distinct validators is at most the total.
pub proof fn lemma_certify_never_overflows(e: PowerEntries, t: u64, votes: Seq<Vote>)
    requires
        set_valid(e, t),
    ensures
        certify_error(e, votes) != Some(ConsensusError::VotingPowerOverflow),
    decreases votes.len(),
{
    if votes.len() > 0 {
        let pre = votes.drop_last();
        lemma_certify_never_overflows(e, t, pre);
        if certify_error(e, pre) is None && !voters(pre).contains(votes.last().validator@) && lookup(
            e,
            votes.last().validator@,
        ) is Some {
            lemma_accepted_voters(e, pre);
            let l = voters(pre).push(votes.last().validator@);
            assert(distinct_known(e, l)) by {
                let vp = voters(pre);
                assert forall|i: int| 0 <= i < l.len() implies lookup(e, #[trigger] l[i]) is Some by {
                    if i < vp.len() {
                        assert(l[i] == vp[i]);
                    }
                }
                assert forall|i: int, j: int| 0 <= i < l.len() && 0 <= j < l.len() && i != j implies l[i]
                    != l[j] by {
                    if i < vp.len() && j < vp.len() {
                        assert(l[i] == vp[i] && l[j] == vp[j]);
                    } else if i < vp.len() {
                        assert(l[i] == vp[i]);
                    } else {
                        assert(l[j] == vp[j]);
                    }
                }
            }
            lemma_distinct_power_bounded(e, t, l);
            assert(l.drop_last() =~= voters(pre));
        }
    }
}

proof fn lemma_split_by(e: PowerEntries, x: Seq<Seq<char>>, y: Seq<Seq<char>>)
    ensures
        ids_power(e, x) == ids_power(e, ids_in(x, y)) + ids_power(e, ids_not_in(x, y)),
    decreases x.len(),
{
    if x.len() > 0 {
        lemma_split_by(e, x.drop_last(), y);
        let a = ids_in(x.drop_last(), y);
        let b = ids_not_in(x.drop_last(), y);
        assert(a.push(x.last()).drop_last() =~= a);
        assert(b.push(x.last()).drop_last() =~= b);
    }
}

proof fn lemma_power_concat(e: PowerEntries, x: Seq<Seq<char>>, y: Seq<Seq<char>>)
    ensures
        ids_power(e, x + y) == ids_power(e, x) + ids_power(e, y),
    decreases y.len(),
{
    if y.len() == 0 {
        assert(x + y =~= x);
    } else {
        lemma_power_concat(e, x, y.drop_last());
        assert((x + y).drop_last() =~= x + y.drop_last());
        assert((x + y).last() == y.last());
    }
}

proof fn lemma_not_in_props(x: Seq<Seq<char>>, y: Seq<Seq<char>>)
    requires
        x.no_duplicates(),
    ensures
        ids_not_in(x, y).no_duplicates(),
        forall|k: Seq<char>| #[trigger] ids_not_in(x, y).contains(k) ==> x.contains(k) && !y.contains(k),
    decreases x.len(),
{
    if x.len() > 0 {
        let p = x.drop_last();
        let z = x.last();
        assert(p.no_duplicates()) by {
            assert forall|i: int, j: int| 0 <= i < p.len() && 0 <= j < p.len() && i != j implies p[i]
                != p[j] by {
                assert(p[i] == x[i] && p[j] == x[j]);
            }
        }
        lemma_not_in_props(p, y);
        let d = ids_not_in(p, y);
        assert(!p.contains(z)) by {
            if p.contains(z) {
                let i = choose|i: int| 0 <= i < p.len() && p[i] == z;
                assert(x[i] == x[x.len() - 1]);
            }
        }
        assert forall|k: Seq<char>| #[trigger] d.contains(k) implies x.contains(k) by {
            let i = choose|i: int| 0 <= i < p.len() && p[i] == k;
            assert(x[i] == k);
        }
        if !y.contains(z) {
            let d2 = d.push(z);
            assert forall|i: int, j: int| 0 <= i < d2.len() && 0 <= j < d2.len() && i != j implies d2[i]
                != d2[j] by {
                if i < d.len() && j < d.len() {
                    assert(d2[i] == d[i] && d2[j] == d[j]);
                } else if i < d.len() {
                    assert(d2[i] == d[i]);
                    assert(d.contains(d[i]));
                } else {
                    assert(d2[j] == d[j]);
                    assert(d.contains(d[j]));
                }
            }
            assert forall|k: Seq<char>| #[trigger] d2.contains(k) implies x.contains(k) && !y.contains(k) by {
                let i = choose|i: int| 0 <= i < d2.len() && d2[i] == k;
                if i < d.len() {
                    assert(d2[i] == d[i]);
                    assert(d.contains(k));
                } else {
                    assert(x[x.len() - 1] == z);
                }
            }
        }
    }
}

/// A certificate is backed by more than two thirds of the total power.
pub proof fn lemma_certificate_backed_by_quorum(e: PowerEntries, t: u64, votes: Seq<Vote>)
    requires
        set_valid(e, t),
        certify_spec(e, t, votes) is Ok,
    ensures
        distinct_known(e, voters(votes)),
        3 * ids_power(e, voters(votes)) > 2 * t,
        certify_spec(e, t, votes)->Ok_0.signed_power == ids_power(e, voters(votes)),
{
    lemma_accepted_voters(e, votes);
    lemma_distinct_power_bounded(e, t, voters(votes));
    lemma_quorum_bounds(t);
}

/// Quorum intersection: the validators that voted in both of two
/// certified vote sets hold more than a third of the total power. So two
/// certificates for different blocks at one height need validators holding
/// more than a third of the power to have voted twice.
pub proof fn lemma_certificates_share_a_third(
    e: PowerEntries,
    t: u64,
    a: Seq<Vote>,
    b: Seq<Vote>,
)
    requires
        set_valid(e, t),
        certify_spec(e, t, a) is Ok,
        certify_spec(e, t, b) is Ok,
    ensures
        3 * ids_power(e, ids_in(voters(b), voters(a))) > t,
{
    let va = voters(a);
    let vb = voters(b);
    lemma_certificate_backed_by_quorum(e, t, a);
    lemma_certificate_backed_by_quorum(e, t, b);
    lemma_split_by(e, vb, va);
    let d = ids_not_in(vb, va);
    lemma_not_in_props(vb, va);
    let all = va + d;
    assert(distinct_known(e, all)) by {
        assert forall|i: int| 0 <= i < all.len() implies lookup(e, #[trigger] all[i]) is Some by {
            if i < va.len() {
                assert(all[i] == va[i]);
            } else {
                assert(all[i] == d[i - va.len()]);
                assert(d.contains(d[i - va.len()]));
                let j = choose|j: int| 0 <= j < vb.len() && vb[j] == d[i - va.len()];
                assert(lookup(e, vb[j]) is Some);
            }
        }
        assert forall|i: int, j: int| 0 <= i < all.len() && 0 <= j < all.len() && i != j implies all[i]
            != all[j] by {
            if i < va.len() && j < va.len() {
                assert(all[i] == va[i] && all[j] == va[j]);
            } else if i >= va.len() && j >= va.len() {
                assert(all[i] == d[i - va.len()] && all[j] == d[j - va.len()]);
            } else if i < va.len() {
                assert(all[i] == va[i] && all[j] == d[j - va.len()]);
                assert(d.contains(d[j - va.len()]));
                assert(va.contains(va[i]));
            } else {
                assert(all[j] == va[j] && all[i] == d[i - va.len()]);
                assert(d.contains(d[i - va.len()]));
                assert(va.contains(va[j]));
            }
        }
    }
    lemma_distinct_power_bounded(e, t, all);
    lemma_power_concat(e, va, d);
    lemma_quorum_bounds(t);
}

/// With no error, every vote is for the block, height and phase of the
/// first one.
proof fn lemma_no_error_one_target(e: PowerEntries, votes: Seq<Vote>)
    requires
        certify_error(e, votes) is None,
    ensures
        forall|i: int|
            0 <= i < votes.len() ==> (#[trigger] votes[i]).vote_type == votes[0].vote_type
                && votes[i].height == votes[0].height && votes[i].block_hash@ == votes[0].block_hash@,
    decreases votes.len(),
{
    if votes.len() > 0 {
        let pre = votes.drop_last();
        lemma_no_error_one_target(e, pre);
        assert forall|i: int| 0 <= i < votes.len() implies (#[trigger] votes[i]).vote_type
            == votes[0].vote_type && votes[i].height == votes[0].height && votes[i].block_hash@
            == votes[0].block_hash@ by {
            if i < votes.len() - 1 {
                assert(votes[i] == pre[i]);
                assert(votes[0] == pre[0]);
            } else {
                assert(votes[i] == votes.last());
            }
        }
    }
}

/// Votes of different phases, heights or blocks are never merged: every
/// vote of a certified set has the certificate's vote type, height and
/// block hash.
pub proof fn lemma_certificate_matches_every_vote(e: PowerEntries, t: u64, votes: Seq<Vote>)
    requires
        certify_spec(e, t, votes) is Ok,
    ensures
        forall|i: int|
            0 <= i < votes.len() ==> {
                let qc = certify_spec(e, t, votes)->Ok_0;
                &&& (#[trigger] votes[i]).vote_type == qc.vote_type
                &&& votes[i].height == qc.height
                &&& votes[i].block_hash@ == qc.block_hash@
            },
{
    lemma_no_error_one_target(e, votes);
}

/// A vote set holding two votes of different phases is refused.
pub proof fn lemma_mixed_phases_refused(e: PowerEntries, t: u64, votes: Seq<Vote>, i: int, j: int)
    requires
        0 <= i < votes.len(),
        0 <= j < votes.len(),
        votes[i].vote_type != votes[j].vote_type,
    ensures
        certify_spec(e, t, votes) is Err,
{
    if certify_spec(e, t, votes) is Ok {
        lemma_certificate_matches_every_vote(e, t, votes);
        assert(votes[i].vote_type == certify_spec(e, t, votes)->Ok_0.vote_type);
        assert(votes[j].vote_type == certify_spec(e, t, votes)->Ok_0.vote_type);
    }
}

} // verus!

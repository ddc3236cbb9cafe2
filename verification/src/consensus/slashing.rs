//! Misbehaviour evidence: recording and checking double votes and double
//! proposals. The economic penalty is not applied here; this registry only
//! records and deduplicates evidence.

use vstd::prelude::*;
use crate::consensus::validator::ValidatorId;
use crate::hashing::Hash256;

verus! {

/// Evidence of validator misbehaviour.
#[derive(Debug, PartialEq, Eq)]
pub enum SlashingEvidence {
    /// Votes for two different blocks at the same height and round.
    DoubleVote { validator: ValidatorId, height: u64, round: u32, hash_a: Hash256, hash_b: Hash256 },
    /// Proposals of two different blocks at the same height.
    DoubleProposal {
        validator: ValidatorId,
        height: u64,
        round: u32,
        hash_a: Hash256,
        hash_b: Hash256,
    },
}

/// The validator an item of evidence accuses.
pub open spec fn accused(e: SlashingEvidence) -> Seq<char> {
    match e {
        SlashingEvidence::DoubleVote { validator, .. } => validator@,
        SlashingEvidence::DoubleProposal { validator, .. } => validator@,
    }
}

impl SlashingEvidence {
    pub fn validator(&self) -> (r: &ValidatorId)
        ensures
            r@ == accused(*self),
    {
        match self {
            SlashingEvidence::DoubleVote { validator, .. } => validator,
            SlashingEvidence::DoubleProposal { validator, .. } => validator,
        }
    }
}

impl Clone for SlashingEvidence {
    fn clone(&self) -> (r: SlashingEvidence)
        ensures
            r == *self,
    {
        match self {
            SlashingEvidence::DoubleVote { validator, height, round, hash_a, hash_b } => {
                SlashingEvidence::DoubleVote {
                    validator: validator.clone(),
                    height: *height,
                    round: *round,
                    hash_a: *hash_a,
                    hash_b: *hash_b,
                }
            },
            SlashingEvidence::DoubleProposal { validator, height, round, hash_a, hash_b } => {
                SlashingEvidence::DoubleProposal {
                    validator: validator.clone(),
                    height: *height,
                    round: *round,
                    hash_a: *hash_a,
                    hash_b: *hash_b,
                }
            },
        }
    }
}

/// The accused validators of a list of evidence, in order.
pub open spec fn accused_all(s: Seq<SlashingEvidence>) -> Seq<Seq<char>> {
    s.map_values(|e: SlashingEvidence| accused(e))
}

/// Records evidence, at most one item per validator.
#[derive(Debug, Default)]
pub struct SlashingRegistry {
    evidence: Vec<SlashingEvidence>,
    slashed: Vec<ValidatorId>,
}

impl View for SlashingRegistry {
    type V = Seq<SlashingEvidence>;

    closed spec fn view(&self) -> Seq<SlashingEvidence> {
        self.evidence@
    }
}

impl SlashingRegistry {
    #[verifier::type_invariant]
    spec fn one_per_validator(self) -> bool {
        &&& self.slashed@.len() == self.evidence@.len()
        &&& forall|i: int|
            0 <= i < self.slashed@.len() ==> (#[trigger] self.slashed@[i])@ == accused(self.evidence@[i])
        &&& accused_all(self.evidence@).no_duplicates()
    }

    /// The evidence of every registry accuses distinct validators.
    pub fn check_distinct(&self)
        ensures
            accused_all(self@).no_duplicates(),
    {
        proof {
            use_type_invariant(self);
        }
    }

    pub fn new() -> (r: SlashingRegistry)
        ensures
            r@ == Seq::<SlashingEvidence>::empty(),
    {
        let r = SlashingRegistry { evidence: Vec::new(), slashed: Vec::new() };
        assert(accused_all(r@) =~= Seq::<Seq<char>>::empty());
        r
    }

    /// Records `evidence` unless its validator was already accused; answers
    /// whether it was recorded.
    pub fn submit(&mut self, evidence: SlashingEvidence) -> (r: bool)
        ensures
            r == !accused_all(old(self)@).contains(accused(evidence)),
            final(self)@ == if r {
                old(self)@.push(evidence)
            } else {
                old(self)@
            },
    {
        proof {
            use_type_invariant(&*self);
        }
        let validator = evidence.validator().clone();
        if self.is_slashed(&validator) {
            return false;
        }
        let ghost old_e = self@;
        let mut whole = SlashingRegistry::new();
        std::mem::swap(&mut whole, self);
        let SlashingRegistry { evidence: mut ev, slashed: mut sl } = whole;
        sl.push(validator);
        ev.push(evidence);
        proof {
            let a = accused_all(ev@);
            let o = accused_all(old_e);
            assert(a =~= o.push(accused(evidence)));
            assert forall|i: int, j: int| 0 <= i < a.len() && 0 <= j < a.len() && i != j implies a[i]
                != a[j] by {
                if i < o.len() && j < o.len() {
                    assert(a[i] == o[i] && a[j] == o[j]);
                } else if i < o.len() {
                    assert(a[i] == o[i]);
                    assert(o.contains(o[i]));
                } else {
                    assert(a[j] == o[j]);
                    assert(o.contains(o[j]));
                }
            }
        }
        *self = SlashingRegistry { evidence: ev, slashed: sl };
        true
    }

    /// Whether evidence against `id` was recorded.
    pub fn is_slashed(&self, id: &ValidatorId) -> (r: bool)
        ensures
            r == accused_all(self@).contains(id@),
    {
        proof {
            use_type_invariant(self);
        }
        let ghost a = accused_all(self@);
        let mut i: usize = 0;
        while i < self.slashed.len()
            invariant
                a == accused_all(self@),
                i <= self.slashed@.len(),
                self.slashed@.len() == a.len(),
                forall|k: int| 0 <= k < self.slashed@.len() ==> (#[trigger] self.slashed@[k])@ == a[k],
                forall|k: int| 0 <= k < i ==> a[k] != id@,
            decreases self.slashed@.len() - i,
        {
            if self.slashed[i] == *id {
                assert(a[i as int] == id@);
                return true;
            }
            i = i + 1;
        }
        proof {
            if a.contains(id@) {
                let k = choose|k: int| 0 <= k < a.len() && a[k] == id@;
                assert(a[k] == id@);
            }
        }
        false
    }

    /// The recorded evidence, in the order it was submitted.
    pub fn pending_evidence(&self) -> (r: &[SlashingEvidence])
        ensures
            r@ == self@,
    {
        self.evidence.as_slice()
    }
}

} // verus!

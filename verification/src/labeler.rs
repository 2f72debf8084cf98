//! Labelling: pair every word of a sample, in order, with the
//! automaton's acceptance verdict.

use vstd::prelude::*;
use crate::engine::OmegaAutomaton;
use crate::words::{UpWord, UpWordV};

verus! {

/// `r` pairs each word of `sample`, in order, with the verdict of `a`.
pub open spec fn is_labelling<A: OmegaAutomaton>(
    a: A,
    sample: Seq<UpWordV>,
    r: Seq<(UpWordV, bool)>,
) -> bool {
    &&& r.len() == sample.len()
    &&& forall|i: int|
        0 <= i < r.len() ==> (#[trigger] r[i]).0 == sample[i] && r[i].1 == a.spec_accepts(
            sample[i],
        )
}

/// Label a set of ultimately periodic words with the verdicts of the
/// given automaton. Order-preserving; neither the automaton nor the
/// sample is changed.
pub fn label_set<A: OmegaAutomaton>(aut: &A, set: &Vec<UpWord>) -> (r: Vec<(UpWord, bool)>)
    ensures
        is_labelling(
            *aut,
            set@.map_values(|w: UpWord| w@),
            r@.map_values(|p: (UpWord, bool)| (p.0@, p.1)),
        ),
{
    let mut r: Vec<(UpWord, bool)> = Vec::new();
    let mut i: usize = 0;
    while i < set.len()
        invariant
            i <= set.len(),
            is_labelling(
                *aut,
                set@.map_values(|w: UpWord| w@).take(i as int),
                r@.map_values(|p: (UpWord, bool)| (p.0@, p.1)),
            ),
        decreases set.len() - i,
    {
        let ghost prev = r@.map_values(|p: (UpWord, bool)| (p.0@, p.1));
        let w = set[i].duplicate();
        let v = aut.accepts(&set[i]);
        let ghost wv = w@;
        r.push((w, v));
        proof {
            let cur = r@.map_values(|p: (UpWord, bool)| (p.0@, p.1));
            assert(cur =~= prev.push((wv, v)));
            let sv = set@.map_values(|w: UpWord| w@);
            assert(sv.take(i + 1).drop_last() =~= sv.take(i as int));
            assert(sv.take(i + 1)[i as int] == sv[i as int]);
        }
        i = i + 1;
    }
    proof {
        let sv = set@.map_values(|w: UpWord| w@);
        assert(sv.take(set@.len() as int) =~= sv);
    }
    r
}

/// Labelling is deterministic: two labellings of the same automaton and
/// the same sample are identical ordered sequences.
pub proof fn lemma_label_deterministic<A: OmegaAutomaton>(
    a: A,
    sample: Seq<UpWordV>,
    r1: Seq<(UpWordV, bool)>,
    r2: Seq<(UpWordV, bool)>,
)
    requires
        is_labelling(a, sample, r1),
        is_labelling(a, sample, r2),
    ensures
        r1 == r2,
{
    assert forall|i: int| 0 <= i < r1.len() implies r1[i] == r2[i] by {
        assert(r1[i].0 == sample[i]);
        assert(r2[i].0 == sample[i]);
        assert(r1[i].1 == a.spec_accepts(sample[i]));
        assert(r2[i].1 == a.spec_accepts(sample[i]));
    }
    assert(r1 =~= r2);
}

} // verus!

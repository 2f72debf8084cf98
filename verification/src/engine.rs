//! The capability interface to the external automata engine: sampling,
//! streamlining, the two-priority reinterpretation of a Büchi-like
//! acceptance coloring, the informativeness predicate, acceptance
//! evaluation and serialization. The pipeline consumes these as opaque
//! capabilities; a scripted stub implementation lives here so the
//! orchestration logic can be exercised independently of a real engine.

use vstd::prelude::*;
use crate::params::{round_log2, MAX_TARGET_SIZE};
use crate::words::{UpWord, UpWordV, MAX_ALPHABET};

verus! {

/// The two supported acceptance-condition variants.
#[derive(Clone, Copy, PartialEq, Eq, Structural)]
pub enum Variant {
    BuchiLike,
    ParityLike,
}

/// Immutable description of one generation request. `lambda`, a real in
/// (0, 1) that biases the random acceptance-condition draw, is carried in
/// thousandths so that the description stays in plain integers.
pub struct AutomatonSpec {
    pub alphabet_size: usize,
    pub target_size: usize,
    pub variant: Variant,
    pub priority_count: Option<u8>,
    pub lambda_millis: u32,
    pub generation_size: usize,
}

impl AutomatonSpec {
    /// Validity: sizes in range, lambda strictly inside (0, 1), a positive
    /// priority count exactly for the parity-like variant, and the
    /// generation size derived by the planner's formula.
    pub open spec fn spec_wf(self) -> bool {
        &&& 1 <= self.alphabet_size <= MAX_ALPHABET
        &&& 2 <= self.target_size <= MAX_TARGET_SIZE
        &&& 0 < self.lambda_millis < 1000
        &&& (self.variant is ParityLike ==> (self.priority_count matches Some(p) && p >= 1))
        &&& (self.variant is BuchiLike ==> self.priority_count is None)
        &&& self.generation_size == self.target_size + round_log2(self.target_size as nat) - 1
    }
}

/// An automaton as the pipeline sees it. The engine behind it is opaque;
/// the spec functions name what its observations return, so that the
/// orchestration can be verified against them.
pub trait OmegaAutomaton: Sized {
    /// Number of states.
    spec fn spec_size(&self) -> nat;

    /// The informativeness predicate, evaluated on this automaton itself.
    spec fn spec_informative(&self) -> bool;

    /// The informativeness predicate, evaluated on the two-priority
    /// reinterpretation of this automaton's acceptance coloring.
    spec fn spec_parity_informative(&self) -> bool;

    /// Acceptance verdict for an ultimately periodic word.
    spec fn spec_accepts(&self, w: UpWordV) -> bool;

    /// Serialized text form.
    spec fn spec_hoa(&self) -> Seq<char>;

    fn size(&self) -> (r: usize)
        ensures
            r as nat == self.spec_size(),
    ;

    fn is_informative(&self) -> (r: bool)
        ensures
            r == self.spec_informative(),
    ;

    /// The structural copy whose boolean coloring is reinterpreted as a
    /// two-priority coloring; only used as the informativeness check
    /// target for the Büchi-like variant.
    fn parity_view(&self) -> (r: Self)
        ensures
            r.spec_informative() == self.spec_parity_informative(),
            r.spec_size() == self.spec_size(),
    ;

    /// Minimization / canonicalization. Nothing is promised of the
    /// result: the generator checks it afterwards.
    fn streamlined(self) -> Self;

    fn accepts(&self, w: &UpWord) -> (r: bool)
        ensures
            r == self.spec_accepts(w@),
    ;

    fn to_hoa(&self) -> (r: String)
        ensures
            r@ == self.spec_hoa(),
    ;
}

/// Source of random candidate automata. Nothing is promised of a sample:
/// the generator re-checks size and informativeness on every candidate.
pub trait EngineSampler<A: OmegaAutomaton> {
    fn sample(&mut self, spec: &AutomatonSpec) -> (r: A)
        requires
            spec.spec_wf(),
    ;
}

/// A stub automaton: it records the observations a real engine would
/// compute, and accepts exactly the words whose first cycle symbol is the
/// favored one.
pub struct ModelAutomaton {
    pub size: usize,
    pub informative: bool,
    pub view_informative: bool,
    pub favored: u8,
    pub hoa: String,
}

impl OmegaAutomaton for ModelAutomaton {
    open spec fn spec_size(&self) -> nat {
        self.size as nat
    }

    open spec fn spec_informative(&self) -> bool {
        self.informative
    }

    open spec fn spec_parity_informative(&self) -> bool {
        self.view_informative
    }

    open spec fn spec_accepts(&self, w: UpWordV) -> bool {
        w.cycle.len() > 0 && w.cycle[0] == self.favored
    }

    open spec fn spec_hoa(&self) -> Seq<char> {
        self.hoa@
    }

    fn size(&self) -> (r: usize) {
        self.size
    }

    fn is_informative(&self) -> (r: bool) {
        self.informative
    }

    fn parity_view(&self) -> (r: Self) {
        ModelAutomaton {
            size: self.size,
            informative: self.view_informative,
            view_informative: self.view_informative,
            favored: self.favored,
            hoa: self.hoa.clone(),
        }
    }

    fn streamlined(self) -> Self {
        self
    }

    fn accepts(&self, w: &UpWord) -> (r: bool) {
        w.cycle.len() > 0 && w.cycle[0] == self.favored
    }

    fn to_hoa(&self) -> (r: String) {
        self.hoa.clone()
    }
}

/// A scripted candidate source: hands out a fixed queue of stub automata
/// in order, then a dead stub once the queue is exhausted. It counts how
/// often it was asked, so a caller can bound the number of draws.
pub struct ScriptedSampler {
    pub queue: Vec<ModelAutomaton>,
    pub calls: usize,
}

impl EngineSampler<ModelAutomaton> for ScriptedSampler {
    fn sample(&mut self, spec: &AutomatonSpec) -> (r: ModelAutomaton) {
        if self.calls < usize::MAX {
            self.calls = self.calls + 1;
        }
        if self.queue.len() > 0 {
            self.queue.remove(0)
        } else {
            ModelAutomaton {
                size: 0,
                informative: false,
                view_informative: false,
                favored: 0,
                hoa: String::new(),
            }
        }
    }
}

} // verus!

//! The immutable run configuration: dataset scale parameters, passed
//! explicitly through the pipeline instead of being read from ambient
//! state.

use vstd::prelude::*;
use crate::params::MAX_TARGET_SIZE;
use crate::words::MAX_ALPHABET;

verus! {

/// Parameters of one dataset-generation run.
pub struct GenerationConfig {
    pub num_symbols: usize,
    pub num_prios: u8,
    pub automata_sizes: Vec<usize>,
    pub automata_per_size: usize,
    pub train_sizes: Vec<usize>,
    pub test_size: usize,
    pub num_sets: usize,
    pub lambda_millis: u32,
    pub max_attempts: usize,
}

impl GenerationConfig {
    /// Validity: alphabet and sizes in the supported ranges, lambda
    /// strictly inside (0, 1), at least one attempt allowed, and no
    /// train/test pair so large that a request count could overflow.
    pub open spec fn spec_wf(self) -> bool {
        &&& 1 <= self.num_symbols <= MAX_ALPHABET
        &&& self.num_prios >= 1
        &&& forall|i: int|
            0 <= i < self.automata_sizes@.len() ==> 2 <= (#[trigger] self.automata_sizes@[i])
                <= MAX_TARGET_SIZE
        &&& forall|i: int|
            0 <= i < self.train_sizes@.len() ==> (#[trigger] self.train_sizes@[i]) + self.test_size
                <= usize::MAX
        &&& 0 < self.lambda_millis < 1000
        &&& self.max_attempts >= 1
    }

    /// Check validity.
    pub fn is_valid(&self) -> (r: bool)
        ensures
            r == self.spec_wf(),
    {
        if !(1 <= self.num_symbols && self.num_symbols <= MAX_ALPHABET) {
            return false;
        }
        if self.num_prios < 1 {
            return false;
        }
        if !(0 < self.lambda_millis && self.lambda_millis < 1000) {
            return false;
        }
        if self.max_attempts < 1 {
            return false;
        }
        let mut i: usize = 0;
        while i < self.automata_sizes.len()
            invariant
                i <= self.automata_sizes@.len(),
                forall|k: int|
                    0 <= k < i ==> 2 <= (#[trigger] self.automata_sizes@[k]) <= MAX_TARGET_SIZE,
            decreases self.automata_sizes@.len() - i,
        {
            if self.automata_sizes[i] < 2 || self.automata_sizes[i] > MAX_TARGET_SIZE {
                return false;
            }
            i = i + 1;
        }
        let mut i: usize = 0;
        while i < self.train_sizes.len()
            invariant
                i <= self.train_sizes@.len(),
                forall|k: int|
                    0 <= k < i ==> (#[trigger] self.train_sizes@[k]) + self.test_size
                        <= usize::MAX,
            decreases self.train_sizes@.len() - i,
        {
            if self.train_sizes[i] > usize::MAX - self.test_size {
                return false;
            }
            i = i + 1;
        }
        true
    }
}

} // verus!

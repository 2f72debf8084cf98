//! Rejection-sampling generation: sample a candidate, streamline it,
//! keep it only if the streamlined size hits the target and the
//! informativeness check holds. An explicit attempt ceiling surfaces an
//! infeasible parameter combination as an error instead of looping
//! forever.

use vstd::prelude::*;
use crate::engine::{AutomatonSpec, EngineSampler, OmegaAutomaton, Variant};
use crate::params::{derive_generation_size, MAX_TARGET_SIZE};
use crate::words::MAX_ALPHABET;

verus! {

/// Generation failure: no candidate within the attempt ceiling satisfied
/// the size and informativeness constraints.
#[derive(Clone, Copy, PartialEq, Eq, Structural, Debug)]
pub enum GenError {
    InfeasibleParameters,
}

/// The accept/reject policy, over what the engine reports of a
/// streamlined candidate: the size must equal the target exactly, and the
/// informativeness predicate must hold — directly for the parity-like
/// variant, on the two-priority reinterpretation for the Büchi-like one.
pub open spec fn acceptable<A: OmegaAutomaton>(sp: AutomatonSpec, a: A) -> bool {
    &&& a.spec_size() == sp.target_size as nat
    &&& match sp.variant {
        Variant::BuchiLike => a.spec_parity_informative(),
        Variant::ParityLike => a.spec_informative(),
    }
}

/// Draw candidates until one is acceptable, at most `max_attempts` times.
/// Every returned automaton has exactly the target size and passes the
/// informativeness check of its variant.
pub fn generate<A: OmegaAutomaton, S: EngineSampler<A>>(
    sp: &AutomatonSpec,
    sampler: &mut S,
    max_attempts: usize,
) -> (r: Result<A, GenError>)
    requires
        sp.spec_wf(),
    ensures
        r matches Ok(a) ==> acceptable(*sp, a),
{
    let mut attempt: usize = 0;
    while attempt < max_attempts
        invariant
            sp.spec_wf(),
        decreases max_attempts - attempt,
    {
        let cand = sampler.sample(sp).streamlined();
        if cand.size() == sp.target_size {
            let informative = match sp.variant {
                Variant::BuchiLike => cand.parity_view().is_informative(),
                Variant::ParityLike => cand.is_informative(),
            };
            if informative {
                return Ok(cand);
            }
        }
        attempt = attempt + 1;
    }
    Err(GenError::InfeasibleParameters)
}

/// Generate a random Büchi-like automaton with `aut_size` states on an
/// alphabet of `num_symbols` symbols. `lambda_millis` (thousandths, in
/// (0, 1)) biases the random acceptance-condition draw. The produced
/// automaton has the exact target size, and its two-priority
/// reinterpretation has an informative right congruence.
pub fn generate_dba<A: OmegaAutomaton, S: EngineSampler<A>>(
    sampler: &mut S,
    num_symbols: usize,
    aut_size: usize,
    lambda_millis: u32,
    max_attempts: usize,
) -> (r: Result<A, GenError>)
    requires
        1 <= num_symbols <= MAX_ALPHABET,
        2 <= aut_size <= MAX_TARGET_SIZE,
        0 < lambda_millis < 1000,
    ensures
        r matches Ok(a) ==> a.spec_size() == aut_size as nat && a.spec_parity_informative(),
{
    let generation_size = derive_generation_size(aut_size);
    let sp = AutomatonSpec {
        alphabet_size: num_symbols,
        target_size: aut_size,
        variant: Variant::BuchiLike,
        priority_count: None,
        lambda_millis,
        generation_size,
    };
    generate(&sp, sampler, max_attempts)
}

/// Generate a random parity-like automaton with `aut_size` states,
/// `num_prios` priorities, on an alphabet of `num_symbols` symbols. The
/// produced automaton has the exact target size and an informative right
/// congruence.
pub fn generate_dpa<A: OmegaAutomaton, S: EngineSampler<A>>(
    sampler: &mut S,
    num_symbols: usize,
    aut_size: usize,
    num_prios: u8,
    lambda_millis: u32,
    max_attempts: usize,
) -> (r: Result<A, GenError>)
    requires
        1 <= num_symbols <= MAX_ALPHABET,
        2 <= aut_size <= MAX_TARGET_SIZE,
        num_prios >= 1,
        0 < lambda_millis < 1000,
    ensures
        r matches Ok(a) ==> a.spec_size() == aut_size as nat && a.spec_informative(),
{
    let generation_size = derive_generation_size(aut_size);
    let sp = AutomatonSpec {
        alphabet_size: num_symbols,
        target_size: aut_size,
        variant: Variant::ParityLike,
        priority_count: Some(num_prios),
        lambda_millis,
        generation_size,
    };
    generate(&sp, sampler, max_attempts)
}

} // verus!

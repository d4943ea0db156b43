//! Token samplers: the greedy sampler and the state of the pseudo-random
//! generator that drives stochastic sampling.
use vstd::prelude::*;

verus! {

/// Picks the most likely token.
#[derive(Debug, Default, Clone)]
pub struct GreedySampler;

/// The generator state used when the seed is 0.
pub const DEFAULT_RNG_STATE: u64 = 0x12345678abcdef;

/// The generator state for a seed: the seed itself, or a fixed non-zero
/// state for seed 0 (a zero state would stay zero forever).
pub open spec fn spec_initial_state(seed: u64) -> u64 {
    if seed == 0 {
        DEFAULT_RNG_STATE
    } else {
        seed
    }
}

/// One xorshift64 step (shifts 13, 7, 17).
pub open spec fn spec_next_state(s: u64) -> u64 {
    let a = s ^ (s << 13u64);
    let b = a ^ (a >> 7u64);
    b ^ (b << 17u64)
}

/// The generator state for `seed`.
pub fn initial_rng_state(seed: u64) -> (r: u64)
    ensures
        r == spec_initial_state(seed),
        r != 0,
{
    if seed == 0 {
        DEFAULT_RNG_STATE
    } else {
        seed
    }
}

/// Advances the generator by one xorshift64 step.
pub fn next_rng_state(state: u64) -> (r: u64)
    ensures
        r == spec_next_state(state),
{
    let a = state ^ (state << 13u64);
    let b = a ^ (a >> 7u64);
    b ^ (b << 17u64)
}

/// A non-zero generator state stays non-zero: each xorshift step is
/// invertible and maps zero to zero.
pub proof fn lemma_state_never_zero(s: u64)
    requires
        s != 0,
    ensures
        spec_next_state(s) != 0,
{
    let a = s ^ (s << 13u64);
    let b = a ^ (a >> 7u64);
    assert(a != 0) by (bit_vector)
        requires
            s != 0,
            a == s ^ (s << 13u64),
    ;
    assert(b != 0) by (bit_vector)
        requires
            a != 0,
            b == a ^ (a >> 7u64),
    ;
    assert(b ^ (b << 17u64) != 0) by (bit_vector)
        requires
            b != 0,
    ;
}

} // verus!

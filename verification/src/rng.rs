use vstd::prelude::*;

verus! {

/// One step of the engine's 64-bit linear-congruential generator.
pub open spec fn lcg_next(s: u64) -> u64 {
    vstd::wrapping::u64_specs::wrapping_add(
        vstd::wrapping::u64_specs::wrapping_mul(s, 6364136223846793005),
        1,
    )
}

/// The generator's state after n steps from the given seed.
pub open spec fn lcg_at(seed: u64, n: nat) -> u64
    decreases n,
{
    if n == 0 {
        seed
    } else {
        lcg_next(lcg_at(seed, (n - 1) as nat))
    }
}

/// Advances the generator one step and returns the new state.
pub fn lcg_rand(state: &mut u64) -> (r: u64)
    ensures
        *final(state) == lcg_next(*old(state)),
        r == lcg_next(*old(state)),
{
    *state = state.wrapping_mul(6364136223846793005).wrapping_add(1);
    *state
}

} // verus!

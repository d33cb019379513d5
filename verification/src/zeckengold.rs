use vstd::prelude::*;
use vstd::arithmetic::div_mod::{lemma_add_mod_noop, lemma_small_mod, lemma_mod_bound};

verus! {

/// The multiplier of the linear congruential generator that seeds the
/// lattice base vectors.
pub const LATTICE_MULTIPLIER: u64 = 6364136223846793005;

/// One step of the generator: `state * LATTICE_MULTIPLIER + increment`,
/// wrapping at 2^64.
pub open spec fn lcg_step(state: u64, increment: u64) -> u64 {
    state.wrapping_mul(LATTICE_MULTIPLIER).wrapping_add(increment)
}

/// The generator state of base vector `index` after `k` draws: it starts
/// from `lcg_step(seed, index + 1)`, and draw `j` steps with increment `j + 1`.
pub open spec fn lattice_state(seed: u64, index: u64, k: nat) -> u64
    decreases k,
{
    if k == 0 {
        lcg_step(seed, (index + 1) as u64)
    } else {
        lcg_step(lattice_state(seed, index, (k - 1) as nat), k as u64)
    }
}

/// The raw 31-bit draws from which base vector `index` of a Fibonacci
/// lattice is built, one per dimension: the top bits (`>> 33`) of each
/// successive generator state.
pub fn lattice_draws(seed: u64, index: usize, d: usize) -> (draws: Vec<u32>)
    requires
        index < u64::MAX,
        d < u64::MAX,
    ensures
        draws@.len() == d,
        forall|k: int| 0 <= k < d ==> #[trigger] draws@[k] == (lattice_state(seed, index as u64, (k + 1) as nat) >> 33u64) as u32,
{
    let mut state: u64 = seed.wrapping_mul(LATTICE_MULTIPLIER).wrapping_add(index as u64 + 1);
    let mut draws: Vec<u32> = Vec::new();
    let mut dim: usize = 0;
    while dim < d
        invariant
            dim <= d,
            d < u64::MAX,
            index < u64::MAX,
            state == lattice_state(seed, index as u64, dim as nat),
            draws@.len() == dim,
            forall|k: int| 0 <= k < dim ==> #[trigger] draws@[k] == (lattice_state(seed, index as u64, (k + 1) as nat) >> 33u64) as u32,
        decreases d - dim,
    {
        state = state.wrapping_mul(LATTICE_MULTIPLIER).wrapping_add(dim as u64 + 1);
        draws.push((state >> 33u64) as u32);
        dim = dim + 1;
    }
    draws
}

proof fn lemma_lcg_step_value(state: u64, increment: u64)
    ensures
        lcg_step(state, increment) as int == (state as int * LATTICE_MULTIPLIER as int + increment as int) % 0x1_0000_0000_0000_0000,
{
    let m: int = 0x1_0000_0000_0000_0000;
    let p = state as int * LATTICE_MULTIPLIER as int;
    let st = state as int;
    assert(st * 6364136223846793005 >= 0) by (nonlinear_arith)
        requires
            st >= 0,
    ;
    assert(p == st * 6364136223846793005);
    lemma_mod_bound(p, m);
    lemma_add_mod_noop(p, increment as int, m);
    lemma_small_mod(increment as nat, m as nat);
    let t = state.wrapping_mul(LATTICE_MULTIPLIER);
    assert(t as int == p % m);
    lemma_mod_bound(p % m + increment as int, m);
    if p % m + increment as int >= m {
        assert((p % m + increment as int) % m == p % m + increment as int - m) by {
            vstd::arithmetic::div_mod::lemma_fundamental_div_mod_converse(p % m + increment as int, m, 1, p % m + increment as int - m);
        }
    } else {
        lemma_small_mod((p % m + increment as int) as nat, m as nat);
    }
}

/// The generator of base `index` starts from `seed * LATTICE_MULTIPLIER + index + 1`,
/// wrapping at 2^64.
pub proof fn law_lattice_start(seed: u64, index: u64)
    requires
        index < u64::MAX,
    ensures
        lattice_state(seed, index, 0) as int == (seed as int * LATTICE_MULTIPLIER as int + index as int + 1) % 0x1_0000_0000_0000_0000,
{
    lemma_lcg_step_value(seed, (index + 1) as u64);
}

/// Each draw advances the generator by multiplying with `LATTICE_MULTIPLIER`
/// and adding the (1-based) number of the draw, wrapping at 2^64.
pub proof fn law_lattice_step(seed: u64, index: u64, k: nat)
    requires
        k + 1 <= u64::MAX,
    ensures
        lattice_state(seed, index, k + 1) as int == (lattice_state(seed, index, k) as int * LATTICE_MULTIPLIER as int + k + 1) % 0x1_0000_0000_0000_0000,
{
    lemma_lcg_step_value(lattice_state(seed, index, k), (k + 1) as u64);
}

/// The plain bundler: tracks are added up without cleaning or rotation.
#[derive(Clone, Copy, Debug)]
pub struct MonoBundler {
    pub d: usize,
}

impl MonoBundler {
    pub fn new(d: usize) -> (b: Self)
        ensures
            b.d == d,
    {
        MonoBundler { d }
    }
}

} // verus!

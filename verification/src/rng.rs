//! Deterministic 64-bit linear congruential generators used by the particle
//! effects.  Both generators advance with the same step
//! `state = state * 6364136223846793005 + 1442695040888963407 (mod 2^64)`,
//! so a given seed always replays the same stream.
use vstd::prelude::*;

verus! {

/// Multiplier of the linear congruential step.
pub const LCG_MUL: u64 = 6_364_136_223_846_793_005u64;

/// Increment of the linear congruential step.
pub const LCG_ADD: u64 = 1_442_695_040_888_963_407u64;

/// Seed substituted for zero, which would start a degenerate sequence.
pub const ZERO_SEED_REPLACEMENT: u64 = 0xDEAD_BEEF_CAFE_BABEu64;

/// One step of the generator.
pub open spec fn lcg_step(state: u64) -> u64 {
    state.wrapping_mul(LCG_MUL).wrapping_add(LCG_ADD)
}

/// State after `n` steps from `state`.
pub open spec fn lcg_iterate(state: u64, n: nat) -> u64
    decreases n,
{
    if n == 0 {
        state
    } else {
        lcg_step(lcg_iterate(state, (n - 1) as nat))
    }
}

/// The first `n` outputs of a generator whose current state is `state`
/// (each output is the state just produced).
pub open spec fn lcg_outputs(state: u64, n: nat) -> Seq<u64>
    decreases n,
{
    if n == 0 {
        Seq::empty()
    } else {
        lcg_outputs(state, (n - 1) as nat).push(lcg_iterate(state, n))
    }
}

/// Initial state of an [`LcgRng`] built from `seed`.
pub open spec fn lcg_initial_state(seed: u64) -> u64 {
    if seed == 0 {
        ZERO_SEED_REPLACEMENT
    } else {
        seed
    }
}

/// 64-bit multiplicative LCG used by the VFX engine.
pub struct LcgRng {
    state: u64,
}

impl LcgRng {
    /// The generator's current state.
    pub closed spec fn state(&self) -> u64 {
        self.state
    }

    /// Create a new RNG with the given seed; a zero seed is replaced by a
    /// fixed non-zero constant.
    pub fn new(seed: u64) -> (r: LcgRng)
        ensures
            r.state() == lcg_initial_state(seed),
            r.state() != 0,
    {
        let state = if seed == 0 {
            ZERO_SEED_REPLACEMENT
        } else {
            seed
        };
        LcgRng { state }
    }

    /// Advance the state and return it.
    pub fn next_u64(&mut self) -> (r: u64)
        ensures
            r == lcg_step(old(self).state()),
            final(self).state() == r,
    {
        self.state = self.state.wrapping_mul(LCG_MUL).wrapping_add(LCG_ADD);
        self.state
    }

    /// Advance the state and return its top 32 bits (the bits from which a
    /// uniform value in `[0, 1)` is formed).
    pub fn next_high_bits(&mut self) -> (r: u32)
        ensures
            final(self).state() == lcg_step(old(self).state()),
            r as int == final(self).state() as int / 0x1_0000_0000,
    {
        let v = self.next_u64();
        let hi: u64 = v >> 32u64;
        assert(hi == v / 0x1_0000_0000) by (bit_vector)
            requires
                hi == v >> 32u64,
        ;
        hi as u32
    }
}

/// Seed the VFX engine derives from its particle budget: one generator step
/// applied to `max_particles`.
pub fn engine_seed(max_particles: usize) -> (r: u64)
    ensures
        r == lcg_step(max_particles as u64),
{
    (max_particles as u64).wrapping_mul(LCG_MUL).wrapping_add(LCG_ADD)
}

/// Lightweight generator of the renderer's particle system.  Unlike
/// [`LcgRng`] it keeps a zero seed as is.
pub struct Rng {
    state: u64,
}

impl Rng {
    /// The generator's current state.
    pub closed spec fn state(&self) -> u64 {
        self.state
    }

    /// Create a generator whose state is exactly `seed`.
    pub fn new(seed: u64) -> (r: Rng)
        ensures
            r.state() == seed,
    {
        Rng { state: seed }
    }

    /// Advance the state and return its top 23 bits, the fraction bits of a
    /// float in `[1, 2)` from which a value in `[0, 1)` is formed.
    pub fn next_fraction_bits(&mut self) -> (r: u32)
        ensures
            final(self).state() == lcg_step(old(self).state()),
            r as int == final(self).state() as int / 0x200_0000_0000,
            r < 0x80_0000,
    {
        self.state = self.state.wrapping_mul(LCG_MUL).wrapping_add(LCG_ADD);
        let s = self.state;
        let hi: u64 = s >> 41u64;
        assert(hi == s / 0x200_0000_0000 && hi < 0x80_0000) by (bit_vector)
            requires
                hi == s >> 41u64,
        ;
        hi as u32
    }
}

/// Law: the stream of an [`LcgRng`] is a function of its seed alone — the
/// `n`-th value produced after `new(seed)` is `lcg_iterate` of the initial
/// state, so two generators built from one seed produce the same values.
pub proof fn lemma_stream_determined_by_seed(seed: u64, n: nat)
    ensures
        lcg_outputs(lcg_initial_state(seed), n).len() == n,
        forall|i: int|
            0 <= i < n ==> #[trigger] lcg_outputs(lcg_initial_state(seed), n)[i] == lcg_iterate(
                lcg_initial_state(seed),
                (i + 1) as nat,
            ),
    decreases n,
{
    if n > 0 {
        lemma_stream_determined_by_seed(seed, (n - 1) as nat);
    }
}

} // verus!

use vstd::prelude::*;

verus! {

/// Multiplier of the linear-congruential transition.
pub const LCG_MUL: u32 = 1664525;

/// Increment of the linear-congruential transition.
pub const LCG_INC: u32 = 1013904223;

/// One transition of the generator: `s * LCG_MUL + LCG_INC (mod 2^32)`.
pub open spec fn lcg_next(s: u32) -> u32 {
    ((s as int * LCG_MUL as int + LCG_INC as int) % 0x1_0000_0000) as u32
}

/// The state reached from `s` after `n` transitions.
pub open spec fn lcg_iter(s: u32, n: nat) -> u32
    decreases n,
{
    if n == 0 {
        s
    } else {
        lcg_next(lcg_iter(s, (n - 1) as nat))
    }
}

/// The 24 bits above bit 8 of a state: the numerator of a uniform sample
/// in `[0, 1)` with denominator `2^24`.
pub open spec fn sample_bits(s: u32) -> u32 {
    ((s as int / 256) % 0x100_0000) as u32
}

/// A deterministic 32-bit linear-congruential generator.
pub struct Lcg {
    state: u32,
}

impl Lcg {
    /// The current internal state.
    pub closed spec fn state(&self) -> u32 {
        self.state
    }

    /// A generator seeded with `seed`.
    pub fn new(seed: u32) -> (r: Self)
        ensures
            r.state() == seed,
    {
        Lcg { state: seed }
    }

    /// Advances the generator one step and returns the new state.
    pub fn next_u32(&mut self) -> (r: u32)
        ensures
            r == lcg_next(old(self).state()),
            final(self).state() == r,
    {
        assert(self.state as u64 * LCG_MUL as u64 <= 0xFFFF_FFFFu64 * 1664525u64) by (nonlinear_arith);
        let wide: u64 = self.state as u64 * LCG_MUL as u64 + LCG_INC as u64;
        let next = (wide % 0x1_0000_0000) as u32;
        self.state = next;
        next
    }

    /// Advances the generator one step and returns the sample bits of the
    /// new state: a value in `[0, 2^24)`, to be read as that value over `2^24`.
    pub fn next_sample_bits(&mut self) -> (r: u32)
        ensures
            final(self).state() == lcg_next(old(self).state()),
            r == sample_bits(final(self).state()),
            r < 0x100_0000,
    {
        let s = self.next_u32();
        let r = (s >> 8) & 0x00FF_FFFF;
        assert(r == sample_bits(s) && r < 0x100_0000) by (bit_vector)
            requires r == (s >> 8) & 0x00FF_FFFF;
        r
    }
}

/// Two generators built from the same seed produce the same stream: the
/// state after any number of draws is a function of the seed alone.
pub proof fn lemma_same_seed_same_stream(a: Lcg, b: Lcg, n: nat)
    requires
        a.state() == b.state(),
    ensures
        lcg_iter(a.state(), n) == lcg_iter(b.state(), n),
{
}

} // verus!

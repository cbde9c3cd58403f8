//! The random source: a SplitMix64 generator.
//!
//! The generator is a pure function of its seed, so parameters drawn from
//! two generators with the same seed are the same.
use vstd::prelude::*;

verus! {

/// The state that follows `s`.
pub open spec fn next_state(s: u64) -> u64 {
    s.wrapping_add(0x9E37_79B9_7F4A_7C15)
}

/// The output function of the generator.
pub open spec fn scramble(z: u64) -> u64 {
    let a = (z ^ (z >> 30)).wrapping_mul(0xBF58_476D_1CE4_E5B9);
    let b = (a ^ (a >> 27)).wrapping_mul(0x94D0_49BB_1331_11EB);
    b ^ (b >> 31)
}

/// The number drawn from a generator in state `s`: the upper half of the
/// output for the state that follows `s`.
pub open spec fn draw(s: u64) -> u32 {
    (scramble(next_state(s)) >> 32) as u32
}

/// The state of a generator that started in state `s` and was drawn from
/// `n` times.
pub open spec fn skip(s: u64, n: nat) -> u64
    decreases n,
{
    if n == 0 {
        s
    } else {
        next_state(skip(s, (n - 1) as nat))
    }
}

/// The scalar between `lo` and `up`, both ends counted, that the draw `r` picks.
pub open spec fn uniform_value(lo: int, up: int, r: u32) -> int {
    lo + (r * (up - lo + 1)) / 0x1_0000_0000
}

/// A draw picks a scalar inside the range.
pub proof fn lemma_uniform_in_range(lo: int, up: int, r: u32)
    requires
        lo <= up,
    ensures
        lo <= uniform_value(lo, up, r) <= up,
{
    let span: int = up - lo + 1;
    let p: int = r * span;
    assert(0 <= p < 0x1_0000_0000 * span) by (nonlinear_arith)
        requires
            p == r * span,
            0 <= r < 0x1_0000_0000,
            span >= 1,
    ;
    vstd::arithmetic::div_mod::lemma_fundamental_div_mod(p, 0x1_0000_0000);
    vstd::arithmetic::div_mod::lemma_mod_bound(p, 0x1_0000_0000);
}

/// A seeded random number generator.
#[derive(Debug, Clone, Copy, PartialEq, Eq)]
pub struct Rng {
    state: u64,
}

impl View for Rng {
    type V = u64;

    closed spec fn view(&self) -> u64 {
        self.state
    }
}

impl Rng {
    /// A generator in the state `seed`.
    pub fn new(seed: u64) -> (rng: Rng)
        ensures
            rng@ == seed,
    {
        Rng { state: seed }
    }

    /// The state of the generator.
    pub fn state(&self) -> (s: u64)
        ensures
            s == self@,
    {
        self.state
    }

    /// Draws the next number.
    pub fn next_u32(&mut self) -> (r: u32)
        ensures
            r == draw(old(self)@),
            final(self)@ == next_state(old(self)@),
    {
        self.state = self.state.wrapping_add(0x9E37_79B9_7F4A_7C15);
        let z: u64 = self.state;
        let a: u64 = (z ^ (z >> 30)).wrapping_mul(0xBF58_476D_1CE4_E5B9);
        let b: u64 = (a ^ (a >> 27)).wrapping_mul(0x94D0_49BB_1331_11EB);
        let out: u64 = b ^ (b >> 31);
        (out >> 32) as u32
    }

    /// Draws a scalar between `lo` and `up`, both ends counted.
    pub fn uniform(&mut self, lo: i32, up: i32) -> (v: i32)
        requires
            lo <= up,
        ensures
            v == uniform_value(lo as int, up as int, draw(old(self)@)),
            lo <= v <= up,
            final(self)@ == next_state(old(self)@),
    {
        let r: u32 = self.next_u32();
        let span: u64 = (up as i64 - lo as i64 + 1) as u64;
        proof {
            lemma_uniform_in_range(lo as int, up as int, r);
            assert(r * span <= 0xffff_ffff * 0x1_0000_0000) by (nonlinear_arith)
                requires
                    0 <= r <= 0xffff_ffff,
                    1 <= span <= 0x1_0000_0000,
            ;
        }
        let offset: u64 = (r as u64 * span) / 0x1_0000_0000;
        (lo as i64 + offset as i64) as i32
    }
}

} // verus!

//! The entropy source: a xoroshiro128+ generator whose two state words are
//! filled by expanding a 64-bit seed through the splitmix64 mixing function.
//! The whole construction is deterministic: one seed fixes the entire
//! output sequence.

use vstd::prelude::*;

verus! {

/// The splitmix64 increment.
pub const SM64_GAMMA: u64 = 0x9E3779B97F4A7C15;

/// First splitmix64 multiplier.
pub const SM64_MUL1: u64 = 0xBF58476D1CE4E5B9;

/// Second splitmix64 multiplier.
pub const SM64_MUL2: u64 = 0x94D049BB133111EB;

/// One splitmix64 state step: add the gamma constant, wrapping.
pub open spec fn sm64_step(x: u64) -> u64 {
    vstd::wrapping::u64_specs::wrapping_add(x, SM64_GAMMA)
}

/// The splitmix64 avalanche: two xor-shift-multiply rounds and a final
/// xor-shift.
pub open spec fn sm64_mix(z: u64) -> u64 {
    let z1 = vstd::wrapping::u64_specs::wrapping_mul(z ^ (z >> 30), SM64_MUL1);
    let z2 = vstd::wrapping::u64_specs::wrapping_mul(z1 ^ (z1 >> 27), SM64_MUL2);
    z2 ^ (z2 >> 31)
}

/// The word splitmix64 emits from state `x`.
pub open spec fn sm64_draw(x: u64) -> u64 {
    sm64_mix(sm64_step(x))
}

/// The xoroshiro128+ state that a seed expands to: two consecutive
/// splitmix64 draws.
pub open spec fn seeded_state(seed: u64) -> (u64, u64) {
    (sm64_draw(seed), sm64_draw(sm64_step(seed)))
}

/// Rotate a 64-bit word left by 55 bits.
pub open spec fn rotl55(x: u64) -> u64 {
    (x << 55) | (x >> 9)
}

/// Rotate a 64-bit word left by 36 bits.
pub open spec fn rotl36(x: u64) -> u64 {
    (x << 36) | (x >> 28)
}

/// The word xoroshiro128+ emits from a state: the wrapping sum of its halves.
pub open spec fn xoro_sum(s: (u64, u64)) -> u64 {
    vstd::wrapping::u64_specs::wrapping_add(s.0, s.1)
}

/// One xoroshiro128+ state transition.
pub open spec fn xoro_step(s: (u64, u64)) -> (u64, u64) {
    let t = s.1 ^ s.0;
    ((rotl55(s.0) ^ t ^ (t << 14)), rotl36(t))
}

/// The state after `n` transitions.
pub open spec fn state_after(s: (u64, u64), n: nat) -> (u64, u64)
    decreases n,
{
    if n == 0 {
        s
    } else {
        xoro_step(state_after(s, (n - 1) as nat))
    }
}

/// Running `m` transitions and then `p` more is running `m + p`.
pub proof fn lemma_state_after_add(s: (u64, u64), m: nat, p: nat)
    ensures
        state_after(s, m + p) == state_after(state_after(s, m), p),
    decreases p,
{
    if p > 0 {
        lemma_state_after_add(s, m, (p - 1) as nat);
        assert(m + p == (m + (p - 1) as nat) + 1);
    }
}

/// A seedable xoroshiro128+ generator owning its two words of state.
pub struct Xoroshiro128 {
    s0: u64,
    s1: u64,
}

impl Xoroshiro128 {
    /// The generator's state as a pair of words.
    pub closed spec fn state(&self) -> (u64, u64) {
        (self.s0, self.s1)
    }

    /// Expands `seed` into the initial state through two splitmix64 draws.
    pub fn from_seed(seed: u64) -> (r: Self)
        ensures
            r.state() == seeded_state(seed),
    {
        let x1 = seed.wrapping_add(SM64_GAMMA);
        let s0 = mix(x1);
        let x2 = x1.wrapping_add(SM64_GAMMA);
        let s1 = mix(x2);
        Xoroshiro128 { s0, s1 }
    }

    /// Emits the next 64-bit word and advances the state by one transition.
    pub fn next_u64(&mut self) -> (r: u64)
        ensures
            r == xoro_sum(old(self).state()),
            final(self).state() == xoro_step(old(self).state()),
    {
        let s0 = self.s0;
        let s1 = self.s1;
        let result = s0.wrapping_add(s1);
        let t = s1 ^ s0;
        self.s0 = ((s0 << 55) | (s0 >> 9)) ^ t ^ (t << 14);
        self.s1 = (t << 36) | (t >> 28);
        result
    }
}

/// The splitmix64 avalanche over a state word.
fn mix(z: u64) -> (r: u64)
    ensures
        r == sm64_mix(z),
{
    let z1 = (z ^ (z >> 30)).wrapping_mul(SM64_MUL1);
    let z2 = (z1 ^ (z1 >> 27)).wrapping_mul(SM64_MUL2);
    z2 ^ (z2 >> 31)
}

} // verus!

use vstd::prelude::*;

verus! {

use vstd::wrapping::u64_specs;

/// The additive constant of the splitmix64 state transition.
pub const SPLITMIX_PHI: u64 = 0x9e3779b97f4a7c15;

/// A deterministic xoshiro256+ pseudo-random generator, seeded from a single
/// 64-bit value through four splitmix64 steps.  The whole search threads one
/// generator through descent and rollouts, so a fixed seed fixes the run.
pub struct Xoshiro256Plus {
    pub s0: u64,
    pub s1: u64,
    pub s2: u64,
    pub s3: u64,
}

/// One splitmix64 step: the new state and the mixed output word.
pub open spec fn splitmix_step_model(x: u64) -> (u64, u64) {
    let x2 = u64_specs::wrapping_add(x, SPLITMIX_PHI);
    let z1 = u64_specs::wrapping_mul(x2 ^ (x2 >> 30), 0xbf58476d1ce4e5b9);
    let z2 = u64_specs::wrapping_mul(z1 ^ (z1 >> 27), 0x94d049bb133111eb);
    (x2, z2 ^ (z2 >> 31))
}

/// The generator state seeded from a 64-bit value.
pub open spec fn seed_model(seed: u64) -> Xoshiro256Plus {
    let r0 = splitmix_step_model(seed);
    let r1 = splitmix_step_model(r0.0);
    let r2 = splitmix_step_model(r1.0);
    let r3 = splitmix_step_model(r2.0);
    Xoshiro256Plus { s0: r0.1, s1: r1.1, s2: r2.1, s3: r3.1 }
}

/// One xoshiro256+ step: the output word and the new state.
pub open spec fn next_model(s: Xoshiro256Plus) -> (u64, Xoshiro256Plus) {
    let out = u64_specs::wrapping_add(s.s0, s.s3);
    let t = s.s1 << 17u64;
    let s2a = s.s2 ^ s.s0;
    let s3a = s.s3 ^ s.s1;
    let s1b = s.s1 ^ s2a;
    let s0b = s.s0 ^ s3a;
    let s2b = s2a ^ t;
    let s3b = (s3a << 45u64) | (s3a >> 19u64);
    (out, Xoshiro256Plus { s0: s0b, s1: s1b, s2: s2b, s3: s3b })
}

fn splitmix_step(x: u64) -> (r: (u64, u64))
    ensures
        r == splitmix_step_model(x),
{
    let x2 = x.wrapping_add(SPLITMIX_PHI);
    let z1 = (x2 ^ (x2 >> 30)).wrapping_mul(0xbf58476d1ce4e5b9);
    let z2 = (z1 ^ (z1 >> 27)).wrapping_mul(0x94d049bb133111eb);
    (x2, z2 ^ (z2 >> 31))
}

impl Xoshiro256Plus {
    /// Builds the generator from a 64-bit seed, exactly as `seed_model` says.
    pub fn seed_from_u64(seed: u64) -> (r: Self)
        ensures
            r == seed_model(seed),
    {
        let r0 = splitmix_step(seed);
        let r1 = splitmix_step(r0.0);
        let r2 = splitmix_step(r1.0);
        let r3 = splitmix_step(r2.0);
        Xoshiro256Plus { s0: r0.1, s1: r1.1, s2: r2.1, s3: r3.1 }
    }

    /// Draws the next 64-bit word and advances the state, exactly as
    /// `next_model` says.
    pub fn next_u64(&mut self) -> (r: u64)
        ensures
            r == next_model(*old(self)).0,
            *final(self) == next_model(*old(self)).1,
    {
        let out = self.s0.wrapping_add(self.s3);
        let t = self.s1 << 17u64;
        self.s2 = self.s2 ^ self.s0;
        self.s3 = self.s3 ^ self.s1;
        self.s1 = self.s1 ^ self.s2;
        self.s0 = self.s0 ^ self.s3;
        self.s2 = self.s2 ^ t;
        self.s3 = (self.s3 << 45u64) | (self.s3 >> 19u64);
        out
    }

    /// Draws a value below `bound` by reducing the next word modulo `bound`.
    pub fn next_below(&mut self, bound: u64) -> (r: u64)
        requires
            bound >= 1,
        ensures
            r == next_model(*old(self)).0 % bound,
            r < bound,
            *final(self) == next_model(*old(self)).1,
    {
        let word = self.next_u64();
        word % bound
    }
}

} // verus!

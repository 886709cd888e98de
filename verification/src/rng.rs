//! Deterministic pseudo-random streams for the simulation.
//!
//! Every module owns one or more streams seeded from a base seed XORed with
//! a module-specific constant, so modules are independently reproducible.
//! The generator is the xoshiro256++ scrambled-linear generator, seeded
//! through four steps of the splitmix64 sequence; both step functions are
//! fully specified, so everything downstream of a seed is a mathematical
//! function of that seed.

use vstd::prelude::*;

verus! {

use vstd::wrapping::u64_specs;

/// State of one deterministic stream.
#[derive(Copy, Clone, Debug, PartialEq, Eq, Structural)]
pub struct SimRng {
    pub s0: u64,
    pub s1: u64,
    pub s2: u64,
    pub s3: u64,
}

/// Left rotation of a 64-bit word.
pub open spec fn spec_rotl(x: u64, k: u64) -> u64 {
    (x << k) | (x >> (64 - k) as u64)
}

/// The splitmix64 state advance.
pub open spec fn splitmix_state(x: u64) -> u64 {
    u64_specs::wrapping_add(x, 0x9E3779B97F4A7C15u64)
}

/// The splitmix64 output mix of an advanced state.
pub open spec fn splitmix_mix(z0: u64) -> u64 {
    let z1 = u64_specs::wrapping_mul(z0 ^ (z0 >> 30u64), 0xBF58476D1CE4E5B9u64);
    let z2 = u64_specs::wrapping_mul(z1 ^ (z1 >> 27u64), 0x94D049BB133111EBu64);
    z2 ^ (z2 >> 31u64)
}

/// The stream state seeded from a 64-bit seed: four splitmix64 outputs.
pub open spec fn seed_spec(seed: u64) -> SimRng {
    let x1 = splitmix_state(seed);
    let x2 = splitmix_state(x1);
    let x3 = splitmix_state(x2);
    let x4 = splitmix_state(x3);
    SimRng { s0: splitmix_mix(x1), s1: splitmix_mix(x2), s2: splitmix_mix(x3), s3: splitmix_mix(x4) }
}

/// The output word of the current state (xoshiro256++).
pub open spec fn rng_out(s: SimRng) -> u64 {
    u64_specs::wrapping_add(spec_rotl(u64_specs::wrapping_add(s.s0, s.s3), 23), s.s0)
}

/// The state after one draw (xoshiro256++).
pub open spec fn rng_step(s: SimRng) -> SimRng {
    let t = s.s1 << 17u64;
    let s2a = s.s2 ^ s.s0;
    let s3a = s.s3 ^ s.s1;
    let s1a = s.s1 ^ s2a;
    let s0a = s.s0 ^ s3a;
    SimRng { s0: s0a, s1: s1a, s2: s2a ^ t, s3: spec_rotl(s3a, 45) }
}

/// Left rotation of a 64-bit word.
#[inline]
fn rotl(x: u64, k: u64) -> (r: u64)
    requires
        0 < k < 64,
    ensures
        r == spec_rotl(x, k),
{
    (x << k) | (x >> (64 - k))
}

/// One splitmix64 output mix.
#[inline]
fn splitmix_mix_exec(z0: u64) -> (r: u64)
    ensures
        r == splitmix_mix(z0),
{
    let z1 = (z0 ^ (z0 >> 30)).wrapping_mul(0xBF58476D1CE4E5B9);
    let z2 = (z1 ^ (z1 >> 27)).wrapping_mul(0x94D049BB133111EB);
    z2 ^ (z2 >> 31)
}

impl SimRng {
    /// A stream seeded from a 64-bit seed via splitmix64.
    pub fn seed_from_u64(seed: u64) -> (r: SimRng)
        ensures
            r == seed_spec(seed),
    {
        let x1 = seed.wrapping_add(0x9E3779B97F4A7C15);
        let x2 = x1.wrapping_add(0x9E3779B97F4A7C15);
        let x3 = x2.wrapping_add(0x9E3779B97F4A7C15);
        let x4 = x3.wrapping_add(0x9E3779B97F4A7C15);
        SimRng {
            s0: splitmix_mix_exec(x1),
            s1: splitmix_mix_exec(x2),
            s2: splitmix_mix_exec(x3),
            s3: splitmix_mix_exec(x4),
        }
    }

    /// Draw the next 64-bit word and advance the stream.
    pub fn next_u64(&mut self) -> (r: u64)
        ensures
            r == rng_out(*old(self)),
            *final(self) == rng_step(*old(self)),
    {
        let result = rotl(self.s0.wrapping_add(self.s3), 23).wrapping_add(self.s0);
        let t = self.s1 << 17u64;
        self.s2 = self.s2 ^ self.s0;
        self.s3 = self.s3 ^ self.s1;
        self.s1 = self.s1 ^ self.s2;
        self.s0 = self.s0 ^ self.s3;
        self.s2 = self.s2 ^ t;
        self.s3 = rotl(self.s3, 45);
        result
    }

    /// Draw a value below `n`, advancing the stream by one draw.
    pub fn next_below(&mut self, n: u64) -> (r: u64)
        requires
            n > 0,
        ensures
            r == rng_out(*old(self)) % n,
            r < n,
            *final(self) == rng_step(*old(self)),
    {
        let v = self.next_u64();
        v % n
    }
}

} // verus!

//! The source of randomness for the sampler: a small deterministic generator
//! with explicit state, one instance per rendering worker.
//!
//! Ambient thread-local randomness would make runs irreproducible and would
//! serialize concurrent workers; instead every random-consuming function
//! takes a generator handle, and each step of the generator is pinned down by
//! the specification, so a seeded run is a pure function of its seed.

use vstd::prelude::*;

use crate::scalar::{rat_le, rat_lt, rat_mul, rat_norm, rat_one, rat_sub, rat_add, rat_zero, Q, Rat, GRID};

verus! {

/// The mixing function of the generator (splitmix64's finalizer).  Opaque:
/// callers only ever compare draws for equality.
#[verifier::opaque]
pub open spec fn rng_mix(z: u64) -> u64 {
    let z1 = (z ^ (z >> 30)).wrapping_mul(0xBF58_476D_1CE4_E5B9);
    let z2 = (z1 ^ (z1 >> 27)).wrapping_mul(0x94D0_49BB_1331_11EB);
    z2 ^ (z2 >> 31)
}

/// The state after one draw.
pub open spec fn rng_next(s: u64) -> u64 {
    s.wrapping_add(0x9E37_79B9_7F4A_7C15)
}

/// The value of one draw.
pub open spec fn rng_out(s: u64) -> u64 {
    rng_mix(rng_next(s))
}

/// One draw scaled into `[0, 1)`: the top half of the drawn word over the
/// grid denominator.
pub open spec fn rng_unit(s: u64) -> Rat {
    Rat { n: (rng_out(s) >> 32) as int, d: GRID as int }
}

/// One draw scaled into `[lo, hi)` as `lo + (hi - lo) * u`.
pub open spec fn rng_range(s: u64, lo: Rat, hi: Rat) -> Rat {
    rat_norm(rat_add(lo, rat_norm(rat_mul(rat_norm(rat_sub(hi, lo)), rng_unit(s)))))
}

/// A deterministic pseudo-random generator with explicit state.
#[derive(Clone, Copy, Debug)]
pub struct Prng {
    state: u64,
}

impl View for Prng {
    type V = u64;

    closed spec fn view(&self) -> u64 {
        self.state
    }
}

impl Prng {
    /// A generator starting from the given seed.
    pub fn new(seed: u64) -> (r: Prng)
        ensures
            r@ == seed,
    {
        Prng { state: seed }
    }

    /// A generator seeded from the machine's randomness; every draw after
    /// seeding is still a pure function of the seed.
    pub fn from_entropy() -> Prng {
        Prng { state: entropy_u64() }
    }

    /// One raw draw.
    pub fn next_u64(&mut self) -> (r: u64)
        ensures
            final(self)@ == rng_next(old(self)@),
            r == rng_out(old(self)@),
    {
        proof {
            reveal(rng_mix);
        }
        self.state = self.state.wrapping_add(0x9E37_79B9_7F4A_7C15);
        let z = self.state;
        let z1 = (z ^ (z >> 30)).wrapping_mul(0xBF58_476D_1CE4_E5B9);
        let z2 = (z1 ^ (z1 >> 27)).wrapping_mul(0x94D0_49BB_1331_11EB);
        z2 ^ (z2 >> 31)
    }

    /// One draw scaled into `[0, 1)`.
    pub fn next_unit(&mut self) -> (r: Q)
        ensures
            final(self)@ == rng_next(old(self)@),
            r@ == rng_unit(old(self)@),
            rat_le(rat_zero(), r@),
            rat_lt(r@, rat_one()),
    {
        let word = self.next_u64();
        let top: u64 = word >> 32;
        proof {
            assert(top < 0x1_0000_0000) by (bit_vector)
                requires
                    top == word >> 32,
            ;
        }
        Q::from_grid(top as i128)
    }
}

/// Relies on rand::random: one machine-random word for seeding; nothing is
/// assumed of its value.
#[verifier::external_body]
fn entropy_u64() -> u64 {
    rand::random::<u64>()
}

} // verus!

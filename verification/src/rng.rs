//! The injected uniform random source. Placement is reproducible under a
//! fixed seed; the ghost draw counter lets contracts bound how much
//! randomness a phase may consume.

use vstd::prelude::*;

verus! {

/// A small seeded linear-congruential generator offering the engine's one
/// primitive: a draw in `[0, n)`. Nothing is claimed about the distribution;
/// contracts only promise the range and count the draws.
pub struct Rng {
    state: u64,
    draws: Ghost<nat>,
}

impl Rng {
    /// How many draws this source has served so far (ghost bookkeeping).
    pub closed spec fn draw_count(self) -> nat {
        self.draws@
    }

    pub fn new(seed: u64) -> (r: Rng)
        ensures
            r.draw_count() == 0,
    {
        Rng { state: seed, draws: Ghost(0) }
    }

    /// One uniform draw in `[0, n)`.
    pub fn next_below(&mut self, n: usize) -> (r: usize)
        requires
            n > 0,
        ensures
            r < n,
            final(self).draw_count() == old(self).draw_count() + 1,
    {
        self.state = self.state.wrapping_mul(0x5851_f42d_4c95_7f2d).wrapping_add(
            0x1405_7b7e_f767_814f,
        );
        self.draws = Ghost(self.draws@ + 1);
        let hi = self.state >> 33;
        proof {
            let st = self.state;
            assert(st >> 33 < 0x8000_0000u64) by (bit_vector);
        }
        (hi as usize) % n
    }
}

} // verus!

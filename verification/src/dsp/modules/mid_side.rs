//! Mid/Side module state: phase-decorrelation PRNG seed and active bin count.

use vstd::prelude::*;

verus! {

/// Seed of the phase-decorrelation generator (never zero).
pub const MID_SIDE_SEED: u64 = 0xdeadbeefcafebabe;

pub struct MidSideModule {
    /// xorshift64 state for phase decorrelation. Must never be zero.
    pub rng_state: u64,
    pub num_bins: usize,
}

impl MidSideModule {
    pub fn new() -> (r: Self)
        ensures
            r.rng_state == MID_SIDE_SEED,
            r.num_bins == 0,
    {
        Self { rng_state: MID_SIDE_SEED, num_bins: 0 }
    }

    /// Size for `fft_size` (`fft_size / 2 + 1` bins) and reseed the generator.
    pub fn reset(&mut self, fft_size: usize)
        ensures
            final(self).num_bins == fft_size / 2 + 1,
            final(self).rng_state == MID_SIDE_SEED,
    {
        self.num_bins = fft_size / 2 + 1;
        self.rng_state = MID_SIDE_SEED;
    }
}

impl Default for MidSideModule {
    fn default() -> (r: Self)
        ensures
            r.rng_state == MID_SIDE_SEED,
            r.num_bins == 0,
    {
        Self::new()
    }
}

} // verus!

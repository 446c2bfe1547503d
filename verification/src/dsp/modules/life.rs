//! Life module: fluid/physical-metaphor mode selector and its PRNG step.

use vstd::prelude::*;
use crate::dsp::circuit_kernels::xorshift32;

verus! {

#[derive(Debug, Clone, Copy, PartialEq, Eq)]
pub enum LifeMode {
    Viscosity,
    SurfaceTension,
    Crystallization,
    Archimedes,
    NonNewtonian,
    Stiction,
    Yield,
    Capillary,
    Sandpaper,
    Brownian,
}

impl Default for LifeMode {
    fn default() -> (r: Self)
        ensures
            r == LifeMode::Viscosity,
    {
        LifeMode::Viscosity
    }
}

/// Xorshift32 PRNG step: advances `state` and returns the new value.
pub fn xorshift32_step(state: &mut u32) -> (r: u32)
    ensures
        r == xorshift32(*old(state)),
        *final(state) == r,
{
    let mut x = *state;
    x ^= x << 13u32;
    x ^= x >> 17u32;
    x ^= x << 5u32;
    *state = x;
    x
}

} // verus!

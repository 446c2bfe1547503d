//! Kinetics module: physical-force mode selectors and its PRNG step.

use vstd::prelude::*;
use crate::dsp::circuit_kernels::xorshift32;

verus! {

#[derive(Debug, Clone, Copy, PartialEq, Eq, Default)]
pub enum KineticsMode {
    #[default]
    Hooke,
    GravityWell,
    InertialMass,
    OrbitalPhase,
    Ferromagnetism,
    ThermalExpansion,
    TuningFork,
    Diamagnet,
}

/// Source for gravity-well positions (GravityWell mode).
#[derive(Debug, Clone, Copy, PartialEq, Eq, Default)]
pub enum WellSource {
    /// Wells positioned by the REACH curve directly.
    #[default]
    Static,
    /// Wells positioned at sidechain spectrum peaks (top-N magnitudes).
    Sidechain,
    /// Wells positioned at f_root × harmonics for each held MIDI note.
    MIDI,
}

/// Source for per-bin mass (InertialMass mode).
#[derive(Debug, Clone, Copy, PartialEq, Eq, Default)]
pub enum MassSource {
    /// MASS curve directly drives per-bin mass.
    #[default]
    Static,
    /// Mass follows the rate of change of the sidechain envelope.
    Sidechain,
}

/// Xorshift32 PRNG step: advances `state` and returns the new value.
pub fn xorshift32_step(state: &mut u32) -> (r: u32)
    ensures
        r == xorshift32(*old(state)),
        *final(state) == r,
{
    let mut x = *state;
    x ^= x << 13u32;
    x ^= x >> 17u32;
    x ^= x << 5u32;
    *state = x;
    x
}

} // verus!

//! Harmony module: mode and inharmonic sub-mode selectors.

use vstd::prelude::*;

verus! {

#[derive(Debug, Clone, Copy, PartialEq, Eq, Default)]
pub enum HarmonyMode {
    #[default]
    Chordification,
    Undertone,
    Companding,
    FormantRotation,
    Lifter,
    Inharmonic,
    HarmonicGenerator,
    Shuffler,
}

#[derive(Debug, Clone, Copy, PartialEq, Eq, Default)]
pub enum HarmonyInharmonicSubmode {
    #[default]
    Stiffness,
    Bessel,
    Prime,
}

} // verus!

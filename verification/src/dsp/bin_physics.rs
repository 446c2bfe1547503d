//! Merge rules for per-bin physics state carried between slots.

use vstd::prelude::*;

verus! {

/// Per-field rule used when multiple sends mix into one destination slot's input.
#[derive(Clone, Copy, Debug, PartialEq, Eq)]
pub enum MergeRule {
    /// Standard amplitude-weighted average (matches audio-bin mixing).
    WeightedAvg,
    /// Take the higher of the two values: harder to break than to form.
    Max,
    /// Take the higher mass: the heavier parent dominates.
    HeavierWins,
}

} // verus!

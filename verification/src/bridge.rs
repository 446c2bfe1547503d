//! Layout of the curve data shared between the editor and the audio thread.

use vstd::prelude::*;

verus! {

/// Curves per slot.
pub const NUM_CURVES: usize = 7;
pub const CURVE_THRESHOLD: usize = 0;
pub const CURVE_RATIO: usize = 1;
pub const CURVE_ATTACK: usize = 2;
pub const CURVE_RELEASE: usize = 3;
pub const CURVE_KNEE: usize = 4;
pub const CURVE_MAKEUP: usize = 5;
pub const CURVE_MIX: usize = 6;

/// Slots in the effects matrix, Master included.
pub const NUM_SLOTS: usize = 9;

} // verus!

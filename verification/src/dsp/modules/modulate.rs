//! Modulate module: mode selector and its CPU-cost table.

use vstd::prelude::*;

verus! {

#[derive(Debug, Clone, Copy, PartialEq, Eq)]
pub enum ModulateMode {
    PhasePhaser,
    BinSwapper,
    RmFmMatrix,
    DiodeRm,
    GroundLoop,
    GravityPhaser,
    PllTear,
}

impl Default for ModulateMode {
    fn default() -> (r: Self)
        ensures
            r == ModulateMode::PhasePhaser,
    {
        ModulateMode::PhasePhaser
    }
}

/// Per-mode heavy-CPU markers, in enum declaration order.
pub const MOD_HEAVY: [bool; 7] = [false, false, false, false, false, false, true];

/// Whether `mode` is CPU-heavy: only PllTear is. The low-end-hardware preset
/// bypasses a slot whose active mode is heavy.
pub fn heavy_cpu_for_mode(mode: ModulateMode) -> (r: bool)
    ensures
        r == (mode == ModulateMode::PllTear),
{
    let idx: usize = match mode {
        ModulateMode::PhasePhaser => 0,
        ModulateMode::BinSwapper => 1,
        ModulateMode::RmFmMatrix => 2,
        ModulateMode::DiodeRm => 3,
        ModulateMode::GroundLoop => 4,
        ModulateMode::GravityPhaser => 5,
        ModulateMode::PllTear => 6,
    };
    let table = MOD_HEAVY;
    assert(table@ == seq![false, false, false, false, false, false, true]);
    table[idx]
}

} // verus!

//! Circuit module: analog-component mode selector.

use vstd::prelude::*;

verus! {

pub const BBD_STAGES: usize = 4;

#[derive(Debug, Clone, Copy, PartialEq, Eq)]
pub enum CircuitMode {
    BbdBins,
    SpectralSchmitt,
    CrossoverDistortion,
    Vactrol,
    TransformerSaturation,
    PowerSag,
    ComponentDrift,
    PcbCrosstalk,
    SlewDistortion,
}

impl Default for CircuitMode {
    fn default() -> (r: Self)
        ensures
            r == CircuitMode::CrossoverDistortion,
    {
        CircuitMode::CrossoverDistortion
    }
}

} // verus!

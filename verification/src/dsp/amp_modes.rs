//! Amplitude behaviour of a routing-matrix cell.

use vstd::prelude::*;

verus! {

#[derive(Debug, Clone, Copy, PartialEq, Eq, Default)]
pub enum AmpMode {
    #[default]
    Linear,
    Vactrol,
    Schmitt,
    Slew,
    Stiction,
}

impl AmpMode {
    pub fn label(self) -> (r: &'static str)
        ensures
            self == AmpMode::Linear ==> r@ == "Linear"@,
            self == AmpMode::Vactrol ==> r@ == "Vactrol"@,
            self == AmpMode::Schmitt ==> r@ == "Schmitt"@,
            self == AmpMode::Slew ==> r@ == "Slew"@,
            self == AmpMode::Stiction ==> r@ == "Stiction"@,
    {
        match self {
            AmpMode::Linear => "Linear",
            AmpMode::Vactrol => "Vactrol",
            AmpMode::Schmitt => "Schmitt",
            AmpMode::Slew => "Slew",
            AmpMode::Stiction => "Stiction",
        }
    }
}

} // verus!

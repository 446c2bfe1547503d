//! Future module: mode selector and echo-frame budget.

use vstd::prelude::*;

verus! {

pub const MAX_ECHO_FRAMES: usize = 64;

#[derive(Debug, Clone, Copy, PartialEq, Eq, Default)]
pub enum FutureMode {
    #[default]
    PrintThrough,
    PreEcho,
}

impl FutureMode {
    pub fn label(self) -> (r: &'static str)
        ensures
            self == FutureMode::PrintThrough ==> r@ == "Print-Through"@,
            self == FutureMode::PreEcho ==> r@ == "Pre-Echo"@,
    {
        match self {
            FutureMode::PrintThrough => "Print-Through",
            FutureMode::PreEcho => "Pre-Echo",
        }
    }
}

} // verus!

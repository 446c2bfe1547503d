//! Geometry module: mode selector and grid dimensions.

use vstd::prelude::*;

verus! {

pub const N_TRAPS: usize = 8;
pub const GEO_GRID_W: usize = 128;
pub const GEO_GRID_H: usize = 64;

#[derive(Debug, Clone, Copy, PartialEq, Eq)]
pub enum GeometryMode {
    Chladni,
    Helmholtz,
}

impl Default for GeometryMode {
    fn default() -> (r: Self)
        ensures
            r == GeometryMode::Chladni,
    {
        GeometryMode::Chladni
    }
}

} // verus!

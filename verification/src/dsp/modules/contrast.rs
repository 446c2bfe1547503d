//! Contrast module: mode selector.

use vstd::prelude::*;

verus! {

#[derive(Default, Clone, Copy, Debug, PartialEq, Eq)]
pub enum ContrastMode {
    #[default]
    Spatial,
    Temporal,
    Tilt,
}

} // verus!

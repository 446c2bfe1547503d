//! Spectral engine selector.

use vstd::prelude::*;

verus! {

#[derive(Debug, Clone, Copy, PartialEq, Eq)]
pub enum EngineSelection {
    SpectralCompressor,
    SpectralContrast,
}

} // verus!

//! Plugin-parameter enums the DSP layer routes on.

use vstd::prelude::*;

verus! {

/// How the two audio channels are processed.
#[derive(Debug, Clone, Copy, PartialEq, Eq, Default)]
pub enum StereoLink {
    #[default]
    Linked,
    Independent,
    MidSide,
}

/// Which channel of a Mid/Side pair a slot processes.
#[derive(Debug, Clone, Copy, PartialEq, Eq, Default)]
pub enum FxChannelTarget {
    #[default]
    All,
    Mid,
    Side,
}

/// User choice of sidechain channel for a slot.
#[derive(Debug, Clone, Copy, PartialEq, Eq, Default)]
pub enum ScChannel {
    #[default]
    Follow,
    LR,
    L,
    R,
    M,
    S,
}

} // verus!

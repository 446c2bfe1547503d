//! Past module: modes, per-mode curve layouts and their help texts.
//!
//! Five sub-modes read the rolling spectrum history: Granular Window, Decay
//! Sorter, Spectral Convolution, Reverse and Stretch. All accept the curves
//! [AMOUNT, TIME, THRESHOLD, SPREAD, MIX]; each mode shows a subset of them.

use vstd::prelude::*;
use crate::dsp::modules::{CurveLayout, HelpTopic};

verus! {

#[derive(Debug, Clone, Copy, PartialEq, Eq, Default)]
pub enum PastMode {
    #[default]
    Granular,
    DecaySorter,
    Convolution,
    Reverse,
    Stretch,
}

/// The mode a stored byte encodes, if any.
pub open spec fn spec_past_mode_from_byte(b: u8) -> Option<PastMode> {
    match b {
        0 => Some(PastMode::Granular),
        1 => Some(PastMode::DecaySorter),
        2 => Some(PastMode::Convolution),
        3 => Some(PastMode::Reverse),
        4 => Some(PastMode::Stretch),
        _ => None,
    }
}

impl TryFrom<u8> for PastMode {
    type Error = ();

    fn try_from(b: u8) -> (r: Result<Self, ()>)
        ensures
            match spec_past_mode_from_byte(b) {
                Some(m) => r == Ok::<PastMode, ()>(m),
                None => r is Err,
            },
    {
        match b {
            0 => Ok(Self::Granular),
            1 => Ok(Self::DecaySorter),
            2 => Ok(Self::Convolution),
            3 => Ok(Self::Reverse),
            4 => Ok(Self::Stretch),
            _ => Err(()),
        }
    }
}

impl vstd::std_specs::convert::TryFromSpecImpl<u8> for PastMode {
    open spec fn obeys_try_from_spec() -> bool {
        true
    }

    open spec fn try_from_spec(v: u8) -> Result<Self, ()> {
        match spec_past_mode_from_byte(v) {
            Some(m) => Ok(m),
            None => Err(()),
        }
    }
}

#[derive(Debug, Clone, Copy, PartialEq, Eq, Default)]
pub enum SortKey {
    #[default]
    Decay,
    Stability,
    Area,
}

/// Decay sorter operates on the lowest 256 bins only.
pub const MAX_SORT_BINS_PUB: usize = 256;

pub open spec fn spec_granular_help(curve_idx: u8) -> Seq<char> {
    match curve_idx {
        0 => "How much of the historical bin replaces the current bin. 0 = current only, 1 = historical only. Adds with upstream BinPhysics `crystallization`."@,
        1 => "Per-bin lookback into history. 0 = now, 1 = oldest available frame."@,
        2 => "Per-bin gate. Bins whose current magnitude falls below the threshold pass through unchanged."@,
        3 => "Toggle (>0.5) per-bin 3-bin frequency smear of the historical read. Smooths bin-leakage across narrow partials."@,
        4 => "Per-bin wet/dry."@,
        _ => ""@,
    }
}

pub fn granular_help_for(curve_idx: u8) -> (r: &'static str)
    ensures
        r@ == spec_granular_help(curve_idx),
{
    match curve_idx {
        0 => "How much of the historical bin replaces the current bin. 0 = current only, 1 = historical only. Adds with upstream BinPhysics `crystallization`.",
        1 => "Per-bin lookback into history. 0 = now, 1 = oldest available frame.",
        2 => "Per-bin gate. Bins whose current magnitude falls below the threshold pass through unchanged.",
        3 => "Toggle (>0.5) per-bin 3-bin frequency smear of the historical read. Smooths bin-leakage across narrow partials.",
        4 => "Per-bin wet/dry.",
        _ => "",
    }
}

pub open spec fn spec_decay_sorter_help(curve_idx: u8) -> Seq<char> {
    match curve_idx {
        0 => "Per-bin output gain on the rearranged signal."@,
        2 => "Per-bin floor — bins below this magnitude are excluded from sorting."@,
        4 => "Per-bin wet/dry of sorted output vs. original."@,
        _ => ""@,
    }
}

pub fn decay_sorter_help_for(curve_idx: u8) -> (r: &'static str)
    ensures
        r@ == spec_decay_sorter_help(curve_idx),
{
    match curve_idx {
        0 => "Per-bin output gain on the rearranged signal.",
        2 => "Per-bin floor — bins below this magnitude are excluded from sorting.",
        4 => "Per-bin wet/dry of sorted output vs. original.",
        _ => "",
    }
}

pub open spec fn spec_convolution_help(curve_idx: u8) -> Seq<char> {
    match curve_idx {
        0 => "Per-bin convolution strength. Multiplied by upstream BinPhysics `flux` if present (gates by recent change)."@,
        1 => "Per-bin delay into history. Low bins can sample old, high bins recent, or any other shape."@,
        2 => "Per-bin gate on the current frame's magnitude."@,
        4 => "Per-bin wet/dry."@,
        _ => ""@,
    }
}

pub fn convolution_help_for(curve_idx: u8) -> (r: &'static str)
    ensures
        r@ == spec_convolution_help(curve_idx),
{
    match curve_idx {
        0 => "Per-bin convolution strength. Multiplied by upstream BinPhysics `flux` if present (gates by recent change).",
        1 => "Per-bin delay into history. Low bins can sample old, high bins recent, or any other shape.",
        2 => "Per-bin gate on the current frame's magnitude.",
        4 => "Per-bin wet/dry.",
        _ => "",
    }
}

pub open spec fn spec_reverse_help(curve_idx: u8) -> Seq<char> {
    match curve_idx {
        0 => "Per-bin keep during the reverse read."@,
        2 => "Per-bin gate."@,
        4 => "Per-bin wet/dry."@,
        _ => ""@,
    }
}

pub fn reverse_help_for(curve_idx: u8) -> (r: &'static str)
    ensures
        r@ == spec_reverse_help(curve_idx),
{
    match curve_idx {
        0 => "Per-bin keep during the reverse read.",
        2 => "Per-bin gate.",
        4 => "Per-bin wet/dry.",
        _ => "",
    }
}

pub open spec fn spec_stretch_help(curve_idx: u8) -> Seq<char> {
    match curve_idx {
        0 => "Per-bin keep during the stretched read."@,
        4 => "Per-bin wet/dry."@,
        _ => ""@,
    }
}

pub fn stretch_help_for(curve_idx: u8) -> (r: &'static str)
    ensures
        r@ == spec_stretch_help(curve_idx),
{
    match curve_idx {
        0 => "Per-bin keep during the stretched read.",
        4 => "Per-bin wet/dry.",
        _ => "",
    }
}

/// Help text of curve `curve_idx` under `topic`.
pub open spec fn spec_help(topic: HelpTopic, curve_idx: u8) -> Seq<char> {
    match topic {
        HelpTopic::Granular => spec_granular_help(curve_idx),
        HelpTopic::DecaySorter => spec_decay_sorter_help(curve_idx),
        HelpTopic::Convolution => spec_convolution_help(curve_idx),
        HelpTopic::Reverse => spec_reverse_help(curve_idx),
        HelpTopic::Stretch => spec_stretch_help(curve_idx),
    }
}

impl CurveLayout {
    /// Help text of curve `curve_idx` for this layout.
    pub fn help(&self, curve_idx: u8) -> (r: &'static str)
        ensures
            r@ == spec_help(self.help_for, curve_idx),
    {
        match self.help_for {
            HelpTopic::Granular => granular_help_for(curve_idx),
            HelpTopic::DecaySorter => decay_sorter_help_for(curve_idx),
            HelpTopic::Convolution => convolution_help_for(curve_idx),
            HelpTopic::Reverse => reverse_help_for(curve_idx),
            HelpTopic::Stretch => stretch_help_for(curve_idx),
        }
    }
}

/// The mathematical content of a `CurveLayout`.
pub open spec fn layout_view(l: CurveLayout) -> (Seq<u8>, Seq<(u8, Seq<char>)>, HelpTopic, Option<&'static str>) {
    (l.active@, l.label_overrides@.map_values(|p: (u8, &str)| (p.0, p.1@)), l.help_for, l.mode_overview)
}

/// Per-mode curve layout: which curves are shown, relabelled ones, help source.
pub open spec fn spec_active_layout(mode: u8) -> (Seq<u8>, Seq<(u8, Seq<char>)>, HelpTopic, Option<&'static str>) {
    match spec_past_mode_from_byte(mode) {
        Some(PastMode::DecaySorter) => (seq![0u8, 2, 4], seq![], HelpTopic::DecaySorter, None),
        Some(PastMode::Convolution) => (seq![0u8, 1, 2, 4], seq![(1u8, "Delay"@)], HelpTopic::Convolution, None),
        Some(PastMode::Reverse) => (seq![0u8, 2, 4], seq![], HelpTopic::Reverse, None),
        Some(PastMode::Stretch) => (seq![0u8, 4], seq![], HelpTopic::Stretch, None),
        _ => (seq![0u8, 1, 2, 3, 4], seq![(1u8, "Age"@), (3u8, "Smear"@)], HelpTopic::Granular, None),
    }
}

/// Per-mode `CurveLayout` for Past; bytes that encode no mode get the
/// Granular layout.
pub fn active_layout(mode: u8) -> (r: CurveLayout)
    ensures
        layout_view(r) == spec_active_layout(mode),
{
    let m = match PastMode::try_from(mode) {
        Ok(m) => m,
        Err(_) => PastMode::Granular,
    };
    let r = match m {
        PastMode::Granular => CurveLayout {
            active: &[0, 1, 2, 3, 4],
            label_overrides: &[(1, "Age"), (3, "Smear")],
            help_for: HelpTopic::Granular,
            mode_overview: None,
        },
        PastMode::DecaySorter => CurveLayout {
            active: &[0, 2, 4],
            label_overrides: &[],
            help_for: HelpTopic::DecaySorter,
            mode_overview: None,
        },
        PastMode::Convolution => CurveLayout {
            active: &[0, 1, 2, 4],
            label_overrides: &[(1, "Delay")],
            help_for: HelpTopic::Convolution,
            mode_overview: None,
        },
        PastMode::Reverse => CurveLayout {
            active: &[0, 2, 4],
            label_overrides: &[],
            help_for: HelpTopic::Reverse,
            mode_overview: None,
        },
        PastMode::Stretch => CurveLayout {
            active: &[0, 4],
            label_overrides: &[],
            help_for: HelpTopic::Stretch,
            mode_overview: None,
        },
    };
    proof {
        let v = layout_view(r);
        let s = spec_active_layout(mode);
        assert(v.0 =~= s.0);
        assert(v.1 =~= s.1);
    }
    r
}

/// Every curve a layout shows lies within the five Past curves, and every
/// relabelled curve is one that the layout shows.
pub proof fn lemma_active_layout_well_formed(mode: u8)
    ensures
        forall|i: int| 0 <= i < spec_active_layout(mode).0.len() ==> #[trigger] spec_active_layout(mode).0[i] < 5,
        forall|i: int| 0 <= i < spec_active_layout(mode).1.len() ==> spec_active_layout(mode).0.contains(#[trigger] spec_active_layout(mode).1[i].0),
{
    let l = spec_active_layout(mode);
    assert forall|i: int| 0 <= i < l.1.len() implies l.0.contains(#[trigger] l.1[i].0) by {
        if l.1[i].0 == 1u8 {
            assert(l.0[1] == 1u8);
        } else {
            assert(l.0[3] == 3u8);
        }
    }
}

} // verus!

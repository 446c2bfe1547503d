//! Module kinds, their static descriptions, and routing-matrix constants.

use vstd::prelude::*;
use crate::dsp::amp_modes::AmpMode;

pub mod circuit;
pub mod contrast;
pub mod decay_sort;
pub mod future;
pub mod geometry;
pub mod harmony;
pub mod harmony_helpers;
pub mod kinetics;
pub mod life;
pub mod master;
pub mod mid_side;
pub mod modulate;
pub mod past;
pub mod punch;
pub mod rhythm;

verus! {

// ── Constants ──────────────────────────────────────────────────────────────

pub const MAX_SLOTS: usize = 9;
pub const MAX_SPLIT_VIRTUAL_ROWS: usize = 4;
pub const MAX_MATRIX_ROWS: usize = 13;

// ── ModuleType ─────────────────────────────────────────────────────────────

#[derive(Debug, Clone, Copy, PartialEq, Eq, Structural, Default)]
pub enum ModuleType {
    #[default]
    Empty,
    Dynamics,
    Freeze,
    PhaseSmear,
    Contrast,
    Gain,
    MidSide,
    TransientSustainedSplit,
    Harmonic,
    Future,
    Punch,
    Rhythm,
    Geometry,
    Modulate,
    Circuit,
    Master,
}

// ── GainMode ───────────────────────────────────────────────────────────────

#[derive(Debug, Clone, Copy, PartialEq, Eq, Default)]
pub enum GainMode {
    #[default]
    Add,
    Subtract,
    Pull,
    Match,
}

// ── VirtualRowKind ─────────────────────────────────────────────────────────

#[derive(Debug, Clone, Copy, PartialEq, Eq)]
pub enum VirtualRowKind {
    Transient,
    Sustained,
}

/// Amp mode of every routing-matrix cell on a fresh matrix: all Linear.
pub fn default_amp_modes() -> (r: [[AmpMode; 9]; 13])
    ensures
        forall|i: int, j: int| 0 <= i < MAX_MATRIX_ROWS && 0 <= j < MAX_SLOTS ==> #[trigger] r@[i]@[j] == AmpMode::Linear,
        r@.len() == MAX_MATRIX_ROWS,
        forall|i: int| 0 <= i < MAX_MATRIX_ROWS ==> (#[trigger] r@[i])@.len() == MAX_SLOTS,
{
    [[AmpMode::Linear; 9]; 13]
}

// ── ModuleSpec ─────────────────────────────────────────────────────────────

/// A display colour: an sRGB triple, or one of the editor theme's dot colours.
#[derive(Debug, Clone, Copy, PartialEq, Eq)]
pub enum SlotColor {
    Rgb { r: u8, g: u8, b: u8 },
    ModulateDot,
    CircuitDot,
}

pub open spec fn rgb(r: u8, g: u8, b: u8) -> SlotColor {
    SlotColor::Rgb { r, g, b }
}

/// Per-module panels drawn below the curve editor.
#[derive(Debug, Clone, Copy, PartialEq, Eq)]
pub enum PanelWidget {
    RhythmPanel,
}

/// Static description of a module kind: name, colours, curves and routing flags.
#[derive(Clone, Copy)]
pub struct ModuleSpec {
    pub display_name: &'static str,
    pub color_lit: SlotColor,
    pub color_dim: SlotColor,
    pub num_curves: usize,
    pub curve_labels: &'static [&'static str],
    pub supports_sidechain: bool,
    /// True if a freshly assigned slot of this module should auto-route a
    /// sidechain input; false for every shipped module.
    pub wants_sidechain: bool,
    /// Optional per-module panel drawn below the curve editor.
    pub panel_widget: Option<PanelWidget>,
    /// True if this module writes BinPhysics state; writers are scheduled
    /// before readers within a hop.
    pub writes_bin_physics: bool,
}

/// The mathematical content of a `ModuleSpec`.
pub struct ModuleSpecView {
    pub display_name: Seq<char>,
    pub color_lit: SlotColor,
    pub color_dim: SlotColor,
    pub num_curves: nat,
    pub curve_labels: Seq<Seq<char>>,
    pub supports_sidechain: bool,
    pub wants_sidechain: bool,
    pub panel_widget: Option<PanelWidget>,
    pub writes_bin_physics: bool,
}

impl View for ModuleSpec {
    type V = ModuleSpecView;

    open spec fn view(&self) -> ModuleSpecView {
        ModuleSpecView {
            display_name: self.display_name@,
            color_lit: self.color_lit,
            color_dim: self.color_dim,
            num_curves: self.num_curves as nat,
            curve_labels: self.curve_labels@.map_values(|s: &str| s@),
            supports_sidechain: self.supports_sidechain,
            wants_sidechain: self.wants_sidechain,
            panel_widget: self.panel_widget,
            writes_bin_physics: self.writes_bin_physics,
        }
    }
}

pub open spec fn spec_view(
    name: Seq<char>,
    lit: SlotColor,
    dim: SlotColor,
    labels: Seq<Seq<char>>,
    supports_sidechain: bool,
    wants_sidechain: bool,
    panel_widget: Option<PanelWidget>,
) -> ModuleSpecView {
    ModuleSpecView {
        display_name: name,
        color_lit: lit,
        color_dim: dim,
        num_curves: labels.len(),
        curve_labels: labels,
        supports_sidechain,
        wants_sidechain,
        panel_widget,
        writes_bin_physics: false,
    }
}

/// The module table.
pub open spec fn spec_module_spec(ty: ModuleType) -> ModuleSpecView {
    match ty {
        ModuleType::Dynamics => spec_view("Dynamics"@, rgb(0x50, 0xc0, 0xc4), rgb(0x18, 0x40, 0x42),
            seq!["THRESHOLD"@, "RATIO"@, "ATTACK"@, "RELEASE"@, "KNEE"@, "MIX"@], true, false, None),
        ModuleType::Freeze => spec_view("Freeze"@, rgb(0x50, 0x80, 0xc8), rgb(0x18, 0x28, 0x42),
            seq!["LENGTH"@, "THRESHOLD"@, "PORTAMENTO"@, "RESISTANCE"@, "MIX"@], true, false, None),
        ModuleType::PhaseSmear => spec_view("Phase Smear"@, rgb(0x90, 0x60, 0xc8), rgb(0x30, 0x20, 0x42),
            seq!["AMOUNT"@, "PEAK HOLD"@, "MIX"@], true, false, None),
        ModuleType::Contrast => spec_view("Contrast"@, rgb(0xb0, 0x60, 0xe0), rgb(0x38, 0x20, 0x48),
            seq!["AMOUNT"@], false, false, None),
        ModuleType::Gain => spec_view("Gain"@, rgb(0xc8, 0xa0, 0x50), rgb(0x42, 0x34, 0x18),
            seq!["GAIN"@, "SC SMOOTH"@], true, false, None),
        ModuleType::MidSide => spec_view("Mid/Side"@, rgb(0xc0, 0x50, 0xa0), rgb(0x40, 0x18, 0x34),
            seq!["BALANCE"@, "EXPANSION"@, "DECORREL"@, "TRANSIENT"@, "PAN"@], false, false, None),
        ModuleType::TransientSustainedSplit => spec_view("T/S Split"@, rgb(0x80, 0xb0, 0x60), rgb(0x28, 0x38, 0x20),
            seq!["SENSITIVITY"@], false, false, None),
        ModuleType::Harmonic => spec_view("Harmonic"@, rgb(0x50, 0xc8, 0x80), rgb(0x18, 0x42, 0x28),
            seq![], false, false, None),
        ModuleType::Future => spec_view("Future"@, rgb(0x60, 0xa0, 0xc8), rgb(0x20, 0x34, 0x42),
            seq!["AMOUNT"@, "TIME"@, "THRESHOLD"@, "SPREAD"@, "MIX"@], false, false, None),
        ModuleType::Punch => spec_view("Punch"@, rgb(0xe0, 0x70, 0x60), rgb(0x48, 0x20, 0x20),
            seq!["AMOUNT"@, "WIDTH"@, "FILL_MODE"@, "AMP_FILL"@, "HEAL"@, "MIX"@], true, false, None),
        ModuleType::Rhythm => spec_view("Rhythm"@, rgb(0xc8, 0xb0, 0x60), rgb(0x42, 0x38, 0x20),
            seq!["AMOUNT"@, "DIVISION"@, "ATTACK_FADE"@, "TARGET_PHASE"@, "MIX"@], false, false, Some(PanelWidget::RhythmPanel)),
        ModuleType::Geometry => spec_view("Geometry"@, rgb(0x50, 0xb4, 0xa0), rgb(0x18, 0x3c, 0x34),
            seq!["AMOUNT"@, "MODE_CAP"@, "DAMP_REL"@, "THRESH"@, "MIX"@], false, false, None),
        ModuleType::Modulate => spec_view("Modulate"@, SlotColor::ModulateDot, rgb(0x36, 0x1e, 0x3c),
            seq!["AMOUNT"@, "REACH"@, "RATE"@, "THRESH"@, "AMPGATE"@, "MIX"@], true, false, None),
        ModuleType::Circuit => spec_view("Circuit"@, SlotColor::CircuitDot, rgb(0x40, 0x2c, 0x18),
            seq!["AMOUNT"@, "THRESH"@, "RELEASE"@, "MIX"@], false, false, None),
        ModuleType::Master => spec_view("Master"@, rgb(0xcc, 0xcc, 0xcc), rgb(0x44, 0x44, 0x44),
            seq![], false, false, None),
        ModuleType::Empty => spec_view("Empty"@, rgb(0x33, 0x33, 0x33), rgb(0x22, 0x22, 0x22),
            seq![], false, false, None),
    }
}

fn spec_entry(
    display_name: &'static str,
    color_lit: SlotColor,
    color_dim: SlotColor,
    curve_labels: &'static [&'static str],
    supports_sidechain: bool,
    wants_sidechain: bool,
    panel_widget: Option<PanelWidget>,
) -> (r: ModuleSpec)
    ensures
        r@ == spec_view(display_name@, color_lit, color_dim, curve_labels@.map_values(|s: &str| s@),
            supports_sidechain, wants_sidechain, panel_widget),
{
    ModuleSpec {
        display_name,
        color_lit,
        color_dim,
        num_curves: curve_labels.len(),
        curve_labels,
        supports_sidechain,
        wants_sidechain,
        panel_widget,
        writes_bin_physics: false,
    }
}

fn from_rgb(r: u8, g: u8, b: u8) -> (c: SlotColor)
    ensures
        c == rgb(r, g, b),
{
    SlotColor::Rgb { r, g, b }
}

/// Static description of the module kind `ty`.
pub fn module_spec(ty: ModuleType) -> (r: ModuleSpec)
    ensures
        r@ == spec_module_spec(ty),
{
    let r = match ty {
        ModuleType::Dynamics => spec_entry("Dynamics", from_rgb(0x50, 0xc0, 0xc4), from_rgb(0x18, 0x40, 0x42),
            &["THRESHOLD", "RATIO", "ATTACK", "RELEASE", "KNEE", "MIX"], true, false, None),
        ModuleType::Freeze => spec_entry("Freeze", from_rgb(0x50, 0x80, 0xc8), from_rgb(0x18, 0x28, 0x42),
            &["LENGTH", "THRESHOLD", "PORTAMENTO", "RESISTANCE", "MIX"], true, false, None),
        ModuleType::PhaseSmear => spec_entry("Phase Smear", from_rgb(0x90, 0x60, 0xc8), from_rgb(0x30, 0x20, 0x42),
            &["AMOUNT", "PEAK HOLD", "MIX"], true, false, None),
        ModuleType::Contrast => spec_entry("Contrast", from_rgb(0xb0, 0x60, 0xe0), from_rgb(0x38, 0x20, 0x48),
            &["AMOUNT"], false, false, None),
        ModuleType::Gain => spec_entry("Gain", from_rgb(0xc8, 0xa0, 0x50), from_rgb(0x42, 0x34, 0x18),
            &["GAIN", "SC SMOOTH"], true, false, None),
        ModuleType::MidSide => spec_entry("Mid/Side", from_rgb(0xc0, 0x50, 0xa0), from_rgb(0x40, 0x18, 0x34),
            &["BALANCE", "EXPANSION", "DECORREL", "TRANSIENT", "PAN"], false, false, None),
        ModuleType::TransientSustainedSplit => spec_entry("T/S Split", from_rgb(0x80, 0xb0, 0x60), from_rgb(0x28, 0x38, 0x20),
            &["SENSITIVITY"], false, false, None),
        ModuleType::Harmonic => spec_entry("Harmonic", from_rgb(0x50, 0xc8, 0x80), from_rgb(0x18, 0x42, 0x28),
            &[], false, false, None),
        ModuleType::Future => spec_entry("Future", from_rgb(0x60, 0xa0, 0xc8), from_rgb(0x20, 0x34, 0x42),
            &["AMOUNT", "TIME", "THRESHOLD", "SPREAD", "MIX"], false, false, None),
        ModuleType::Punch => spec_entry("Punch", from_rgb(0xe0, 0x70, 0x60), from_rgb(0x48, 0x20, 0x20),
            &["AMOUNT", "WIDTH", "FILL_MODE", "AMP_FILL", "HEAL", "MIX"], true, false, None),
        ModuleType::Rhythm => spec_entry("Rhythm", from_rgb(0xc8, 0xb0, 0x60), from_rgb(0x42, 0x38, 0x20),
            &["AMOUNT", "DIVISION", "ATTACK_FADE", "TARGET_PHASE", "MIX"], false, false, Some(PanelWidget::RhythmPanel)),
        ModuleType::Geometry => spec_entry("Geometry", from_rgb(0x50, 0xb4, 0xa0), from_rgb(0x18, 0x3c, 0x34),
            &["AMOUNT", "MODE_CAP", "DAMP_REL", "THRESH", "MIX"], false, false, None),
        ModuleType::Modulate => spec_entry("Modulate", SlotColor::ModulateDot, from_rgb(0x36, 0x1e, 0x3c),
            &["AMOUNT", "REACH", "RATE", "THRESH", "AMPGATE", "MIX"], true, false, None),
        ModuleType::Circuit => spec_entry("Circuit", SlotColor::CircuitDot, from_rgb(0x40, 0x2c, 0x18),
            &["AMOUNT", "THRESH", "RELEASE", "MIX"], false, false, None),
        ModuleType::Master => spec_entry("Master", from_rgb(0xcc, 0xcc, 0xcc), from_rgb(0x44, 0x44, 0x44),
            &[], false, false, None),
        ModuleType::Empty => spec_entry("Empty", from_rgb(0x33, 0x33, 0x33), from_rgb(0x22, 0x22, 0x22),
            &[], false, false, None),
    };
    proof {
        assert(r@.curve_labels =~= spec_module_spec(ty).curve_labels);
    }
    r
}

/// The shipped module table, entry by entry: name, curve count and labels,
/// colours and panel of every kind; exactly Dynamics, Freeze, Phase Smear,
/// Gain, Punch and Modulate take a sidechain; no kind asks for sidechain
/// auto-routing or writes BinPhysics state.
pub proof fn lemma_module_table_entries(ty: ModuleType)
    ensures
        spec_module_spec(ty).supports_sidechain <==> (ty == ModuleType::Dynamics || ty == ModuleType::Freeze || ty == ModuleType::PhaseSmear || ty == ModuleType::Gain || ty == ModuleType::Punch || ty == ModuleType::Modulate),
        !spec_module_spec(ty).wants_sidechain,
        !spec_module_spec(ty).writes_bin_physics,
        spec_module_spec(ModuleType::Dynamics).display_name == "Dynamics"@,
        spec_module_spec(ModuleType::Dynamics).num_curves == 6,
        spec_module_spec(ModuleType::Dynamics).curve_labels == seq!["THRESHOLD"@, "RATIO"@, "ATTACK"@, "RELEASE"@, "KNEE"@, "MIX"@],
        spec_module_spec(ModuleType::Dynamics).color_lit == (SlotColor::Rgb { r: 0x50, g: 0xc0, b: 0xc4 }),
        spec_module_spec(ModuleType::Dynamics).color_dim == (SlotColor::Rgb { r: 0x18, g: 0x40, b: 0x42 }),
        spec_module_spec(ModuleType::Dynamics).panel_widget == Option::<PanelWidget>::None,
        spec_module_spec(ModuleType::Freeze).display_name == "Freeze"@,
        spec_module_spec(ModuleType::Freeze).num_curves == 5,
        spec_module_spec(ModuleType::Freeze).curve_labels == seq!["LENGTH"@, "THRESHOLD"@, "PORTAMENTO"@, "RESISTANCE"@, "MIX"@],
        spec_module_spec(ModuleType::Freeze).color_lit == (SlotColor::Rgb { r: 0x50, g: 0x80, b: 0xc8 }),
        spec_module_spec(ModuleType::Freeze).color_dim == (SlotColor::Rgb { r: 0x18, g: 0x28, b: 0x42 }),
        spec_module_spec(ModuleType::Freeze).panel_widget == Option::<PanelWidget>::None,
        spec_module_spec(ModuleType::PhaseSmear).display_name == "Phase Smear"@,
        spec_module_spec(ModuleType::PhaseSmear).num_curves == 3,
        spec_module_spec(ModuleType::PhaseSmear).curve_labels == seq!["AMOUNT"@, "PEAK HOLD"@, "MIX"@],
        spec_module_spec(ModuleType::PhaseSmear).color_lit == (SlotColor::Rgb { r: 0x90, g: 0x60, b: 0xc8 }),
        spec_module_spec(ModuleType::PhaseSmear).color_dim == (SlotColor::Rgb { r: 0x30, g: 0x20, b: 0x42 }),
        spec_module_spec(ModuleType::PhaseSmear).panel_widget == Option::<PanelWidget>::None,
        spec_module_spec(ModuleType::Contrast).display_name == "Contrast"@,
        spec_module_spec(ModuleType::Contrast).num_curves == 1,
        spec_module_spec(ModuleType::Contrast).curve_labels == seq!["AMOUNT"@],
        spec_module_spec(ModuleType::Contrast).color_lit == (SlotColor::Rgb { r: 0xb0, g: 0x60, b: 0xe0 }),
        spec_module_spec(ModuleType::Contrast).color_dim == (SlotColor::Rgb { r: 0x38, g: 0x20, b: 0x48 }),
        spec_module_spec(ModuleType::Contrast).panel_widget == Option::<PanelWidget>::None,
        spec_module_spec(ModuleType::Gain).display_name == "Gain"@,
        spec_module_spec(ModuleType::Gain).num_curves == 2,
        spec_module_spec(ModuleType::Gain).curve_labels == seq!["GAIN"@, "SC SMOOTH"@],
        spec_module_spec(ModuleType::Gain).color_lit == (SlotColor::Rgb { r: 0xc8, g: 0xa0, b: 0x50 }),
        spec_module_spec(ModuleType::Gain).color_dim == (SlotColor::Rgb { r: 0x42, g: 0x34, b: 0x18 }),
        spec_module_spec(ModuleType::Gain).panel_widget == Option::<PanelWidget>::None,
        spec_module_spec(ModuleType::MidSide).display_name == "Mid/Side"@,
        spec_module_spec(ModuleType::MidSide).num_curves == 5,
        spec_module_spec(ModuleType::MidSide).curve_labels == seq!["BALANCE"@, "EXPANSION"@, "DECORREL"@, "TRANSIENT"@, "PAN"@],
        spec_module_spec(ModuleType::MidSide).color_lit == (SlotColor::Rgb { r: 0xc0, g: 0x50, b: 0xa0 }),
        spec_module_spec(ModuleType::MidSide).color_dim == (SlotColor::Rgb { r: 0x40, g: 0x18, b: 0x34 }),
        spec_module_spec(ModuleType::MidSide).panel_widget == Option::<PanelWidget>::None,
        spec_module_spec(ModuleType::TransientSustainedSplit).display_name == "T/S Split"@,
        spec_module_spec(ModuleType::TransientSustainedSplit).num_curves == 1,
        spec_module_spec(ModuleType::TransientSustainedSplit).curve_labels == seq!["SENSITIVITY"@],
        spec_module_spec(ModuleType::TransientSustainedSplit).color_lit == (SlotColor::Rgb { r: 0x80, g: 0xb0, b: 0x60 }),
        spec_module_spec(ModuleType::TransientSustainedSplit).color_dim == (SlotColor::Rgb { r: 0x28, g: 0x38, b: 0x20 }),
        spec_module_spec(ModuleType::TransientSustainedSplit).panel_widget == Option::<PanelWidget>::None,
        spec_module_spec(ModuleType::Harmonic).display_name == "Harmonic"@,
        spec_module_spec(ModuleType::Harmonic).num_curves == 0,
        spec_module_spec(ModuleType::Harmonic).curve_labels == Seq::<Seq<char>>::empty(),
        spec_module_spec(ModuleType::Harmonic).color_lit == (SlotColor::Rgb { r: 0x50, g: 0xc8, b: 0x80 }),
        spec_module_spec(ModuleType::Harmonic).color_dim == (SlotColor::Rgb { r: 0x18, g: 0x42, b: 0x28 }),
        spec_module_spec(ModuleType::Harmonic).panel_widget == Option::<PanelWidget>::None,
        spec_module_spec(ModuleType::Future).display_name == "Future"@,
        spec_module_spec(ModuleType::Future).num_curves == 5,
        spec_module_spec(ModuleType::Future).curve_labels == seq!["AMOUNT"@, "TIME"@, "THRESHOLD"@, "SPREAD"@, "MIX"@],
        spec_module_spec(ModuleType::Future).color_lit == (SlotColor::Rgb { r: 0x60, g: 0xa0, b: 0xc8 }),
        spec_module_spec(ModuleType::Future).color_dim == (SlotColor::Rgb { r: 0x20, g: 0x34, b: 0x42 }),
        spec_module_spec(ModuleType::Future).panel_widget == Option::<PanelWidget>::None,
        spec_module_spec(ModuleType::Punch).display_name == "Punch"@,
        spec_module_spec(ModuleType::Punch).num_curves == 6,
        spec_module_spec(ModuleType::Punch).curve_labels == seq!["AMOUNT"@, "WIDTH"@, "FILL_MODE"@, "AMP_FILL"@, "HEAL"@, "MIX"@],
        spec_module_spec(ModuleType::Punch).color_lit == (SlotColor::Rgb { r: 0xe0, g: 0x70, b: 0x60 }),
        spec_module_spec(ModuleType::Punch).color_dim == (SlotColor::Rgb { r: 0x48, g: 0x20, b: 0x20 }),
        spec_module_spec(ModuleType::Punch).panel_widget == Option::<PanelWidget>::None,
        spec_module_spec(ModuleType::Rhythm).display_name == "Rhythm"@,
        spec_module_spec(ModuleType::Rhythm).num_curves == 5,
        spec_module_spec(ModuleType::Rhythm).curve_labels == seq!["AMOUNT"@, "DIVISION"@, "ATTACK_FADE"@, "TARGET_PHASE"@, "MIX"@],
        spec_module_spec(ModuleType::Rhythm).color_lit == (SlotColor::Rgb { r: 0xc8, g: 0xb0, b: 0x60 }),
        spec_module_spec(ModuleType::Rhythm).color_dim == (SlotColor::Rgb { r: 0x42, g: 0x38, b: 0x20 }),
        spec_module_spec(ModuleType::Rhythm).panel_widget == Some(PanelWidget::RhythmPanel),
        spec_module_spec(ModuleType::Geometry).display_name == "Geometry"@,
        spec_module_spec(ModuleType::Geometry).num_curves == 5,
        spec_module_spec(ModuleType::Geometry).curve_labels == seq!["AMOUNT"@, "MODE_CAP"@, "DAMP_REL"@, "THRESH"@, "MIX"@],
        spec_module_spec(ModuleType::Geometry).color_lit == (SlotColor::Rgb { r: 0x50, g: 0xb4, b: 0xa0 }),
        spec_module_spec(ModuleType::Geometry).color_dim == (SlotColor::Rgb { r: 0x18, g: 0x3c, b: 0x34 }),
        spec_module_spec(ModuleType::Geometry).panel_widget == Option::<PanelWidget>::None,
        spec_module_spec(ModuleType::Modulate).display_name == "Modulate"@,
        spec_module_spec(ModuleType::Modulate).num_curves == 6,
        spec_module_spec(ModuleType::Modulate).curve_labels == seq!["AMOUNT"@, "REACH"@, "RATE"@, "THRESH"@, "AMPGATE"@, "MIX"@],
        spec_module_spec(ModuleType::Modulate).color_lit == (SlotColor::ModulateDot),
        spec_module_spec(ModuleType::Modulate).color_dim == (SlotColor::Rgb { r: 0x36, g: 0x1e, b: 0x3c }),
        spec_module_spec(ModuleType::Modulate).panel_widget == Option::<PanelWidget>::None,
        spec_module_spec(ModuleType::Circuit).display_name == "Circuit"@,
        spec_module_spec(ModuleType::Circuit).num_curves == 4,
        spec_module_spec(ModuleType::Circuit).curve_labels == seq!["AMOUNT"@, "THRESH"@, "RELEASE"@, "MIX"@],
        spec_module_spec(ModuleType::Circuit).color_lit == (SlotColor::CircuitDot),
        spec_module_spec(ModuleType::Circuit).color_dim == (SlotColor::Rgb { r: 0x40, g: 0x2c, b: 0x18 }),
        spec_module_spec(ModuleType::Circuit).panel_widget == Option::<PanelWidget>::None,
        spec_module_spec(ModuleType::Master).display_name == "Master"@,
        spec_module_spec(ModuleType::Master).num_curves == 0,
        spec_module_spec(ModuleType::Master).curve_labels == Seq::<Seq<char>>::empty(),
        spec_module_spec(ModuleType::Master).color_lit == (SlotColor::Rgb { r: 0xcc, g: 0xcc, b: 0xcc }),
        spec_module_spec(ModuleType::Master).color_dim == (SlotColor::Rgb { r: 0x44, g: 0x44, b: 0x44 }),
        spec_module_spec(ModuleType::Master).panel_widget == Option::<PanelWidget>::None,
        spec_module_spec(ModuleType::Empty).display_name == "Empty"@,
        spec_module_spec(ModuleType::Empty).num_curves == 0,
        spec_module_spec(ModuleType::Empty).curve_labels == Seq::<Seq<char>>::empty(),
        spec_module_spec(ModuleType::Empty).color_lit == (SlotColor::Rgb { r: 0x33, g: 0x33, b: 0x33 }),
        spec_module_spec(ModuleType::Empty).color_dim == (SlotColor::Rgb { r: 0x22, g: 0x22, b: 0x22 }),
        spec_module_spec(ModuleType::Empty).panel_widget == Option::<PanelWidget>::None,
{
}

/// Every module kind declares exactly one label per curve, only modules that
/// accept a sidechain could ask for one, no shipped kind asks for
/// sidechain auto-routing, and no kind writes BinPhysics state.
pub proof fn lemma_module_spec_consistent(ty: ModuleType)
    ensures
        spec_module_spec(ty).num_curves == spec_module_spec(ty).curve_labels.len(),
        !spec_module_spec(ty).wants_sidechain,
        spec_module_spec(ty).wants_sidechain ==> spec_module_spec(ty).supports_sidechain,
        !spec_module_spec(ty).writes_bin_physics,
{
}

// ── CurveLayout ────────────────────────────────────────────────────────────

/// Which help texts a curve layout uses.
#[derive(Debug, Clone, Copy, PartialEq, Eq)]
pub enum HelpTopic {
    Granular,
    DecaySorter,
    Convolution,
    Reverse,
    Stretch,
}

/// Per-mode description of which curves a module shows, how some are
/// relabelled, and where their help texts come from.
#[derive(Clone, Copy)]
pub struct CurveLayout {
    pub active: &'static [u8],
    pub label_overrides: &'static [(u8, &'static str)],
    pub help_for: HelpTopic,
    pub mode_overview: Option<&'static str>,
}

} // verus!

use spectral_forge::dsp::amp_modes::AmpMode;
use spectral_forge::dsp::modules::circuit::CircuitMode;
use spectral_forge::dsp::modules::future::FutureMode;
use spectral_forge::dsp::modules::geometry::GeometryMode;
use spectral_forge::dsp::modules::life::LifeMode;
use spectral_forge::dsp::modules::mid_side::{MidSideModule, MID_SIDE_SEED};
use spectral_forge::dsp::modules::modulate::{heavy_cpu_for_mode, ModulateMode};
use spectral_forge::dsp::modules::rhythm::{ArpGrid, RhythmMode};
use spectral_forge::dsp::modules::default_amp_modes;

#[test]
fn arp_grid_toggle_and_query() {
    let mut g = ArpGrid::default();
    assert!(!g.voice_active_at(2, 3));
    g.toggle(2, 3);
    assert!(g.voice_active_at(2, 3));
    assert_eq!(g.steps[2], 0b0000_1000);
    g.toggle(2, 3);
    assert_eq!(g.steps, [0; 8]);
    g.toggle(8, 0);
    g.toggle(0, 8);
    assert_eq!(g.steps, [0; 8]);
    g.steps[7] = 0x80;
    assert!(g.voice_active_at(7, 7));
    assert!(!g.voice_active_at(7, 8));
    assert!(!g.voice_active_at(9, 7));
}

#[test]
fn mode_labels() {
    assert_eq!(AmpMode::Linear.label(), "Linear");
    assert_eq!(AmpMode::Stiction.label(), "Stiction");
    assert_eq!(FutureMode::PrintThrough.label(), "Print-Through");
    assert_eq!(FutureMode::PreEcho.label(), "Pre-Echo");
    assert_eq!(RhythmMode::PhaseReset.label(), "Phase Reset");
    assert_eq!(RhythmMode::Euclidean.label(), "Euclidean");
}

#[test]
fn mode_defaults() {
    assert_eq!(CircuitMode::default(), CircuitMode::CrossoverDistortion);
    assert_eq!(GeometryMode::default(), GeometryMode::Chladni);
    assert_eq!(LifeMode::default(), LifeMode::Viscosity);
    assert_eq!(ModulateMode::default(), ModulateMode::PhasePhaser);
    assert_eq!(AmpMode::default(), AmpMode::Linear);
}

#[test]
fn only_pll_tear_is_heavy() {
    assert!(heavy_cpu_for_mode(ModulateMode::PllTear));
    assert!(!heavy_cpu_for_mode(ModulateMode::GravityPhaser));
    assert!(!heavy_cpu_for_mode(ModulateMode::PhasePhaser));
}

#[test]
fn amp_mode_grid_is_linear() {
    let g = default_amp_modes();
    assert!(g.iter().all(|row| row.iter().all(|m| *m == AmpMode::Linear)));
}

#[test]
fn mid_side_sizes_for_fft() {
    let mut m = MidSideModule::new();
    assert_eq!(m.rng_state, MID_SIDE_SEED);
    assert_eq!(m.num_bins, 0);
    m.rng_state = 1;
    m.reset(2048);
    assert_eq!(m.num_bins, 1025);
    assert_eq!(m.rng_state, MID_SIDE_SEED);
}

use spectral_forge::dsp::fx_matrix::recompute_phys_topology;
use spectral_forge::dsp::modules::past::{active_layout, PastMode};
use spectral_forge::dsp::modules::{module_spec, HelpTopic, ModuleType, PanelWidget, SlotColor};
use spectral_forge::dsp::pipeline::{resolve_sc_source, ScSource};
use spectral_forge::params::{FxChannelTarget, ScChannel, StereoLink};
use spectral_forge::params::FxChannelTarget::{All, Mid, Side};

const ALL: [ModuleType; 16] = [
    ModuleType::Empty, ModuleType::Dynamics, ModuleType::Freeze, ModuleType::PhaseSmear,
    ModuleType::Contrast, ModuleType::Gain, ModuleType::MidSide, ModuleType::TransientSustainedSplit,
    ModuleType::Harmonic, ModuleType::Future, ModuleType::Punch, ModuleType::Rhythm,
    ModuleType::Geometry, ModuleType::Modulate, ModuleType::Circuit, ModuleType::Master,
];

#[test]
fn module_spec_entries() {
    let d = module_spec(ModuleType::Dynamics);
    assert_eq!(d.display_name, "Dynamics");
    assert_eq!(d.num_curves, 6);
    assert_eq!(d.curve_labels, &["THRESHOLD", "RATIO", "ATTACK", "RELEASE", "KNEE", "MIX"]);
    assert_eq!(d.color_lit, SlotColor::Rgb { r: 0x50, g: 0xc0, b: 0xc4 });
    assert!(d.supports_sidechain && !d.wants_sidechain);
    let p = module_spec(ModuleType::Punch);
    assert!(!p.wants_sidechain && p.supports_sidechain);
    let g = module_spec(ModuleType::Gain);
    assert_eq!(g.curve_labels, &["GAIN", "SC SMOOTH"]);
    assert_eq!(g.num_curves, 2);
    let r = module_spec(ModuleType::Rhythm);
    assert_eq!(r.panel_widget, Some(PanelWidget::RhythmPanel));
    assert_eq!(module_spec(ModuleType::Modulate).color_lit, SlotColor::ModulateDot);
    assert_eq!(module_spec(ModuleType::Circuit).color_lit, SlotColor::CircuitDot);
    assert_eq!(module_spec(ModuleType::MidSide).display_name, "Mid/Side");
    assert_eq!(module_spec(ModuleType::Empty).num_curves, 0);
}

#[test]
fn every_spec_has_one_label_per_curve() {
    for ty in ALL {
        let s = module_spec(ty);
        assert_eq!(s.num_curves, s.curve_labels.len());
        assert!(!s.wants_sidechain);
        assert!(!s.writes_bin_physics);
    }
}

#[test]
fn phys_order_is_numerical() {
    let types = [ModuleType::Dynamics, ModuleType::Gain, ModuleType::Empty, ModuleType::Freeze,
        ModuleType::Empty, ModuleType::Punch, ModuleType::Empty, ModuleType::Empty, ModuleType::Master];
    let mut order = vec![7usize, 7];
    let mut bits = [true; 9];
    let in_use = recompute_phys_topology(&types, &mut order, &mut bits);
    assert!(!in_use);
    assert_eq!(order, vec![0, 1, 2, 3, 4, 5, 6, 7]);
    assert_eq!(bits, [false; 9]);
}

#[test]
fn past_layouts() {
    let g = active_layout(0);
    assert_eq!(g.active, &[0, 1, 2, 3, 4]);
    assert_eq!(g.label_overrides, &[(1, "Age"), (3, "Smear")]);
    assert_eq!(g.help_for, HelpTopic::Granular);
    assert!(g.mode_overview.is_none());
    assert_eq!(g.help(4), "Per-bin wet/dry.");
    assert_eq!(g.help(9), "");
    let c = active_layout(2);
    assert_eq!(c.active, &[0, 1, 2, 4]);
    assert_eq!(c.label_overrides, &[(1, "Delay")]);
    assert_eq!(c.help(2), "Per-bin gate on the current frame's magnitude.");
    assert_eq!(active_layout(4).active, &[0, 4]);
    assert_eq!(active_layout(4).help(0), "Per-bin keep during the stretched read.");
    assert_eq!(active_layout(1).help(2), "Per-bin floor — bins below this magnitude are excluded from sorting.");
    assert_eq!(active_layout(3).help(2), "Per-bin gate.");
    // Unknown mode bytes fall back to Granular.
    assert_eq!(active_layout(77).help_for, HelpTopic::Granular);
    assert_eq!(PastMode::try_from(3u8), Ok(PastMode::Reverse));
    assert_eq!(PastMode::try_from(5u8), Err(()));
}

#[test]
fn sidechain_source_routing() {
    assert_eq!(resolve_sc_source(ScChannel::Follow, StereoLink::Linked, Mid, 1), ScSource::LR);
    assert_eq!(resolve_sc_source(ScChannel::Follow, StereoLink::Independent, All, 0), ScSource::L);
    assert_eq!(resolve_sc_source(ScChannel::Follow, StereoLink::Independent, All, 1), ScSource::R);
    assert_eq!(resolve_sc_source(ScChannel::Follow, StereoLink::MidSide, Mid, 0), ScSource::M);
    assert_eq!(resolve_sc_source(ScChannel::Follow, StereoLink::MidSide, Side, 0), ScSource::S);
    assert_eq!(resolve_sc_source(ScChannel::Follow, StereoLink::MidSide, All, 1), ScSource::LR);
    assert_eq!(resolve_sc_source(ScChannel::S, StereoLink::Linked, All, 0), ScSource::S);
    assert_eq!(resolve_sc_source(ScChannel::L, StereoLink::MidSide, Side, 1), ScSource::L);
    assert_eq!(ScSource::M.index(), 3);
}

use spectral_forge::dsp::fx_matrix::{amp_channel, plan_slot_sync, test_force_writer, virtual_row_routing, SlotChange};
use spectral_forge::dsp::modules::{ModuleType, VirtualRowKind};
use spectral_forge::dsp::pipeline::{slot_sc_sources, ScSource};
use spectral_forge::params::{FxChannelTarget, ScChannel, StereoLink};

#[test]
fn slot_sync_plans_drop_create_and_keep() {
    let mut current = [ModuleType::Empty; 9];
    current[0] = ModuleType::Dynamics;
    current[1] = ModuleType::Freeze;
    current[8] = ModuleType::Master;
    let mut wanted = current;
    wanted[1] = ModuleType::Empty;
    wanted[2] = ModuleType::Gain;
    wanted[0] = ModuleType::Contrast;
    let (changes, any) = plan_slot_sync(&current, &wanted);
    assert!(any);
    assert_eq!(changes[0], SlotChange::Create(ModuleType::Contrast));
    assert_eq!(changes[1], SlotChange::Drop);
    assert_eq!(changes[2], SlotChange::Create(ModuleType::Gain));
    for s in 3..9 {
        assert_eq!(changes[s], SlotChange::Keep);
    }
    // Carrying out the plan reaches the request, and planning again changes nothing.
    let mut applied = current;
    for s in 0..9 {
        match changes[s] {
            SlotChange::Keep => {}
            SlotChange::Drop => applied[s] = ModuleType::Empty,
            SlotChange::Create(t) => applied[s] = t,
        }
    }
    assert_eq!(applied, wanted);
    let (again, any_again) = plan_slot_sync(&applied, &wanted);
    assert!(!any_again);
    assert!(again.iter().all(|c| *c == SlotChange::Keep));
}

#[test]
fn slot_sync_with_nothing_to_do() {
    let current = [ModuleType::Punch; 9];
    let (changes, any) = plan_slot_sync(&current, &current);
    assert!(!any);
    assert!(changes.iter().all(|c| *c == SlotChange::Keep));
}

#[test]
fn amp_channel_follows_link() {
    assert_eq!(amp_channel(StereoLink::Linked, 1), 0);
    assert_eq!(amp_channel(StereoLink::Independent, 0), 0);
    assert_eq!(amp_channel(StereoLink::Independent, 1), 1);
    assert_eq!(amp_channel(StereoLink::MidSide, 5), 1);
}

#[test]
fn virtual_rows_feed_later_slots_and_fill_from_their_source() {
    let rows = [
        Some((2u8, VirtualRowKind::Transient)),
        Some((2u8, VirtualRowKind::Sustained)),
        None,
        Some((5u8, VirtualRowKind::Transient)),
    ];
    let (feeds, fills) = virtual_row_routing(&rows, 2);
    assert_eq!(feeds, [false, false, false, false]);
    assert_eq!(fills, [Some(0), Some(1), None, None]);
    let (feeds, fills) = virtual_row_routing(&rows, 4);
    assert_eq!(feeds, [true, true, false, false]);
    assert_eq!(fills, [None, None, None, None]);
    let (feeds, fills) = virtual_row_routing(&rows, 5);
    assert_eq!(feeds, [true, true, false, false]);
    assert_eq!(fills, [None, None, None, Some(0)]);
}

#[test]
fn sidechain_sources_per_channel_and_slot() {
    let mut types = [ModuleType::Empty; 9];
    types[0] = ModuleType::Dynamics; // takes a sidechain
    types[1] = ModuleType::Contrast; // does not
    types[2] = ModuleType::Punch;    // takes a sidechain
    let mut choices = [ScChannel::Follow; 9];
    choices[2] = ScChannel::M;
    choices[1] = ScChannel::S;
    let targets = [FxChannelTarget::All; 9];
    let r = slot_sc_sources(&types, &choices, StereoLink::Independent, &targets);
    assert_eq!(r[0][0], ScSource::L);
    assert_eq!(r[1][0], ScSource::R);
    assert_eq!(r[0][1], ScSource::LR);
    assert_eq!(r[1][1], ScSource::LR);
    assert_eq!(r[0][2], ScSource::M);
    assert_eq!(r[1][2], ScSource::M);
    assert_eq!(r[0][8], ScSource::LR);
    let r = slot_sc_sources(&types, &choices, StereoLink::Linked, &targets);
    assert_eq!(r[1][0], ScSource::LR);
}

#[test]
fn forcing_a_writer_moves_it_to_the_front() {
    let mut order = vec![3usize, 5, 0, 1, 2, 4, 6, 7];
    let mut bits = [false; 9];
    assert!(test_force_writer(0, &mut order, &mut bits));
    assert_eq!(order, vec![0usize, 3, 5, 1, 2, 4, 6, 7]);
    assert!(bits[0] && bits.iter().filter(|b| **b).count() == 1);
    // Already first: unchanged.
    assert!(test_force_writer(0, &mut order, &mut bits));
    assert_eq!(order, vec![0usize, 3, 5, 1, 2, 4, 6, 7]);
    // Master only sets its flag.
    assert!(test_force_writer(8, &mut order, &mut bits));
    assert_eq!(order, vec![0usize, 3, 5, 1, 2, 4, 6, 7]);
    assert!(bits[8]);
}

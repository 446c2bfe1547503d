use spectral_forge::dsp::modulation_ring::{RingKey, RingStateBank, RING_KEY_COUNT};
use spectral_forge::editor::mod_ring::{ModRingState, ModRingToggle};

fn key(slot: u8, curve: u8, node: u8) -> RingKey {
    RingKey { slot, curve, node }
}

#[test]
fn key_index_is_row_major() {
    assert_eq!(RingStateBank::key_index(key(0, 0, 0)), 0);
    assert_eq!(RingStateBank::key_index(key(0, 0, 5)), 5);
    assert_eq!(RingStateBank::key_index(key(0, 1, 0)), 6);
    assert_eq!(RingStateBank::key_index(key(1, 0, 0)), 42);
    assert_eq!(RingStateBank::key_index(key(8, 6, 5)), RING_KEY_COUNT - 1);
}

#[test]
fn set_get_count_iter_clear() {
    let mut bank = RingStateBank::default();
    assert_eq!(bank.entry_count(), 0);
    let t2 = ModRingToggle::new(2).unwrap();
    let t5 = ModRingToggle::new(5).unwrap();
    bank.set_toggle(key(3, 4, 1), t2, true);
    bank.set_toggle(key(3, 4, 1), t5, true);
    bank.set_toggle(key(0, 0, 2), t5, true);
    assert_eq!(bank.get(key(3, 4, 1)), ModRingState { bits: 0b0010_0100 });
    assert_eq!(bank.get(key(0, 0, 2)), ModRingState { bits: 0b0010_0000 });
    assert_eq!(bank.entry_count(), 2);

    let items = bank.iter();
    assert_eq!(items.len(), 2);
    assert_eq!(items[0], (key(0, 0, 2), ModRingState { bits: 0b0010_0000 }));
    assert_eq!(items[1], (key(3, 4, 1), ModRingState { bits: 0b0010_0100 }));

    bank.set_toggle(key(3, 4, 1), t2, false);
    assert_eq!(bank.get(key(3, 4, 1)), ModRingState { bits: 0b0010_0000 });
    bank.set_toggle(key(0, 0, 2), t5, false);
    assert_eq!(bank.entry_count(), 1);

    let copy = bank.clone();
    bank.clear_all();
    assert_eq!(bank.entry_count(), 0);
    assert!(bank.iter().is_empty());
    assert_eq!(copy.entry_count(), 1);
}

#[test]
fn toggles_are_bit_positions() {
    assert!(ModRingToggle::new(8).is_none());
    assert_eq!(ModRingToggle::new(7).unwrap().bit(), 7);
    let mut s = ModRingState::default();
    assert!(s.is_empty());
    s.set(ModRingToggle::new(0).unwrap());
    assert_eq!(s.bits, 1);
    assert!(!s.is_empty());
    s.clear(ModRingToggle::new(0).unwrap());
    assert!(s.is_empty());
}

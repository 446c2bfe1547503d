use spectral_forge::dsp::midi::{apply_note_off, apply_note_on, clear_midi_state};

#[test]
fn note_on_sets_note_and_pitch_class() {
    let mut held = [false; 128];
    let mut classes = [false; 12];
    apply_note_on(61, &mut held, &mut classes);
    assert!(held[61]);
    assert!(classes[1]);
    assert_eq!(held.iter().filter(|h| **h).count(), 1);
    assert_eq!(classes.iter().filter(|c| **c).count(), 1);
}

#[test]
fn note_off_keeps_class_while_other_octave_held() {
    let mut held = [false; 128];
    let mut classes = [false; 12];
    apply_note_on(60, &mut held, &mut classes);
    apply_note_on(72, &mut held, &mut classes);
    apply_note_off(60, &mut held, &mut classes);
    assert!(!held[60]);
    assert!(held[72]);
    assert!(classes[0]);
    apply_note_off(72, &mut held, &mut classes);
    assert!(!classes[0]);
}

#[test]
fn out_of_range_and_stale_notes_are_ignored() {
    let mut held = [false; 128];
    let mut classes = [false; 12];
    apply_note_on(200, &mut held, &mut classes);
    assert!(held.iter().all(|h| !*h));
    assert!(classes.iter().all(|c| !*c));
    // Stale note-off: class bit set by another note stays untouched.
    apply_note_on(64, &mut held, &mut classes);
    apply_note_off(76, &mut held, &mut classes);
    assert!(classes[4]);
    assert!(held[64]);
    apply_note_off(128, &mut held, &mut classes);
    assert!(held[64]);
}

#[test]
fn clear_resets_everything() {
    let mut held = [true; 128];
    let mut classes = [true; 12];
    clear_midi_state(&mut held, &mut classes);
    assert!(held.iter().all(|h| !*h));
    assert!(classes.iter().all(|c| !*c));
}

#[test]
fn press_release_restores_state() {
    let mut held = [false; 128];
    let mut classes = [false; 12];
    apply_note_on(67, &mut held, &mut classes);
    let (h0, c0) = (held, classes);
    apply_note_on(43, &mut held, &mut classes);
    apply_note_off(43, &mut held, &mut classes);
    assert_eq!(held, h0);
    assert_eq!(classes, c0);
}

//! MIDI held-note bookkeeping helpers.
//!
//! Pure functions with no heap allocation: `apply_note_on` / `apply_note_off`
//! keep the per-note `held` array and the per-pitch-class `classes` array in
//! step, and `clear_midi_state` resets both.

use vstd::prelude::*;

verus! {

/// Number of distinct MIDI notes (0..=127).
pub const NUM_MIDI_NOTES: usize = 128;
/// Number of pitch classes (C through B).
pub const NUM_PITCH_CLASSES: usize = 12;

/// Some held note belongs to pitch class `pc`.
pub open spec fn class_has_held(held: Seq<bool>, pc: int) -> bool {
    exists|k: int| 0 <= k < NUM_MIDI_NOTES && k % 12 == pc && #[trigger] held[k]
}

/// Every pitch-class bit is set exactly when some held note maps to it.
pub open spec fn classes_consistent(held: Seq<bool>, classes: Seq<bool>) -> bool {
    forall|pc: int| 0 <= pc < NUM_PITCH_CLASSES ==> #[trigger] classes[pc] == class_has_held(held, pc)
}

/// Mark `note` held and set its pitch-class bit.
/// Notes outside 0..128 are silently ignored.
pub fn apply_note_on(note: u8, held: &mut [bool; 128], classes: &mut [bool; 12])
    ensures
        note >= 128 ==> final(held)@ == old(held)@ && final(classes)@ == old(classes)@,
        note < 128 ==> final(held)@ == old(held)@.update(note as int, true),
        note < 128 ==> final(classes)@ == old(classes)@.update(note as int % 12, true),
{
    let n = note as usize;
    if n >= NUM_MIDI_NOTES {
        return;
    }
    held[n] = true;
    classes[n % NUM_PITCH_CLASSES] = true;
}

/// Release `note`. Its pitch-class bit is recomputed from the remaining held
/// notes: it stays set if another held note maps to the same class.
/// Notes outside 0..128, and notes that are not held, leave both arrays as
/// they are.
pub fn apply_note_off(note: u8, held: &mut [bool; 128], classes: &mut [bool; 12])
    ensures
        (note >= 128 || !old(held)@[note as int]) ==> final(held)@ == old(held)@
            && final(classes)@ == old(classes)@,
        (note < 128 && old(held)@[note as int]) ==> {
            &&& final(held)@ == old(held)@.update(note as int, false)
            &&& final(classes)@ == old(classes)@.update(
                note as int % 12,
                class_has_held(old(held)@.update(note as int, false), note as int % 12),
            )
        },
{
    let n = note as usize;
    if n >= NUM_MIDI_NOTES {
        return;
    }
    if !held[n] {
        return;
    }
    held[n] = false;
    let pc = n % NUM_PITCH_CLASSES;
    let mut k = pc;
    let mut any = false;
    while k < NUM_MIDI_NOTES
        invariant
            pc < 12,
            pc <= k <= NUM_MIDI_NOTES + 11,
            k % 12 == pc,
            any <==> exists|j: int| pc <= j < k && j < NUM_MIDI_NOTES && j % 12 == pc && #[trigger] held@[j],
        decreases NUM_MIDI_NOTES + 12 - k,
    {
        if held[k] {
            any = true;
        }
        k = k + NUM_PITCH_CLASSES;
    }
    proof {
        if class_has_held(held@, pc as int) {
            let j = choose|j: int| 0 <= j < NUM_MIDI_NOTES && j % 12 == pc && #[trigger] held@[j];
            assert(pc <= j);
        }
    }
    classes[pc] = any;
}

/// Reset both arrays to all-false.
pub fn clear_midi_state(held: &mut [bool; 128], classes: &mut [bool; 12])
    ensures
        forall|i: int| 0 <= i < NUM_MIDI_NOTES ==> !#[trigger] final(held)@[i],
        forall|i: int| 0 <= i < NUM_PITCH_CLASSES ==> !#[trigger] final(classes)@[i],
        final(held)@.len() == NUM_MIDI_NOTES,
        final(classes)@.len() == NUM_PITCH_CLASSES,
{
    *held = [false; 128];
    *classes = [false; 12];
}

/// Pressing a note keeps every pitch-class bit equal to "some held note has
/// this class".
pub proof fn lemma_note_on_keeps_classes_consistent(held: Seq<bool>, classes: Seq<bool>, note: int)
    requires
        held.len() == NUM_MIDI_NOTES,
        classes.len() == NUM_PITCH_CLASSES,
        classes_consistent(held, classes),
        0 <= note < NUM_MIDI_NOTES,
    ensures
        classes_consistent(held.update(note, true), classes.update(note % 12, true)),
{
    let h2 = held.update(note, true);
    let c2 = classes.update(note % 12, true);
    assert forall|pc: int| 0 <= pc < NUM_PITCH_CLASSES implies #[trigger] c2[pc] == class_has_held(h2, pc) by {
        if pc == note % 12 {
            assert(h2[note]);
        } else {
            if class_has_held(held, pc) {
                let k = choose|k: int| 0 <= k < NUM_MIDI_NOTES && k % 12 == pc && #[trigger] held[k];
                assert(h2[k]);
            }
            if class_has_held(h2, pc) {
                let k = choose|k: int| 0 <= k < NUM_MIDI_NOTES && k % 12 == pc && #[trigger] h2[k];
                assert(held[k]);
            }
        }
    }
}

/// Releasing a held note keeps every pitch-class bit equal to "some held
/// note has this class": the bit survives while another note of the same
/// class (another octave) is still held.
pub proof fn lemma_note_off_keeps_classes_consistent(held: Seq<bool>, classes: Seq<bool>, note: int)
    requires
        held.len() == NUM_MIDI_NOTES,
        classes.len() == NUM_PITCH_CLASSES,
        classes_consistent(held, classes),
        0 <= note < NUM_MIDI_NOTES,
    ensures
        ({
            let h2 = held.update(note, false);
            classes_consistent(h2, classes.update(note % 12, class_has_held(h2, note % 12)))
        }),
{
    let h2 = held.update(note, false);
    let c2 = classes.update(note % 12, class_has_held(h2, note % 12));
    assert forall|pc: int| 0 <= pc < NUM_PITCH_CLASSES implies #[trigger] c2[pc] == class_has_held(h2, pc) by {
        if pc != note % 12 {
            if class_has_held(held, pc) {
                let k = choose|k: int| 0 <= k < NUM_MIDI_NOTES && k % 12 == pc && #[trigger] held[k];
                assert(h2[k]);
            }
            if class_has_held(h2, pc) {
                let k = choose|k: int| 0 <= k < NUM_MIDI_NOTES && k % 12 == pc && #[trigger] h2[k];
                assert(held[k]);
            }
        }
    }
}

/// After a reset no note is held and no pitch class is active, which is a
/// consistent state.
pub proof fn lemma_cleared_state_consistent(held: Seq<bool>, classes: Seq<bool>)
    requires
        forall|i: int| 0 <= i < NUM_MIDI_NOTES ==> !#[trigger] held[i],
        forall|i: int| 0 <= i < NUM_PITCH_CLASSES ==> !#[trigger] classes[i],
    ensures
        classes_consistent(held, classes),
{
}

/// Pressing a note that was not held and then releasing it gives back the
/// held set and, from a consistent state, the pitch-class set it started from.
pub proof fn lemma_note_on_then_off_restores(held: Seq<bool>, classes: Seq<bool>, note: int)
    requires
        held.len() == NUM_MIDI_NOTES,
        classes.len() == NUM_PITCH_CLASSES,
        classes_consistent(held, classes),
        0 <= note < NUM_MIDI_NOTES,
        !held[note],
    ensures
        ({
            let h1 = held.update(note, true);
            let c1 = classes.update(note % 12, true);
            let h2 = h1.update(note, false);
            &&& h2 == held
            &&& c1.update(note % 12, class_has_held(h2, note % 12)) == classes
        }),
{
    let h1 = held.update(note, true);
    let h2 = h1.update(note, false);
    assert(h2 =~= held);
    let c1 = classes.update(note % 12, true);
    assert(classes[note % 12] == class_has_held(held, note % 12));
    assert(c1.update(note % 12, class_has_held(h2, note % 12)) =~= classes);
}

} // verus!

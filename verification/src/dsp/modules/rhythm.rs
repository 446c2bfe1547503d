//! Rhythm module: mode selector and the arpeggiator step grid.

use vstd::prelude::*;

verus! {

#[derive(Debug, Clone, Copy, PartialEq, Eq, Default)]
pub enum RhythmMode {
    #[default]
    Euclidean,
    Arpeggiator,
    PhaseReset,
}

impl RhythmMode {
    pub fn label(self) -> (r: &'static str)
        ensures
            self == RhythmMode::Euclidean ==> r@ == "Euclidean"@,
            self == RhythmMode::Arpeggiator ==> r@ == "Arpeggiator"@,
            self == RhythmMode::PhaseReset ==> r@ == "Phase Reset"@,
    {
        match self {
            RhythmMode::Euclidean => "Euclidean",
            RhythmMode::Arpeggiator => "Arpeggiator",
            RhythmMode::PhaseReset => "Phase Reset",
        }
    }
}

/// Arpeggiator step grid: 8 voices × 8 steps. Each voice's steps are packed
/// in a `u8` (bit 0 = step 0, bit 7 = step 7); a set bit means the voice
/// plays at that step.
#[derive(Debug, Clone, Copy, Default)]
pub struct ArpGrid {
    pub steps: [u8; 8],
}

/// Voice `voice` plays at step `step` in `steps`.
pub open spec fn grid_bit(steps: Seq<u8>, voice: int, step: int) -> bool {
    0 <= voice < 8 && 0 <= step < 8 && (steps[voice] >> (step as u8)) & 1u8 != 0
}

impl ArpGrid {
    /// Whether `voice` plays at `step`; false outside the 8 × 8 grid.
    pub fn voice_active_at(&self, voice: usize, step: usize) -> (r: bool)
        ensures
            r == grid_bit(self.steps@, voice as int, step as int),
    {
        if voice >= 8 || step >= 8 {
            return false;
        }
        (self.steps[voice] >> (step as u8)) & 1u8 != 0
    }

    /// Flip one cell of the grid; positions outside the grid are ignored.
    pub fn toggle(&mut self, voice: usize, step: usize)
        ensures
            (voice >= 8 || step >= 8) ==> final(self).steps@ == old(self).steps@,
            forall|v: int, s: int| 0 <= v < 8 && 0 <= s < 8 ==> #[trigger] grid_bit(final(self).steps@, v, s)
                == if v == voice && s == step { !grid_bit(old(self).steps@, v, s) } else { grid_bit(old(self).steps@, v, s) },
            final(self).steps@.len() == 8,
    {
        if voice < 8 && step < 8 {
            let old_bits = self.steps[voice];
            let sh = step as u8;
            let nb = old_bits ^ (1u8 << sh);
            self.steps[voice] = nb;
            proof {
                assert forall|v: int, s: int| 0 <= v < 8 && 0 <= s < 8 implies #[trigger] grid_bit(self.steps@, v, s)
                    == if v == voice && s == step { !grid_bit(old(self).steps@, v, s) } else { grid_bit(old(self).steps@, v, s) } by {
                    if v == voice {
                        let q = s as u8;
                        assert((nb >> q) & 1u8 != 0 <==> if q == sh { (old_bits >> q) & 1u8 == 0 } else { (old_bits >> q) & 1u8 != 0 }) by (bit_vector)
                            requires nb == old_bits ^ (1u8 << sh), sh < 8u8, q < 8u8;
                    }
                }
            }
        }
    }
}

/// Toggling the same cell twice gives back the grid it started from.
pub proof fn lemma_toggle_twice_restores(steps: Seq<u8>, after_one: Seq<u8>, after_two: Seq<u8>, voice: int, step: int)
    requires
        steps.len() == 8,
        after_one.len() == 8,
        after_two.len() == 8,
        forall|v: int, s: int| 0 <= v < 8 && 0 <= s < 8 ==> #[trigger] grid_bit(after_one, v, s)
            == if v == voice && s == step { !grid_bit(steps, v, s) } else { grid_bit(steps, v, s) },
        forall|v: int, s: int| 0 <= v < 8 && 0 <= s < 8 ==> #[trigger] grid_bit(after_two, v, s)
            == if v == voice && s == step { !grid_bit(after_one, v, s) } else { grid_bit(after_one, v, s) },
    ensures
        forall|v: int, s: int| 0 <= v < 8 && 0 <= s < 8 ==> #[trigger] grid_bit(after_two, v, s) == grid_bit(steps, v, s),
        after_two == steps,
{
    assert forall|v: int| 0 <= v < 8 implies #[trigger] after_two[v] == steps[v] by {
        let a = after_two[v];
        let b = steps[v];
        assert(grid_bit(after_two, v, 0) == grid_bit(steps, v, 0));
        assert(grid_bit(after_two, v, 1) == grid_bit(steps, v, 1));
        assert(grid_bit(after_two, v, 2) == grid_bit(steps, v, 2));
        assert(grid_bit(after_two, v, 3) == grid_bit(steps, v, 3));
        assert(grid_bit(after_two, v, 4) == grid_bit(steps, v, 4));
        assert(grid_bit(after_two, v, 5) == grid_bit(steps, v, 5));
        assert(grid_bit(after_two, v, 6) == grid_bit(steps, v, 6));
        assert(grid_bit(after_two, v, 7) == grid_bit(steps, v, 7));
        assert(a == b) by (bit_vector)
            requires
                ((a >> 0u8) & 1u8 != 0) == ((b >> 0u8) & 1u8 != 0),
                ((a >> 1u8) & 1u8 != 0) == ((b >> 1u8) & 1u8 != 0),
                ((a >> 2u8) & 1u8 != 0) == ((b >> 2u8) & 1u8 != 0),
                ((a >> 3u8) & 1u8 != 0) == ((b >> 3u8) & 1u8 != 0),
                ((a >> 4u8) & 1u8 != 0) == ((b >> 4u8) & 1u8 != 0),
                ((a >> 5u8) & 1u8 != 0) == ((b >> 5u8) & 1u8 != 0),
                ((a >> 6u8) & 1u8 != 0) == ((b >> 6u8) & 1u8 != 0),
                ((a >> 7u8) & 1u8 != 0) == ((b >> 7u8) & 1u8 != 0);
    }
    assert(after_two =~= steps);
}


/// Weight of step `s` in a voice's byte: step 0 is the lowest bit.
pub open spec fn step_weight(s: int) -> int {
    if s == 0 { 1 } else if s == 1 { 2 } else if s == 2 { 4 } else if s == 3 { 8 }
    else if s == 4 { 16 } else if s == 5 { 32 } else if s == 6 { 64 } else { 128 }
}

/// Each voice's steps are packed in its byte, bit `s` for step `s`: voice
/// `voice` plays at `step` exactly when that bit of `steps[voice]` is set.
pub proof fn lemma_grid_bit_packing(steps: Seq<u8>, voice: int, step: int)
    requires
        0 <= voice < 8,
        0 <= step < 8,
    ensures
        grid_bit(steps, voice, step) <==> (steps[voice] as int / step_weight(step)) % 2 == 1,
{
    let x = steps[voice];
    if step == 0 { assert(((x >> 0u8) & 1u8 != 0) <==> (x / 1) % 2 == 1) by (bit_vector); }
    else if step == 1 { assert(((x >> 1u8) & 1u8 != 0) <==> (x / 2) % 2 == 1) by (bit_vector); }
    else if step == 2 { assert(((x >> 2u8) & 1u8 != 0) <==> (x / 4) % 2 == 1) by (bit_vector); }
    else if step == 3 { assert(((x >> 3u8) & 1u8 != 0) <==> (x / 8) % 2 == 1) by (bit_vector); }
    else if step == 4 { assert(((x >> 4u8) & 1u8 != 0) <==> (x / 16) % 2 == 1) by (bit_vector); }
    else if step == 5 { assert(((x >> 5u8) & 1u8 != 0) <==> (x / 32) % 2 == 1) by (bit_vector); }
    else if step == 6 { assert(((x >> 6u8) & 1u8 != 0) <==> (x / 64) % 2 == 1) by (bit_vector); }
    else { assert(((x >> 7u8) & 1u8 != 0) <==> (x / 128) % 2 == 1) by (bit_vector); }
}

} // verus!

//! Toggle set of one modulation-ring node: up to eight independent toggles
//! packed in a byte.

use vstd::prelude::*;

verus! {

/// Number of toggles a ring node carries.
pub const NUM_RING_TOGGLES: u8 = 8;

/// One toggle of a modulation ring, identified by its position 0..8.
#[derive(Clone, Copy, Debug, PartialEq, Eq)]
pub struct ModRingToggle {
    bit: u8,
}

impl ModRingToggle {
    pub closed spec fn index(self) -> u8 {
        self.bit
    }

    #[verifier::type_invariant]
    closed spec fn inv(self) -> bool {
        self.bit < NUM_RING_TOGGLES
    }

    /// The toggle at position `bit`, if there is one.
    pub fn new(bit: u8) -> (r: Option<Self>)
        ensures
            bit < NUM_RING_TOGGLES <==> r is Some,
            r matches Some(t) ==> t.index() == bit,
    {
        if bit < NUM_RING_TOGGLES {
            Some(ModRingToggle { bit })
        } else {
            None
        }
    }

    /// Position of this toggle.
    pub fn bit(self) -> (r: u8)
        ensures
            r == self.index(),
            r < NUM_RING_TOGGLES,
    {
        proof {
            use_type_invariant(self);
        }
        self.bit
    }
}

/// The toggles set on one ring node.
#[derive(Clone, Copy, Debug, PartialEq, Eq)]
pub struct ModRingState {
    pub bits: u8,
}

impl ModRingState {
    /// Toggle at position `i` is set.
    pub open spec fn has(self, i: u8) -> bool {
        (self.bits >> i) & 1u8 == 1u8
    }

    pub open spec fn spec_is_empty(&self) -> bool {
        self.bits == 0
    }

    #[verifier::when_used_as_spec(spec_is_empty)]
    pub fn is_empty(&self) -> (r: bool)
        ensures
            r == self.spec_is_empty(),
    {
        self.bits == 0
    }

    /// Set toggle `t`; the other toggles keep their values.
    pub fn set(&mut self, t: ModRingToggle)
        ensures
            final(self).has(t.index()),
            forall|i: u8| i < NUM_RING_TOGGLES && i != t.index() ==> #[trigger] final(self).has(i) == old(self).has(i),
    {
        let b = t.bit();
        let old_bits = self.bits;
        self.bits = self.bits | (1u8 << b);
        proof {
            let nb = self.bits;
            assert((nb >> b) & 1u8 == 1u8) by (bit_vector)
                requires nb == old_bits | (1u8 << b), b < 8u8;
            assert forall|i: u8| i < NUM_RING_TOGGLES && i != b implies #[trigger] ModRingState { bits: nb }.has(i) == ModRingState { bits: old_bits }.has(i) by {
                assert((nb >> i) & 1u8 == (old_bits >> i) & 1u8) by (bit_vector)
                    requires nb == old_bits | (1u8 << b), b < 8u8, i < 8u8, i != b;
            }
        }
    }

    /// Clear toggle `t`; the other toggles keep their values.
    pub fn clear(&mut self, t: ModRingToggle)
        ensures
            !final(self).has(t.index()),
            forall|i: u8| i < NUM_RING_TOGGLES && i != t.index() ==> #[trigger] final(self).has(i) == old(self).has(i),
    {
        let b = t.bit();
        let old_bits = self.bits;
        self.bits = self.bits & !(1u8 << b);
        proof {
            let nb = self.bits;
            assert((nb >> b) & 1u8 == 0u8) by (bit_vector)
                requires nb == old_bits & !(1u8 << b), b < 8u8;
            assert forall|i: u8| i < NUM_RING_TOGGLES && i != b implies #[trigger] ModRingState { bits: nb }.has(i) == ModRingState { bits: old_bits }.has(i) by {
                assert((nb >> i) & 1u8 == (old_bits >> i) & 1u8) by (bit_vector)
                    requires nb == old_bits & !(1u8 << b), b < 8u8, i < 8u8, i != b;
            }
        }
    }
}

impl Default for ModRingState {
    /// A state with no toggle set.
    fn default() -> (r: Self)
        ensures
            r.spec_is_empty(),
    {
        ModRingState { bits: 0 }
    }
}

/// A state is empty exactly when none of its eight toggles is set.
pub proof fn lemma_empty_iff_no_toggle(s: ModRingState)
    ensures
        s.spec_is_empty() <==> forall|i: u8| i < NUM_RING_TOGGLES ==> !#[trigger] s.has(i),
{
    let b = s.bits;
    if !s.spec_is_empty() {
        assert(exists|i: u8| i < 8u8 && (b >> i) & 1u8 == 1u8) by {
            assert(b != 0u8 ==> ((b >> 0u8) & 1u8 == 1u8 || (b >> 1u8) & 1u8 == 1u8 || (b >> 2u8) & 1u8 == 1u8
                || (b >> 3u8) & 1u8 == 1u8 || (b >> 4u8) & 1u8 == 1u8 || (b >> 5u8) & 1u8 == 1u8
                || (b >> 6u8) & 1u8 == 1u8 || (b >> 7u8) & 1u8 == 1u8)) by (bit_vector);
            if (b >> 0u8) & 1u8 == 1u8 { assert(s.has(0u8)); }
            else if (b >> 1u8) & 1u8 == 1u8 { assert(s.has(1u8)); }
            else if (b >> 2u8) & 1u8 == 1u8 { assert(s.has(2u8)); }
            else if (b >> 3u8) & 1u8 == 1u8 { assert(s.has(3u8)); }
            else if (b >> 4u8) & 1u8 == 1u8 { assert(s.has(4u8)); }
            else if (b >> 5u8) & 1u8 == 1u8 { assert(s.has(5u8)); }
            else if (b >> 6u8) & 1u8 == 1u8 { assert(s.has(6u8)); }
            else { assert(s.has(7u8)); }
        }
    } else {
        assert forall|i: u8| i < NUM_RING_TOGGLES implies !#[trigger] s.has(i) by {
            assert((b >> i) & 1u8 == 0u8) by (bit_vector)
                requires b == 0u8;
        }
    }
}


/// Toggle `i` is bit `i` of the state's byte (toggle 0 the lowest bit).
pub proof fn lemma_toggle_bit_packing(st: ModRingState, i: u8)
    requires
        i < NUM_RING_TOGGLES,
    ensures
        st.has(i) <==> (st.bits as int / crate::dsp::modules::rhythm::step_weight(i as int)) % 2 == 1,
{
    let x = st.bits;
    if i == 0 { assert(((x >> 0u8) & 1u8 == 1u8) <==> (x / 1) % 2 == 1) by (bit_vector); }
    else if i == 1 { assert(((x >> 1u8) & 1u8 == 1u8) <==> (x / 2) % 2 == 1) by (bit_vector); }
    else if i == 2 { assert(((x >> 2u8) & 1u8 == 1u8) <==> (x / 4) % 2 == 1) by (bit_vector); }
    else if i == 3 { assert(((x >> 3u8) & 1u8 == 1u8) <==> (x / 8) % 2 == 1) by (bit_vector); }
    else if i == 4 { assert(((x >> 4u8) & 1u8 == 1u8) <==> (x / 16) % 2 == 1) by (bit_vector); }
    else if i == 5 { assert(((x >> 5u8) & 1u8 == 1u8) <==> (x / 32) % 2 == 1) by (bit_vector); }
    else if i == 6 { assert(((x >> 6u8) & 1u8 == 1u8) <==> (x / 64) % 2 == 1) by (bit_vector); }
    else { assert(((x >> 7u8) & 1u8 == 1u8) <==> (x / 128) % 2 == 1) by (bit_vector); }
}

} // verus!

//! Per-node modulation ring state bank.
//!
//! `RingStateBank` stores a `ModRingState` for every (slot, curve, node)
//! triple in a fixed-size array, no heap involved. Key count:
//! 9 slots × 7 curves × 6 nodes = 378.

use vstd::prelude::*;
use crate::editor::mod_ring::{ModRingState, ModRingToggle};

verus! {

/// Total number of (slot, curve, node) triples.
pub const RING_KEY_COUNT: usize = 378;

/// Identifies one (slot, curve, node) triple.
#[derive(Clone, Copy, Debug, PartialEq, Eq)]
pub struct RingKey {
    pub slot: u8,
    pub curve: u8,
    pub node: u8,
}

impl RingKey {
    /// The key names a stored triple: slot < 9, curve < 7, node < 6.
    pub open spec fn valid(self) -> bool {
        self.slot < 9 && self.curve < 7 && self.node < 6
    }
}

pub open spec fn spec_key_index(key: RingKey) -> int {
    key.slot * 42 + key.curve * 6 + key.node
}

/// The key stored at flat index `i`.
pub open spec fn key_of_index(i: int) -> RingKey {
    RingKey { slot: (i / 42) as u8, curve: ((i % 42) / 6) as u8, node: (i % 6) as u8 }
}

/// Number of non-empty states in `s`.
pub open spec fn count_non_empty(s: Seq<ModRingState>) -> nat
    decreases s.len(),
{
    if s.len() == 0 {
        0
    } else {
        count_non_empty(s.drop_last()) + if s.last().spec_is_empty() { 0nat } else { 1nat }
    }
}

/// The non-empty entries among the first `k` of `s`, with their keys, in index order.
pub open spec fn non_empty_entries(s: Seq<ModRingState>, k: int) -> Seq<(RingKey, ModRingState)>
    decreases k,
{
    if k <= 0 {
        seq![]
    } else {
        let p = non_empty_entries(s, k - 1);
        if s[k - 1].spec_is_empty() {
            p
        } else {
            p.push((key_of_index(k - 1), s[k - 1]))
        }
    }
}

/// Flat array holding the `ModRingState` of every (slot, curve, node).
#[derive(Clone)]
pub struct RingStateBank {
    entries: [ModRingState; 378],
}

impl View for RingStateBank {
    type V = Seq<ModRingState>;

    closed spec fn view(&self) -> Seq<ModRingState> {
        self.entries@
    }
}

impl Default for RingStateBank {
    /// A bank with every toggle of every key off.
    fn default() -> (r: Self)
        ensures
            r@.len() == RING_KEY_COUNT,
            forall|i: int| 0 <= i < RING_KEY_COUNT ==> (#[trigger] r@[i]).spec_is_empty(),
    {
        let z = ModRingState { bits: 0 };
        let mut r = RingStateBank { entries: [z; 378] };
        r.clear_all();
        r
    }
}

impl RingStateBank {
    /// The bank always holds one state per key.
    pub proof fn lemma_len(&self)
        ensures
            self@.len() == RING_KEY_COUNT,
    {
    }

    /// Flat index for a key; the key must name a stored triple.
    pub fn key_index(key: RingKey) -> (r: usize)
        requires
            key.valid(),
        ensures
            r == spec_key_index(key),
    {
        (key.slot as usize) * 42 + (key.curve as usize) * 6 + (key.node as usize)
    }

    /// Number of entries that have at least one toggle set.
    pub fn entry_count(&self) -> (r: usize)
        ensures
            r == count_non_empty(self@),
    {
        let mut n: usize = 0;
        let mut i: usize = 0;
        while i < RING_KEY_COUNT
            invariant
                self@.len() == RING_KEY_COUNT,
                0 <= i <= RING_KEY_COUNT,
                n == count_non_empty(self@.take(i as int)),
                n <= i,
            decreases RING_KEY_COUNT - i,
        {
            proof {
                assert(self@.take(i as int + 1).drop_last() =~= self@.take(i as int));
            }
            if !self.entries[i].is_empty() {
                n += 1;
            }
            i += 1;
        }
        proof {
            assert(self@.take(RING_KEY_COUNT as int) =~= self@);
        }
        n
    }

    /// Read the state for a key.
    pub fn get(&self, key: RingKey) -> (r: ModRingState)
        requires
            key.valid(),
        ensures
            r == self@[spec_key_index(key)],
    {
        self.entries[Self::key_index(key)]
    }

    /// Set or clear a single toggle for a key; every other toggle of every
    /// key keeps its value.
    pub fn set_toggle(&mut self, key: RingKey, t: ModRingToggle, on: bool)
        requires
            key.valid(),
        ensures
            final(self)@.len() == RING_KEY_COUNT,
            final(self)@[spec_key_index(key)].has(t.index()) == on,
            forall|i: u8| i < 8 && i != t.index() ==> #[trigger] final(self)@[spec_key_index(key)].has(i)
                == old(self)@[spec_key_index(key)].has(i),
            forall|j: int| 0 <= j < RING_KEY_COUNT && j != spec_key_index(key) ==> #[trigger] final(self)@[j] == old(self)@[j],
    {
        let idx = Self::key_index(key);
        let mut s = self.entries[idx];
        if on {
            s.set(t);
        } else {
            s.clear(t);
        }
        self.entries[idx] = s;
    }

    /// The non-empty (key, state) pairs, in ascending key order.
    pub fn iter(&self) -> (r: Vec<(RingKey, ModRingState)>)
        ensures
            r@ == non_empty_entries(self@, RING_KEY_COUNT as int),
    {
        let mut out: Vec<(RingKey, ModRingState)> = Vec::new();
        let mut i: usize = 0;
        while i < RING_KEY_COUNT
            invariant
                self@.len() == RING_KEY_COUNT,
                0 <= i <= RING_KEY_COUNT,
                out@ == non_empty_entries(self@, i as int),
            decreases RING_KEY_COUNT - i,
        {
            let s = self.entries[i];
            if !s.is_empty() {
                let slot = (i / 42) as u8;
                let rem = i % 42;
                let curve = (rem / 6) as u8;
                let node = (rem % 6) as u8;
                out.push((RingKey { slot, curve, node }, s));
            }
            i += 1;
        }
        out
    }

    /// Reset all entries to the default (all toggles off).
    pub fn clear_all(&mut self)
        ensures
            final(self)@.len() == RING_KEY_COUNT,
            forall|i: int| 0 <= i < RING_KEY_COUNT ==> (#[trigger] final(self)@[i]).spec_is_empty(),
    {
        let mut i: usize = 0;
        while i < RING_KEY_COUNT
            invariant
                self@.len() == RING_KEY_COUNT,
                0 <= i <= RING_KEY_COUNT,
                forall|j: int| 0 <= j < i ==> (#[trigger] self@[j]).spec_is_empty(),
            decreases RING_KEY_COUNT - i,
        {
            self.entries[i] = ModRingState::default();
            i += 1;
        }
    }
}

/// Flat indexing is a bijection between valid keys and 0..378: every valid
/// key lands inside the array, distinct keys land on distinct entries, and
/// the key decoded from an index maps back to that index.
pub proof fn lemma_key_index_bijective(a: RingKey, b: RingKey, i: int)
    ensures
        a.valid() ==> 0 <= spec_key_index(a) < RING_KEY_COUNT,
        a.valid() ==> key_of_index(spec_key_index(a)) == a,
        a.valid() && b.valid() && spec_key_index(a) == spec_key_index(b) ==> a == b,
        0 <= i < RING_KEY_COUNT ==> key_of_index(i).valid() && spec_key_index(key_of_index(i)) == i,
{
    if a.valid() {
        let (s, c, n) = (a.slot as int, a.curve as int, a.node as int);
        let k = s * 42 + c * 6 + n;
        assert(k / 42 == s && k % 42 == c * 6 + n) by (nonlinear_arith)
            requires 0 <= s < 9, 0 <= c < 7, 0 <= n < 6, k == s * 42 + c * 6 + n;
        assert((c * 6 + n) / 6 == c && k % 6 == n) by (nonlinear_arith)
            requires 0 <= s < 9, 0 <= c < 7, 0 <= n < 6, k == s * 42 + c * 6 + n;
    }
    if 0 <= i < RING_KEY_COUNT {
        assert(i / 42 < 9 && (i % 42) / 6 < 7 && i % 6 < 6 && (i / 42) * 42 + ((i % 42) / 6) * 6 + i % 6 == i) by (nonlinear_arith)
            requires 0 <= i < 378;
    }
}

/// Reading a key after setting or clearing one of its toggles gives back that
/// toggle's new value, and every other key reads as before.
pub proof fn lemma_get_after_set_toggle(
    before: Seq<ModRingState>,
    after: Seq<ModRingState>,
    key: RingKey,
    other: RingKey,
    t: ModRingToggle,
    on: bool,
)
    requires
        key.valid(),
        other.valid(),
        after.len() == RING_KEY_COUNT,
        after[spec_key_index(key)].has(t.index()) == on,
        forall|j: int| 0 <= j < RING_KEY_COUNT && j != spec_key_index(key) ==> #[trigger] after[j] == before[j],
    ensures
        after[spec_key_index(key)].has(t.index()) == on,
        other != key ==> after[spec_key_index(other)] == before[spec_key_index(other)],
{
    lemma_key_index_bijective(key, other, 0);
    lemma_key_index_bijective(other, key, 0);
}


/// Keys are laid out row-major — by slot, then curve, then node: a key
/// earlier in that order has a smaller index, and the first and last keys
/// take the first and last entries.
pub proof fn lemma_key_index_row_major(a: RingKey, b: RingKey)
    requires
        a.valid(),
        b.valid(),
    ensures
        (a.slot < b.slot || (a.slot == b.slot && a.curve < b.curve)
            || (a.slot == b.slot && a.curve == b.curve && a.node < b.node))
            ==> spec_key_index(a) < spec_key_index(b),
        spec_key_index(RingKey { slot: 0, curve: 0, node: 0 }) == 0,
        spec_key_index(RingKey { slot: 8, curve: 6, node: 5 }) == RING_KEY_COUNT - 1,
{
    let (sa, ca, na) = (a.slot as int, a.curve as int, a.node as int);
    let (sb, cb, nb) = (b.slot as int, b.curve as int, b.node as int);
    if sa < sb {
        assert(sa * 42 + ca * 6 + na < sb * 42 + cb * 6 + nb) by (nonlinear_arith)
            requires sa < sb, 0 <= ca < 7, 0 <= na < 6, 0 <= cb, 0 <= nb;
    } else if sa == sb && ca < cb {
        assert(ca * 6 + na < cb * 6 + nb) by (nonlinear_arith)
            requires ca < cb, 0 <= na < 6, 0 <= nb;
    }
}

} // verus!

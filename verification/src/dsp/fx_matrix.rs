//! Slot scheduling for the effects matrix.
//!
//! Slots 0..8 run in `phys_order`: every slot whose module writes BinPhysics
//! state first, then the others, each group in ascending slot order. The
//! Master slot (8) always runs last and is not part of `phys_order`, but a
//! writer there still switches BinPhysics handling on.

use vstd::prelude::*;
use crate::dsp::modules::{module_spec, spec_module_spec, ModuleType, VirtualRowKind, MAX_SLOTS, MAX_SPLIT_VIRTUAL_ROWS};
use crate::params::StereoLink;

verus! {

/// The module in slot `s` writes BinPhysics state.
pub open spec fn is_writer(types: Seq<ModuleType>, s: int) -> bool {
    spec_module_spec(types[s]).writes_bin_physics
}

/// Slots below `k` that are writers (`writer == true`) or non-writers, ascending.
pub open spec fn slots_with(types: Seq<ModuleType>, writer: bool, k: int) -> Seq<usize>
    decreases k,
{
    if k <= 0 {
        seq![]
    } else {
        let p = slots_with(types, writer, k - 1);
        if is_writer(types, k - 1) == writer {
            p.push((k - 1) as usize)
        } else {
            p
        }
    }
}

/// Iteration order of slots 0..8: writers first, then the rest.
pub open spec fn spec_phys_order(types: Seq<ModuleType>) -> Seq<usize> {
    slots_with(types, true, 8) + slots_with(types, false, 8)
}

/// Some slot, Master included, writes BinPhysics state.
pub open spec fn any_writer(types: Seq<ModuleType>) -> bool {
    exists|s: int| 0 <= s < MAX_SLOTS && #[trigger] is_writer(types, s)
}

/// Recompute the slot iteration order and the per-slot writer flags from the
/// module kinds in the nine slots; returns whether any slot writes BinPhysics.
/// `phys_order` is cleared and refilled within its capacity.
pub fn recompute_phys_topology(
    slot_types: &[ModuleType; 9],
    phys_order: &mut Vec<usize>,
    writer_bits: &mut [bool; 9],
) -> (bin_physics_in_use: bool)
    ensures
        final(phys_order)@ == spec_phys_order(slot_types@),
        forall|s: int| 0 <= s < MAX_SLOTS ==> #[trigger] final(writer_bits)@[s] == is_writer(slot_types@, s),
        bin_physics_in_use == any_writer(slot_types@),
{
    let ghost ty = slot_types@;
    let mut writers: [usize; 8] = [0; 8];
    let mut readers: [usize; 8] = [0; 8];
    let mut nw: usize = 0;
    let mut nr: usize = 0;
    let mut any_writer_found = false;
    let mut s: usize = 0;
    while s < 8
        invariant
            ty == slot_types@,
            0 <= s <= 8,
            nw == slots_with(ty, true, s as int).len(),
            nr == slots_with(ty, false, s as int).len(),
            nw + nr == s,
            forall|q: int| 0 <= q < nw ==> #[trigger] writers@[q] == slots_with(ty, true, s as int)[q],
            forall|q: int| 0 <= q < nr ==> #[trigger] readers@[q] == slots_with(ty, false, s as int)[q],
            forall|q: int| 0 <= q < s ==> #[trigger] writer_bits@[q] == is_writer(ty, q),
            any_writer_found <==> exists|q: int| 0 <= q < s && #[trigger] is_writer(ty, q),
        decreases 8 - s,
    {
        let spec = module_spec(slot_types[s]);
        writer_bits[s] = spec.writes_bin_physics;
        if spec.writes_bin_physics {
            writers[nw] = s;
            nw += 1;
            any_writer_found = true;
        } else {
            readers[nr] = s;
            nr += 1;
        }
        s += 1;
    }
    let master = module_spec(slot_types[8]);
    writer_bits[8] = master.writes_bin_physics;
    if master.writes_bin_physics {
        any_writer_found = true;
    }
    let ghost ws = slots_with(ty, true, 8);
    let ghost rs = slots_with(ty, false, 8);
    phys_order.clear();
    let mut i: usize = 0;
    while i < nw
        invariant
            0 <= i <= nw <= 8,
            nw == ws.len(),
            forall|q: int| 0 <= q < nw ==> #[trigger] writers@[q] == ws[q],
            phys_order@ == ws.take(i as int),
        decreases nw - i,
    {
        phys_order.push(writers[i]);
        proof {
            assert(ws.take(i as int + 1) =~= ws.take(i as int).push(ws[i as int]));
        }
        i += 1;
    }
    let mut i: usize = 0;
    while i < nr
        invariant
            0 <= i <= nr <= 8,
            nr == rs.len(),
            forall|q: int| 0 <= q < nr ==> #[trigger] readers@[q] == rs[q],
            phys_order@ == ws + rs.take(i as int),
        decreases nr - i,
    {
        phys_order.push(readers[i]);
        proof {
            assert(ws + rs.take(i as int + 1) =~= (ws + rs.take(i as int)).push(rs[i as int]));
        }
        i += 1;
    }
    proof {
        assert(ws.take(nw as int) =~= ws);
        assert(rs.take(nr as int) =~= rs);
        assert(any_writer_found <==> any_writer(ty)) by {
            if any_writer(ty) {
                let q = choose|q: int| 0 <= q < MAX_SLOTS && #[trigger] is_writer(ty, q);
                if q < 8 {
                    assert(exists|q2: int| 0 <= q2 < 8 && #[trigger] is_writer(ty, q2));
                }
            }
        }
    }
    any_writer_found
}

proof fn lemma_slots_with_shape(types: Seq<ModuleType>, writer: bool, k: int)
    requires
        0 <= k <= 8,
    ensures
        slots_with(types, writer, k).len() <= k,
        forall|i: int| 0 <= i < slots_with(types, writer, k).len()
            ==> #[trigger] slots_with(types, writer, k)[i] < k && is_writer(types, slots_with(types, writer, k)[i] as int) == writer,
        forall|i: int, j: int| 0 <= i < j < slots_with(types, writer, k).len()
            ==> #[trigger] slots_with(types, writer, k)[i] < #[trigger] slots_with(types, writer, k)[j],
        forall|s: int| 0 <= s < k && is_writer(types, s) == writer
            ==> #[trigger] slots_with(types, writer, k).contains(s as usize),
        slots_with(types, true, k).len() + slots_with(types, false, k).len() == k,
    decreases k,
{
    if k > 0 {
        lemma_slots_with_shape(types, writer, k - 1);
        lemma_slots_with_shape(types, !writer, k - 1);
        let p = slots_with(types, writer, k - 1);
        if is_writer(types, k - 1) == writer {
            let d = p.push((k - 1) as usize);
            assert(d[p.len() as int] == k - 1);
            assert forall|i: int| 0 <= i < p.len() implies d[i] == p[i] by {}
            assert forall|s: int| 0 <= s < k && is_writer(types, s) == writer implies #[trigger] d.contains(s as usize) by {
                if s < k - 1 {
                    assert(p.contains(s as usize));
                    let i = choose|i: int| 0 <= i < p.len() && p[i] == s as usize;
                    assert(d[i] == s as usize);
                } else {
                    assert(d[p.len() as int] == s as usize);
                }
            }
        }
        if writer {
            lemma_slots_with_shape(types, false, k - 1);
        } else {
            lemma_slots_with_shape(types, true, k - 1);
        }
    }
}

/// The iteration order visits each of the slots 0..8 exactly once, every
/// writer before every non-writer, and each group in ascending slot order.
pub proof fn lemma_phys_order_schedules_every_slot_once(types: Seq<ModuleType>)
    ensures
        spec_phys_order(types).len() == 8,
        spec_phys_order(types).no_duplicates(),
        forall|s: int| 0 <= s < 8 ==> #[trigger] spec_phys_order(types).contains(s as usize),
        forall|i: int, j: int| 0 <= i < j < 8 && is_writer(types, #[trigger] spec_phys_order(types)[j] as int)
            ==> is_writer(types, #[trigger] spec_phys_order(types)[i] as int),
        forall|i: int, j: int|
            0 <= i < j < 8 && is_writer(types, #[trigger] spec_phys_order(types)[i] as int)
                == is_writer(types, #[trigger] spec_phys_order(types)[j] as int)
            ==> spec_phys_order(types)[i] < spec_phys_order(types)[j],
{
    lemma_slots_with_shape(types, true, 8);
    lemma_slots_with_shape(types, false, 8);
    let ws = slots_with(types, true, 8);
    let rs = slots_with(types, false, 8);
    let o = ws + rs;
    assert forall|s: int| 0 <= s < 8 implies #[trigger] o.contains(s as usize) by {
        if is_writer(types, s) {
            assert(ws.contains(s as usize));
            let i = choose|i: int| 0 <= i < ws.len() && ws[i] == s as usize;
            assert(o[i] == s as usize);
        } else {
            assert(rs.contains(s as usize));
            let i = choose|i: int| 0 <= i < rs.len() && rs[i] == s as usize;
            assert(o[ws.len() + i] == s as usize);
        }
    }
    assert forall|i: int, j: int| 0 <= i < j < 8 && is_writer(types, #[trigger] o[j] as int)
        implies is_writer(types, #[trigger] o[i] as int) by {
        if j >= ws.len() {
            assert(o[j] == rs[j - ws.len()]);
        } else {
            assert(o[i] == ws[i]);
        }
    }
    assert forall|i: int, j: int|
        0 <= i < j < 8 && is_writer(types, #[trigger] o[i] as int) == is_writer(types, #[trigger] o[j] as int)
        implies o[i] < o[j] by {
        if j < ws.len() {
            assert(o[i] == ws[i] && o[j] == ws[j]);
        } else if i >= ws.len() {
            assert(o[i] == rs[i - ws.len()] && o[j] == rs[j - ws.len()]);
        } else {
            assert(o[i] == ws[i] && o[j] == rs[j - ws.len()]);
        }
    }
    assert(o.no_duplicates()) by {
        assert forall|i: int, j: int| 0 <= i < o.len() && 0 <= j < o.len() && i != j implies o[i] != o[j] by {
            if i < ws.len() && j >= ws.len() {
                assert(o[i] == ws[i] && o[j] == rs[j - ws.len()]);
            } else if j < ws.len() && i >= ws.len() {
                assert(o[j] == ws[j] && o[i] == rs[i - ws.len()]);
            } else if i < ws.len() {
                assert(o[i] == ws[i] && o[j] == ws[j]);
            } else {
                assert(o[i] == rs[i - ws.len()] && o[j] == rs[j - ws.len()]);
            }
        }
    }
}

/// No module kind writes BinPhysics state, so the schedule is plain
/// numerical order 0..8 and BinPhysics handling stays off.
pub proof fn lemma_phys_order_is_numerical(types: Seq<ModuleType>)
    requires
        types.len() == MAX_SLOTS,
    ensures
        spec_phys_order(types) == Seq::new(8, |i: int| i as usize),
        !any_writer(types),
{
    lemma_slots_with_shape(types, false, 8);
    lemma_slots_with_shape(types, true, 8);
    let rs = slots_with(types, false, 8);
    assert forall|k: int| 0 <= k <= 8 implies #[trigger] slots_with(types, false, k) == Seq::new(k as nat, |i: int| i as usize)
        && slots_with(types, true, k) == Seq::<usize>::empty() by {
        lemma_numerical_prefix(types, k);
    }
    assert(spec_phys_order(types) =~= Seq::new(8, |i: int| i as usize));
}

proof fn lemma_numerical_prefix(types: Seq<ModuleType>, k: int)
    requires
        0 <= k,
    ensures
        slots_with(types, false, k) == Seq::new(k as nat, |i: int| i as usize),
        slots_with(types, true, k) == Seq::<usize>::empty(),
    decreases k,
{
    if k > 0 {
        lemma_numerical_prefix(types, k - 1);
        assert(!is_writer(types, k - 1));
        assert(slots_with(types, false, k) =~= Seq::new(k as nat, |i: int| i as usize));
    }
}


/// What syncing the slots to the requested module kinds does to one slot.
#[derive(Debug, Clone, Copy, PartialEq, Eq)]
pub enum SlotChange {
    /// The slot already holds the requested kind.
    Keep,
    /// The slot is to become empty: its module is dropped.
    Drop,
    /// A new module of this kind replaces whatever the slot held.
    Create(ModuleType),
}

/// The change one slot needs to go from `current` to `wanted`.
pub open spec fn spec_slot_change(current: ModuleType, wanted: ModuleType) -> SlotChange {
    if current == wanted {
        SlotChange::Keep
    } else if wanted == ModuleType::Empty {
        SlotChange::Drop
    } else {
        SlotChange::Create(wanted)
    }
}

/// The module kind a slot holds after `change` is carried out.
pub open spec fn spec_apply_change(current: ModuleType, change: SlotChange) -> ModuleType {
    match change {
        SlotChange::Keep => current,
        SlotChange::Drop => ModuleType::Empty,
        SlotChange::Create(t) => t,
    }
}

/// Plan the per-slot changes that bring the kinds in `current` (an empty slot
/// counts as `Empty`) to `wanted`, and whether any slot changes, in which case
/// the slot schedule has to be recomputed.
pub fn plan_slot_sync(current: &[ModuleType; 9], wanted: &[ModuleType; 9]) -> (r: ([SlotChange; 9], bool))
    ensures
        forall|s: int| 0 <= s < MAX_SLOTS ==> #[trigger] r.0@[s] == spec_slot_change(current@[s], wanted@[s]),
        r.1 <==> exists|s: int| 0 <= s < MAX_SLOTS && #[trigger] current@[s] != wanted@[s],
{
    let mut changes: [SlotChange; 9] = [SlotChange::Keep; 9];
    let mut any_changed = false;
    let mut s: usize = 0;
    while s < MAX_SLOTS
        invariant
            0 <= s <= MAX_SLOTS,
            forall|q: int| 0 <= q < s ==> #[trigger] changes@[q] == spec_slot_change(current@[q], wanted@[q]),
            any_changed <==> exists|q: int| 0 <= q < s && #[trigger] current@[q] != wanted@[q],
        decreases MAX_SLOTS - s,
    {
        let cur = current[s];
        let want = wanted[s];
        if cur == want {
            changes[s] = SlotChange::Keep;
        } else {
            any_changed = true;
            if want == ModuleType::Empty {
                changes[s] = SlotChange::Drop;
            } else {
                changes[s] = SlotChange::Create(want);
            }
        }
        s += 1;
    }
    (changes, any_changed)
}

/// Carrying out the planned changes leaves every slot holding the requested
/// kind, and planning again from there changes nothing.
pub proof fn lemma_slot_sync_reaches_request(current: Seq<ModuleType>, wanted: Seq<ModuleType>, s: int)
    requires
        0 <= s < MAX_SLOTS,
    ensures
        spec_apply_change(current[s], spec_slot_change(current[s], wanted[s])) == wanted[s],
        spec_slot_change(spec_apply_change(current[s], spec_slot_change(current[s], wanted[s])), wanted[s])
            == SlotChange::Keep,
        current[s] == wanted[s] <==> spec_slot_change(current[s], wanted[s]) == SlotChange::Keep,
{
}

/// Channel of the per-cell amplitude state a hop uses: channel 0 when the
/// channels are linked, otherwise the processing channel, capped at 1.
pub open spec fn spec_amp_channel(link: StereoLink, channel: int) -> int {
    match link {
        StereoLink::Linked => 0,
        _ => if channel < 1 { channel } else { 1 },
    }
}

/// Which amplitude-state channel a hop on `channel` reads and updates.
pub fn amp_channel(link: StereoLink, channel: usize) -> (r: usize)
    ensures
        r == spec_amp_channel(link, channel as int),
        r < 2,
{
    match link {
        StereoLink::Linked => 0,
        _ => if channel < 1 { channel } else { 1 },
    }
}

/// Virtual row `v` (a split module's extra output) is mixed into slot `s`'s
/// input: its source slot runs before `s`.
pub open spec fn spec_virtual_row_feeds(rows: Seq<Option<(u8, VirtualRowKind)>>, v: int, s: int) -> bool {
    match rows[v] {
        Some((src, _)) => src < s,
        None => false,
    }
}

/// Which of slot `s`'s split outputs (0 = transient, 1 = sustained) fills
/// virtual row `v`, if slot `s` is the row's source.
pub open spec fn spec_virtual_row_fill(rows: Seq<Option<(u8, VirtualRowKind)>>, v: int, s: int) -> Option<usize> {
    match rows[v] {
        Some((src, kind)) => if src == s {
            match kind {
                VirtualRowKind::Transient => Some(0usize),
                VirtualRowKind::Sustained => Some(1usize),
            }
        } else {
            None
        },
        None => None,
    }
}

/// For slot `s`: which virtual rows feed its input, and which output of the
/// slot fills each virtual row it is the source of.
pub fn virtual_row_routing(rows: &[Option<(u8, VirtualRowKind)>; 4], s: usize) -> (r: ([bool; 4], [Option<usize>; 4]))
    ensures
        forall|v: int| 0 <= v < MAX_SPLIT_VIRTUAL_ROWS ==> #[trigger] r.0@[v] == spec_virtual_row_feeds(rows@, v, s as int),
        forall|v: int| 0 <= v < MAX_SPLIT_VIRTUAL_ROWS ==> #[trigger] r.1@[v] == spec_virtual_row_fill(rows@, v, s as int),
{
    let mut feeds: [bool; 4] = [false; 4];
    let mut fills: [Option<usize>; 4] = [None; 4];
    let mut v: usize = 0;
    while v < MAX_SPLIT_VIRTUAL_ROWS
        invariant
            0 <= v <= MAX_SPLIT_VIRTUAL_ROWS,
            forall|q: int| 0 <= q < v ==> #[trigger] feeds@[q] == spec_virtual_row_feeds(rows@, q, s as int),
            forall|q: int| 0 <= q < v ==> #[trigger] fills@[q] == spec_virtual_row_fill(rows@, q, s as int),
        decreases MAX_SPLIT_VIRTUAL_ROWS - v,
    {
        match rows[v] {
            Some((src, kind)) => {
                let src_slot = src as usize;
                feeds[v] = src_slot < s;
                if src_slot == s {
                    fills[v] = match kind {
                        VirtualRowKind::Transient => Some(0usize),
                        VirtualRowKind::Sustained => Some(1usize),
                    };
                } else {
                    fills[v] = None;
                }
            },
            None => {
                feeds[v] = false;
                fills[v] = None;
            },
        }
        v += 1;
    }
    (feeds, fills)
}


/// Position of the first `slot` among the first `k` entries of `order`, or -1.
pub open spec fn first_pos_in(order: Seq<usize>, slot: usize, k: int) -> int
    decreases k,
{
    if k <= 0 {
        -1
    } else {
        let r = first_pos_in(order, slot, k - 1);
        if r >= 0 {
            r
        } else if order[k - 1] == slot {
            k - 1
        } else {
            -1
        }
    }
}

/// Order after forcing `slot` to the front: its first occurrence, if any
/// and not already first, is moved to index 0.
pub open spec fn spec_forced_order(order: Seq<usize>, slot: usize) -> Seq<usize> {
    let p = first_pos_in(order, slot, order.len() as int);
    if p > 0 {
        seq![slot] + order.remove(p)
    } else {
        order
    }
}

proof fn lemma_first_pos_stable(order: Seq<usize>, slot: usize, k: int, k2: int)
    requires
        0 <= k <= k2,
        first_pos_in(order, slot, k) >= 0,
    ensures
        first_pos_in(order, slot, k2) == first_pos_in(order, slot, k),
    decreases k2 - k,
{
    if k2 > k {
        lemma_first_pos_stable(order, slot, k, k2 - 1);
    }
}

/// Test hook: mark `slot` as a BinPhysics writer and, for slots 0..8, move
/// its first occurrence in the schedule to the front. Returns the new
/// "BinPhysics in use" flag, which is always set. Only slot 0 or Master is
/// allowed: the hop's audio assembly still reads slot outputs in slot order,
/// so any other slot moved forward would read the previous hop's output.
pub fn test_force_writer(slot: usize, phys_order: &mut Vec<usize>, writer_bits: &mut [bool; 9]) -> (in_use: bool)
    requires
        slot == 0 || slot == 8,
    ensures
        in_use,
        final(writer_bits)@ == old(writer_bits)@.update(slot as int, true),
        slot < 8 ==> final(phys_order)@ == spec_forced_order(old(phys_order)@, slot),
        slot == 8 ==> final(phys_order)@ == old(phys_order)@,
{
    writer_bits[slot] = true;
    if slot < 8 {
        let ghost o = phys_order@;
        let mut pos: usize = 0;
        while pos < phys_order.len()
            invariant
                o == phys_order@,
                0 <= pos <= o.len(),
                first_pos_in(o, slot, pos as int) == -1,
            ensures
                pos < o.len() ==> first_pos_in(o, slot, o.len() as int) == pos && o[pos as int] == slot,
                pos >= o.len() ==> first_pos_in(o, slot, o.len() as int) == -1,
            decreases o.len() - pos,
        {
            if phys_order[pos] == slot {
                proof {
                    lemma_first_pos_stable(o, slot, pos as int + 1, o.len() as int);
                }
                break;
            }
            pos += 1;
        }
        if pos != 0 && pos < phys_order.len() {
            let s_val = phys_order.remove(pos);
            phys_order.insert(0, s_val);
            proof {
                assert(phys_order@ =~= seq![slot] + o.remove(pos as int));
            }
        }
    }
    true
}


/// Virtual rows move audio forward only: row `v` feeds slot `s` exactly when
/// it holds a source slot that comes before `s`; it is filled from slot `s`
/// exactly when `s` is its source, the transient output (0) for a transient
/// row and the sustained output (1) for a sustained one; an unused row does
/// neither.
pub proof fn lemma_virtual_rows_feed_later_slots(rows: Seq<Option<(u8, VirtualRowKind)>>, v: int, s: int)
    ensures
        spec_virtual_row_feeds(rows, v, s) <==> (rows[v] is Some && ((rows[v]->0).0 as int) < s),
        spec_virtual_row_fill(rows, v, s) is Some <==> (rows[v] is Some && ((rows[v]->0).0 as int) == s),
        spec_virtual_row_fill(rows, v, s) == Some(0usize)
            <==> (rows[v] == Some((s as u8, VirtualRowKind::Transient)) && 0 <= s < 256),
        spec_virtual_row_fill(rows, v, s) == Some(1usize)
            <==> (rows[v] == Some((s as u8, VirtualRowKind::Sustained)) && 0 <= s < 256),
        spec_virtual_row_feeds(rows, v, s) ==> !(spec_virtual_row_fill(rows, v, s) is Some),
{
    if let Some((src, k)) = rows[v] {
        assert(rows[v] == Some((src, k)));
    }
}

/// Linked channels share one amplitude state; otherwise channel 0 and 1
/// each keep their own, and any further channel uses channel 1's.
pub proof fn lemma_amp_channel_choice(link: StereoLink, channel: int)
    requires
        0 <= channel,
    ensures
        link == StereoLink::Linked ==> spec_amp_channel(link, channel) == 0,
        link != StereoLink::Linked && channel == 0 ==> spec_amp_channel(link, channel) == 0,
        link != StereoLink::Linked && channel >= 1 ==> spec_amp_channel(link, channel) == 1,
{
}

} // verus!

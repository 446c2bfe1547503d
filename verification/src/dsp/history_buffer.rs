//! Per-channel rolling spectrum history.
//!
//! One ring of `capacity_frames` frames per audio channel, each frame holding
//! `num_bins` bins. All channels share one write head: the pipeline writes
//! every channel of a hop with `write_hop`, then calls
//! `advance_after_all_channels_written` once. `read_frame(channel, age)`
//! returns the frame written `age` hops ago (age 0 = most recent), or `None`
//! for an age not written yet.
//!
//! The bin type is generic; the audio pipeline stores complex spectra.

use vstd::prelude::*;

verus! {

/// Mathematical picture of a `HistoryBuffer`: `frames[channel][slot][bin]`
/// plus the shared write head and fill count.
pub struct HistoryView<T> {
    pub frames: Seq<Seq<Seq<T>>>,
    pub capacity_frames: nat,
    pub num_bins: nat,
    pub num_channels: nat,
    pub write_pos: nat,
    pub frames_used: nat,
}

/// A frame of `num_bins` copies of `zero`.
pub open spec fn filled_frame<T>(num_bins: nat, zero: T) -> Seq<T> {
    Seq::new(num_bins, |k: int| zero)
}

/// A ring of `capacity_frames` filled frames.
pub open spec fn filled_ring<T>(capacity_frames: nat, num_bins: nat, zero: T) -> Seq<Seq<T>> {
    Seq::new(capacity_frames, |i: int| filled_frame(num_bins, zero))
}

/// `num_channels` rings of `capacity_frames` frames of `num_bins` copies of `zero`.
pub open spec fn filled_frames<T>(num_channels: nat, capacity_frames: nat, num_bins: nat, zero: T) -> Seq<Seq<Seq<T>>> {
    Seq::new(num_channels, |c: int| filled_ring(capacity_frames, num_bins, zero))
}

impl<T> HistoryView<T> {
    pub open spec fn wf(self) -> bool {
        &&& self.frames.len() == self.num_channels
        &&& forall|c: int| 0 <= c < self.num_channels ==> (#[trigger] self.frames[c]).len() == self.capacity_frames
        &&& forall|c: int, i: int| 0 <= c < self.num_channels && 0 <= i < self.capacity_frames
            ==> (#[trigger] self.frames[c][i]).len() == self.num_bins
        &&& self.capacity_frames == 0 ==> self.write_pos == 0
        &&& self.capacity_frames > 0 ==> self.write_pos < self.capacity_frames
        &&& self.frames_used <= self.capacity_frames
    }

    /// Ring slot that holds the frame written `age` hops ago.
    pub open spec fn slot_of_age(self, age: int) -> int {
        (self.write_pos + self.capacity_frames - 1 - age) % (self.capacity_frames as int)
    }

    /// The frame written `age` hops ago on `channel`, if it exists.
    pub open spec fn read_frame(self, channel: int, age: int) -> Option<Seq<T>> {
        if 0 <= channel < self.num_channels && 0 <= age < self.frames_used {
            Some(self.frames[channel][self.slot_of_age(age)])
        } else {
            None
        }
    }

    /// Copy `spectrum` (as far as the frame reaches) into the write slot of `channel`.
    pub open spec fn write_hop(self, channel: int, spectrum: Seq<T>) -> Self {
        let dst = self.frames[channel][self.write_pos as int];
        let n = if dst.len() <= spectrum.len() { dst.len() } else { spectrum.len() };
        HistoryView {
            frames: self.frames.update(
                channel,
                self.frames[channel].update(self.write_pos as int, spectrum.take(n as int) + dst.skip(n as int)),
            ),
            ..self
        }
    }

    /// Move the shared write head one slot forward and count the frame.
    pub open spec fn advance(self) -> Self {
        HistoryView {
            write_pos: ((self.write_pos + 1) % self.capacity_frames) as nat,
            frames_used: if self.frames_used < self.capacity_frames { self.frames_used + 1 } else { self.frames_used },
            ..self
        }
    }

    /// Every frame set to `zero`, head and fill count back to zero.
    pub open spec fn cleared(self, zero: T) -> Self {
        HistoryView {
            frames: filled_frames(self.num_channels, self.capacity_frames, self.num_bins, zero),
            write_pos: 0,
            frames_used: 0,
            ..self
        }
    }
}

pub struct HistoryBuffer<T> {
    /// `frames[channel][frame_idx][bin]`. All channels share `write_pos`.
    frames: Vec<Vec<Vec<T>>>,
    capacity_frames: usize,
    num_bins: usize,
    num_channels: usize,
    write_pos: usize,
    frames_used: usize,
}

impl<T> View for HistoryBuffer<T> {
    type V = HistoryView<T>;

    closed spec fn view(&self) -> HistoryView<T> {
        HistoryView {
            frames: self.frames@.map_values(|c: Vec<Vec<T>>| c@.map_values(|f: Vec<T>| f@)),
            capacity_frames: self.capacity_frames as nat,
            num_bins: self.num_bins as nat,
            num_channels: self.num_channels as nat,
            write_pos: self.write_pos as nat,
            frames_used: self.frames_used as nat,
        }
    }
}

impl<T> HistoryBuffer<T> {
    /// The view's well-formedness, read off the vectors themselves.
    proof fn lemma_wf_raw(&self)
        requires
            self@.wf(),
        ensures
            self.frames@.len() == self.num_channels,
            forall|c: int| 0 <= c < self.num_channels ==> (#[trigger] self.frames@[c])@.len() == self.capacity_frames,
            forall|c: int, i: int| 0 <= c < self.num_channels && 0 <= i < self.capacity_frames
                ==> (#[trigger] self.frames@[c]@[i])@.len() == self.num_bins,
    {
        let v = self@;
        assert forall|c: int| 0 <= c < self.num_channels implies (#[trigger] self.frames@[c])@.len() == self.capacity_frames by {
            assert(v.frames[c].len() == self.capacity_frames);
        }
        assert forall|c: int, i: int| 0 <= c < self.num_channels && 0 <= i < self.capacity_frames
            implies (#[trigger] self.frames@[c]@[i])@.len() == self.num_bins by {
            assert(v.frames[c][i].len() == self.num_bins);
        }
    }
}

impl<T: Copy> HistoryBuffer<T> {
    /// Allocate `num_channels` rings of `capacity_frames` frames, every bin `zero`.
    pub fn new(num_channels: usize, capacity_frames: usize, num_bins: usize, zero: T) -> (r: Self)
        ensures
            r@.wf(),
            r@ == (HistoryView {
                frames: filled_frames(num_channels as nat, capacity_frames as nat, num_bins as nat, zero),
                capacity_frames: capacity_frames as nat,
                num_bins: num_bins as nat,
                num_channels: num_channels as nat,
                write_pos: 0,
                frames_used: 0,
            }),
    {
        let mut frames: Vec<Vec<Vec<T>>> = Vec::new();
        let ghost target = filled_frames(num_channels as nat, capacity_frames as nat, num_bins as nat, zero);
        let mut c: usize = 0;
        while c < num_channels
            invariant
                c <= num_channels,
                target == filled_frames(num_channels as nat, capacity_frames as nat, num_bins as nat, zero),
                frames@.len() == c,
                forall|q: int| 0 <= q < c ==> (#[trigger] frames@[q])@.map_values(|f: Vec<T>| f@) == target[q],
            decreases num_channels - c,
        {
            let mut ring: Vec<Vec<T>> = Vec::new();
            let mut i: usize = 0;
            while i < capacity_frames
                invariant
                    i <= capacity_frames,
                    ring@.len() == i,
                    forall|q: int| 0 <= q < i ==> (#[trigger] ring@[q])@ == filled_frame(num_bins as nat, zero),
                decreases capacity_frames - i,
            {
                let mut frame: Vec<T> = Vec::new();
                let mut k: usize = 0;
                while k < num_bins
                    invariant
                        k <= num_bins,
                        frame@.len() == k,
                        forall|q: int| 0 <= q < k ==> #[trigger] frame@[q] == zero,
                    decreases num_bins - k,
                {
                    frame.push(zero);
                    k += 1;
                }
                proof {
                    assert(frame@ =~= filled_frame(num_bins as nat, zero));
                }
                ring.push(frame);
                i += 1;
            }
            proof {
                assert(target[c as int] == filled_ring(capacity_frames as nat, num_bins as nat, zero));
                assert(ring@.map_values(|f: Vec<T>| f@) =~= filled_ring(capacity_frames as nat, num_bins as nat, zero));
            }
            frames.push(ring);
            c += 1;
        }
        let r = HistoryBuffer {
            frames,
            capacity_frames,
            num_bins,
            num_channels,
            write_pos: 0,
            frames_used: 0,
        };
        proof {
            assert(r@.frames =~= target);
        }
        r
    }

    pub fn num_channels(&self) -> (r: usize)
        ensures
            r == self@.num_channels,
    {
        self.num_channels
    }

    pub fn capacity_frames(&self) -> (r: usize)
        ensures
            r == self@.capacity_frames,
    {
        self.capacity_frames
    }

    pub fn num_bins(&self) -> (r: usize)
        ensures
            r == self@.num_bins,
    {
        self.num_bins
    }

    pub fn frames_used(&self) -> (r: usize)
        ensures
            r == self@.frames_used,
    {
        self.frames_used
    }

    /// Write one hop's spectrum for a channel into the current write slot,
    /// copying as many bins as both the slot and `spectrum` hold. Call
    /// `advance_after_all_channels_written` once per hop after every channel.
    pub fn write_hop(&mut self, channel: usize, spectrum: &[T])
        requires
            old(self)@.wf(),
            channel < old(self)@.num_channels,
            old(self)@.capacity_frames > 0,
        ensures
            final(self)@ == old(self)@.write_hop(channel as int, spectrum@),
            final(self)@.wf(),
    {
        proof {
            self.lemma_wf_raw();
        }
        let wp = self.write_pos;
        let ghost ov = self@;
        let dst_len = self.frames[channel][wp].len();
        let n = if dst_len <= spectrum.len() { dst_len } else { spectrum.len() };
        let ghost dst = ov.frames[channel as int][wp as int];
        let mut k: usize = 0;
        while k < n
            invariant
                0 <= k <= n,
                n <= spectrum@.len(),
                n <= dst_len,
                channel < self.frames@.len(),
                wp < self.frames@[channel as int]@.len(),
                dst_len == self.frames@[channel as int]@[wp as int]@.len(),
                self.frames@.len() == old(self).frames@.len(),
                forall|c: int| 0 <= c < self.frames@.len() && c != channel ==> #[trigger] self.frames@[c] == old(self).frames@[c],
                self.frames@[channel as int]@.len() == old(self).frames@[channel as int]@.len(),
                forall|i: int| 0 <= i < self.frames@[channel as int]@.len() && i != wp ==>
                    #[trigger] self.frames@[channel as int]@[i] == old(self).frames@[channel as int]@[i],
                self.frames@[channel as int]@[wp as int]@ == spectrum@.take(k as int) + dst.skip(k as int),
                dst == old(self).frames@[channel as int]@[wp as int]@,
                dst.len() == dst_len,
                self.capacity_frames == old(self).capacity_frames,
                self.num_bins == old(self).num_bins,
                self.num_channels == old(self).num_channels,
                self.write_pos == wp,
                self.frames_used == old(self).frames_used,
            decreases n - k,
        {
            let v = spectrum[k];
            let ghost before = self.frames@[channel as int]@[wp as int]@;
            self.frames[channel][wp][k] = v;
            proof {
                assert(before.update(k as int, v) == self.frames@[channel as int]@[wp as int]@);
                assert(before.len() == dst.len());
                assert(k < dst.len());
                assert(v == spectrum@[k as int]);
                assert(self.frames@[channel as int]@[wp as int]@ =~= spectrum@.take(k as int + 1) + dst.skip(k as int + 1));
            }
            k += 1;
        }
        proof {
            let nv = self@;
            let expect = ov.write_hop(channel as int, spectrum@);
            assert(nv.frames[channel as int] =~= expect.frames[channel as int]);
            assert(nv.frames =~= expect.frames);
        }
    }

    /// Advance the shared write head one frame forward, wrapping at
    /// `capacity_frames`, and count the frame (up to the capacity).
    pub fn advance_after_all_channels_written(&mut self)
        requires
            old(self)@.wf(),
            old(self)@.capacity_frames > 0,
        ensures
            final(self)@ == old(self)@.advance(),
            final(self)@.wf(),
    {
        self.write_pos = (self.write_pos + 1) % self.capacity_frames;
        if self.frames_used < self.capacity_frames {
            self.frames_used += 1;
        }
    }

    /// Read the frame that was current `age_frames` hops ago (age 0 = most
    /// recent). `None` if the channel does not exist or that age has not been
    /// written yet (cold start or after a reset).
    pub fn read_frame(&self, channel: usize, age_frames: usize) -> (r: Option<&[T]>)
        requires
            self@.wf(),
        ensures
            match r {
                Some(f) => self@.read_frame(channel as int, age_frames as int) == Some(f@),
                None => self@.read_frame(channel as int, age_frames as int) is None,
            },
    {
        if channel >= self.num_channels {
            return None;
        }
        if age_frames >= self.frames_used {
            return None;
        }
        proof {
            self.lemma_wf_raw();
        }
        let cap = self.capacity_frames;
        let wp = self.write_pos;
        // Slot `(write_pos + cap - 1 - age) % cap`, computed without overflow.
        let idx = if age_frames < wp { wp - 1 - age_frames } else { cap - 1 - (age_frames - wp) };
        proof {
            assert(idx == self@.slot_of_age(age_frames as int)) by {
                let e = wp + cap - 1 - age_frames;
                if age_frames < wp {
                    assert(e == idx + cap);
                    assert((idx + cap) % (cap as int) == idx as int) by (nonlinear_arith)
                        requires 0 <= idx < cap;
                } else {
                    assert(e == idx);
                    assert((idx as int) % (cap as int) == idx as int) by (nonlinear_arith)
                        requires 0 <= idx < cap;
                }
            }
        }
        Some(self.frames[channel][idx].as_slice())
    }

    /// Wipe the buffer (every bin set to `zero`) and reset write head and frame count.
    pub fn reset(&mut self, zero: T)
        requires
            old(self)@.wf(),
        ensures
            final(self)@ == old(self)@.cleared(zero),
            final(self)@.wf(),
    {
        proof {
            self.lemma_wf_raw();
        }
        let ghost target = filled_frames(self.num_channels as nat, self.capacity_frames as nat, self.num_bins as nat, zero);
        let nc = self.num_channels;
        let cap = self.capacity_frames;
        let nb = self.num_bins;
        let mut c: usize = 0;
        while c < nc
            invariant
                nc == self.num_channels == old(self).num_channels,
                cap == self.capacity_frames == old(self).capacity_frames,
                nb == self.num_bins == old(self).num_bins,
                self.write_pos == old(self).write_pos,
                self.frames_used == old(self).frames_used,
                old(self)@.wf(),
                target == filled_frames(nc as nat, cap as nat, nb as nat, zero),
                0 <= c <= nc,
                self.frames@.len() == nc,
                forall|q: int| 0 <= q < nc ==> (#[trigger] self.frames@[q])@.len() == cap,
                forall|q: int, i: int| 0 <= q < nc && 0 <= i < cap ==> (#[trigger] self.frames@[q]@[i])@.len() == nb,
                forall|q: int| 0 <= q < c ==> (#[trigger] self.frames@[q])@.map_values(|f: Vec<T>| f@) == target[q],
            decreases nc - c,
        {
            let mut i: usize = 0;
            while i < cap
                invariant
                    nc == self.num_channels,
                    cap == self.capacity_frames,
                    nb == self.num_bins,
                    self.write_pos == old(self).write_pos,
                    self.frames_used == old(self).frames_used,
                    target == filled_frames(nc as nat, cap as nat, nb as nat, zero),
                    0 <= c < nc,
                    0 <= i <= cap,
                    self.frames@.len() == nc,
                    forall|q: int| 0 <= q < nc ==> (#[trigger] self.frames@[q])@.len() == cap,
                    forall|q: int, j: int| 0 <= q < nc && 0 <= j < cap ==> (#[trigger] self.frames@[q]@[j])@.len() == nb,
                    forall|q: int| 0 <= q < c ==> (#[trigger] self.frames@[q])@.map_values(|f: Vec<T>| f@) == target[q],
                    forall|j: int| 0 <= j < i ==> (#[trigger] self.frames@[c as int]@[j])@ == filled_frame(nb as nat, zero),
                decreases cap - i,
            {
                let mut k: usize = 0;
                while k < nb
                    invariant
                        nc == self.num_channels,
                        cap == self.capacity_frames,
                        nb == self.num_bins,
                        self.write_pos == old(self).write_pos,
                        self.frames_used == old(self).frames_used,
                        target == filled_frames(nc as nat, cap as nat, nb as nat, zero),
                        0 <= c < nc,
                        0 <= i < cap,
                        0 <= k <= nb,
                        self.frames@.len() == nc,
                        forall|q: int| 0 <= q < nc ==> (#[trigger] self.frames@[q])@.len() == cap,
                        forall|q: int, j: int| 0 <= q < nc && 0 <= j < cap ==> (#[trigger] self.frames@[q]@[j])@.len() == nb,
                        forall|q: int| 0 <= q < c ==> (#[trigger] self.frames@[q])@.map_values(|f: Vec<T>| f@) == target[q],
                        forall|j: int| 0 <= j < i ==> (#[trigger] self.frames@[c as int]@[j])@ == filled_frame(nb as nat, zero),
                        forall|q: int| 0 <= q < k ==> #[trigger] self.frames@[c as int]@[i as int]@[q] == zero,
                    decreases nb - k,
                {
                    self.frames[c][i][k] = zero;
                    k += 1;
                }
                proof {
                    assert(self.frames@[c as int]@[i as int]@ =~= filled_frame(nb as nat, zero));
                }
                i += 1;
            }
            proof {
                assert(target[c as int] == filled_ring(cap as nat, nb as nat, zero));
                assert(self.frames@[c as int]@.map_values(|f: Vec<T>| f@) =~= filled_ring(cap as nat, nb as nat, zero));
            }
            c += 1;
        }
        self.write_pos = 0;
        self.frames_used = 0;
        proof {
            assert(self@.frames =~= target);
        }
    }
}

/// Ring slot arithmetic without the modulus, for ages inside the ring.
pub proof fn lemma_slot_of_age<T>(v: HistoryView<T>, age: int)
    requires
        v.wf(),
        v.capacity_frames > 0,
        0 <= age < v.capacity_frames,
    ensures
        v.slot_of_age(age) == if age < v.write_pos { v.write_pos - 1 - age } else { v.capacity_frames - 1 - (age - v.write_pos) },
        0 <= v.slot_of_age(age) < v.capacity_frames,
{
    let cap = v.capacity_frames as int;
    let e = v.write_pos + cap - 1 - age;
    if age < v.write_pos {
        let r = v.write_pos - 1 - age;
        assert(e == r + cap);
        assert((r + cap) % cap == r) by (nonlinear_arith)
            requires 0 <= r < cap;
    } else {
        let r = cap - 1 - (age - v.write_pos);
        assert(e == r);
        assert(r % cap == r) by (nonlinear_arith)
            requires 0 <= r < cap;
    }
}

/// Writing a hop and advancing keep the buffer well formed, and so does a reset.
pub proof fn lemma_operations_keep_wf<T>(v: HistoryView<T>, channel: int, spectrum: Seq<T>, zero: T)
    requires
        v.wf(),
        0 <= channel < v.num_channels,
        v.capacity_frames > 0,
    ensures
        v.write_hop(channel, spectrum).wf(),
        v.advance().wf(),
        v.cleared(zero).wf(),
{
    let w = v.write_hop(channel, spectrum);
    assert forall|c: int, i: int| 0 <= c < w.num_channels && 0 <= i < w.capacity_frames
        implies (#[trigger] w.frames[c][i]).len() == w.num_bins by {
        if c == channel && i == v.write_pos {
            let dst = v.frames[channel][v.write_pos as int];
            assert(dst.len() == v.num_bins);
        }
    }
    assert(v.advance().write_pos < v.capacity_frames) by (nonlinear_arith)
        requires v.advance().write_pos == ((v.write_pos + 1) as int) % (v.capacity_frames as int), v.capacity_frames > 0;
}

/// What a read gives back of a write: after a channel's spectrum of
/// `num_bins` bins is written and the head advanced, the most recent frame of
/// that channel is exactly that spectrum.
pub proof fn lemma_read_after_write<T>(v: HistoryView<T>, channel: int, spectrum: Seq<T>)
    requires
        v.wf(),
        0 <= channel < v.num_channels,
        v.capacity_frames > 0,
        spectrum.len() == v.num_bins,
    ensures
        v.write_hop(channel, spectrum).advance().read_frame(channel, 0) == Some(spectrum),
{
    let w = v.write_hop(channel, spectrum);
    let a = w.advance();
    lemma_operations_keep_wf(v, channel, spectrum, spectrum[0]);
    lemma_operations_keep_wf(w, channel, spectrum, spectrum[0]);
    let cap = v.capacity_frames as int;
    if v.write_pos + 1 < cap {
        assert(a.write_pos == v.write_pos + 1) by (nonlinear_arith)
            requires a.write_pos == ((v.write_pos + 1) as int) % cap, 0 <= v.write_pos + 1 < cap;
    } else {
        assert(a.write_pos == 0) by (nonlinear_arith)
            requires a.write_pos == ((v.write_pos + 1) as int) % cap, v.write_pos + 1 == cap;
    }
    lemma_slot_of_age(a, 0);
    assert(a.slot_of_age(0) == v.write_pos);
    let dst = v.frames[channel][v.write_pos as int];
    assert(spectrum.take(spectrum.len() as int) + dst.skip(spectrum.len() as int) =~= spectrum);
}

/// A hop later every stored frame is one hop older: whatever channel was
/// written, the frame a channel held at age `age` is found at age `age + 1`
/// after the head advances (as long as that age still fits in the ring).
pub proof fn lemma_frames_age_by_one<T>(v: HistoryView<T>, written: int, spectrum: Seq<T>, channel: int, age: int)
    requires
        v.wf(),
        0 <= written < v.num_channels,
        v.capacity_frames > 0,
        0 <= age,
        age + 1 < v.capacity_frames,
        v.read_frame(channel, age) is Some,
    ensures
        v.write_hop(written, spectrum).advance().read_frame(channel, age + 1) == v.read_frame(channel, age),
{
    let w = v.write_hop(written, spectrum);
    let a = w.advance();
    lemma_operations_keep_wf(v, written, spectrum, spectrum[0]);
    lemma_operations_keep_wf(w, written, spectrum, spectrum[0]);
    let cap = v.capacity_frames as int;
    if v.write_pos + 1 < cap {
        assert(a.write_pos == v.write_pos + 1) by (nonlinear_arith)
            requires a.write_pos == ((v.write_pos + 1) as int) % cap, 0 <= v.write_pos + 1 < cap;
    } else {
        assert(a.write_pos == 0) by (nonlinear_arith)
            requires a.write_pos == ((v.write_pos + 1) as int) % cap, v.write_pos + 1 == cap;
    }
    lemma_slot_of_age(a, age + 1);
    lemma_slot_of_age(v, age);
    assert(a.slot_of_age(age + 1) == v.slot_of_age(age));
    assert(v.slot_of_age(age) != v.write_pos);
}

/// Writing one channel leaves every other channel's frames as they were.
pub proof fn lemma_write_other_channel<T>(v: HistoryView<T>, written: int, spectrum: Seq<T>, channel: int, age: int)
    requires
        v.wf(),
        0 <= written < v.num_channels,
        v.capacity_frames > 0,
        channel != written,
    ensures
        v.write_hop(written, spectrum).read_frame(channel, age) == v.read_frame(channel, age),
{
}

/// After a reset no frame can be read.
pub proof fn lemma_cleared_reads_nothing<T>(v: HistoryView<T>, zero: T, channel: int, age: int)
    ensures
        v.cleared(zero).read_frame(channel, age) is None,
{
}

/// The fill count grows by one per hop until the ring is full.
pub proof fn lemma_frames_used_grows<T>(v: HistoryView<T>)
    requires
        v.wf(),
        v.capacity_frames > 0,
    ensures
        v.advance().frames_used == if v.frames_used + 1 <= v.capacity_frames { v.frames_used + 1 } else { v.capacity_frames },
{
}


/// The view after writing `hop[ch]` to each channel `ch < k`, in channel order.
pub open spec fn write_channels<T>(v: HistoryView<T>, hop: Seq<Seq<T>>, k: int) -> HistoryView<T>
    decreases k,
{
    if k <= 0 {
        v
    } else {
        write_channels(v, hop, k - 1).write_hop(k - 1, hop[k - 1])
    }
}

/// One pipeline hop: every channel written, then the head advanced once.
pub open spec fn hop_round<T>(v: HistoryView<T>, hop: Seq<Seq<T>>) -> HistoryView<T> {
    write_channels(v, hop, v.num_channels as int).advance()
}

/// The view after the hops `hops[0..m]`, oldest first.
pub open spec fn hop_rounds<T>(v: HistoryView<T>, hops: Seq<Seq<Seq<T>>>, m: int) -> HistoryView<T>
    decreases m,
{
    if m <= 0 {
        v
    } else {
        hop_round(hop_rounds(v, hops, m - 1), hops[m - 1])
    }
}

proof fn lemma_write_channels<T>(v: HistoryView<T>, hop: Seq<Seq<T>>, k: int)
    requires
        v.wf(),
        v.capacity_frames > 0,
        0 <= k <= v.num_channels,
        forall|ch: int| 0 <= ch < k ==> (#[trigger] hop[ch]).len() == v.num_bins,
    ensures
        write_channels(v, hop, k).wf(),
        write_channels(v, hop, k).num_channels == v.num_channels,
        write_channels(v, hop, k).capacity_frames == v.capacity_frames,
        write_channels(v, hop, k).num_bins == v.num_bins,
        write_channels(v, hop, k).write_pos == v.write_pos,
        write_channels(v, hop, k).frames_used == v.frames_used,
        forall|ch: int, i: int| 0 <= ch < v.num_channels && 0 <= i < v.capacity_frames
            ==> #[trigger] write_channels(v, hop, k).frames[ch][i]
                == if ch < k && i == v.write_pos { hop[ch] } else { v.frames[ch][i] },
    decreases k,
{
    if k > 0 {
        lemma_write_channels(v, hop, k - 1);
        let p = write_channels(v, hop, k - 1);
        let sp = hop[k - 1];
        lemma_operations_keep_wf(p, k - 1, sp, sp[0]);
        let w = p.write_hop(k - 1, sp);
        let dst = p.frames[k - 1][p.write_pos as int];
        assert(sp.take(sp.len() as int) + dst.skip(sp.len() as int) =~= sp);
        assert forall|ch: int, i: int| 0 <= ch < v.num_channels && 0 <= i < v.capacity_frames
            implies #[trigger] w.frames[ch][i] == if ch < k && i == v.write_pos { hop[ch] } else { v.frames[ch][i] } by {
            assert(p.frames[ch][i] == if ch < k - 1 && i == v.write_pos { hop[ch] } else { v.frames[ch][i] });
        }
    }
}

proof fn lemma_advance_head<T>(v: HistoryView<T>)
    requires
        v.wf(),
        v.capacity_frames > 0,
    ensures
        v.advance().wf(),
        v.advance().slot_of_age(0) == v.write_pos,
        v.advance().write_pos == if v.write_pos + 1 < v.capacity_frames { v.write_pos + 1 } else { 0 },
{
    let a = v.advance();
    let cap = v.capacity_frames as int;
    assert(a.write_pos < v.capacity_frames) by (nonlinear_arith)
        requires a.write_pos == ((v.write_pos + 1) as int) % (v.capacity_frames as int), v.capacity_frames > 0;
    if v.write_pos + 1 < cap {
        assert(a.write_pos == v.write_pos + 1) by (nonlinear_arith)
            requires a.write_pos == ((v.write_pos + 1) as int) % cap, 0 <= v.write_pos + 1 < cap;
    } else {
        assert(a.write_pos == 0) by (nonlinear_arith)
            requires a.write_pos == ((v.write_pos + 1) as int) % cap, v.write_pos + 1 == cap;
    }
    lemma_slot_of_age(a, 0);
}

proof fn lemma_advance_slots<T>(v: HistoryView<T>, age: int)
    requires
        v.wf(),
        v.capacity_frames > 0,
        0 <= age,
        age + 1 < v.capacity_frames,
    ensures
        v.advance().slot_of_age(age + 1) == v.slot_of_age(age),
        v.slot_of_age(age) != v.write_pos,
{
    lemma_advance_head(v);
    lemma_slot_of_age(v.advance(), age + 1);
    lemma_slot_of_age(v, age);
}

/// What reads give back over a run of hops: starting from an empty buffer
/// (just made or reset), after `m` hops that each write a full spectrum to
/// every channel and then advance once, the frame at age `a` of channel `ch`
/// is the spectrum hop `m - 1 - a` wrote to it, for every age below
/// `min(m, capacity)`; every other read gives `None`.
pub proof fn lemma_reads_after_hops<T>(v: HistoryView<T>, hops: Seq<Seq<Seq<T>>>, m: int)
    requires
        v.wf(),
        v.capacity_frames > 0,
        v.frames_used == 0,
        0 <= m <= hops.len(),
        forall|i: int, ch: int| 0 <= i < m && 0 <= ch < v.num_channels ==> (#[trigger] hops[i][ch]).len() == v.num_bins,
    ensures
        hop_rounds(v, hops, m).wf(),
        hop_rounds(v, hops, m).num_channels == v.num_channels,
        hop_rounds(v, hops, m).capacity_frames == v.capacity_frames,
        hop_rounds(v, hops, m).num_bins == v.num_bins,
        hop_rounds(v, hops, m).frames_used == if m < v.capacity_frames { m } else { v.capacity_frames as int },
        forall|ch: int, a: int| 0 <= ch < v.num_channels && 0 <= a < m && a < v.capacity_frames
            ==> #[trigger] hop_rounds(v, hops, m).read_frame(ch, a) == Some(hops[m - 1 - a][ch]),
        forall|ch: int, a: int| !(0 <= ch < v.num_channels && 0 <= a < m && a < v.capacity_frames)
            ==> #[trigger] hop_rounds(v, hops, m).read_frame(ch, a) is None,
    decreases m,
{
    if m > 0 {
        lemma_reads_after_hops(v, hops, m - 1);
        let p = hop_rounds(v, hops, m - 1);
        let hop = hops[m - 1];
        let nc = p.num_channels as int;
        assert forall|ch: int| 0 <= ch < nc implies (#[trigger] hop[ch]).len() == p.num_bins by {
            assert(hops[m - 1][ch].len() == v.num_bins);
        }
        lemma_write_channels(p, hop, nc);
        let w = write_channels(p, hop, nc);
        lemma_advance_head(w);
        let r = w.advance();
        assert(r == hop_rounds(v, hops, m));
        assert forall|ch: int, a: int| 0 <= ch < v.num_channels && 0 <= a < m && a < v.capacity_frames
            implies #[trigger] r.read_frame(ch, a) == Some(hops[m - 1 - a][ch]) by {
            if a == 0 {
            } else {
                lemma_advance_slots(w, a - 1);
                assert(p.read_frame(ch, a - 1) == Some(hops[m - 2 - (a - 1)][ch]));
                lemma_slot_of_age(p, a - 1);
            }
        }
    }
}

} // verus!

//! STFT sizing constants and sidechain source routing.

use vstd::prelude::*;
use crate::params::{FxChannelTarget, ScChannel, StereoLink};
use crate::dsp::modules::{module_spec, spec_module_spec, ModuleType, MAX_SLOTS};
use vstd::arithmetic::div_mod::{lemma_fundamental_div_mod, lemma_mod_equivalence, lemma_mod_multiples_vanish, lemma_small_mod};

verus! {

/// Which of the five derived sidechain magnitude streams a slot keys off.
#[derive(Debug, Clone, Copy, PartialEq, Eq)]
pub enum ScSource {
    L,
    R,
    LR,
    M,
    S,
}

impl ScSource {
    /// Index of the stream in the per-source envelope buffers (L=0 … S=4).
    pub fn index(self) -> (r: usize)
        ensures
            r < 5,
            self == ScSource::L ==> r == 0,
            self == ScSource::R ==> r == 1,
            self == ScSource::LR ==> r == 2,
            self == ScSource::M ==> r == 3,
            self == ScSource::S ==> r == 4,
    {
        match self {
            ScSource::L => 0,
            ScSource::R => 1,
            ScSource::LR => 2,
            ScSource::M => 3,
            ScSource::S => 4,
        }
    }
}

/// Sidechain stream for a slot: an explicit choice is taken as is; `Follow`
/// routes the stream matching what the slot processes — the summed L+R
/// stream when linked, the processing channel's own stream when independent,
/// and Mid, Side or L+R by the slot's target in Mid/Side mode.
pub open spec fn spec_resolve_sc_source(choice: ScChannel, link: StereoLink, target: FxChannelTarget, channel: int) -> ScSource {
    match choice {
        ScChannel::Follow => match link {
            StereoLink::Linked => ScSource::LR,
            StereoLink::Independent => if channel == 0 { ScSource::L } else { ScSource::R },
            StereoLink::MidSide => match target {
                FxChannelTarget::Mid => ScSource::M,
                FxChannelTarget::Side => ScSource::S,
                FxChannelTarget::All => ScSource::LR,
            },
        },
        ScChannel::LR => ScSource::LR,
        ScChannel::L => ScSource::L,
        ScChannel::R => ScSource::R,
        ScChannel::M => ScSource::M,
        ScChannel::S => ScSource::S,
    }
}

/// Map (user choice, stereo mode, slot target, processing channel) → sidechain source.
pub fn resolve_sc_source(choice: ScChannel, link: StereoLink, target: FxChannelTarget, channel: usize) -> (r: ScSource)
    ensures
        r == spec_resolve_sc_source(choice, link, target, channel as int),
{
    match choice {
        ScChannel::Follow => match link {
            StereoLink::Linked => ScSource::LR,
            StereoLink::Independent => if channel == 0 { ScSource::L } else { ScSource::R },
            StereoLink::MidSide => match target {
                FxChannelTarget::Mid => ScSource::M,
                FxChannelTarget::Side => ScSource::S,
                FxChannelTarget::All => ScSource::LR,
            },
        },
        ScChannel::LR => ScSource::LR,
        ScChannel::L => ScSource::L,
        ScChannel::R => ScSource::R,
        ScChannel::M => ScSource::M,
        ScChannel::S => ScSource::S,
    }
}

/// Every sidechain choice keys the stream it names: LR, L, R, M and S map to
/// the stream of the same name whatever the stereo mode, target and channel.
/// `Follow` keys what the slot processes: the summed L+R stream when linked;
/// the left stream on channel 0 and the right on any other channel when
/// independent; in Mid/Side mode the Mid stream for a Mid slot, the Side
/// stream for a Side slot and L+R for a slot on both.
pub proof fn lemma_sc_source_names(link: StereoLink, target: FxChannelTarget, channel: int)
    ensures
        spec_resolve_sc_source(ScChannel::LR, link, target, channel) == ScSource::LR,
        spec_resolve_sc_source(ScChannel::L, link, target, channel) == ScSource::L,
        spec_resolve_sc_source(ScChannel::R, link, target, channel) == ScSource::R,
        spec_resolve_sc_source(ScChannel::M, link, target, channel) == ScSource::M,
        spec_resolve_sc_source(ScChannel::S, link, target, channel) == ScSource::S,
        spec_resolve_sc_source(ScChannel::Follow, StereoLink::Linked, target, channel) == ScSource::LR,
        spec_resolve_sc_source(ScChannel::Follow, StereoLink::Independent, target, channel)
            == (if channel == 0 { ScSource::L } else { ScSource::R }),
        spec_resolve_sc_source(ScChannel::Follow, StereoLink::MidSide, FxChannelTarget::Mid, channel) == ScSource::M,
        spec_resolve_sc_source(ScChannel::Follow, StereoLink::MidSide, FxChannelTarget::Side, channel) == ScSource::S,
        spec_resolve_sc_source(ScChannel::Follow, StereoLink::MidSide, FxChannelTarget::All, channel) == ScSource::LR,
{
}

/// A slot whose module takes a sidechain keys the stream its choice
/// resolves to; any other slot keys L+R.
pub proof fn lemma_slot_sc_source_follows_choice(
    types: Seq<ModuleType>,
    choices: Seq<ScChannel>,
    link: StereoLink,
    targets: Seq<FxChannelTarget>,
    ch: int,
    s: int,
)
    ensures
        spec_module_spec(types[s]).supports_sidechain
            ==> spec_slot_sc_source(types, choices, link, targets, ch, s) == spec_resolve_sc_source(choices[s], link, targets[s], ch),
        !spec_module_spec(types[s]).supports_sidechain
            ==> spec_slot_sc_source(types, choices, link, targets, ch, s) == ScSource::LR,
        (spec_module_spec(types[s]).supports_sidechain && choices[s] == ScChannel::R)
            ==> spec_slot_sc_source(types, choices, link, targets, ch, s) == ScSource::R,
{
}

/// An explicit channel choice ignores stereo mode, target and channel; and
/// `Follow` never keys a Mid or Side stream outside Mid/Side mode.
pub proof fn lemma_sc_source_routing(choice: ScChannel, link: StereoLink, target: FxChannelTarget, channel: int, link2: StereoLink, target2: FxChannelTarget, channel2: int)
    ensures
        choice != ScChannel::Follow ==> spec_resolve_sc_source(choice, link, target, channel)
            == spec_resolve_sc_source(choice, link2, target2, channel2),
        link != StereoLink::MidSide ==> spec_resolve_sc_source(ScChannel::Follow, link, target, channel) != ScSource::M
            && spec_resolve_sc_source(ScChannel::Follow, link, target, channel) != ScSource::S,
{
}

/// Sidechain stream of slot `s` on processing channel `ch`: resolved from the
/// slot's choice when its module takes a sidechain, `LR` otherwise.
pub open spec fn spec_slot_sc_source(
    types: Seq<ModuleType>,
    choices: Seq<ScChannel>,
    link: StereoLink,
    targets: Seq<FxChannelTarget>,
    ch: int,
    s: int,
) -> ScSource {
    if spec_module_spec(types[s]).supports_sidechain {
        spec_resolve_sc_source(choices[s], link, targets[s], ch)
    } else {
        ScSource::LR
    }
}

fn slot_sc_sources_for_channel(
    slot_types: &[ModuleType; 9],
    choices: &[ScChannel; 9],
    link: StereoLink,
    targets: &[FxChannelTarget; 9],
    ch: usize,
) -> (r: [ScSource; 9])
    ensures
        forall|s: int| 0 <= s < MAX_SLOTS ==> #[trigger] r@[s]
            == spec_slot_sc_source(slot_types@, choices@, link, targets@, ch as int, s),
{
    let mut out: [ScSource; 9] = [ScSource::LR; 9];
    let mut s: usize = 0;
    while s < MAX_SLOTS
        invariant
            0 <= s <= MAX_SLOTS,
            forall|q: int| 0 <= q < s ==> #[trigger] out@[q]
                == spec_slot_sc_source(slot_types@, choices@, link, targets@, ch as int, q),
        decreases MAX_SLOTS - s,
    {
        if module_spec(slot_types[s]).supports_sidechain {
            out[s] = resolve_sc_source(choices[s], link, targets[s], ch);
        } else {
            out[s] = ScSource::LR;
        }
        s += 1;
    }
    out
}

/// Sidechain stream of every (processing channel, slot) pair for one block.
pub fn slot_sc_sources(
    slot_types: &[ModuleType; 9],
    choices: &[ScChannel; 9],
    link: StereoLink,
    targets: &[FxChannelTarget; 9],
) -> (r: [[ScSource; 9]; 2])
    ensures
        forall|ch: int, s: int| 0 <= ch < 2 && 0 <= s < MAX_SLOTS ==> #[trigger] r@[ch]@[s]
            == spec_slot_sc_source(slot_types@, choices@, link, targets@, ch, s),
{
    let a = slot_sc_sources_for_channel(slot_types, choices, link, targets, 0);
    let b = slot_sc_sources_for_channel(slot_types, choices, link, targets, 1);
    let r = [a, b];
    assert(r@[0] == a && r@[1] == b);
    r
}

pub const FFT_SIZE: usize = 2048;
pub const NUM_BINS: usize = 1025;
/// 75% overlap: hop = fft_size / 4.
pub const OVERLAP: usize = 4;
pub const MAX_FFT_SIZE: usize = 16384;
pub const MAX_NUM_BINS: usize = 8193;

/// Capacity of the per-channel peak buffer used by peak-locked phase-vocoder
/// detection.
pub const MAX_PEAKS: usize = 256;

/// Bins of a real FFT of `fft_size` samples.
pub open spec fn spec_num_bins(fft_size: int) -> int {
    fft_size / 2 + 1
}

/// The bin-count constants agree with their FFT sizes.
pub proof fn lemma_bin_counts()
    ensures
        NUM_BINS == spec_num_bins(FFT_SIZE as int),
        MAX_NUM_BINS == spec_num_bins(MAX_FFT_SIZE as int),
{
}


/// Largest host block, in samples.
pub const MAX_BLOCK_SIZE: usize = 8192;

/// Capacity per channel of the dry-signal delay ring.
pub const MAX_DRY_DELAY_SIZE: usize = MAX_FFT_SIZE + MAX_BLOCK_SIZE;

/// Length of the dry-signal delay ring in use at an FFT size: one FFT frame
/// of latency plus room for a whole block.
pub open spec fn spec_dry_delay_size(fft_size: int) -> int {
    fft_size + MAX_BLOCK_SIZE
}

/// Length of the dry-signal delay ring for `fft_size`.
pub fn dry_delay_size(fft_size: usize) -> (r: usize)
    requires
        fft_size <= MAX_FFT_SIZE,
    ensures
        r == spec_dry_delay_size(fft_size as int),
        r <= MAX_DRY_DELAY_SIZE,
{
    fft_size + MAX_BLOCK_SIZE
}

/// Ring position where the dry sample at block offset `idx` is stored.
pub fn dry_write_pos(write: usize, idx: usize, size: usize) -> (r: usize)
    requires
        write < size <= MAX_DRY_DELAY_SIZE,
        idx < MAX_BLOCK_SIZE,
    ensures
        r == (write + idx) % (size as int),
        r < size,
{
    (write + idx) % size
}

/// Ring position of the dry sample that lines up with the processed sample
/// at block offset `idx`: the one stored `fft_size` samples earlier.
pub fn dry_read_pos(write: usize, idx: usize, size: usize, fft_size: usize) -> (r: usize)
    requires
        write < size <= MAX_DRY_DELAY_SIZE,
        fft_size <= size,
        idx < MAX_BLOCK_SIZE,
    ensures
        r == (write + idx + size - fft_size) % (size as int),
        r < size,
{
    (write + idx + size - fft_size) % size
}

/// Write head after a block of `block_samples` samples.
pub fn advance_dry_write(write: usize, block_samples: usize, size: usize) -> (r: usize)
    requires
        write < size <= MAX_DRY_DELAY_SIZE,
        block_samples <= MAX_BLOCK_SIZE,
    ensures
        r == (write + block_samples) % (size as int),
        r < size,
{
    (write + block_samples) % size
}

/// The dry path is delayed by exactly `fft_size` samples, so that mixing it
/// back in lines up with the processed signal. With `t0` samples stored
/// before the current block (the write head at `t0 % size`), the sample read
/// at block offset `idx` sits where the sample of time `t0 + idx - fft_size`
/// was stored, and no later store up to the end of a block of `block`
/// samples lands there.
pub proof fn lemma_dry_delay_is_one_frame(fft_size: int, t0: int, block: int, idx: int)
    requires
        0 <= fft_size,
        0 <= idx < block <= MAX_BLOCK_SIZE,
        fft_size <= t0 + idx,
    ensures
        ({
            let size = spec_dry_delay_size(fft_size);
            &&& (t0 % size + idx + size - fft_size) % size == (t0 + idx - fft_size) % size
            &&& forall|u: int| t0 + idx - fft_size < u < t0 + block
                ==> #[trigger] (u % size) != (t0 + idx - fft_size) % size
        }),
{
    let size = spec_dry_delay_size(fft_size);
    let x = t0 + idx - fft_size;
    lemma_fundamental_div_mod(t0, size);
    let q = t0 / size;
    assert(size * (1 - q) + x == t0 % size + idx + size - fft_size) by (nonlinear_arith)
        requires
            t0 == size * q + t0 % size,
            x == t0 + idx - fft_size;
    lemma_mod_multiples_vanish(1 - q, x, size);
    assert forall|u: int| x < u < t0 + block implies #[trigger] (u % size) != x % size by {
        lemma_mod_equivalence(u, x, size);
        lemma_small_mod((u - x) as nat, size as nat);
    }
}

} // verus!

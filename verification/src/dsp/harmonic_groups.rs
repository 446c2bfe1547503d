//! Candidate peaks for harmonic-group detection.
//!
//! Each hop the detector looks at the bins above DC whose frequency lies in
//! the analysis band and that are not silent, keeps the loudest
//! `MAX_PEAK_CANDIDATES` of them as they arrive, and ranks them loudest
//! first (a stable sort, so equally loud candidates keep their order).
//! Magnitudes arrive as order keys (`u32`, larger = louder).

use vstd::prelude::*;
use crate::dsp::modules::decay_sort::{
    keep_loudest, kept_candidates, lemma_kept_shape, lemma_stable_sort_members, lemma_stable_sort_sorted,
    pool_items, rank_candidates, lemma_kept_are_loudest, lemma_stable_sort_multiset, sorts_before, stable_sort, Candidate,
};

verus! {

/// Maximum number of groups returned per hop.
pub const MAX_GROUPS: usize = 4;

/// Maximum number of harmonics tracked per group.
pub const MAX_HARMONICS_PER_GROUP: usize = 16;

/// Maximum number of candidate peaks scanned each hop.
pub const MAX_PEAK_CANDIDATES: usize = 32;

/// Bins that may become candidates: every eligible bin except DC.
pub open spec fn candidate_bins(eligible: Seq<bool>) -> Seq<bool> {
    Seq::new(eligible.len(), |k: int| k >= 1 && eligible[k])
}

/// The ranked candidates: kept loudest-as-they-arrive, then loudest first.
pub open spec fn spec_harmonic_candidates(mag: Seq<u32>, eligible: Seq<bool>) -> Seq<Candidate> {
    stable_sort(mag, kept_candidates(mag, candidate_bins(eligible), MAX_PEAK_CANDIDATES as int, mag.len() as int))
}

/// Candidate peaks of one hop, loudest first, as (bin, magnitude key).
///
/// `mag[k]` is the order key of bin `k`'s magnitude; `eligible[k]` tells
/// whether the bin lies in the analysis band and is not silent.
pub fn harmonic_candidates(mag: &[u32], eligible: &[bool]) -> (cand: Vec<Candidate>)
    requires
        eligible@.len() == mag@.len(),
        mag@.len() <= u32::MAX,
    ensures
        cand@ == spec_harmonic_candidates(mag@, eligible@),
        cand@.len() <= MAX_PEAK_CANDIDATES,
        forall|i: int| 0 <= i < cand@.len() ==> 1 <= (#[trigger] cand@[i]).0 < mag@.len()
            && eligible@[cand@[i].0 as int] && cand@[i].1 == mag@[cand@[i].0 as int],
        forall|i: int, j: int| 0 <= i < j < cand@.len() ==> (#[trigger] cand@[i]).1 >= (#[trigger] cand@[j]).1,
{
    let n = mag.len();
    let mut pass: Vec<bool> = Vec::with_capacity(n);
    let mut k: usize = 0;
    while k < n
        invariant
            n == mag@.len(),
            eligible@.len() == n,
            0 <= k <= n,
            pass@.len() == k,
            forall|q: int| 0 <= q < k ==> #[trigger] pass@[q] == (q >= 1 && eligible@[q]),
        decreases n - k,
    {
        pass.push(k >= 1 && eligible[k]);
        k += 1;
    }
    proof {
        assert(pass@ =~= candidate_bins(eligible@));
    }
    let mut pool = keep_loudest(mag, &pass, MAX_PEAK_CANDIDATES);
    let ghost kept = pool_items(pool);
    rank_candidates(&mut pool, mag);
    let cand = pool.to_vec();
    proof {
        let cb = candidate_bins(eligible@);
        lemma_stable_sort_sorted(mag@, kept);
        lemma_kept_shape(mag@, cb, MAX_PEAK_CANDIDATES as int, n as int);
        assert forall|i: int| 0 <= i < cand@.len() implies 1 <= (#[trigger] cand@[i]).0 < mag@.len()
            && eligible@[cand@[i].0 as int] && cand@[i].1 == mag@[cand@[i].0 as int] by {
            lemma_stable_sort_members(mag@, kept, i);
            let w = choose|w: int| 0 <= w < kept.len() && kept[w] == cand@[i];
            assert(kept[w] == cand@[i]);
        }
        assert forall|i: int, j: int| 0 <= i < j < cand@.len() implies (#[trigger] cand@[i]).1 >= (#[trigger] cand@[j]).1 by {
            assert(!sorts_before(mag@, cand@[j], cand@[i]));
            lemma_stable_sort_members(mag@, kept, i);
            lemma_stable_sort_members(mag@, kept, j);
            let wi = choose|w: int| 0 <= w < kept.len() && kept[w] == cand@[i];
            let wj = choose|w: int| 0 <= w < kept.len() && kept[w] == cand@[j];
            assert(kept[wi] == cand@[i]);
            assert(kept[wj] == cand@[j]);
        }
    }
    cand
}


/// The candidates are the loudest eligible bins above DC: such a bin louder
/// than a reported candidate is reported too, and while fewer than
/// `MAX_PEAK_CANDIDATES` are reported, every such bin is.
pub proof fn lemma_harmonic_candidates_are_loudest(mag: Seq<u32>, eligible: Seq<bool>)
    requires
        eligible.len() == mag.len(),
        mag.len() <= u32::MAX,
    ensures
        ({
            let c = spec_harmonic_candidates(mag, eligible);
            &&& forall|b: int, i: int| 1 <= b < mag.len() && #[trigger] eligible[b] && 0 <= i < c.len()
                && mag[b] > (#[trigger] c[i]).1 ==> exists|j: int| 0 <= j < c.len() && (#[trigger] c[j]).0 == b
            &&& c.len() < MAX_PEAK_CANDIDATES ==> forall|b: int| 1 <= b < mag.len() && #[trigger] eligible[b]
                ==> exists|j: int| 0 <= j < c.len() && (#[trigger] c[j]).0 == b
        }),
{
    broadcast use vstd::seq_lib::group_to_multiset_ensures;
    let cb = candidate_bins(eligible);
    let n = mag.len() as int;
    let kept = kept_candidates(mag, cb, MAX_PEAK_CANDIDATES as int, n);
    let c = spec_harmonic_candidates(mag, eligible);
    lemma_kept_are_loudest(mag, cb, MAX_PEAK_CANDIDATES as int, n);
    lemma_stable_sort_sorted(mag, kept);
    lemma_stable_sort_multiset(mag, kept);
    assert forall|j: int| 0 <= j < kept.len() implies exists|q: int| 0 <= q < c.len() && (#[trigger] c[q]).0 == (#[trigger] kept[j]).0 by {
        assert(kept.to_multiset().contains(kept[j]));
        assert(c.to_multiset().contains(kept[j]));
        let q = choose|q: int| 0 <= q < c.len() && c[q] == kept[j];
        assert(c[q].0 == kept[j].0);
    }
    assert forall|b: int, i: int| 1 <= b < mag.len() && #[trigger] eligible[b] && 0 <= i < c.len()
        && mag[b] > (#[trigger] c[i]).1 implies exists|j: int| 0 <= j < c.len() && (#[trigger] c[j]).0 == b by {
        lemma_stable_sort_members(mag, kept, i);
        let w = choose|w: int| 0 <= w < kept.len() && kept[w] == c[i];
        assert(kept[w] == c[i]);
        assert(cb[b]);
        let j = choose|j: int| 0 <= j < kept.len() && (#[trigger] kept[j]).0 == b;
        assert(exists|q: int| 0 <= q < c.len() && (#[trigger] c[q]).0 == kept[j].0);
    }
    if c.len() < MAX_PEAK_CANDIDATES {
        assert forall|b: int| 1 <= b < mag.len() && #[trigger] eligible[b]
            implies exists|j: int| 0 <= j < c.len() && (#[trigger] c[j]).0 == b by {
            assert(cb[b]);
            let j = choose|j: int| 0 <= j < kept.len() && (#[trigger] kept[j]).0 == b;
            assert(exists|q: int| 0 <= q < c.len() && (#[trigger] c[q]).0 == kept[j].0);
        }
    }
}

} // verus!

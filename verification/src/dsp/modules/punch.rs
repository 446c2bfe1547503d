//! Punch module: mode selector and sidechain peak detection.

use vstd::prelude::*;
use crate::dsp::peak_order::{
    greedy_select, is_ranked, lemma_greedy_select_full, lemma_rank_insert_at, lemma_rank_sort,
    lemma_ranked_before_transitive, rank_insert, rank_sort, ranked_before, bin_distance, far_from_all,
    lemma_greedy_select_members, lemma_greedy_select_refusal, lemma_greedy_select_spaced,
};

verus! {

pub const MAX_PEAKS: usize = 32;
pub const MAX_DRIFT_SITES: usize = 64;

/// Capacity of the on-stack candidate scratch used by `detect_peaks`.
pub const MAX_PEAK_CANDIDATES: usize = 256;

#[derive(Debug, Clone, Copy, PartialEq, Eq, Default)]
pub enum PunchMode {
    #[default]
    Direct,
    Inverse,
}

impl PunchMode {
    pub fn label(self) -> (r: &'static str)
        ensures
            self == PunchMode::Direct ==> r@ == "Direct"@,
            self == PunchMode::Inverse ==> r@ == "Inverse"@,
    {
        match self {
            PunchMode::Direct => "Direct",
            PunchMode::Inverse => "Inverse",
        }
    }
}

/// Bin `k` is a local maximum (strictly above its left neighbour, at least
/// its right neighbour) whose key reaches `threshold`.
pub open spec fn is_peak_candidate(mag: Seq<u32>, threshold: u32, k: int) -> bool {
    &&& 1 <= k < mag.len() - 1
    &&& mag[k] >= threshold
    &&& mag[k] > mag[k - 1]
    &&& mag[k] >= mag[k + 1]
}

/// The first `MAX_PEAK_CANDIDATES` candidate bins below `k`, in ascending order.
pub open spec fn peak_candidates(mag: Seq<u32>, threshold: u32, k: int) -> Seq<int>
    decreases k,
{
    if k <= 1 {
        seq![]
    } else {
        let c = peak_candidates(mag, threshold, k - 1);
        if is_peak_candidate(mag, threshold, k - 1) && c.len() < MAX_PEAK_CANDIDATES {
            c.push(k - 1)
        } else {
            c
        }
    }
}

/// The peaks `detect_peaks` reports, in the order it writes them: candidates
/// ranked loudest first (ties: lower bin first), each accepted when it lies at
/// least `min_dist` bins from every peak accepted before, at most `cap` peaks.
pub open spec fn detected_peaks(mag: Seq<u32>, threshold: u32, cap: nat, min_dist: nat) -> Seq<int> {
    if mag.len() < 3 || cap == 0 {
        seq![]
    } else {
        greedy_select(rank_sort(mag, peak_candidates(mag, threshold, mag.len() - 1)), cap, min_dist)
    }
}

proof fn lemma_peak_candidates_shape(mag: Seq<u32>, threshold: u32, k: int)
    requires
        k <= mag.len(),
        mag.len() <= u32::MAX,
    ensures
        peak_candidates(mag, threshold, k).len() <= MAX_PEAK_CANDIDATES,
        forall|t: int| 0 <= t < peak_candidates(mag, threshold, k).len()
            ==> 1 <= #[trigger] peak_candidates(mag, threshold, k)[t] < k
                && is_peak_candidate(mag, threshold, peak_candidates(mag, threshold, k)[t]),
        forall|a: int, b: int| 0 <= a < b < peak_candidates(mag, threshold, k).len()
            ==> #[trigger] peak_candidates(mag, threshold, k)[a] < #[trigger] peak_candidates(mag, threshold, k)[b],
    decreases k,
{
    if k > 1 {
        lemma_peak_candidates_shape(mag, threshold, k - 1);
    }
}

/// Detect up to `out.len()` local maxima in `mag` whose key reaches
/// `threshold`, at least `min_dist` bins apart, and write their bins into
/// `out`, loudest first. Returns the number of peaks written; the rest of
/// `out` is left as it was.
///
/// Candidates are collected in ascending bin order into a fixed scratch of
/// `MAX_PEAK_CANDIDATES` entries (further candidates are ignored), ranked by
/// an insertion sort on the key, then accepted greedily.
///
/// `mag` holds order keys of the magnitudes (larger key = louder bin).
pub fn detect_peaks(mag: &[u32], out: &mut [u32], threshold: u32, min_dist: usize) -> (written: usize)
    requires
        mag@.len() <= u32::MAX,
    ensures
        written == detected_peaks(mag@, threshold, old(out)@.len() as nat, min_dist as nat).len(),
        final(out)@.len() == old(out)@.len(),
        final(out)@.take(written as int).map_values(|b: u32| b as int) == detected_peaks(mag@, threshold, old(out)@.len() as nat, min_dist as nat),
        final(out)@.skip(written as int) == old(out)@.skip(written as int),
{
    let n = mag.len();
    if n < 3 || out.len() == 0 {
        assert(final(out)@.take(0) =~= seq![]);
        return 0;
    }
    let ghost m = mag@;
    let ghost cap = out@.len() as nat;

    // Pass 1: collect candidates (local maxima above threshold).
    let mut cand_count: usize = 0;
    let mut cand_mag: [u32; 256] = [0; 256];
    let mut cand_bin: [u32; 256] = [0; 256];
    let mut k: usize = 1;
    while k < n - 1
        invariant
            n == mag@.len(),
            m == mag@,
            3 <= n <= u32::MAX,
            1 <= k <= n - 1,
            cand_count == peak_candidates(m, threshold, k as int).len(),
            cand_count <= MAX_PEAK_CANDIDATES,
            forall|t: int| 0 <= t < cand_count ==> #[trigger] cand_bin@[t] as int == peak_candidates(m, threshold, k as int)[t],
            forall|t: int| 0 <= t < cand_count ==> #[trigger] cand_mag@[t] == m[cand_bin@[t] as int],
        decreases n - 1 - k,
    {
        proof {
            lemma_peak_candidates_shape(m, threshold, k as int);
        }
        let mk = mag[k];
        if mk >= threshold && mk > mag[k - 1] && mk >= mag[k + 1] {
            if cand_count < 256 {
                cand_mag[cand_count] = mk;
                cand_bin[cand_count] = k as u32;
                cand_count += 1;
            }
        }
        k += 1;
    }
    let ghost cands = peak_candidates(m, threshold, (n - 1) as int);
    proof {
        lemma_peak_candidates_shape(m, threshold, (n - 1) as int);
        assert(cand_bin@.take(cand_count as int).map_values(|b: u32| b as int) =~= cands);
    }

    // Pass 2: insertion sort candidates by descending key (ties keep bin order).
    let mut i: usize = 1;
    if cand_count == 0 {
        i = 0;
    }
    proof {
        if cand_count > 0 {
            let c1 = cands.take(1);
            assert(c1.drop_last() =~= seq![]);
            assert(rank_sort(m, c1.drop_last()) =~= seq![]);
            assert(rank_insert(m, seq![], cands[0]) =~= seq![cands[0]]);
            assert(rank_sort(m, c1) =~= seq![cands[0]]);
        }
    }
    while i < cand_count
        invariant
            m == mag@,
            n == mag@.len(),
            cands == peak_candidates(m, threshold, (n - 1) as int),
            cand_count == cands.len(),
            cand_count <= MAX_PEAK_CANDIDATES,
            cand_count == 0 ==> i == 0,
            cand_count > 0 ==> 1 <= i <= cand_count,
            forall|t: int| 0 <= t < cands.len() ==> 1 <= #[trigger] cands[t] < n - 1,
            forall|a: int, b: int| 0 <= a < b < cands.len() ==> #[trigger] cands[a] < #[trigger] cands[b],
            forall|t: int| 0 <= t < i ==> #[trigger] cand_bin@[t] as int == rank_sort(m, cands.take(i as int))[t],
            forall|t: int| i <= t < cand_count ==> #[trigger] cand_bin@[t] as int == cands[t],
            forall|t: int| 0 <= t < cand_count ==> #[trigger] cand_mag@[t] == m[cand_bin@[t] as int],
        decreases cand_count - i,
    {
        let ghost pre = cands.take(i as int);
        let ghost s = rank_sort(m, pre);
        let ghost x = cands[i as int];
        proof {
            assert(pre.no_duplicates());
            lemma_rank_sort(m, pre);
            assert forall|t: int| 0 <= t < s.len() implies #[trigger] s[t] < x by {
                assert(s.contains(s[t]));
                assert(pre.contains(s[t]));
                let q = choose|q: int| 0 <= q < pre.len() && pre[q] == s[t];
                assert(cands[q] < cands[i as int]);
            }
            assert(!s.contains(x)) by {
                if s.contains(x) {
                    let q = choose|q: int| 0 <= q < s.len() && s[q] == x;
                    assert(s[q] < x);
                }
            }
        }
        let mi = cand_mag[i];
        let bi = cand_bin[i];
        let mut j: usize = i;
        while j > 0 && cand_mag[j - 1] < mi
            invariant
                m == mag@,
                0 <= j <= i < cand_count <= MAX_PEAK_CANDIDATES,
                s.len() == i,
                x == cands[i as int],
                bi as int == x,
                mi == m[x as int],
                is_ranked(m, s),
                forall|t: int| 0 <= t < s.len() ==> #[trigger] s[t] < x,
                forall|t: int| 0 <= t < j ==> #[trigger] cand_bin@[t] as int == s[t],
                forall|t: int| j < t <= i ==> #[trigger] cand_bin@[t] as int == s[t - 1],
                forall|t: int| j <= t < i ==> ranked_before(m, x, #[trigger] s[t]),
                forall|t: int| i < t < cand_count ==> #[trigger] cand_bin@[t] as int == cands[t],
                forall|t: int| 0 <= t < cand_count && t != j ==> #[trigger] cand_mag@[t] == m[cand_bin@[t] as int],
            decreases j,
        {
            cand_mag[j] = cand_mag[j - 1];
            cand_bin[j] = cand_bin[j - 1];
            j -= 1;
        }
        cand_mag[j] = mi;
        cand_bin[j] = bi;
        proof {
            if j > 0 {
                assert(ranked_before(m, s[j - 1], x));
                assert forall|t: int| 0 <= t < j implies ranked_before(m, #[trigger] s[t], x) by {
                    if t < j - 1 {
                        assert(ranked_before(m, s[t], s[j - 1]));
                        lemma_ranked_before_transitive(m, s[t], s[j - 1], x);
                    }
                }
            }
            lemma_rank_insert_at(m, s, x, j as int);
            let nxt = cands.take(i as int + 1);
            assert(nxt.drop_last() =~= pre);
            assert(rank_sort(m, nxt) == rank_insert(m, s, x));
            assert forall|t: int| 0 <= t < i + 1 implies #[trigger] cand_bin@[t] as int == rank_sort(m, nxt)[t] by {
                if t < j {
                } else if t == j {
                } else {
                }
            }
        }
        i += 1;
    }
    let ghost ranked = rank_sort(m, cands);
    proof {
        assert(cands.take(cand_count as int) =~= cands);
        assert(cands.no_duplicates());
        lemma_rank_sort(m, cands);
    }

    // Pass 3: greedy write into `out`, enforcing min_dist between accepted peaks.
    let mut written: usize = 0;
    let mut i: usize = 0;
    while i < cand_count
        invariant
            m == mag@,
            n == mag@.len(),
            n >= 3,
            cap == old(out)@.len(),
            cap > 0,
            out@.len() == cap,
            ranked.len() == cand_count,
            ranked == rank_sort(m, cands),
            cands == peak_candidates(m, threshold, (n - 1) as int),
            cand_count <= MAX_PEAK_CANDIDATES,
            0 <= i <= cand_count,
            forall|t: int| 0 <= t < cand_count ==> #[trigger] cand_bin@[t] as int == ranked[t],
            written == greedy_select(ranked.take(i as int), cap, min_dist as nat).len(),
            written < cap,
            out@.take(written as int).map_values(|b: u32| b as int) == greedy_select(ranked.take(i as int), cap, min_dist as nat),
            out@.skip(written as int) == old(out)@.skip(written as int),
        decreases cand_count - i,
    {
        let b = cand_bin[i];
        let ghost acc = greedy_select(ranked.take(i as int), cap, min_dist as nat);
        let mut ok = true;
        let mut j: usize = 0;
        while j < written
            invariant
                written < out@.len(),
                acc == out@.take(written as int).map_values(|b: u32| b as int),
                0 <= j <= written,
                ok ==> forall|q: int| 0 <= q < j ==> bin_distance(#[trigger] acc[q], b as int) >= min_dist,
                !ok ==> !far_from_all(acc, b as int, min_dist as nat),
            ensures
                ok ==> j == written,
                ok ==> forall|q: int| 0 <= q < j ==> bin_distance(#[trigger] acc[q], b as int) >= min_dist,
                !ok ==> !far_from_all(acc, b as int, min_dist as nat),
            decreases written - j,
        {
            let o = out[j];
            let d = if o >= b { o - b } else { b - o };
            if (d as u64) < (min_dist as u64) {
                ok = false;
                assert(acc[j as int] == o as int);
                break;
            }
            j += 1;
        }
        proof {
            let nxt = ranked.take(i as int + 1);
            assert(nxt.drop_last() =~= ranked.take(i as int));
            assert(nxt.last() == b as int);
            if ok {
                assert(far_from_all(acc, b as int, min_dist as nat));
                assert(greedy_select(nxt, cap, min_dist as nat) == acc.push(b as int));
            } else {
                assert(greedy_select(nxt, cap, min_dist as nat) == acc);
            }
        }
        if ok {
            let ghost old_out = out@;
            out[written] = b;
            written += 1;
            proof {
                assert(out@.take(written as int).map_values(|b: u32| b as int) =~= old_out.take(written - 1).map_values(|b: u32| b as int).push(b as int));
                assert(out@.skip(written as int) =~= old_out.skip(written as int));
                assert(old_out.skip(written - 1).skip(1) =~= old_out.skip(written as int));
            }
            if written >= out.len() {
                proof {
                    lemma_greedy_select_full(ranked, i as int + 1, cap, min_dist as nat);
                    assert(ranked.take(cand_count as int) =~= ranked);
                }
                return written;
            }
        }
        i += 1;
    }
    proof {
        assert(ranked.take(cand_count as int) =~= ranked);
    }
    written
}


/// The candidates are the lowest-frequency local maxima reaching the
/// threshold, at most `MAX_PEAK_CANDIDATES` of them, ascending: every entry
/// is a candidate, none is skipped below the last one kept, and when fewer
/// than the limit are kept, none is skipped at all.
pub proof fn lemma_peak_candidates_are_the_first(mag: Seq<u32>, threshold: u32, k: int)
    requires
        k <= mag.len(),
        mag.len() <= u32::MAX,
    ensures
        ({
            let pc = peak_candidates(mag, threshold, k);
            &&& pc.len() <= MAX_PEAK_CANDIDATES
            &&& forall|i: int| 0 <= i < pc.len() ==> is_peak_candidate(mag, threshold, #[trigger] pc[i]) && pc[i] < k
            &&& forall|i: int, j: int| 0 <= i < j < pc.len() ==> #[trigger] pc[i] < #[trigger] pc[j]
            &&& forall|c: int, i: int| #[trigger] is_peak_candidate(mag, threshold, c) && 0 <= i < pc.len() && c < #[trigger] pc[i]
                ==> pc.contains(c)
            &&& pc.len() < MAX_PEAK_CANDIDATES ==> forall|c: int| #[trigger] is_peak_candidate(mag, threshold, c) && c < k
                ==> pc.contains(c)
        }),
    decreases k,
{
    lemma_peak_candidates_shape(mag, threshold, k);
    if k > 1 {
        lemma_peak_candidates_are_the_first(mag, threshold, k - 1);
        let c0 = peak_candidates(mag, threshold, k - 1);
        let pc = peak_candidates(mag, threshold, k);
        assert forall|c: int| c0.contains(c) implies pc.contains(c) by {
            let i = choose|i: int| 0 <= i < c0.len() && c0[i] == c;
            assert(pc[i] == c0[i]);
        }
        assert forall|c: int, i: int| #[trigger] is_peak_candidate(mag, threshold, c) && 0 <= i < pc.len() && c < #[trigger] pc[i]
            implies pc.contains(c) by {
            if i < c0.len() {
                assert(pc[i] == c0[i]);
                assert(c0.contains(c));
            } else {
                // pc[i] is the new bin k - 1, so c0 was not full
                assert(pc[i] == k - 1);
                assert(c0.contains(c));
            }
        }
        if pc.len() < MAX_PEAK_CANDIDATES {
            assert forall|c: int| #[trigger] is_peak_candidate(mag, threshold, c) && c < k implies pc.contains(c) by {
                if c < k - 1 {
                    assert(c0.contains(c));
                } else {
                    assert(pc[pc.len() - 1] == k - 1);
                }
            }
        }
    } else {
        let pc = peak_candidates(mag, threshold, k);
        assert forall|c: int| #[trigger] is_peak_candidate(mag, threshold, c) && c < k implies pc.contains(c) by {}
    }
}

/// What Punch's peak detection reports: candidate local maxima only, each
/// once, at most `cap`, loudest first (ties: lower bin first), every two at
/// least `min_dist` bins apart; and a candidate left out was refused for a
/// reason: `cap` peaks were reported, or a reported peak that outranks it
/// lies closer than `min_dist`.
pub proof fn lemma_detected_peaks_greedy(mag: Seq<u32>, threshold: u32, cap: nat, min_dist: nat)
    requires
        mag.len() <= u32::MAX,
    ensures
        ({
            let d = detected_peaks(mag, threshold, cap, min_dist);
            let pc = peak_candidates(mag, threshold, mag.len() - 1);
            &&& d.len() <= cap
            &&& forall|i: int| 0 <= i < d.len() ==> is_peak_candidate(mag, threshold, #[trigger] d[i]) && pc.contains(d[i])
            &&& forall|i: int, j: int| 0 <= i < j < d.len() ==> (mag[#[trigger] d[i]] > mag[#[trigger] d[j]]
                || (mag[d[i]] == mag[d[j]] && d[i] < d[j]))
            &&& forall|i: int, j: int| 0 <= i < j < d.len() ==> (#[trigger] d[i] - #[trigger] d[j] >= min_dist
                || d[j] - d[i] >= min_dist)
            &&& forall|c: int| #[trigger] pc.contains(c) && !d.contains(c) ==> (d.len() == cap
                || exists|j: int| 0 <= j < d.len() && (#[trigger] d[j] - c < min_dist && c - d[j] < min_dist)
                    && (mag[d[j]] > mag[c] || (mag[d[j]] == mag[c] && d[j] < c)))
        }),
{
    let d = detected_peaks(mag, threshold, cap, min_dist);
    if mag.len() < 3 || cap == 0 {
        let pc = peak_candidates(mag, threshold, mag.len() - 1);
        lemma_peak_candidates_shape(mag, threshold, mag.len() - 1);
        if mag.len() < 3 {
            assert forall|c: int| #[trigger] pc.contains(c) && !d.contains(c) implies d.len() == cap by {
                let i = choose|i: int| 0 <= i < pc.len() && pc[i] == c;
                assert(is_peak_candidate(mag, threshold, pc[i]));
            }
        }
    } else {
        let n = (mag.len() - 1) as int;
        let pc = peak_candidates(mag, threshold, n);
        lemma_peak_candidates_shape(mag, threshold, n);
        assert(pc.no_duplicates()) by {
            assert forall|i: int, j: int| 0 <= i < pc.len() && 0 <= j < pc.len() && i != j implies pc[i] != pc[j] by {
                if i < j {
                    assert(pc[i] < pc[j]);
                } else {
                    assert(pc[j] < pc[i]);
                }
            }
        }
        lemma_rank_sort(mag, pc);
        let rs = rank_sort(mag, pc);
        lemma_greedy_select_spaced(mag, rs, cap, min_dist);
        assert(d == greedy_select(rs, cap, min_dist));
        assert forall|i: int| 0 <= i < d.len() implies is_peak_candidate(mag, threshold, #[trigger] d[i]) && pc.contains(d[i]) by {
            assert(d.contains(d[i]));
            lemma_greedy_select_members(rs, cap, min_dist, d[i]);
            assert(pc.contains(d[i]));
            let q = choose|q: int| 0 <= q < pc.len() && pc[q] == d[i];
        }
        assert forall|i: int, j: int| 0 <= i < j < d.len() implies (mag[#[trigger] d[i]] > mag[#[trigger] d[j]]
            || (mag[d[i]] == mag[d[j]] && d[i] < d[j])) by {
            assert(ranked_before(mag, d[i], d[j]));
        }
        assert forall|i: int, j: int| 0 <= i < j < d.len() implies (#[trigger] d[i] - #[trigger] d[j] >= min_dist
            || d[j] - d[i] >= min_dist) by {
            assert(bin_distance(d[i], d[j]) >= min_dist);
        }
        assert forall|c: int| #[trigger] pc.contains(c) && !d.contains(c) implies (d.len() == cap
            || exists|j: int| 0 <= j < d.len() && (#[trigger] d[j] - c < min_dist && c - d[j] < min_dist)
                && (mag[d[j]] > mag[c] || (mag[d[j]] == mag[c] && d[j] < c))) by {
            assert(rs.contains(c));
            lemma_greedy_select_refusal(mag, rs, cap, min_dist, c);
            if d.len() != cap {
                let j = choose|j: int| 0 <= j < d.len()
                    && bin_distance(#[trigger] d[j], c) < min_dist && ranked_before(mag, d[j], c);
                assert(d[j] - c < min_dist && c - d[j] < min_dist);
            }
        }
    }
}

} // verus!

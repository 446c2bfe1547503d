//! Shared helpers for the Harmony module: peak records, prime table and the
//! top-K peak picker.

use vstd::prelude::*;
use crate::dsp::peak_order::{
    is_ranked, lemma_rank_insert_at, lemma_rank_insert_prefix, lemma_rank_sort,
    lemma_ranked_before_transitive, rank_insert, rank_sort, ranked_before,
};

verus! {

/// One picked peak: its bin and the order key of its magnitude.
#[derive(Clone, Copy, Debug, PartialEq, Eq)]
pub struct PeakRecord {
    pub bin: usize,
    pub mag: u32,
}

impl Default for PeakRecord {
    fn default() -> (r: Self)
        ensures
            r.bin == 0 && r.mag == 0,
    {
        PeakRecord { bin: 0, mag: 0 }
    }
}

/// First 32 primes.
pub const SMALL_PRIMES: [u32; 32] = [
    2, 3, 5, 7, 11, 13, 17, 19, 23, 29, 31, 37, 41, 43, 47, 53, 59, 61, 67, 71, 73, 79, 83, 89,
    97, 101, 103, 107, 109, 113, 127, 131,
];

/// Bin `k` is strictly louder than both neighbours and reaches `threshold`.
/// The first and last bins are never peaks.
pub open spec fn is_strict_peak(mag: Seq<u32>, threshold: u32, k: int) -> bool {
    &&& 1 <= k < mag.len() - 1
    &&& mag[k] >= threshold
    &&& mag[k] > mag[k - 1]
    &&& mag[k] > mag[k + 1]
}

/// All strict peaks below bin `k`, ascending.
pub open spec fn strict_peaks(mag: Seq<u32>, threshold: u32, k: int) -> Seq<int>
    decreases k,
{
    if k <= 1 {
        seq![]
    } else {
        let c = strict_peaks(mag, threshold, k - 1);
        if is_strict_peak(mag, threshold, k - 1) {
            c.push(k - 1)
        } else {
            c
        }
    }
}

pub open spec fn min_nat(a: nat, b: nat) -> nat {
    if a <= b { a } else { b }
}

/// The `cap` highest-ranked strict peaks (loudest first, ties: lower bin first).
pub open spec fn top_k_peaks(mag: Seq<u32>, threshold: u32, cap: nat) -> Seq<int> {
    if mag.len() < 3 || cap == 0 {
        seq![]
    } else {
        let r = rank_sort(mag, strict_peaks(mag, threshold, mag.len() - 1));
        r.take(min_nat(cap, r.len()) as int)
    }
}

proof fn lemma_strict_peaks_shape(mag: Seq<u32>, threshold: u32, k: int)
    requires
        k <= mag.len(),
    ensures
        forall|t: int| 0 <= t < strict_peaks(mag, threshold, k).len()
            ==> 1 <= #[trigger] strict_peaks(mag, threshold, k)[t] < k,
        forall|a: int, b: int| 0 <= a < b < strict_peaks(mag, threshold, k).len()
            ==> #[trigger] strict_peaks(mag, threshold, k)[a] < #[trigger] strict_peaks(mag, threshold, k)[b],
    decreases k,
{
    if k > 1 {
        lemma_strict_peaks_shape(mag, threshold, k - 1);
        let c = strict_peaks(mag, threshold, k - 1);
        if is_strict_peak(mag, threshold, k - 1) {
            let d = c.push(k - 1);
            assert(d[c.len() as int] == k - 1);
            assert forall|t: int| 0 <= t < c.len() implies d[t] == c[t] by {}
        }
    }
}

/// Find local maxima in `mag` above `threshold`, keeping the top `out.len()`
/// by magnitude, sorted descending (equal magnitudes: lower bin first).
/// Unused slots are zeroed. Returns the number of valid entries written.
///
/// A bin `k` is a local maximum iff `mag[k] > mag[k-1] && mag[k] > mag[k+1]`;
/// the boundary bins are never peaks. `mag` holds order keys of magnitudes.
pub fn find_top_k_peaks(mag: &[u32], threshold: u32, out: &mut [PeakRecord]) -> (filled: usize)
    ensures
        final(out)@.len() == old(out)@.len(),
        filled == top_k_peaks(mag@, threshold, old(out)@.len() as nat).len(),
        forall|t: int| 0 <= t < filled ==> (#[trigger] final(out)@[t]).bin == top_k_peaks(mag@, threshold, old(out)@.len() as nat)[t]
            && final(out)@[t].mag == mag@[final(out)@[t].bin as int],
        forall|t: int| filled <= t < final(out)@.len() ==> (#[trigger] final(out)@[t]).bin == 0 && final(out)@[t].mag == 0,
{
    let ghost cap = out@.len() as nat;
    let ghost m = mag@;
    let mut z: usize = 0;
    while z < out.len()
        invariant
            out@.len() == cap,
            0 <= z <= cap,
            forall|t: int| 0 <= t < z ==> (#[trigger] out@[t]).bin == 0 && out@[t].mag == 0,
        decreases cap - z,
    {
        out[z] = PeakRecord { bin: 0, mag: 0 };
        z += 1;
    }
    if mag.len() < 3 || out.len() == 0 {
        return 0;
    }
    let k_max = out.len();
    let mut filled: usize = 0;
    let mut k: usize = 1;
    while k < mag.len() - 1
        invariant
            m == mag@,
            out@.len() == cap,
            cap == k_max,
            k_max > 0,
            m.len() >= 3,
            1 <= k <= m.len() - 1,
            filled == min_nat(cap, strict_peaks(m, threshold, k as int).len()),
            forall|t: int| 0 <= t < filled ==> (#[trigger] out@[t]).bin as int == strict_peaks_sorted(m, threshold, k as int)[t]
                && out@[t].mag == m[out@[t].bin as int],
            forall|t: int| filled <= t < cap ==> (#[trigger] out@[t]).bin == 0 && out@[t].mag == 0,
        decreases m.len() - 1 - k,
    {
        let ghost s = strict_peaks_sorted(m, threshold, k as int);
        let ghost sp = strict_peaks(m, threshold, k as int);
        proof {
            lemma_strict_peaks_shape(m, threshold, k as int);
            assert(sp.no_duplicates());
            lemma_rank_sort(m, sp);
        }
        let mk = mag[k];
        if mk >= threshold && mk > mag[k - 1] && mk > mag[k + 1] {
            let ghost x = k as int;
            proof {
                assert forall|t: int| 0 <= t < s.len() implies #[trigger] s[t] < x by {
                    assert(s.contains(s[t]));
                    assert(sp.contains(s[t]));
                }
            }
            let mut insert_at = filled;
            let mut j: usize = 0;
            while j < filled
                invariant_except_break
                    insert_at == filled,
                invariant
                    0 <= j <= filled <= cap,
                    out@.len() == cap,
                    forall|t: int| 0 <= t < filled ==> (#[trigger] out@[t]).bin as int == s[t]
                        && out@[t].mag == m[out@[t].bin as int],
                    forall|t: int| 0 <= t < j ==> m[s[t]] >= mk,
                    forall|t: int| 0 <= t < s.len() ==> #[trigger] s[t] < x,
                    mk == m[x],
                ensures
                    insert_at <= filled,
                    forall|t: int| 0 <= t < insert_at ==> m[s[t]] >= mk,
                    insert_at < filled ==> m[s[insert_at as int]] < mk,
                decreases filled - j,
            {
                if mk > out[j].mag {
                    insert_at = j;
                    break;
                }
                j += 1;
            }
            proof {
                assert forall|t: int| 0 <= t < insert_at implies ranked_before(m, #[trigger] s[t], x) by {
                    assert(s[t] < x);
                }
                if insert_at < filled {
                    assert forall|t: int| insert_at <= t < s.len() implies ranked_before(m, x, #[trigger] s[t]) by {
                        if t > insert_at {
                            assert(ranked_before(m, s[insert_at as int], s[t]));
                            lemma_ranked_before_transitive(m, x, s[insert_at as int], s[t]);
                        }
                    }
                    lemma_rank_insert_at(m, s, x, insert_at as int);
                } else if filled == s.len() {
                    lemma_rank_insert_at(m, s, x, insert_at as int);
                } else {
                    lemma_rank_insert_prefix(m, s, x, insert_at as int);
                }
                let nk = strict_peaks(m, threshold, k as int + 1);
                assert(nk == sp.push(x));
                assert(nk.drop_last() =~= sp);
                assert(strict_peaks_sorted(m, threshold, k as int + 1) == rank_insert(m, s, x));
            }
            if insert_at < k_max {
                let end = if filled < k_max - 1 { filled } else { k_max - 1 };
                let ghost pre = out@;
                let mut q: usize = end;
                while q > insert_at
                    invariant
                        insert_at <= q <= end < cap,
                        end <= filled,
                        out@.len() == cap,
                        forall|t: int| 0 <= t <= q ==> #[trigger] out@[t] == pre[t],
                        forall|t: int| q < t <= end ==> #[trigger] out@[t] == pre[t - 1],
                        forall|t: int| end < t < cap ==> #[trigger] out@[t] == pre[t],
                    decreases q,
                {
                    out[q] = out[q - 1];
                    q -= 1;
                }
                out[insert_at] = PeakRecord { bin: k, mag: mk };
                if filled < k_max {
                    filled += 1;
                }
                proof {
                    let ns = rank_insert(m, s, x);
                    assert forall|t: int| 0 <= t < filled implies (#[trigger] out@[t]).bin as int == ns[t]
                        && out@[t].mag == m[out@[t].bin as int] by {
                        if t < insert_at {
                        } else if t == insert_at {
                        } else {
                            assert(out@[t] == pre[t - 1]);
                        }
                    }
                }
            } else {
                proof {
                    assert(filled == k_max);
                    let ns = rank_insert(m, s, x);
                    assert(ns.take(insert_at as int) == s.take(insert_at as int));
                    assert forall|t: int| 0 <= t < filled implies (#[trigger] out@[t]).bin as int == ns[t] by {
                        assert(ns.take(insert_at as int)[t] == s.take(insert_at as int)[t]);
                    }
                }
            }
        } else {
            proof {
                let nk = strict_peaks(m, threshold, k as int + 1);
                assert(nk == sp);
                assert(strict_peaks_sorted(m, threshold, k as int + 1) == s);
            }
        }
        k += 1;
    }
    proof {
        let s = strict_peaks_sorted(m, threshold, (m.len() - 1) as int);
        let sp = strict_peaks(m, threshold, (m.len() - 1) as int);
        lemma_strict_peaks_shape(m, threshold, (m.len() - 1) as int);
        assert(sp.no_duplicates());
        lemma_rank_sort(m, sp);
    }
    filled
}

/// Strict peaks below `k`, in ranked order.
pub open spec fn strict_peaks_sorted(mag: Seq<u32>, threshold: u32, k: int) -> Seq<int> {
    rank_sort(mag, strict_peaks(mag, threshold, k))
}


proof fn lemma_strict_peaks_members(mag: Seq<u32>, threshold: u32, n: int, k: int)
    requires
        n <= mag.len(),
    ensures
        strict_peaks(mag, threshold, n).contains(k) <==> (k < n && is_strict_peak(mag, threshold, k)),
    decreases n,
{
    if n > 1 {
        lemma_strict_peaks_members(mag, threshold, n - 1, k);
        let c = strict_peaks(mag, threshold, n - 1);
        if is_strict_peak(mag, threshold, n - 1) {
            let d = c.push(n - 1);
            if d.contains(k) {
                let i = choose|i: int| 0 <= i < d.len() && d[i] == k;
                if i < c.len() {
                    assert(c[i] == k);
                }
            }
            if c.contains(k) {
                let i = choose|i: int| 0 <= i < c.len() && c[i] == k;
                assert(d[i] == k);
            }
            if k == n - 1 {
                assert(d[c.len() as int] == k);
            }
        }
    } else {
        if is_strict_peak(mag, threshold, k) {
            assert(k >= 1);
        }
    }
}

/// What the top-K picker reports: only strict peaks reaching the threshold,
/// each once, loudest first (equal loudness: lower bin first), at most `cap`
/// of them; no strict peak left out outranks a reported one (it is quieter,
/// or equally loud and higher in frequency); and when fewer than `cap` are
/// reported, every strict peak is.
pub proof fn lemma_top_k_peaks_are_the_loudest(mag: Seq<u32>, threshold: u32, cap: nat)
    ensures
        ({
            let r = top_k_peaks(mag, threshold, cap);
            &&& r.len() <= cap
            &&& forall|i: int| 0 <= i < r.len() ==> is_strict_peak(mag, threshold, #[trigger] r[i])
            &&& forall|i: int, j: int| 0 <= i < j < r.len() ==> (mag[#[trigger] r[i]] > mag[#[trigger] r[j]]
                || (mag[r[i]] == mag[r[j]] && r[i] < r[j]))
            &&& forall|k: int, i: int| #[trigger] is_strict_peak(mag, threshold, k) && !r.contains(k) && 0 <= i < r.len()
                ==> (mag[k] < mag[#[trigger] r[i]] || (mag[k] == mag[r[i]] && r[i] < k))
            &&& r.len() < cap ==> forall|k: int| #[trigger] is_strict_peak(mag, threshold, k) ==> r.contains(k)
        }),
{
    let r = top_k_peaks(mag, threshold, cap);
    if mag.len() < 3 || cap == 0 {
        if r.len() < cap {
            assert forall|k: int| #[trigger] is_strict_peak(mag, threshold, k) implies r.contains(k) by {
                assert(mag.len() < 3);
            }
        }
    } else {
        let n = (mag.len() - 1) as int;
        let sp = strict_peaks(mag, threshold, n);
        lemma_strict_peaks_shape(mag, threshold, n);
        assert(sp.no_duplicates()) by {
            assert forall|i: int, j: int| 0 <= i < sp.len() && 0 <= j < sp.len() && i != j implies sp[i] != sp[j] by {
                if i < j {
                    assert(sp[i] < sp[j]);
                } else {
                    assert(sp[j] < sp[i]);
                }
            }
        }
        lemma_rank_sort(mag, sp);
        let rs = rank_sort(mag, sp);
        let len = min_nat(cap, rs.len());
        assert(r == rs.take(len as int));
        assert forall|i: int| 0 <= i < r.len() implies is_strict_peak(mag, threshold, #[trigger] r[i]) by {
            assert(r[i] == rs[i]);
            assert(rs.contains(rs[i]));
            lemma_strict_peaks_members(mag, threshold, n, rs[i]);
        }
        assert forall|i: int, j: int| 0 <= i < j < r.len() implies (mag[#[trigger] r[i]] > mag[#[trigger] r[j]]
            || (mag[r[i]] == mag[r[j]] && r[i] < r[j])) by {
            assert(r[i] == rs[i] && r[j] == rs[j]);
            assert(ranked_before(mag, rs[i], rs[j]));
        }
        assert forall|k: int, i: int| #[trigger] is_strict_peak(mag, threshold, k) && !r.contains(k) && 0 <= i < r.len()
            implies (mag[k] < mag[#[trigger] r[i]] || (mag[k] == mag[r[i]] && r[i] < k)) by {
            lemma_strict_peaks_members(mag, threshold, n, k);
            assert(rs.contains(k));
            let p = choose|p: int| 0 <= p < rs.len() && rs[p] == k;
            if p < r.len() {
                assert(r[p] == k);
            }
            assert(r[i] == rs[i]);
            assert(ranked_before(mag, rs[i], rs[p]));
        }
        if r.len() < cap {
            assert(r =~= rs);
            assert forall|k: int| #[trigger] is_strict_peak(mag, threshold, k) implies r.contains(k) by {
                lemma_strict_peaks_members(mag, threshold, n, k);
            }
        }
    }
}

} // verus!

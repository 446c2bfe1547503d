//! Ordering of spectral peaks shared by the peak pickers.
//!
//! Magnitudes are carried as order keys (`u32`): a key is larger exactly when
//! the magnitude it stands for is larger. Peaks rank by descending key, and
//! among equal keys by ascending bin, which is the order an insertion sort
//! that only moves strictly smaller keys produces when fed bins in ascending
//! order.

use vstd::prelude::*;

verus! {

/// Order key of an IEEE-754 single's bit pattern: negative values (sign bit
/// set) have all bits flipped, the others get the sign bit set.
pub open spec fn spec_order_key(bits: u32) -> u32 {
    if bits & 0x8000_0000u32 != 0 { !bits } else { bits | 0x8000_0000u32 }
}

/// Order key of the bit pattern `bits` of a float (after `-0.0` is folded
/// into `0.0`): keys order as the floats do for every non-NaN value.
pub fn order_key_from_bits(bits: u32) -> (r: u32)
    ensures
        r == spec_order_key(bits),
{
    if bits & 0x8000_0000u32 != 0 { !bits } else { bits | 0x8000_0000u32 }
}

/// Keys order as the floats they come from: a negative float (sign bit set)
/// keys below every non-negative one; among non-negative floats a larger
/// magnitude field keys higher, among negative ones it keys lower; and the
/// map is one-to-one.
pub proof fn lemma_order_key_monotone(a: u32, b: u32)
    ensures
        (a & 0x8000_0000u32 != 0 && b & 0x8000_0000u32 == 0) ==> spec_order_key(a) < spec_order_key(b),
        (a & 0x8000_0000u32 == 0 && b & 0x8000_0000u32 == 0 && a < b) ==> spec_order_key(a) < spec_order_key(b),
        (a & 0x8000_0000u32 != 0 && b & 0x8000_0000u32 != 0 && a < b) ==> spec_order_key(a) > spec_order_key(b),
        a != b ==> spec_order_key(a) != spec_order_key(b),
{
    assert((a & 0x8000_0000u32 != 0 && b & 0x8000_0000u32 == 0) ==> !a < (b | 0x8000_0000u32)) by (bit_vector);
    assert((a & 0x8000_0000u32 == 0 && b & 0x8000_0000u32 == 0 && a < b) ==> (a | 0x8000_0000u32) < (b | 0x8000_0000u32)) by (bit_vector);
    assert((a & 0x8000_0000u32 != 0 && b & 0x8000_0000u32 != 0 && a < b) ==> !a > !b) by (bit_vector);
    assert(a != b ==> (if a & 0x8000_0000u32 != 0 { !a } else { a | 0x8000_0000u32 })
        != (if b & 0x8000_0000u32 != 0 { !b } else { b | 0x8000_0000u32 })) by (bit_vector);
}

/// `a` ranks strictly before `b`: louder, or equally loud and lower in frequency.
pub open spec fn ranked_before(mag: Seq<u32>, a: int, b: int) -> bool {
    mag[a] > mag[b] || (mag[a] == mag[b] && a < b)
}

/// `s` lists bins in strictly ranked order.
pub open spec fn is_ranked(mag: Seq<u32>, s: Seq<int>) -> bool {
    forall|i: int, j: int| 0 <= i < j < s.len() ==> ranked_before(mag, #[trigger] s[i], #[trigger] s[j])
}

/// Insert bin `x` into the ranked list `s` in front of the first entry it
/// ranks before.
pub open spec fn rank_insert(mag: Seq<u32>, s: Seq<int>, x: int) -> Seq<int>
    decreases s.len(),
{
    if s.len() == 0 {
        seq![x]
    } else if ranked_before(mag, x, s[0]) {
        seq![x] + s
    } else {
        seq![s[0]] + rank_insert(mag, s.drop_first(), x)
    }
}

/// Bins of `s` arranged in ranked order (insertion sort).
pub open spec fn rank_sort(mag: Seq<u32>, s: Seq<int>) -> Seq<int>
    decreases s.len(),
{
    if s.len() == 0 {
        seq![]
    } else {
        rank_insert(mag, rank_sort(mag, s.drop_last()), s.last())
    }
}

pub proof fn lemma_ranked_before_transitive(mag: Seq<u32>, a: int, b: int, c: int)
    requires
        ranked_before(mag, a, b),
        ranked_before(mag, b, c),
    ensures
        ranked_before(mag, a, c),
{
}

/// Inserting at a split point where everything in front ranks before `x` and
/// everything behind ranks after it is the same as `rank_insert`.
pub proof fn lemma_rank_insert_at(mag: Seq<u32>, s: Seq<int>, x: int, j: int)
    requires
        0 <= j <= s.len(),
        forall|t: int| 0 <= t < j ==> ranked_before(mag, #[trigger] s[t], x),
        forall|t: int| j <= t < s.len() ==> ranked_before(mag, x, #[trigger] s[t]),
    ensures
        rank_insert(mag, s, x) == s.take(j) + seq![x] + s.skip(j),
    decreases s.len(),
{
    if s.len() == 0 {
        assert(s.take(j) + seq![x] + s.skip(j) =~= seq![x]);
    } else if j == 0 {
        assert(ranked_before(mag, x, s[0]));
        assert(s.take(j) + seq![x] + s.skip(j) =~= seq![x] + s);
    } else {
        let r = s.drop_first();
        assert(ranked_before(mag, s[0], x));
        assert(!ranked_before(mag, x, s[0]));
        assert forall|t: int| 0 <= t < j - 1 implies ranked_before(mag, #[trigger] r[t], x) by {
            assert(r[t] == s[t + 1]);
        }
        assert forall|t: int| j - 1 <= t < r.len() implies ranked_before(mag, x, #[trigger] r[t]) by {
            assert(r[t] == s[t + 1]);
        }
        lemma_rank_insert_at(mag, r, x, j - 1);
        assert(seq![s[0]] + (r.take(j - 1) + seq![x] + r.skip(j - 1)) =~= s.take(j) + seq![x] + s.skip(j));
    }
}

/// `rank_insert` keeps exactly the old entries and adds `x`.
pub proof fn lemma_rank_insert_contents(mag: Seq<u32>, s: Seq<int>, x: int)
    ensures
        rank_insert(mag, s, x).len() == s.len() + 1,
        forall|y: int| #[trigger] rank_insert(mag, s, x).contains(y) <==> (s.contains(y) || y == x),
    decreases s.len(),
{
    if s.len() == 0 {
        assert(rank_insert(mag, s, x) =~= seq![x]);
        assert forall|y: int| rank_insert(mag, s, x).contains(y) <==> (s.contains(y) || y == x) by {
            if rank_insert(mag, s, x).contains(y) {
                let i = choose|i: int| 0 <= i < rank_insert(mag, s, x).len() && rank_insert(mag, s, x)[i] == y;
            }
            if y == x {
                assert(rank_insert(mag, s, x)[0] == x);
            }
        }
    } else if ranked_before(mag, x, s[0]) {
        let r = seq![x] + s;
        assert forall|y: int| r.contains(y) <==> (s.contains(y) || y == x) by {
            if r.contains(y) {
                let i = choose|i: int| 0 <= i < r.len() && r[i] == y;
                if i > 0 {
                    assert(r[i] == s[i - 1]);
                    assert(s.contains(y));
                } else {
                    assert(r[0] == x);
                }
            }
            if s.contains(y) {
                let i = choose|i: int| 0 <= i < s.len() && s[i] == y;
                assert(r[i + 1] == s[i]);
                assert(r.contains(y));
            }
            if y == x {
                assert(r[0] == x);
                assert(r.contains(y));
            }
        }
    } else {
        let d = s.drop_first();
        lemma_rank_insert_contents(mag, d, x);
        let r = seq![s[0]] + rank_insert(mag, d, x);
        assert forall|y: int| r.contains(y) <==> (s.contains(y) || y == x) by {
            if r.contains(y) {
                let i = choose|i: int| 0 <= i < r.len() && r[i] == y;
                if i > 0 {
                    let ri = rank_insert(mag, d, x);
                    assert(ri[i - 1] == y);
                    assert(ri.contains(y));
                    if d.contains(y) {
                        let k = choose|k: int| 0 <= k < d.len() && d[k] == y;
                        assert(s[k + 1] == y);
                        assert(s.contains(y));
                    }
                } else {
                    assert(s[0] == y);
                    assert(s.contains(y));
                }
            }
            if s.contains(y) {
                let i = choose|i: int| 0 <= i < s.len() && s[i] == y;
                if i > 0 {
                    assert(d[i - 1] == y);
                    assert(d.contains(y));
                    let ri = rank_insert(mag, d, x);
                    assert(ri.contains(y));
                    let k = choose|k: int| 0 <= k < ri.len() && ri[k] == y;
                    assert(r[k + 1] == y);
                } else {
                    assert(r[0] == y);
                }
            }
            if y == x {
                let ri = rank_insert(mag, d, x);
                assert(ri.contains(y));
                let k = choose|k: int| 0 <= k < ri.len() && ri[k] == y;
                assert(r[k + 1] == y);
            }
        }
    }
}

/// Inserting into a ranked list keeps it ranked (when `x` is new and in range).
pub proof fn lemma_rank_insert_ranked(mag: Seq<u32>, s: Seq<int>, x: int)
    requires
        is_ranked(mag, s),
        !s.contains(x),
    ensures
        is_ranked(mag, rank_insert(mag, s, x)),
    decreases s.len(),
{
    if s.len() == 0 {
    } else if ranked_before(mag, x, s[0]) {
        let r = seq![x] + s;
        assert forall|i: int, j: int| 0 <= i < j < r.len() implies ranked_before(mag, #[trigger] r[i], #[trigger] r[j]) by {
            if i == 0 {
                if j > 1 {
                    assert(ranked_before(mag, s[0], s[j - 1]));
                    lemma_ranked_before_transitive(mag, x, s[0], s[j - 1]);
                }
            } else {
                assert(r[i] == s[i - 1] && r[j] == s[j - 1]);
            }
        }
    } else {
        let d = s.drop_first();
        assert(!d.contains(x)) by {
            if d.contains(x) {
                let k = choose|k: int| 0 <= k < d.len() && d[k] == x;
                assert(s[k + 1] == x);
            }
        }
        assert(is_ranked(mag, d)) by {
            assert forall|i: int, j: int| 0 <= i < j < d.len() implies ranked_before(mag, #[trigger] d[i], #[trigger] d[j]) by {
                assert(d[i] == s[i + 1] && d[j] == s[j + 1]);
            }
        }
        lemma_rank_insert_ranked(mag, d, x);
        lemma_rank_insert_contents(mag, d, x);
        let ri = rank_insert(mag, d, x);
        let r = seq![s[0]] + ri;
        assert(x != s[0]) by {
            assert(s[0] == s[0]);
        }
        assert(ranked_before(mag, s[0], x));
        assert forall|i: int, j: int| 0 <= i < j < r.len() implies ranked_before(mag, #[trigger] r[i], #[trigger] r[j]) by {
            if i == 0 {
                assert(r[j] == ri[j - 1]);
                assert(ri.contains(ri[j - 1]));
                if ri[j - 1] != x {
                    assert(d.contains(ri[j - 1]));
                    let k = choose|k: int| 0 <= k < d.len() && d[k] == ri[j - 1];
                    assert(s[k + 1] == ri[j - 1]);
                }
            } else {
                assert(r[i] == ri[i - 1] && r[j] == ri[j - 1]);
            }
        }
    }
}

/// `rank_sort` keeps the entries of a list without repeats and ranks them.
pub proof fn lemma_rank_sort(mag: Seq<u32>, s: Seq<int>)
    requires
        s.no_duplicates(),
    ensures
        rank_sort(mag, s).len() == s.len(),
        forall|y: int| #[trigger] rank_sort(mag, s).contains(y) <==> s.contains(y),
        is_ranked(mag, rank_sort(mag, s)),
    decreases s.len(),
{
    if s.len() > 0 {
        let p = s.drop_last();
        assert(p.no_duplicates()) by {
            assert forall|i: int, j: int| 0 <= i < p.len() && 0 <= j < p.len() && i != j implies p[i] != p[j] by {
                assert(p[i] == s[i] && p[j] == s[j]);
            }
        }
        lemma_rank_sort(mag, p);
        lemma_rank_insert_contents(mag, rank_sort(mag, p), s.last());
        assert(!p.contains(s.last())) by {
            if p.contains(s.last()) {
                let k = choose|k: int| 0 <= k < p.len() && p[k] == s.last();
                assert(s[k] == s[s.len() - 1]);
            }
        }
        lemma_rank_insert_ranked(mag, rank_sort(mag, p), s.last());
        assert forall|y: int| #[trigger] rank_sort(mag, s).contains(y) <==> s.contains(y) by {
            if p.contains(y) {
                let k = choose|k: int| 0 <= k < p.len() && p[k] == y;
                assert(s[k] == y);
            }
            if s.contains(y) {
                let k = choose|k: int| 0 <= k < s.len() && s[k] == y;
                if k < s.len() - 1 {
                    assert(p[k] == y);
                }
            }
            if y == s.last() {
                assert(s[s.len() - 1] == y);
            }
        }
    }
}

/// Absolute distance between two bins.
pub open spec fn bin_distance(a: int, b: int) -> nat {
    if a >= b { (a - b) as nat } else { (b - a) as nat }
}

/// `b` lies at least `min_dist` bins away from every entry of `acc`.
pub open spec fn far_from_all(acc: Seq<int>, b: int, min_dist: nat) -> bool {
    forall|j: int| 0 <= j < acc.len() ==> bin_distance(#[trigger] acc[j], b) >= min_dist
}

/// Walk `ranked` in order and accept each bin that is at least `min_dist`
/// away from every bin accepted before it, until `cap` bins are accepted.
pub open spec fn greedy_select(ranked: Seq<int>, cap: nat, min_dist: nat) -> Seq<int>
    decreases ranked.len(),
{
    if ranked.len() == 0 {
        seq![]
    } else {
        let acc = greedy_select(ranked.drop_last(), cap, min_dist);
        if acc.len() < cap && far_from_all(acc, ranked.last(), min_dist) {
            acc.push(ranked.last())
        } else {
            acc
        }
    }
}

pub proof fn lemma_greedy_select_bounded(ranked: Seq<int>, cap: nat, min_dist: nat)
    ensures
        greedy_select(ranked, cap, min_dist).len() <= cap,
    decreases ranked.len(),
{
    if ranked.len() > 0 {
        lemma_greedy_select_bounded(ranked.drop_last(), cap, min_dist);
    }
}

/// Once `cap` bins are accepted, looking at more of the ranked list changes nothing.
pub proof fn lemma_greedy_select_full(ranked: Seq<int>, i: int, cap: nat, min_dist: nat)
    requires
        0 <= i <= ranked.len(),
        greedy_select(ranked.take(i), cap, min_dist).len() >= cap,
    ensures
        greedy_select(ranked, cap, min_dist) == greedy_select(ranked.take(i), cap, min_dist),
    decreases ranked.len() - i,
{
    if i < ranked.len() {
        let t = ranked.take(i + 1);
        assert(t.drop_last() =~= ranked.take(i));
        lemma_greedy_select_bounded(ranked.take(i), cap, min_dist);
        lemma_greedy_select_full(ranked, i + 1, cap, min_dist);
    } else {
        assert(ranked.take(i) =~= ranked);
    }
}

/// Entries that rank before `x` keep their places at the front when `x` is inserted.
pub proof fn lemma_rank_insert_prefix(mag: Seq<u32>, s: Seq<int>, x: int, j: int)
    requires
        0 <= j <= s.len(),
        forall|t: int| 0 <= t < j ==> ranked_before(mag, #[trigger] s[t], x),
    ensures
        rank_insert(mag, s, x).len() == s.len() + 1,
        rank_insert(mag, s, x).take(j) == s.take(j),
    decreases s.len(),
{
    lemma_rank_insert_contents(mag, s, x);
    if j > 0 {
        let d = s.drop_first();
        assert(ranked_before(mag, s[0], x));
        assert(!ranked_before(mag, x, s[0]));
        assert forall|t: int| 0 <= t < j - 1 implies ranked_before(mag, #[trigger] d[t], x) by {
            assert(d[t] == s[t + 1]);
        }
        lemma_rank_insert_prefix(mag, d, x, j - 1);
        assert((seq![s[0]] + rank_insert(mag, d, x)).take(j) =~= seq![s[0]] + rank_insert(mag, d, x).take(j - 1));
        assert(s.take(j) =~= seq![s[0]] + d.take(j - 1));
    } else {
        assert(rank_insert(mag, s, x).take(0) =~= s.take(0));
    }
}


/// Every bin the greedy walk accepts comes from the ranked list.
pub proof fn lemma_greedy_select_members(ranked: Seq<int>, cap: nat, min_dist: nat, y: int)
    ensures
        greedy_select(ranked, cap, min_dist).contains(y) ==> ranked.contains(y),
    decreases ranked.len(),
{
    if ranked.len() > 0 {
        let dl = ranked.drop_last();
        lemma_greedy_select_members(dl, cap, min_dist, y);
        let acc = greedy_select(dl, cap, min_dist);
        let g = greedy_select(ranked, cap, min_dist);
        if g.contains(y) {
            let i = choose|i: int| 0 <= i < g.len() && g[i] == y;
            if i < acc.len() {
                assert(acc[i] == y);
                assert(acc.contains(y));
                let q = choose|q: int| 0 <= q < dl.len() && dl[q] == y;
                assert(ranked[q] == y);
            } else {
                assert(ranked[ranked.len() - 1] == y);
            }
        }
    }
}

/// The greedy walk over a prefix of the ranked list is a prefix of the walk
/// over the whole list.
pub proof fn lemma_greedy_select_prefix(ranked: Seq<int>, i: int, cap: nat, min_dist: nat)
    requires
        0 <= i <= ranked.len(),
    ensures
        greedy_select(ranked.take(i), cap, min_dist).len() <= greedy_select(ranked, cap, min_dist).len(),
        greedy_select(ranked, cap, min_dist).take(greedy_select(ranked.take(i), cap, min_dist).len() as int)
            == greedy_select(ranked.take(i), cap, min_dist),
    decreases ranked.len(),
{
    if i == ranked.len() {
        assert(ranked.take(i) =~= ranked);
        let g = greedy_select(ranked, cap, min_dist);
        assert(g.take(g.len() as int) =~= g);
    } else {
        let dl = ranked.drop_last();
        assert(dl.take(i) =~= ranked.take(i));
        lemma_greedy_select_prefix(dl, i, cap, min_dist);
        let a = greedy_select(ranked.take(i), cap, min_dist);
        let acc = greedy_select(dl, cap, min_dist);
        let g = greedy_select(ranked, cap, min_dist);
        assert(g.take(a.len() as int) =~= acc.take(a.len() as int));
    }
}

/// What the greedy walk accepts: at most `cap` bins, pairwise at least
/// `min_dist` apart, in ranked order when the list is ranked.
pub proof fn lemma_greedy_select_spaced(mag: Seq<u32>, ranked: Seq<int>, cap: nat, min_dist: nat)
    requires
        is_ranked(mag, ranked),
    ensures
        greedy_select(ranked, cap, min_dist).len() <= cap,
        is_ranked(mag, greedy_select(ranked, cap, min_dist)),
        forall|i: int, j: int| 0 <= i < j < greedy_select(ranked, cap, min_dist).len()
            ==> bin_distance(#[trigger] greedy_select(ranked, cap, min_dist)[i], #[trigger] greedy_select(ranked, cap, min_dist)[j]) >= min_dist,
    decreases ranked.len(),
{
    lemma_greedy_select_bounded(ranked, cap, min_dist);
    if ranked.len() > 0 {
        let dl = ranked.drop_last();
        let x = ranked.last();
        assert(is_ranked(mag, dl)) by {
            assert forall|i: int, j: int| 0 <= i < j < dl.len() implies ranked_before(mag, #[trigger] dl[i], #[trigger] dl[j]) by {
                assert(dl[i] == ranked[i] && dl[j] == ranked[j]);
            }
        }
        lemma_greedy_select_spaced(mag, dl, cap, min_dist);
        let acc = greedy_select(dl, cap, min_dist);
        let g = greedy_select(ranked, cap, min_dist);
        if acc.len() < cap && far_from_all(acc, x, min_dist) {
            assert(g == acc.push(x));
            assert forall|i: int| 0 <= i < acc.len() implies ranked_before(mag, #[trigger] acc[i], x) by {
                assert(acc.contains(acc[i]));
                lemma_greedy_select_members(dl, cap, min_dist, acc[i]);
                let q = choose|q: int| 0 <= q < dl.len() && dl[q] == acc[i];
                assert(ranked[q] == acc[i] && ranked[ranked.len() - 1] == x);
            }
            assert forall|i: int, j: int| 0 <= i < j < g.len() implies ranked_before(mag, #[trigger] g[i], #[trigger] g[j]) by {
                if j == acc.len() {
                    assert(g[i] == acc[i] && g[j] == x);
                } else {
                    assert(g[i] == acc[i] && g[j] == acc[j]);
                }
            }
            assert forall|i: int, j: int| 0 <= i < j < g.len() implies bin_distance(#[trigger] g[i], #[trigger] g[j]) >= min_dist by {
                if j == acc.len() {
                    assert(g[i] == acc[i] && g[j] == x);
                    assert(bin_distance(acc[i], x) >= min_dist);
                } else {
                    assert(g[i] == acc[i] && g[j] == acc[j]);
                }
            }
        }
    }
}

/// A ranked bin the greedy walk leaves out was refused for a reason: either
/// `cap` bins were accepted, or an accepted bin ranked before it lies closer
/// than `min_dist`.
pub proof fn lemma_greedy_select_refusal(mag: Seq<u32>, ranked: Seq<int>, cap: nat, min_dist: nat, c: int)
    requires
        is_ranked(mag, ranked),
        ranked.contains(c),
        !greedy_select(ranked, cap, min_dist).contains(c),
    ensures
        greedy_select(ranked, cap, min_dist).len() == cap
            || exists|j: int| 0 <= j < greedy_select(ranked, cap, min_dist).len()
                && bin_distance(#[trigger] greedy_select(ranked, cap, min_dist)[j], c) < min_dist
                && ranked_before(mag, greedy_select(ranked, cap, min_dist)[j], c),
{
    let g = greedy_select(ranked, cap, min_dist);
    let p = choose|p: int| 0 <= p < ranked.len() && ranked[p] == c;
    let pre = ranked.take(p);
    let nxt = ranked.take(p + 1);
    assert(nxt.drop_last() =~= pre);
    assert(nxt.last() == c);
    let acc = greedy_select(pre, cap, min_dist);
    lemma_greedy_select_prefix(ranked, p, cap, min_dist);
    lemma_greedy_select_prefix(ranked, p + 1, cap, min_dist);
    lemma_greedy_select_bounded(ranked, cap, min_dist);
    if acc.len() < cap && far_from_all(acc, c, min_dist) {
        let a2 = greedy_select(nxt, cap, min_dist);
        assert(a2 == acc.push(c));
        assert(g[acc.len() as int] == a2[acc.len() as int]);
        assert(g.contains(c));
    } else if acc.len() >= cap {
    } else {
        let j = choose|j: int| 0 <= j < acc.len() && !(bin_distance(#[trigger] acc[j], c) >= min_dist);
        assert(g[j] == acc[j]);
        assert(acc.contains(acc[j]));
        lemma_greedy_select_members(pre, cap, min_dist, acc[j]);
        let q = choose|q: int| 0 <= q < pre.len() && pre[q] == acc[j];
        assert(ranked[q] == acc[j]);
        assert(ranked_before(mag, g[j], c));
    }
}

} // verus!

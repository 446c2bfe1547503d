//! Candidate choice and ranking for the Past module's Decay Sorter.
//!
//! The sorter keeps up to `MAX_SORT_BINS` bins that pass the per-bin gate:
//! while there is room each passing bin is taken; once full, a passing bin
//! replaces the first of the quietest kept bins if it is strictly louder.
//! The kept bins are then ranked by their summary statistic (highest first),
//! louder first on a tie, keeping their order otherwise (a stable sort).
//! Rank `r` is written to destination bin `low_k + r`.
//!
//! Magnitudes and statistics arrive as order keys (`u32`, larger = larger).

use vstd::prelude::*;
use smallvec::SmallVec;
use vstd::seq_lib::{to_multiset_build, to_multiset_insert};

verus! {

/// Decay sorter capacity: the lowest 256 destination slots.
pub const MAX_SORT_BINS: usize = 256;

/// A kept candidate: (bin, magnitude key).
pub type Candidate = (u32, u32);

/// Pool of kept candidates, stored inline (in a `SmallVec`) up to
/// `MAX_SORT_BINS` entries. Its contents are seen only through `pool_items`.
#[verifier::external_body]
pub struct CandidatePool {
    items: SmallVec<[Candidate; MAX_SORT_BINS]>,
}

/// The candidates a pool holds, in order.
pub uninterp spec fn pool_items(pool: CandidatePool) -> Seq<(u32, u32)>;

/// `SmallVec::new`: a pool holding nothing.
#[verifier::external_body]
fn pool_new() -> (pool: CandidatePool)
    ensures
        pool_items(pool) == Seq::<Candidate>::empty(),
{
    CandidatePool { items: SmallVec::new() }
}

/// `SmallVec::len`: how many candidates the pool holds.
#[verifier::external_body]
fn pool_len(pool: &CandidatePool) -> (n: usize)
    ensures
        n == pool_items(*pool).len(),
{
    pool.items.len()
}

/// `SmallVec::push` below the inline capacity: appends `c`, writing inline,
/// so it neither reallocates nor panics.
#[verifier::external_body]
fn pool_push(pool: &mut CandidatePool, c: Candidate)
    requires
        pool_items(*old(pool)).len() < MAX_SORT_BINS,
    ensures
        pool_items(*final(pool)) == pool_items(*old(pool)).push(c),
{
    pool.items.push(c)
}

/// Indexing (`Index` through the slice): the candidate at position `i`.
#[verifier::external_body]
fn pool_get(pool: &CandidatePool, i: usize) -> (c: Candidate)
    requires
        i < pool_items(*pool).len(),
    ensures
        c == pool_items(*pool)[i as int],
{
    pool.items[i]
}

/// Indexed assignment (`IndexMut` through the slice): replaces position `i`.
#[verifier::external_body]
fn pool_set(pool: &mut CandidatePool, i: usize, c: Candidate)
    requires
        i < pool_items(*old(pool)).len(),
    ensures
        pool_items(*final(pool)) == pool_items(*old(pool)).update(i as int, c),
{
    pool.items[i] = c;
}

/// Index of the first candidate with the smallest magnitude among the first `len`.
pub open spec fn first_min_index(c: Seq<Candidate>, len: int) -> int
    decreases len,
{
    if len <= 1 {
        0
    } else {
        let p = first_min_index(c, len - 1);
        if c[len - 1].1 < c[p].1 { len - 1 } else { p }
    }
}

/// Candidates kept, at most `cap`, after looking at bins `0..k`: a passing bin
/// is taken while there is room, and otherwise replaces the first of the
/// quietest kept candidates if it is strictly louder.
pub open spec fn kept_candidates(mag: Seq<u32>, pass: Seq<bool>, cap: int, k: int) -> Seq<Candidate>
    decreases k,
{
    if k <= 0 {
        seq![]
    } else {
        let c = kept_candidates(mag, pass, cap, k - 1);
        let b = k - 1;
        if !pass[b] {
            c
        } else if c.len() < cap {
            c.push((b as u32, mag[b]))
        } else {
            let mi = first_min_index(c, c.len() as int);
            if c[mi].1 < mag[b] { c.update(mi, (b as u32, mag[b])) } else { c }
        }
    }
}

impl CandidatePool {
    /// The candidates, in order, as a `Vec`.
    pub fn to_vec(&self) -> (r: Vec<Candidate>)
        ensures
            r@ == pool_items(*self),
    {
        let len = pool_len(self);
        let mut out: Vec<Candidate> = Vec::with_capacity(len);
        let mut r: usize = 0;
        while r < len
            invariant
                len == pool_items(*self).len(),
                0 <= r <= len,
                out@ == pool_items(*self).take(r as int),
            decreases len - r,
        {
            out.push(pool_get(self, r));
            proof {
                assert(pool_items(*self).take(r as int + 1) =~= pool_items(*self).take(r as int).push(pool_items(*self)[r as int]));
            }
            r += 1;
        }
        proof {
            assert(pool_items(*self).take(len as int) =~= pool_items(*self));
        }
        out
    }
}

/// `a` sorts strictly before `b`: higher statistic, or equal statistic and louder.
pub open spec fn sorts_before(stat: Seq<u32>, a: Candidate, b: Candidate) -> bool {
    stat[a.0 as int] > stat[b.0 as int] || (stat[a.0 as int] == stat[b.0 as int] && a.1 > b.1)
}

/// Insert `x` behind every entry it does not sort strictly before.
pub open spec fn stable_insert(stat: Seq<u32>, s: Seq<Candidate>, x: Candidate) -> Seq<Candidate>
    decreases s.len(),
{
    if s.len() == 0 {
        seq![x]
    } else if sorts_before(stat, x, s[0]) {
        seq![x] + s
    } else {
        seq![s[0]] + stable_insert(stat, s.drop_first(), x)
    }
}

/// Stable sort of `s` by `sorts_before`.
pub open spec fn stable_sort(stat: Seq<u32>, s: Seq<Candidate>) -> Seq<Candidate>
    decreases s.len(),
{
    if s.len() == 0 {
        seq![]
    } else {
        stable_insert(stat, stable_sort(stat, s.drop_last()), s.last())
    }
}

/// No later entry sorts strictly before an earlier one.
pub open spec fn is_sorted(stat: Seq<u32>, s: Seq<Candidate>) -> bool {
    forall|i: int, j: int| 0 <= i < j < s.len() ==> !sorts_before(stat, #[trigger] s[j], #[trigger] s[i])
}

/// The source bins of the ranked candidates, rank 0 first.
pub open spec fn ranked_sources(mag: Seq<u32>, pass: Seq<bool>, stat: Seq<u32>) -> Seq<u32> {
    stable_sort(stat, kept_candidates(mag, pass, MAX_SORT_BINS as int, mag.len() as int)).map_values(|c: Candidate| c.0)
}

pub proof fn lemma_kept_shape(mag: Seq<u32>, pass: Seq<bool>, cap: int, k: int)
    requires
        0 <= k <= mag.len(),
        mag.len() <= u32::MAX,
        0 < cap,
    ensures
        kept_candidates(mag, pass, cap, k).len() <= cap,
        forall|i: int| 0 <= i < kept_candidates(mag, pass, cap, k).len()
            ==> (#[trigger] kept_candidates(mag, pass, cap, k)[i]).0 < k
                && kept_candidates(mag, pass, cap, k)[i].1 == mag[kept_candidates(mag, pass, cap, k)[i].0 as int]
                && pass[kept_candidates(mag, pass, cap, k)[i].0 as int],
    decreases k,
{
    if k > 0 {
        lemma_kept_shape(mag, pass, cap, k - 1);
        let c = kept_candidates(mag, pass, cap, k - 1);
        if pass[k - 1] && c.len() >= cap {
            lemma_first_min_index(c, c.len() as int);
        }
    }
}

proof fn lemma_first_min_index(c: Seq<Candidate>, len: int)
    requires
        1 <= len <= c.len(),
    ensures
        0 <= first_min_index(c, len) < len,
        forall|i: int| 0 <= i < len ==> c[first_min_index(c, len)].1 <= #[trigger] c[i].1,
        forall|i: int| 0 <= i < first_min_index(c, len) ==> c[first_min_index(c, len)].1 < #[trigger] c[i].1,
    decreases len,
{
    if len > 1 {
        lemma_first_min_index(c, len - 1);
    }
}

proof fn lemma_sorts_before_order(stat: Seq<u32>, a: Candidate, b: Candidate, c: Candidate)
    ensures
        sorts_before(stat, a, b) && sorts_before(stat, b, c) ==> sorts_before(stat, a, c),
        !sorts_before(stat, b, a) && !sorts_before(stat, c, b) ==> !sorts_before(stat, c, a),
        sorts_before(stat, a, b) ==> !sorts_before(stat, b, a),
        !sorts_before(stat, b, a) && sorts_before(stat, b, c) ==> sorts_before(stat, a, c),
{
}

proof fn lemma_stable_insert_at(stat: Seq<u32>, s: Seq<Candidate>, x: Candidate, j: int)
    requires
        0 <= j <= s.len(),
        forall|t: int| 0 <= t < j ==> !sorts_before(stat, x, #[trigger] s[t]),
        forall|t: int| j <= t < s.len() ==> sorts_before(stat, x, #[trigger] s[t]),
    ensures
        stable_insert(stat, s, x) == s.take(j) + seq![x] + s.skip(j),
    decreases s.len(),
{
    if s.len() == 0 {
        assert(s.take(j) + seq![x] + s.skip(j) =~= seq![x]);
    } else if j == 0 {
        assert(s.take(j) + seq![x] + s.skip(j) =~= seq![x] + s);
    } else {
        let r = s.drop_first();
        assert(!sorts_before(stat, x, s[0]));
        assert forall|t: int| 0 <= t < j - 1 implies !sorts_before(stat, x, #[trigger] r[t]) by {
            assert(r[t] == s[t + 1]);
        }
        assert forall|t: int| j - 1 <= t < r.len() implies sorts_before(stat, x, #[trigger] r[t]) by {
            assert(r[t] == s[t + 1]);
        }
        lemma_stable_insert_at(stat, r, x, j - 1);
        assert(seq![s[0]] + (r.take(j - 1) + seq![x] + r.skip(j - 1)) =~= s.take(j) + seq![x] + s.skip(j));
    }
}

proof fn lemma_stable_insert_contents(stat: Seq<u32>, s: Seq<Candidate>, x: Candidate)
    ensures
        stable_insert(stat, s, x).len() == s.len() + 1,
        forall|i: int| 0 <= i < stable_insert(stat, s, x).len() ==>
            #[trigger] stable_insert(stat, s, x)[i] == x || s.contains(stable_insert(stat, s, x)[i]),
    decreases s.len(),
{
    if s.len() > 0 && !sorts_before(stat, x, s[0]) {
        let d = s.drop_first();
        lemma_stable_insert_contents(stat, d, x);
        let r = stable_insert(stat, s, x);
        assert forall|i: int| 0 <= i < r.len() implies #[trigger] r[i] == x || s.contains(r[i]) by {
            if i == 0 {
                assert(s[0] == r[0]);
            } else {
                let y = stable_insert(stat, d, x)[i - 1];
                assert(r[i] == y);
                if y != x {
                    assert(d.contains(y));
                    let q = choose|q: int| 0 <= q < d.len() && d[q] == y;
                    assert(s[q + 1] == y);
                }
            }
        }
    } else if s.len() > 0 {
        let r = stable_insert(stat, s, x);
        assert forall|i: int| 0 <= i < r.len() implies #[trigger] r[i] == x || s.contains(r[i]) by {
            if i > 0 {
                assert(r[i] == s[i - 1]);
            }
        }
    }
}

proof fn lemma_stable_insert_sorted(stat: Seq<u32>, s: Seq<Candidate>, x: Candidate)
    requires
        is_sorted(stat, s),
    ensures
        is_sorted(stat, stable_insert(stat, s, x)),
    decreases s.len(),
{
    if s.len() == 0 {
    } else if sorts_before(stat, x, s[0]) {
        let r = seq![x] + s;
        assert forall|i: int, j: int| 0 <= i < j < r.len() implies !sorts_before(stat, #[trigger] r[j], #[trigger] r[i]) by {
            if i == 0 {
                assert(r[j] == s[j - 1]);
                if j > 1 {
                    assert(!sorts_before(stat, s[j - 1], s[0]));
                }
                lemma_sorts_before_order(stat, s[j - 1], x, s[0]);
                lemma_sorts_before_order(stat, x, s[0], s[j - 1]);
            } else {
                assert(r[i] == s[i - 1] && r[j] == s[j - 1]);
            }
        }
    } else {
        let d = s.drop_first();
        assert(is_sorted(stat, d)) by {
            assert forall|i: int, j: int| 0 <= i < j < d.len() implies !sorts_before(stat, #[trigger] d[j], #[trigger] d[i]) by {
                assert(d[i] == s[i + 1] && d[j] == s[j + 1]);
            }
        }
        lemma_stable_insert_sorted(stat, d, x);
        lemma_stable_insert_contents(stat, d, x);
        let ri = stable_insert(stat, d, x);
        let r = seq![s[0]] + ri;
        assert forall|i: int, j: int| 0 <= i < j < r.len() implies !sorts_before(stat, #[trigger] r[j], #[trigger] r[i]) by {
            if i == 0 {
                assert(r[j] == ri[j - 1]);
                if ri[j - 1] != x {
                    assert(d.contains(ri[j - 1]));
                    let q = choose|q: int| 0 <= q < d.len() && d[q] == ri[j - 1];
                    assert(s[q + 1] == ri[j - 1]);
                }
            } else {
                assert(r[i] == ri[i - 1] && r[j] == ri[j - 1]);
            }
        }
    }
}

pub proof fn lemma_stable_sort_sorted(stat: Seq<u32>, s: Seq<Candidate>)
    ensures
        is_sorted(stat, stable_sort(stat, s)),
        stable_sort(stat, s).len() == s.len(),
    decreases s.len(),
{
    if s.len() > 0 {
        lemma_stable_sort_sorted(stat, s.drop_last());
        lemma_stable_insert_sorted(stat, stable_sort(stat, s.drop_last()), s.last());
        lemma_stable_insert_contents(stat, stable_sort(stat, s.drop_last()), s.last());
    }
}

fn sorts_before_exec(stat: &[u32], a: Candidate, b: Candidate) -> (r: bool)
    requires
        a.0 < stat@.len(),
        b.0 < stat@.len(),
    ensures
        r == sorts_before(stat@, a, b),
{
    let sa = stat[a.0 as usize];
    let sb = stat[b.0 as usize];
    sa > sb || (sa == sb && a.1 > b.1)
}

/// Keep at most `cap` of the passing bins, the loudest as they arrive: while
/// there is room each passing bin is taken; once full, a passing bin replaces
/// the first of the quietest kept bins if it is strictly louder. Each kept
/// entry is (bin, magnitude key).
pub fn keep_loudest(mag: &[u32], pass: &[bool], cap: usize) -> (cand: CandidatePool)
    requires
        pass@.len() == mag@.len(),
        mag@.len() <= u32::MAX,
        0 < cap <= MAX_SORT_BINS,
    ensures
        pool_items(cand) == kept_candidates(mag@, pass@, cap as int, mag@.len() as int),
        pool_items(cand).len() <= cap,
        forall|i: int| 0 <= i < pool_items(cand).len() ==> (#[trigger] pool_items(cand)[i]).0 < mag@.len()
            && pool_items(cand)[i].1 == mag@[pool_items(cand)[i].0 as int],
{
    let n = mag.len();
    let ghost m = mag@;
    let ghost p = pass@;
    let mut cand = pool_new();
    let mut k: usize = 0;
    while k < n
        invariant
            n == m.len(),
            m == mag@,
            p == pass@,
            p.len() == n,
            n <= u32::MAX,
            0 < cap <= MAX_SORT_BINS,
            0 <= k <= n,
            pool_items(cand) == kept_candidates(m, p, cap as int, k as int),
        decreases n - k,
    {
        proof {
            lemma_kept_shape(m, p, cap as int, k as int);
        }
        if pass[k] {
            let mk = mag[k];
            if pool_len(&cand) < cap {
                pool_push(&mut cand, (k as u32, mk));
            } else {
                let mut mi: usize = 0;
                let mut i: usize = 1;
                while i < pool_len(&cand)
                    invariant
                        1 <= i <= pool_items(cand).len(),
                        pool_items(cand).len() == cap,
                        mi == first_min_index(pool_items(cand), i as int),
                        0 <= mi < i,
                    decreases pool_items(cand).len() - i,
                {
                    if pool_get(&cand, i).1 < pool_get(&cand, mi).1 {
                        mi = i;
                    }
                    i += 1;
                    proof {
                        lemma_first_min_index(pool_items(cand), i as int);
                    }
                }
                proof {
                    lemma_first_min_index(pool_items(cand), pool_items(cand).len() as int);
                }
                if pool_get(&cand, mi).1 < mk {
                    pool_set(&mut cand, mi, (k as u32, mk));
                }
            }
        }
        k += 1;
    }
    proof {
        lemma_kept_shape(m, p, cap as int, n as int);
    }
    cand
}

/// Stable insertion sort of `cand` by `sorts_before`: higher `stat` of the
/// bin first, louder first on a tie, the given order otherwise.
pub fn rank_candidates(cand: &mut CandidatePool, stat: &[u32])
    requires
        forall|t: int| 0 <= t < pool_items(*old(cand)).len() ==> (#[trigger] pool_items(*old(cand))[t]).0 < stat@.len(),
    ensures
        pool_items(*final(cand)) == stable_sort(stat@, pool_items(*old(cand))),
{
    let ghost kept = pool_items(*cand);
    let ghost st = stat@;
    let ghost n = stat@.len();
    let len = pool_len(cand);
    let mut i: usize = 1;
    if len == 0 {
        i = 0;
    }
    proof {
        if len > 0 {
            let c1 = kept.take(1);
            assert(c1.drop_last() =~= seq![]);
            assert(stable_sort(st, c1.drop_last()) =~= seq![]);
            assert(stable_insert(st, seq![], kept[0]) =~= seq![kept[0]]);
            assert(pool_items(*cand).take(1) =~= stable_sort(st, c1));
        }
    }
    while i < len
        invariant
            st == stat@,
            st.len() == n,
            len == kept.len(),
            pool_items(*cand).len() == len,
            forall|t: int| 0 <= t < len ==> (#[trigger] kept[t]).0 < n,
            len == 0 ==> i == 0,
            len > 0 ==> 1 <= i <= len,
            pool_items(*cand).take(i as int) == stable_sort(st, kept.take(i as int)),
            pool_items(*cand).skip(i as int) == kept.skip(i as int),
        decreases len - i,
    {
        let ghost pre = kept.take(i as int);
        let ghost s = stable_sort(st, pre);
        let ghost x = kept[i as int];
        proof {
            lemma_stable_sort_sorted(st, pre);
            assert(pool_items(*cand)[i as int] == kept.skip(i as int)[0]);
            assert forall|t: int| 0 <= t < s.len() implies (#[trigger] s[t]).0 < n by {
                lemma_stable_sort_members(st, pre, t);
                let w = choose|w: int| 0 <= w < pre.len() && pre[w] == s[t];
                assert(kept[w] == s[t]);
            }
            assert forall|t: int| i < t < len implies #[trigger] pool_items(*cand)[t] == kept[t] by {
                assert(pool_items(*cand).skip(i as int)[t - i] == kept.skip(i as int)[t - i]);
            }
            assert forall|t: int| 0 <= t < i implies #[trigger] pool_items(*cand)[t] == s[t] by {
                assert(pool_items(*cand).take(i as int)[t] == s[t]);
            }
        }
        let xv = pool_get(cand, i);
        let mut j: usize = i;
        while j > 0 && sorts_before_exec(stat, xv, pool_get(cand, j - 1))
            invariant
                st == stat@,
                st.len() == n,
                0 <= j <= i < len,
                pool_items(*cand).len() == len,
                s.len() == i,
                xv == x,
                x.0 < n,
                is_sorted(st, s),
                forall|t: int| 0 <= t < s.len() ==> (#[trigger] s[t]).0 < n,
                forall|t: int| 0 <= t < j ==> #[trigger] pool_items(*cand)[t] == s[t],
                forall|t: int| j < t <= i ==> #[trigger] pool_items(*cand)[t] == s[t - 1],
                forall|t: int| j <= t < i ==> sorts_before(st, x, #[trigger] s[t]),
                forall|t: int| i < t < len ==> #[trigger] pool_items(*cand)[t] == kept[t],
            decreases j,
        {
            let prev = pool_get(cand, j - 1);
            pool_set(cand, j, prev);
            j -= 1;
        }
        pool_set(cand, j, xv);
        proof {
            if j > 0 {
                assert(!sorts_before(st, x, s[j - 1]));
                assert forall|t: int| 0 <= t < j implies !sorts_before(st, x, #[trigger] s[t]) by {
                    if t < j - 1 {
                        assert(!sorts_before(st, s[j - 1], s[t]));
                        lemma_sorts_before_order(st, s[t], s[j - 1], x);
                    }
                }
            }
            lemma_stable_insert_at(st, s, x, j as int);
            let nxt = kept.take(i as int + 1);
            assert(nxt.drop_last() =~= pre);
            assert(stable_sort(st, nxt) == stable_insert(st, s, x));
            assert(pool_items(*cand).take(i as int + 1) =~= stable_sort(st, nxt));
            assert(pool_items(*cand).skip(i as int + 1) =~= kept.skip(i as int + 1));
        }
        i += 1;
    }
    proof {
        assert(kept.take(len as int) =~= kept);
        assert(pool_items(*cand).take(len as int) =~= pool_items(*cand));
    }
}

/// Which bins the Decay Sorter moves, and where.
pub struct DecaySortPlan {
    /// Source bins in rank order: rank `r` goes to bin `low_k + r`.
    pub ranked: Vec<u32>,
    /// First destination bin.
    pub low_k: usize,
    /// One past the last destination bin that exists.
    pub max_dest: usize,
}

/// Choose and rank the bins the Decay Sorter moves.
///
/// `mag[k]` is the order key of bin `k`'s squared magnitude, `pass[k]` tells
/// whether the bin clears its threshold gate, `stat[k]` is the order key of
/// the bin's summary statistic; `floor_bin` is the first destination bin,
/// clamped to the last bin.
pub fn plan_decay_sort(mag: &[u32], pass: &[bool], stat: &[u32], floor_bin: usize) -> (plan: DecaySortPlan)
    requires
        pass@.len() == mag@.len(),
        stat@.len() == mag@.len(),
        mag@.len() <= u32::MAX,
    ensures
        plan.ranked@ == ranked_sources(mag@, pass@, stat@),
        plan.low_k == if floor_bin < mag@.len() - 1 { floor_bin as int } else if mag@.len() == 0 { 0 } else { mag@.len() - 1 },
        plan.max_dest == if plan.low_k + plan.ranked@.len() < mag@.len() { plan.low_k + plan.ranked@.len() } else { mag@.len() as int },
        plan.ranked@.len() <= MAX_SORT_BINS,
        forall|r: int| 0 <= r < plan.ranked@.len() ==> #[trigger] plan.ranked@[r] < mag@.len(),
{
    let n = mag.len();
    let low_k = if n == 0 { 0 } else if floor_bin < n - 1 { floor_bin } else { n - 1 };
    let mut cand = keep_loudest(mag, pass, MAX_SORT_BINS);
    let ghost kept = pool_items(cand);
    rank_candidates(&mut cand, stat);
    let ghost st = stat@;
    proof {
        lemma_stable_sort_sorted(st, kept);
    }
    let len = pool_len(&cand);
    let mut ranked: Vec<u32> = Vec::new();
    let mut r: usize = 0;
    while r < len
        invariant
            0 <= r <= len,
            pool_items(cand).len() == len,
            pool_items(cand) == stable_sort(st, kept),
            ranked@ == pool_items(cand).take(r as int).map_values(|c: Candidate| c.0),
        decreases len - r,
    {
        ranked.push(pool_get(&cand, r).0);
        proof {
            assert(pool_items(cand).take(r as int + 1).map_values(|c: Candidate| c.0)
                =~= pool_items(cand).take(r as int).map_values(|c: Candidate| c.0).push(pool_items(cand)[r as int].0));
        }
        r += 1;
    }
    proof {
        assert(pool_items(cand).take(len as int) =~= pool_items(cand));
        assert forall|q: int| 0 <= q < ranked@.len() implies #[trigger] ranked@[q] < mag@.len() by {
            lemma_stable_sort_members(st, kept, q);
        }
    }
    let max_dest = if len < n - low_k { low_k + len } else { n };
    DecaySortPlan { ranked, low_k, max_dest }
}

pub proof fn lemma_stable_sort_members(stat: Seq<u32>, s: Seq<Candidate>, q: int)
    requires
        0 <= q < stable_sort(stat, s).len(),
    ensures
        s.contains(stable_sort(stat, s)[q]),
    decreases s.len(),
{
    lemma_stable_sort_sorted(stat, s);
    if s.len() > 0 {
        let p = s.drop_last();
        let sp = stable_sort(stat, p);
        lemma_stable_insert_contents(stat, sp, s.last());
        let y = stable_sort(stat, s)[q];
        if y == s.last() {
            assert(s[s.len() - 1] == y);
        } else {
            assert(sp.contains(y));
            let k = choose|k: int| 0 <= k < sp.len() && sp[k] == y;
            lemma_stable_sort_members(stat, p, k);
            let w = choose|w: int| 0 <= w < p.len() && p[w] == y;
            assert(s[w] == y);
        }
    }
}


proof fn lemma_kept_distinct(mag: Seq<u32>, pass: Seq<bool>, cap: int, k: int)
    requires
        0 <= k <= mag.len(),
        mag.len() <= u32::MAX,
        0 < cap,
    ensures
        forall|i: int, j: int| 0 <= i < j < kept_candidates(mag, pass, cap, k).len()
            ==> (#[trigger] kept_candidates(mag, pass, cap, k)[i]).0 != (#[trigger] kept_candidates(mag, pass, cap, k)[j]).0,
    decreases k,
{
    if k > 0 {
        lemma_kept_distinct(mag, pass, cap, k - 1);
        lemma_kept_shape(mag, pass, cap, k - 1);
        let c = kept_candidates(mag, pass, cap, k - 1);
        let r = kept_candidates(mag, pass, cap, k);
        if pass[k - 1] {
            if c.len() < cap {
                assert forall|i: int, j: int| 0 <= i < j < r.len() implies (#[trigger] r[i]).0 != (#[trigger] r[j]).0 by {
                    if j == c.len() {
                        assert(r[i] == c[i]);
                    } else {
                        assert(r[i] == c[i] && r[j] == c[j]);
                    }
                }
            } else {
                lemma_first_min_index(c, c.len() as int);
                let mi = first_min_index(c, c.len() as int);
                if c[mi].1 < mag[k - 1] {
                    assert forall|i: int, j: int| 0 <= i < j < r.len() implies (#[trigger] r[i]).0 != (#[trigger] r[j]).0 by {
                        if i == mi {
                            assert(r[j] == c[j]);
                        } else if j == mi {
                            assert(r[i] == c[i]);
                        } else {
                            assert(r[i] == c[i] && r[j] == c[j]);
                        }
                    }
                }
            }
        }
    }
}

proof fn lemma_stable_insert_multiset(stat: Seq<u32>, s: Seq<Candidate>, x: Candidate)
    ensures
        stable_insert(stat, s, x).to_multiset() =~= s.to_multiset().insert(x),
    decreases s.len(),
{
    broadcast use vstd::seq_lib::group_to_multiset_ensures;
    if s.len() == 0 {
        assert(seq![x] =~= s.insert(0, x));
        to_multiset_insert(s, 0, x);
    } else if sorts_before(stat, x, s[0]) {
        assert(seq![x] + s =~= s.insert(0, x));
        to_multiset_insert(s, 0, x);
    } else {
        let d = s.drop_first();
        lemma_stable_insert_multiset(stat, d, x);
        let ri = stable_insert(stat, d, x);
        assert(seq![s[0]] + ri =~= ri.insert(0, s[0]));
        to_multiset_insert(ri, 0, s[0]);
        assert(s =~= d.insert(0, s[0]));
        to_multiset_insert(d, 0, s[0]);
        assert(d.to_multiset().insert(x).insert(s[0]) =~= d.to_multiset().insert(s[0]).insert(x));
    }
}

pub proof fn lemma_stable_sort_multiset(stat: Seq<u32>, s: Seq<Candidate>)
    ensures
        stable_sort(stat, s).to_multiset() =~= s.to_multiset(),
    decreases s.len(),
{
    broadcast use vstd::seq_lib::group_to_multiset_ensures;
    if s.len() > 0 {
        let dl = s.drop_last();
        lemma_stable_sort_multiset(stat, dl);
        lemma_stable_insert_multiset(stat, stable_sort(stat, dl), s.last());
        assert(dl.push(s.last()) =~= s);
        to_multiset_build(dl, s.last());
    }
}

/// The sorter moves each source bin at most once: the ranked bins are
/// distinct, each exists and cleared its gate.
pub proof fn lemma_ranked_sources_distinct(mag: Seq<u32>, pass: Seq<bool>, stat: Seq<u32>)
    requires
        pass.len() == mag.len(),
        stat.len() == mag.len(),
        mag.len() <= u32::MAX,
    ensures
        ranked_sources(mag, pass, stat).no_duplicates(),
        forall|r: int| 0 <= r < ranked_sources(mag, pass, stat).len()
            ==> #[trigger] ranked_sources(mag, pass, stat)[r] < mag.len() && pass[ranked_sources(mag, pass, stat)[r] as int],
{
    let cap = MAX_SORT_BINS as int;
    let n = mag.len() as int;
    let kept = kept_candidates(mag, pass, cap, n);
    let sorted = stable_sort(stat, kept);
    let ranked = ranked_sources(mag, pass, stat);
    lemma_kept_shape(mag, pass, cap, n);
    lemma_kept_distinct(mag, pass, cap, n);
    lemma_stable_sort_sorted(stat, kept);
    assert(kept.no_duplicates()) by {
        assert forall|i: int, j: int| 0 <= i < kept.len() && 0 <= j < kept.len() && i != j implies kept[i] != kept[j] by {
            if i < j {
                assert(kept[i].0 != kept[j].0);
            } else {
                assert(kept[j].0 != kept[i].0);
            }
        }
    }
    kept.lemma_multiset_has_no_duplicates();
    lemma_stable_sort_multiset(stat, kept);
    sorted.lemma_multiset_has_no_duplicates_conv();
    assert forall|i: int, j: int| 0 <= i < ranked.len() && 0 <= j < ranked.len() && i != j implies ranked[i] != ranked[j] by {
        lemma_stable_sort_members(stat, kept, i);
        lemma_stable_sort_members(stat, kept, j);
        let wi = choose|w: int| 0 <= w < kept.len() && kept[w] == sorted[i];
        let wj = choose|w: int| 0 <= w < kept.len() && kept[w] == sorted[j];
        assert(kept[wi] == sorted[i]);
        assert(kept[wj] == sorted[j]);
        assert(ranked[i] == sorted[i].0 && ranked[j] == sorted[j].0);
        if wi != wj {
            if wi < wj {
                assert(kept[wi].0 != kept[wj].0);
            } else {
                assert(kept[wj].0 != kept[wi].0);
            }
        }
    }
    assert forall|r: int| 0 <= r < ranked.len() implies #[trigger] ranked[r] < mag.len() && pass[ranked[r] as int] by {
        lemma_stable_sort_members(stat, kept, r);
        let w = choose|w: int| 0 <= w < kept.len() && kept[w] == sorted[r];
        assert(kept[w] == sorted[r]);
    }
}


/// The pool keeps the loudest passing bins: a passing bin louder than some
/// kept candidate is kept itself, and while the pool is not full every
/// passing bin is kept.
pub proof fn lemma_kept_are_loudest(mag: Seq<u32>, pass: Seq<bool>, cap: int, k: int)
    requires
        0 <= k <= mag.len(),
        pass.len() == mag.len(),
        mag.len() <= u32::MAX,
        0 < cap,
    ensures
        forall|b: int, i: int| 0 <= b < k && #[trigger] pass[b] && 0 <= i < kept_candidates(mag, pass, cap, k).len()
            && mag[b] > (#[trigger] kept_candidates(mag, pass, cap, k)[i]).1
            ==> exists|j: int| 0 <= j < kept_candidates(mag, pass, cap, k).len()
                && (#[trigger] kept_candidates(mag, pass, cap, k)[j]).0 == b,
        kept_candidates(mag, pass, cap, k).len() < cap ==> forall|b: int| 0 <= b < k && #[trigger] pass[b]
            ==> exists|j: int| 0 <= j < kept_candidates(mag, pass, cap, k).len()
                && (#[trigger] kept_candidates(mag, pass, cap, k)[j]).0 == b,
    decreases k,
{
    if k > 0 {
        lemma_kept_are_loudest(mag, pass, cap, k - 1);
        lemma_kept_shape(mag, pass, cap, k - 1);
        lemma_kept_shape(mag, pass, cap, k);
        let c = kept_candidates(mag, pass, cap, k - 1);
        let r = kept_candidates(mag, pass, cap, k);
        let x = k - 1;
        if !pass[x] {
            assert(r == c);
        } else if c.len() < cap {
            assert(r == c.push((x as u32, mag[x])));
            assert(r[c.len() as int].0 == x);
            assert forall|b: int| 0 <= b < k && #[trigger] pass[b]
                implies exists|j: int| 0 <= j < r.len() && (#[trigger] r[j]).0 == b by {
                if b < x {
                    let j = choose|j: int| 0 <= j < c.len() && (#[trigger] c[j]).0 == b;
                    assert(r[j] == c[j]);
                } else {
                    assert(r[c.len() as int].0 == b);
                }
            }
        } else {
            lemma_first_min_index(c, c.len() as int);
            let mi = first_min_index(c, c.len() as int);
            if c[mi].1 < mag[x] {
                assert(r == c.update(mi, (x as u32, mag[x])));
                assert forall|b: int, i: int| 0 <= b < k && #[trigger] pass[b] && 0 <= i < r.len() && mag[b] > (#[trigger] r[i]).1
                    implies exists|j: int| 0 <= j < r.len() && (#[trigger] r[j]).0 == b by {
                    if b == x {
                        assert(r[mi].0 == b);
                    } else {
                        // r[i] is no quieter than the evicted minimum
                        assert(r[i].1 >= c[mi].1);
                        if mag[b] > c[mi].1 {
                            let j = choose|j: int| 0 <= j < c.len() && (#[trigger] c[j]).0 == b;
                            if j == mi {
                                // b was the evicted minimum: mag[b] == c[mi].1
                                assert(c[mi].1 == mag[c[mi].0 as int]);
                                assert(false);
                            }
                            assert(r[j] == c[j]);
                        } else {
                            assert(false);
                        }
                    }
                }
            } else {
                assert(r == c);
                assert forall|b: int, i: int| 0 <= b < k && #[trigger] pass[b] && 0 <= i < r.len() && mag[b] > (#[trigger] r[i]).1
                    implies exists|j: int| 0 <= j < r.len() && (#[trigger] r[j]).0 == b by {
                    if b == x {
                        assert(c[i].1 >= c[mi].1);
                        assert(false);
                    }
                }
            }
        }
    }
}

/// The Decay Sorter moves the loudest gated bins: a passing bin louder than
/// a moved one is moved too, and while fewer than `MAX_SORT_BINS` bins move,
/// every passing bin moves. They are ranked by statistic, highest first,
/// and among equal statistics louder first.
pub proof fn lemma_decay_sort_moves_loudest(mag: Seq<u32>, pass: Seq<bool>, stat: Seq<u32>)
    requires
        pass.len() == mag.len(),
        stat.len() == mag.len(),
        mag.len() <= u32::MAX,
    ensures
        ({
            let r = ranked_sources(mag, pass, stat);
            &&& forall|b: int, i: int| 0 <= b < mag.len() && #[trigger] pass[b] && 0 <= i < r.len() && mag[b] > mag[#[trigger] r[i] as int]
                ==> r.contains(b as u32)
            &&& r.len() < MAX_SORT_BINS ==> forall|b: int| 0 <= b < mag.len() && #[trigger] pass[b] ==> r.contains(b as u32)
            &&& forall|i: int, j: int| 0 <= i < j < r.len() ==> stat[#[trigger] r[i] as int] > stat[#[trigger] r[j] as int]
                || (stat[r[i] as int] == stat[r[j] as int] && mag[r[i] as int] >= mag[r[j] as int])
        }),
{
    broadcast use vstd::seq_lib::group_to_multiset_ensures;
    let cap = MAX_SORT_BINS as int;
    let n = mag.len() as int;
    let kept = kept_candidates(mag, pass, cap, n);
    let sorted = stable_sort(stat, kept);
    let r = ranked_sources(mag, pass, stat);
    lemma_kept_shape(mag, pass, cap, n);
    lemma_kept_are_loudest(mag, pass, cap, n);
    lemma_stable_sort_sorted(stat, kept);
    lemma_stable_sort_multiset(stat, kept);
    assert(r.len() == sorted.len());
    assert forall|i: int| 0 <= i < r.len() implies #[trigger] r[i] == sorted[i].0 && sorted[i].1 == mag[sorted[i].0 as int] by {
        lemma_stable_sort_members(stat, kept, i);
        let w = choose|w: int| 0 <= w < kept.len() && kept[w] == sorted[i];
        assert(kept[w] == sorted[i]);
    }
    // A kept bin is ranked.
    assert forall|j: int| 0 <= j < kept.len() implies r.contains(#[trigger] kept[j].0) by {
        assert(kept.to_multiset().contains(kept[j]));
        assert(sorted.to_multiset().contains(kept[j]));
        assert(sorted.contains(kept[j]));
        let q = choose|q: int| 0 <= q < sorted.len() && sorted[q] == kept[j];
        assert(r[q] == kept[j].0);
    }
    assert forall|b: int, i: int| 0 <= b < mag.len() && #[trigger] pass[b] && 0 <= i < r.len() && mag[b] > mag[#[trigger] r[i] as int]
        implies r.contains(b as u32) by {
        lemma_stable_sort_members(stat, kept, i);
        let w = choose|w: int| 0 <= w < kept.len() && kept[w] == sorted[i];
        assert(kept[w] == sorted[i]);
        assert(mag[b] > kept[w].1);
        let j = choose|j: int| 0 <= j < kept.len() && (#[trigger] kept[j]).0 == b;
        assert(r.contains(kept[j].0));
    }
    if r.len() < MAX_SORT_BINS {
        assert forall|b: int| 0 <= b < mag.len() && #[trigger] pass[b] implies r.contains(b as u32) by {
            let j = choose|j: int| 0 <= j < kept.len() && (#[trigger] kept[j]).0 == b;
            assert(r.contains(kept[j].0));
        }
    }
    assert forall|i: int, j: int| 0 <= i < j < r.len() implies stat[#[trigger] r[i] as int] > stat[#[trigger] r[j] as int]
        || (stat[r[i] as int] == stat[r[j] as int] && mag[r[i] as int] >= mag[r[j] as int]) by {
        assert(!sorts_before(stat, sorted[j], sorted[i]));
    }
}

} // verus!

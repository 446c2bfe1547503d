//! Energy-rise hysteresis for the physics-based modules.
//!
//! A bin whose kinetic-plus-potential energy doubled in two consecutive hops
//! has its velocity bled off; one doubling alone is tolerated. Whether a bin
//! doubled in the current hop is a comparison of energies done by the caller;
//! this module keeps the per-bin flag of the previous hop and decides.

use vstd::prelude::*;

verus! {

/// Per-bin damping decisions for one hop.
pub open spec fn spec_damping(doubled: Seq<bool>, rose_last: Seq<bool>) -> Seq<bool> {
    Seq::new(doubled.len(), |k: int| doubled[k] && rose_last[k])
}

/// Decide, for each bin, whether its velocity is damped this hop: it is when
/// the bin's energy doubled this hop (`doubled[k]`) and in the previous one
/// (`rose_last[k]`). `rose_last` is then overwritten with this hop's flags.
pub fn energy_rise_damping(doubled: &[bool], rose_last: &mut [bool]) -> (damp: Vec<bool>)
    requires
        old(rose_last)@.len() == doubled@.len(),
    ensures
        final(rose_last)@ == doubled@,
        damp@ == spec_damping(doubled@, old(rose_last)@),
{
    let n = doubled.len();
    let ghost before = rose_last@;
    let mut damp: Vec<bool> = Vec::with_capacity(n);
    let mut k: usize = 0;
    while k < n
        invariant
            n == doubled@.len(),
            rose_last@.len() == n,
            before.len() == n,
            0 <= k <= n,
            damp@.len() == k,
            forall|q: int| 0 <= q < k ==> #[trigger] damp@[q] == (doubled@[q] && before[q]),
            forall|q: int| 0 <= q < k ==> #[trigger] rose_last@[q] == doubled@[q],
            forall|q: int| k <= q < n ==> #[trigger] rose_last@[q] == before[q],
        decreases n - k,
    {
        let d = doubled[k];
        damp.push(d && rose_last[k]);
        rose_last[k] = d;
        k += 1;
    }
    proof {
        assert(rose_last@ =~= doubled@);
        assert(damp@ =~= spec_damping(doubled@, before));
    }
    damp
}

/// Over two consecutive hops (the flags the first hop leaves are the ones
/// the second reads), a bin is damped in the second hop exactly when its
/// energy doubled in both; a doubling hop that follows a calm one is not damped.
pub proof fn lemma_damping_needs_two_rises(d1: Seq<bool>, d2: Seq<bool>, k: int)
    requires
        d1.len() == d2.len(),
        0 <= k < d1.len(),
    ensures
        spec_damping(d2, d1)[k] <==> (d1[k] && d2[k]),
        !d1[k] ==> !spec_damping(d2, d1)[k],
{
}

} // verus!

//! Integer kernels for the Circuit module: the per-channel xorshift32 PRNG.

use vstd::prelude::*;

verus! {

/// One xorshift32 step (shifts 13, 17, 5).
pub open spec fn xorshift32(s: u32) -> u32 {
    let a = s ^ (s << 13u32);
    let b = a ^ (a >> 17u32);
    b ^ (b << 5u32)
}

/// xorshift32 never maps a nonzero state to zero, so a generator seeded
/// nonzero never falls into the all-zero fixed point.
pub proof fn lemma_xorshift32_nonzero(s: u32)
    requires
        s != 0,
    ensures
        xorshift32(s) != 0,
{
    assert(s != 0 ==> ({
        let a = s ^ (s << 13u32);
        let b = a ^ (a >> 17u32);
        b ^ (b << 5u32)
    }) != 0) by (bit_vector);
}

/// Zero is the fixed point of xorshift32: a zero state would stay zero forever.
pub proof fn lemma_xorshift32_zero_fixed()
    ensures
        xorshift32(0) == 0,
{
    assert(({
        let s = 0u32;
        let a = s ^ (s << 13u32);
        let b = a ^ (a >> 17u32);
        b ^ (b << 5u32)
    }) == 0u32) by (bit_vector);
}

/// Per-channel xorshift32 PRNG. Cheap (3 shifts + 3 XORs per `next_u32`),
/// deterministic for a given seed. NOT cryptographically secure.
#[derive(Debug)]
pub struct SimdRng {
    state: u32,
}

impl SimdRng {
    /// Current generator state.
    pub closed spec fn state(&self) -> u32 {
        self.state
    }

    #[verifier::type_invariant]
    closed spec fn inv(&self) -> bool {
        self.state != 0
    }

    /// Seed the generator; a zero seed is replaced by 0xDEADBEEF to avoid
    /// the all-zero degenerate state.
    pub fn new(seed: u32) -> (r: Self)
        ensures
            r.state() == if seed == 0 { 0xDEADBEEFu32 } else { seed },
    {
        let s = if seed == 0 { 0xDEADBEEFu32 } else { seed };
        Self { state: s }
    }

    /// Advance one step and return the new state.
    pub fn next_u32(&mut self) -> (r: u32)
        ensures
            r == xorshift32(old(self).state()),
            final(self).state() == r,
            r != 0,
    {
        proof {
            use_type_invariant(&*self);
            lemma_xorshift32_nonzero(self.state);
        }
        let mut s = self.state;
        s ^= s << 13u32;
        s ^= s >> 17u32;
        s ^= s << 5u32;
        self.state = s;
        s
    }
}

impl Clone for SimdRng {
    fn clone(&self) -> (r: Self)
        ensures
            r.state() == self.state(),
    {
        proof {
            use_type_invariant(self);
        }
        SimdRng { state: self.state }
    }
}

} // verus!

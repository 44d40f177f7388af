//! The integer core of the white-noise source: a 32-bit xorshift generator.

use vstd::prelude::*;

verus! {

/// One xorshift32 step (shifts 13, 17, 5).
pub open spec fn xorshift32(x: u32) -> u32 {
    let a = x ^ (x << 13u32);
    let b = a ^ (a >> 17u32);
    b ^ (b << 5u32)
}

/// The seed a generator starts from: zero, the one fixed point of xorshift,
/// is replaced by one.
pub open spec fn effective_seed(seed: u32) -> u32 {
    if seed == 0 { 1 } else { seed }
}

/// Xorshift never maps a nonzero state to zero, so the generator never gets
/// stuck on the all-zero fixed point.
pub proof fn lemma_xorshift32_nonzero(x: u32)
    requires
        x != 0,
    ensures
        xorshift32(x) != 0,
{
    assert(x != 0 ==> (x ^ (x << 13u32)) != 0) by (bit_vector);
    let a = x ^ (x << 13u32);
    assert(a != 0 ==> (a ^ (a >> 17u32)) != 0) by (bit_vector);
    let b = a ^ (a >> 17u32);
    assert(b != 0 ==> (b ^ (b << 5u32)) != 0) by (bit_vector);
}

/// A generator starts from its seed; only the seed zero, which would stick
/// at zero, is replaced, by one.
pub proof fn lemma_seed_is_start_state(seed: u32)
    ensures
        seed != 0 ==> effective_seed(seed) == seed,
        seed == 0 ==> effective_seed(seed) == 1,
{
}

/// Distinct states step to distinct states, so different seeds never merge
/// into one noise stream.
pub proof fn lemma_xorshift32_injective(x: u32, y: u32)
    requires
        x != y,
    ensures
        xorshift32(x) != xorshift32(y),
{
    assert(x != y ==> (x ^ (x << 13u32)) != (y ^ (y << 13u32))) by (bit_vector);
    let a = x ^ (x << 13u32);
    let c = y ^ (y << 13u32);
    assert(a != c ==> (a ^ (a >> 17u32)) != (c ^ (c >> 17u32))) by (bit_vector);
    let b = a ^ (a >> 17u32);
    let d = c ^ (c >> 17u32);
    assert(b != d ==> (b ^ (b << 5u32)) != (d ^ (d << 5u32))) by (bit_vector);
}

/// White-noise source whose state is a nonzero 32-bit word.
#[derive(Debug, Clone, Copy)]
pub struct Noise {
    state: u32,
}

impl View for Noise {
    type V = u32;

    closed spec fn view(&self) -> u32 {
        self.state
    }
}

impl Noise {
    #[verifier::type_invariant]
    spec fn state_nonzero(self) -> bool {
        self.state != 0
    }

    /// A generator seeded with `seed` (zero counts as one).
    pub fn new(seed: u32) -> (noise: Self)
        ensures
            noise@ == effective_seed(seed),
            seed != 0 ==> noise@ == seed,
            noise@ != 0,
    {
        let state = if seed > 1 { seed } else { 1 };
        Noise { state }
    }

    /// Advances the generator by one xorshift step and returns the new state,
    /// the raw 32-bit word from which a noise sample is scaled.
    pub fn next_u32(&mut self) -> (x: u32)
        ensures
            x == xorshift32(old(self)@),
            final(self)@ == x,
            x != 0,
    {
        proof {
            use_type_invariant(&*self);
            lemma_xorshift32_nonzero(self.state);
        }
        let mut x = self.state;
        x = x ^ (x << 13u32);
        x = x ^ (x >> 17u32);
        x = x ^ (x << 5u32);
        self.state = x;
        x
    }
}

} // verus!

use vstd::prelude::*;

use vstd::arithmetic::div_mod::{lemma_add_mod_noop, lemma_mod_twice};

verus! {

/// The state that a seed is added to.
pub const STATE: u64 = 0x4d595df4d0f33173;

pub const MULTIPLIER: u64 = 6364136223846793005;

pub const INCREMENT: u64 = 1442695040888963407;

/// A permuted congruential generator with 64 bits of state and 32-bit output.
#[derive(Default, Debug)]
pub struct PCG32Rand {
    state: u64,
}

/// `x` rotated right by `r` bits.
pub open spec fn rotate_right(x: u32, r: u32) -> u32 {
    (x >> r) | (x << ((32 - r) as u32 & 31u32))
}

/// The state that follows `x`.
pub open spec fn next_state(x: u64) -> u64 {
    ((x as int * MULTIPLIER as int + INCREMENT as int) % 0x1_0000_0000_0000_0000) as u64
}

/// The output drawn from the state `x`: the high bits of `x` folded onto
/// themselves, rotated by the top five bits of `x`.
pub open spec fn pcg_output(x: u64) -> u32 {
    rotate_right(((x ^ (x >> 18u64)) >> 27u64) as u32, (x >> 59u64) as u32)
}

/// `x` rotated right by `r` bits.
pub fn rotr32(x: u32, r: u32) -> (res: u32)
    requires
        r < 32,
    ensures
        res == rotate_right(x, r),
{
    let back: u32 = (32 - r) & 31;
    assert(back < 32) by (bit_vector)
        requires
            back == (32 - r) as u32 & 31u32,
    ;
    x >> r | x << back
}

impl View for PCG32Rand {
    type V = u64;

    closed spec fn view(&self) -> u64 {
        self.state
    }
}

impl PCG32Rand {
    /// A generator whose state is the seed added to a fixed state, wrapping.
    pub fn new(seed: u64) -> (r: PCG32Rand)
        ensures
            r@ == ((STATE as int + seed as int) % 0x1_0000_0000_0000_0000) as u64,
    {
        PCG32Rand { state: STATE.wrapping_add(seed) }
    }

    /// Draws the output of the current state and moves to the next state.
    pub fn rand(&mut self) -> (r: u32)
        ensures
            r == pcg_output(old(self)@),
            final(self)@ == next_state(old(self)@),
    {
        let x: u64 = self.state;
        let count: u64 = x >> 59u64;
        assert(count < 32) by (bit_vector)
            requires
                count == x >> 59u64,
        ;
        proof {
            let m: int = 0x1_0000_0000_0000_0000;
            lemma_add_mod_noop(x as int * MULTIPLIER as int, INCREMENT as int, m);
            lemma_mod_twice(x as int * MULTIPLIER as int, m);
        }
        self.state = x.wrapping_mul(MULTIPLIER).wrapping_add(INCREMENT);
        let folded: u64 = x ^ (x >> 18u64);
        rotr32((folded >> 27u64) as u32, count as u32)
    }
}

} // verus!

//! The linear congruential generator that world generation and the
//! enchanting table draw from.
use vstd::prelude::*;

verus! {

/// One step of the generator: multiply by 6364136223846793005, add 1, modulo 2^64.
pub open spec fn lcg_next(r: u64) -> u64 {
    ((r as nat * 6364136223846793005nat + 1) % 0x1_0000_0000_0000_0000nat) as u64
}

/// The draw a generator state yields: its top 31 bits.
pub open spec fn lcg_draw(r: u64) -> nat {
    r as nat / 0x2_0000_0000nat
}

pub fn lcg_next_exec(r: u64) -> (n: u64)
    ensures
        n == lcg_next(r),
{
    let m = r.wrapping_mul(6364136223846793005);
    let n = m.wrapping_add(1);
    proof {
        let big = 0x1_0000_0000_0000_0000nat;
        let p = r as nat * 6364136223846793005nat;
        assert(m as nat == p % big);
        assert(n as nat == (m as nat + 1) % big);
        vstd::arithmetic::div_mod::lemma_add_mod_noop(p as int, 1, big as int);
        assert(1int % (big as int) == 1);
    }
    n
}

pub fn lcg_draw_exec(r: u64) -> (d: u32)
    ensures
        d == lcg_draw(r),
        d < 0x8000_0000,
{
    assert((r >> 33) == r / 0x2_0000_0000 && r >> 33 < 0x8000_0000) by (bit_vector);
    (r >> 33) as u32
}

} // verus!

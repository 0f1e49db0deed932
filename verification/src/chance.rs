//! A small generator of numbers that look random.
use vstd::prelude::*;

verus! {

/// The state that follows a state.
pub open spec fn scrambled(s: u32) -> u32 {
    let a = s ^ (s << 13);
    let b = a ^ (a >> 17);
    b ^ (b << 5)
}

/// Moves to the next state. Returns a number below two to the twenty-fourth.
pub fn draw(seed: &mut u32) -> (n: u32)
    ensures
        *final(seed) == scrambled(*old(seed)),
        n == *final(seed) >> 8,
        n < 0x100_0000,
{
    let mut s: u32 = *seed;
    s = s ^ (s << 13);
    s = s ^ (s >> 17);
    s = s ^ (s << 5);
    *seed = s;
    assert((s >> 8) < 0x100_0000) by (bit_vector);
    s >> 8
}

/// A generator that has not run dry never does.
pub proof fn lemma_never_runs_dry(s: u32)
    requires
        s != 0,
    ensures
        scrambled(s) != 0,
{
    let a = s ^ (s << 13);
    assert(a != 0) by (bit_vector)
        requires
            s != 0,
            a == s ^ (s << 13),
    ;
    let b = a ^ (a >> 17);
    assert(b != 0) by (bit_vector)
        requires
            a != 0,
            b == a ^ (a >> 17),
    ;
    assert(b ^ (b << 5) != 0) by (bit_vector)
        requires
            b != 0,
    ;
}

/// Which of four equal shares a draw falls into.
pub fn quarter(n: u32) -> (q: u32)
    ensures
        q == n / 0x40_0000,
        n < 0x100_0000 ==> q < 4,
{
    n / 0x40_0000
}

} // verus!

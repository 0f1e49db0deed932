//! Numbers drawn as seven segments per digit.
use vstd::prelude::*;
use crate::numerals::{decimal, digit};

verus! {

/// How many digits a number has.
pub fn digit_count(n: u32) -> (c: usize)
    ensures
        c == decimal(n as nat).len(),
        1 <= c <= 10,
{
    let mut c: usize = 1;
    let mut v: u32 = n;
    let ghost mut bound: int = 4294967295;
    while v >= 10
        invariant
            decimal(n as nat).len() == c - 1 + decimal(v as nat).len(),
            1 <= c,
            v <= bound,
            c == 1 ==> bound == 4294967295,
            c == 2 ==> bound == 429496729,
            c == 3 ==> bound == 42949672,
            c == 4 ==> bound == 4294967,
            c == 5 ==> bound == 429496,
            c == 6 ==> bound == 42949,
            c == 7 ==> bound == 4294,
            c == 8 ==> bound == 429,
            c == 9 ==> bound == 42,
            c == 10 ==> bound == 4,
            c <= 10,
        decreases v,
    {
        v = v / 10;
        c += 1;
        proof {
            bound = bound / 10;
        }
    }
    c
}

/// Returns the digits of a number, the first one first.
pub fn digits_of(n: u32) -> (d: Vec<u8>)
    ensures
        d@.len() == decimal(n as nat).len(),
        forall|i: int|
            0 <= i < d@.len() ==> (#[trigger] d@[i]) < 10 && digit(d@[i] as nat) == decimal(n as nat)[i],
{
    let mut back: Vec<u8> = Vec::new();
    let mut v: u32 = n;
    let ghost whole = decimal(n as nat);
    assert(whole.take(whole.len() as int) =~= whole);
    while v >= 10
        invariant
            whole == decimal(n as nat),
            back@.len() + decimal(v as nat).len() == whole.len(),
            decimal(v as nat) == whole.take(whole.len() - back@.len()),
            forall|i: int|
                0 <= i < back@.len() ==> (#[trigger] back@[i]) < 10 && digit(back@[i] as nat)
                    == whole[whole.len() - 1 - i],
        decreases v,
    {
        let ghost d = decimal(v as nat);
        let k: u8 = (v % 10) as u8;
        proof {
            assert(d == decimal((v / 10) as nat).push(digit((v % 10) as nat)));
            assert(d.last() == digit(k as nat));
            assert(d.last() == whole[whole.len() - 1 - back@.len()]);
            assert(decimal((v / 10) as nat) =~= whole.take(whole.len() - back@.len() - 1));
        }
        back.push(k);
        v = v / 10;
    }
    assert(decimal(v as nat).len() == 1);
    assert(decimal(v as nat)[0] == digit(v as nat));
    assert(whole[0] == whole.take(1)[0]);
    back.push(v as u8);
    let mut d: Vec<u8> = Vec::new();
    let mut i: usize = back.len();
    while i > 0
        invariant
            i <= back@.len() == whole.len(),
            d@.len() == back@.len() - i,
            forall|k: int|
                0 <= k < back@.len() ==> (#[trigger] back@[k]) < 10 && digit(back@[k] as nat)
                    == whole[whole.len() - 1 - k],
            forall|k: int|
                0 <= k < d@.len() ==> (#[trigger] d@[k]) < 10 && digit(d@[k] as nat) == whole[k],
        decreases i,
    {
        i -= 1;
        d.push(back[i]);
    }
    d
}

/// Which segments of a digit are lit, a bit each: top, top left, top right, middle,
/// bottom left, bottom right, bottom.
pub open spec fn segment_bits(d: int) -> u8 {
    if d == 0 {
        119
    } else if d == 1 {
        36
    } else if d == 2 {
        93
    } else if d == 3 {
        109
    } else if d == 4 {
        46
    } else if d == 5 {
        107
    } else if d == 6 {
        123
    } else if d == 7 {
        37
    } else if d == 8 {
        127
    } else {
        111
    }
}

/// Returns which segments of a digit are lit; those of nine for anything larger.
pub fn segments(d: u8) -> (b: u8)
    ensures
        b == segment_bits(d as int),
{
    if d == 0 {
        119
    } else if d == 1 {
        36
    } else if d == 2 {
        93
    } else if d == 3 {
        109
    } else if d == 4 {
        46
    } else if d == 5 {
        107
    } else if d == 6 {
        123
    } else if d == 7 {
        37
    } else if d == 8 {
        127
    } else {
        111
    }
}

/// Whether a segment of a digit is lit.
pub fn is_lit(d: u8, segment: u8) -> (r: bool)
    requires
        segment < 7,
    ensures
        r == (segment_bits(d as int) & (1u8 << segment) != 0),
{
    segments(d) & (1u8 << segment) != 0
}

/// No two digits look the same.
pub proof fn lemma_digits_differ(a: int, b: int)
    requires
        0 <= a < b < 10,
    ensures
        segment_bits(a) != segment_bits(b),
{
}

} // verus!

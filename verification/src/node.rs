//! A node's secret and its public name.
use vstd::prelude::*;
use vstd::utf8::encode_utf8;
use rand::Rng;
use crate::numerals::{hex_char, hex_digit, hex_value};

verus! {

/// One step of the FNV-1a hash.
pub open spec fn fnv_step(h: u64, b: u8) -> u64 {
    (h ^ (b as u64)).wrapping_mul(0x100_0000_01b3u64)
}

/// The FNV-1a hash of some bytes.
pub open spec fn fnv(bytes: Seq<u8>) -> u64
    decreases bytes.len(),
{
    if bytes.len() == 0 {
        0xcbf2_9ce4_8422_2325u64
    } else {
        fnv_step(fnv(bytes.drop_last()), bytes.last())
    }
}

/// A number in hexadecimal, with as many digits as given.
pub open spec fn hex_padded(n: nat, width: nat) -> Seq<char>
    decreases width,
{
    if width == 0 {
        Seq::empty()
    } else {
        hex_padded(n / 16, (width - 1) as nat).push(hex_digit(n % 16))
    }
}

/// The public name of the node with a secret.
pub open spec fn node_name(token: Seq<char>) -> Seq<char> {
    hex_padded(fnv(encode_utf8(token)) as nat, 16)
}

fn hex_digits(n: u64, width: u32) -> (r: String)
    ensures
        r@ == hex_padded(n as nat, width as nat),
    decreases width,
{
    if width == 0 {
        String::new()
    } else {
        let mut s = hex_digits(n / 16, width - 1);
        s.push(hex_char((n % 16) as u8));
        s
    }
}

/// Returns the public name of the node with a secret: the same for the same secret,
/// and without the secret in it.
pub fn node_id(token: &str) -> (r: String)
    ensures
        r@ == node_name(token@),
        r@.len() == 16,
{
    let bytes = token.as_bytes();
    let mut h: u64 = 0xcbf2_9ce4_8422_2325;
    let mut i: usize = 0;
    let ghost all = encode_utf8(token@);
    while i < bytes.len()
        invariant
            i <= bytes@.len(),
            bytes@ == all,
            h == fnv(all.take(i as int)),
        decreases bytes.len() - i,
    {
        assert(all.take(i + 1).drop_last() =~= all.take(i as int));
        h = (h ^ (bytes[i] as u64)).wrapping_mul(0x100_0000_01b3);
        i += 1;
    }
    assert(all.take(i as int) =~= all);
    proof {
        lemma_hex_padded_len(h as nat, 16);
    }
    hex_digits(h, 16)
}

proof fn lemma_hex_padded_len(n: nat, width: nat)
    ensures
        hex_padded(n, width).len() == width,
    decreases width,
{
    if width > 0 {
        lemma_hex_padded_len(n / 16, (width - 1) as nat);
    }
}

/// Calls `rand::Rng::gen_range` on the thread's generator: some number under sixteen.
#[verifier::external_body]
fn random_nibble() -> (d: u8)
    ensures
        d < 16,
{
    rand::thread_rng().gen_range(0..16)
}

/// Whether a character is a lowercase hexadecimal digit.
pub open spec fn is_hex_char(c: char) -> bool {
    '0' <= c <= '9' || 'a' <= c <= 'f'
}

/// Returns the text of some numbers under sixteen, one digit each.
pub fn hex_of_nibbles(ds: &Vec<u8>) -> (r: String)
    requires
        forall|i: int| 0 <= i < ds@.len() ==> #[trigger] ds@[i] < 16,
    ensures
        r@ == Seq::new(ds@.len(), |i: int| hex_digit(ds@[i] as nat)),
{
    let mut s: String = String::new();
    let mut i: usize = 0;
    while i < ds.len()
        invariant
            i <= ds@.len(),
            forall|j: int| 0 <= j < ds@.len() ==> #[trigger] ds@[j] < 16,
            s@ == Seq::new(i as nat, |j: int| hex_digit(ds@[j] as nat)),
        decreases ds.len() - i,
    {
        s.push(hex_char(ds[i]));
        i += 1;
        assert(s@ =~= Seq::new(i as nat, |j: int| hex_digit(ds@[j] as nat)));
    }
    s
}

/// Returns as many random lowercase hexadecimal digits as asked for.
pub fn random_hex(len: usize) -> (r: String)
    ensures
        r@.len() == len,
        forall|i: int| 0 <= i < r@.len() ==> is_hex_char(#[trigger] r@[i]),
{
    let mut ds: Vec<u8> = Vec::new();
    while ds.len() < len
        invariant
            ds@.len() <= len,
            forall|j: int| 0 <= j < ds@.len() ==> #[trigger] ds@[j] < 16,
        decreases len - ds.len(),
    {
        ds.push(random_nibble());
    }
    hex_of_nibbles(&ds)
}

/// The secret to go on with: the stored one without outer white space, or the fresh
/// one where none is stored. Also whether it has to be stored.
pub fn keep_or_make(stored: &str, fresh: String) -> (r: (String, bool))
    ensures
        crate::text::trimmed(stored@).len() > 0 ==> r.0@ == crate::text::trimmed(stored@) && !r.1,
        crate::text::trimmed(stored@).len() == 0 ==> r.0@ == fresh@ && r.1,
{
    let existing = crate::text::trim(stored);
    if !existing.as_str().is_empty() {
        return (existing, false);
    }
    (fresh, true)
}

/// The number that hexadecimal digits stand for.
pub open spec fn hex_number(s: Seq<char>) -> nat
    decreases s.len(),
{
    if s.len() == 0 {
        0
    } else {
        hex_number(s.drop_last()) * 16 + (match hex_value(s.last()) {
            Some(d) => d,
            None => 0,
        })
    }
}

/// Sixteen to the power of a number.
pub open spec fn sixteens(n: nat) -> nat
    decreases n,
{
    if n == 0 {
        1
    } else {
        16 * sixteens((n - 1) as nat)
    }
}

proof fn lemma_padded_value(n: nat, width: nat)
    requires
        n < sixteens(width),
    ensures
        hex_number(hex_padded(n, width)) == n,
    decreases width,
{
    if width > 0 {
        let s = hex_padded(n, width);
        lemma_padded_value(n / 16, (width - 1) as nat);
        assert(s.drop_last() =~= hex_padded(n / 16, (width - 1) as nat));
        assert(n % 16 < 16);
        assert(hex_value(hex_digit(n % 16)) == Some(n % 16));
    }
}

/// A node's name is the hash of its token, in sixteen digits: the names of two nodes are the
/// same only where the hashes of their tokens are.
pub proof fn lemma_name_is_the_hash(a: Seq<char>, b: Seq<char>)
    ensures
        hex_number(node_name(a)) == fnv(encode_utf8(a)),
        node_name(a) == node_name(b) <==> fnv(encode_utf8(a)) == fnv(encode_utf8(b)),
{
    assert(sixteens(16) == 0x1_0000_0000_0000_0000) by {
        reveal_with_fuel(sixteens, 17);
    }
    lemma_padded_value(fnv(encode_utf8(a)) as nat, 16);
    lemma_padded_value(fnv(encode_utf8(b)) as nat, 16);
}

} // verus!

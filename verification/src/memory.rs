//! Access to a guest's memory: what a pointer and a length from the guest reach,
//! and nothing beyond.
use vstd::prelude::*;
use vstd::string::StrSliceExecFns;
use vstd::utf8::{encode_utf8, encode_utf8_decode_utf8, encode_utf8_valid_utf8};
use crate::storage::{clip, clipped};
use crate::text::{from_utf8_lossy, utf8_lossy};

verus! {

/// Whether `len` bytes from `ptr` on lie within a memory of `size` bytes.
pub open spec fn reaches(size: nat, ptr: i32, len: i32) -> bool {
    0 <= ptr && 0 <= len && ptr + len <= size
}

/// The bytes that a guest points at; none where they do not all exist.
pub open spec fn pointed_at(mem: Seq<u8>, ptr: i32, len: i32) -> Seq<u8> {
    if reaches(mem.len(), ptr, len) {
        mem.subrange(ptr as int, ptr + len)
    } else {
        Seq::empty()
    }
}

/// Returns the bytes that a guest points at.
pub fn read_bytes(mem: &[u8], ptr: i32, len: i32) -> (r: Vec<u8>)
    ensures
        r@ == pointed_at(mem@, ptr, len),
{
    let mut out: Vec<u8> = Vec::new();
    if ptr < 0 || len < 0 {
        return out;
    }
    let from: usize = ptr as usize;
    let n: usize = len as usize;
    if n > mem.len() || from > mem.len() - n {
        return out;
    }
    let mut i: usize = 0;
    while i < n
        invariant
            i <= n,
            from + n <= mem.len(),
            out@ == mem@.subrange(from as int, from + i),
        decreases n - i,
    {
        out.push(mem[from + i]);
        i += 1;
        assert(out@ =~= mem@.subrange(from as int, from + i));
    }
    out
}

/// Returns the text that a guest points at.
pub fn read_str(mem: &[u8], ptr: i32, len: i32) -> (r: String)
    ensures
        r@ == utf8_lossy(pointed_at(mem@, ptr, len)),
{
    let bytes = read_bytes(mem, ptr, len);
    from_utf8_lossy(&bytes)
}

/// How many bytes of `len` fit a buffer of `max`; a negative `max` is taken for
/// the large number that its bits stand for.
pub open spec fn fitting(len: nat, max: i32) -> nat {
    if max >= 0 && len > max {
        max as nat
    } else {
        len
    }
}

/// The memory after `src` was copied to `dst`, as far as `max` allows.
pub open spec fn copied(mem: Seq<u8>, dst: i32, max: i32, src: Seq<u8>) -> Seq<u8> {
    let n = fitting(src.len(), max);
    if 0 <= dst && dst + n <= mem.len() {
        Seq::new(
            mem.len(),
            |i: int|
                if dst <= i < dst + n {
                    src[i - dst]
                } else {
                    mem[i]
                },
        )
    } else {
        mem
    }
}

/// What copying to a guest comes to: the memory after it, and the number that the guest
/// is told. That is how many bytes were copied, or -1 where the buffer does not all exist.
pub open spec fn handed(mem: Seq<u8>, dst: i32, max: i32, src: Seq<u8>) -> (Seq<u8>, i32) {
    let n = fitting(src.len(), max);
    (
        copied(mem, dst, max, src),
        if 0 <= dst && dst + n <= mem.len() {
            n as i32
        } else {
            -1i32
        },
    )
}

/// Copies `src` to a guest's buffer of `max` bytes at `dst`. Returns how many bytes
/// were copied, or -1 where the buffer does not all exist.
pub fn write_bytes(mem: &mut [u8], dst: i32, max: i32, src: &Vec<u8>) -> (r: i32)
    ensures
        (final(mem)@, r) == handed(old(mem)@, dst, max, src@),
{
    let n: usize = if max >= 0 && src.len() > max as usize { max as usize } else { src.len() };
    if dst < 0 {
        return -1;
    }
    let to: usize = dst as usize;
    if n > mem.len() || to > mem.len() - n {
        return -1;
    }
    let ghost before = mem@;
    let mut i: usize = 0;
    while i < n
        invariant
            i <= n <= src@.len(),
            to + n <= mem@.len() == before.len(),
            to + n <= usize::MAX,
            mem@ == Seq::new(
                before.len(),
                |k: int|
                    if to <= k < to + i {
                        src@[k - to]
                    } else {
                        before[k]
                    },
            ),
        decreases n - i,
    {
        mem[to + i] = src[i];
        i += 1;
        assert(mem@ =~= Seq::new(
            before.len(),
            |k: int|
                if to <= k < to + i {
                    src@[k - to]
                } else {
                    before[k]
                },
        ));
    }
    assert(mem@ =~= copied(before, dst, max, src@));
    n as i32
}

/// A guest reads back from its buffer what the host copied there.
pub proof fn lemma_read_back(mem: Seq<u8>, dst: i32, max: i32, src: Seq<u8>)
    requires
        0 <= dst,
        fitting(src.len(), max) <= i32::MAX,
        dst + fitting(src.len(), max) <= mem.len(),
    ensures
        pointed_at(copied(mem, dst, max, src), dst, fitting(src.len(), max) as i32) == src.take(
            fitting(src.len(), max) as int,
        ),
{
    let n = fitting(src.len(), max);
    assert(pointed_at(copied(mem, dst, max, src), dst, n as i32) =~= src.take(n as int));
}

/// Copying changes nothing outside the buffer.
pub proof fn lemma_copy_stays_in_buffer(mem: Seq<u8>, dst: i32, max: i32, src: Seq<u8>, i: int)
    requires
        0 <= i < mem.len(),
        !(dst <= i < dst + fitting(src.len(), max)),
    ensures
        copied(mem, dst, max, src).len() == mem.len(),
        copied(mem, dst, max, src)[i] == mem[i],
{
}

/// Returns what a guest reads of a text into a buffer of `max` bytes.
pub fn guest_text(s: &str, max: usize) -> (r: String)
    ensures
        r@ == utf8_lossy(clipped(encode_utf8(s@), max as int)),
        encode_utf8(s@).len() <= max ==> r@ == s@,
{
    let all = s.as_bytes_vec();
    let bytes = clip(&all, max);
    let r = from_utf8_lossy(&bytes);
    proof {
        if encode_utf8(s@).len() <= max {
            encode_utf8_valid_utf8(s@);
            encode_utf8_decode_utf8(s@);
            encode_utf8_decode_utf8(r@);
        }
    }
    r
}

/// What is handed over is written as far as the guest's buffer takes it, and the guest hears
/// how much that is; where its memory does not reach that far, nothing is written, and it
/// hears that.
pub proof fn lemma_guest_hears_how_much(mem: Seq<u8>, dst: i32, max: i32, src: Seq<u8>)
    requires
        src.len() <= i32::MAX,
        max >= 0,
    ensures
        ({
            let n: int = if src.len() <= max {
                src.len() as int
            } else {
                max as int
            };
            let r = handed(mem, dst, max, src);
            &&& 0 <= dst && dst + n <= mem.len() ==> r.1 == n && r.0.len() == mem.len()
                && r.0.subrange(dst as int, dst + n) == src.take(n) && r.0.take(dst as int)
                == mem.take(dst as int) && r.0.skip(dst + n) == mem.skip(dst + n)
            &&& !(0 <= dst && dst + n <= mem.len()) ==> r == (mem, -1i32)
        }),
{
    let n: int = if src.len() <= max {
        src.len() as int
    } else {
        max as int
    };
    let r = handed(mem, dst, max, src);
    if 0 <= dst && dst + n <= mem.len() {
        assert(r.0.subrange(dst as int, dst + n) =~= src.take(n));
        assert(r.0.take(dst as int) =~= mem.take(dst as int));
        assert(r.0.skip(dst + n) =~= mem.skip(dst + n));
    }
}

/// What a guest points at is read where it points, if its memory reaches that far, and
/// nothing otherwise.
pub proof fn lemma_pointed_at(a: Seq<u8>, b: Seq<u8>, c: Seq<u8>, ptr: i32, len: i32)
    ensures
        a.len() == ptr && b.len() == len ==> pointed_at(a + b + c, ptr, len) == b,
        ptr < 0 || len < 0 || ptr + len > a.len() ==> pointed_at(a, ptr, len).len() == 0,
{
    if a.len() == ptr && b.len() == len {
        assert((a + b + c).subrange(ptr as int, ptr + len) =~= b);
    }
}

} // verus!

//! PNG files with uncompressed image data.
use vstd::prelude::*;

verus! {

// ── Numbers as bytes ─────────────────────────────────────────────────────────

/// The four bytes of a number, the most significant first.
pub open spec fn be32(n: int) -> Seq<u8> {
    seq![
        (n / 16777216 % 256) as u8,
        (n / 65536 % 256) as u8,
        (n / 256 % 256) as u8,
        (n % 256) as u8,
    ]
}

/// The two bytes of a number, the least significant first.
pub open spec fn le16(n: int) -> Seq<u8> {
    seq![(n % 256) as u8, (n / 256 % 256) as u8]
}

fn push_be32(out: &mut Vec<u8>, n: u32)
    ensures
        final(out)@ == old(out)@ + be32(n as int),
{
    let ghost before = out@;
    out.push((n / 16777216 % 256) as u8);
    out.push((n / 65536 % 256) as u8);
    out.push((n / 256 % 256) as u8);
    out.push((n % 256) as u8);
    assert(out@ =~= before + be32(n as int));
}

fn push_le16(out: &mut Vec<u8>, n: u16)
    ensures
        final(out)@ == old(out)@ + le16(n as int),
{
    let ghost before = out@;
    out.push((n % 256) as u8);
    out.push((n / 256 % 256) as u8);
    assert(out@ =~= before + le16(n as int));
}

fn push_range(out: &mut Vec<u8>, data: &Vec<u8>, from: usize, to: usize)
    requires
        from <= to <= data@.len(),
    ensures
        final(out)@ == old(out)@ + data@.subrange(from as int, to as int),
{
    let ghost before = out@;
    let mut i: usize = from;
    assert(out@ =~= before + data@.subrange(from as int, from as int));
    while i < to
        invariant
            from <= i <= to <= data@.len(),
            out@ == before + data@.subrange(from as int, i as int),
        decreases to - i,
    {
        out.push(data[i]);
        i += 1;
        assert(out@ =~= before + data@.subrange(from as int, i as int));
    }
}

// ── Checksums ────────────────────────────────────────────────────────────────

/// The polynomial of the checksum over a chunk, its bits reversed.
pub const CRC_POLYNOMIAL: u32 = 0xEDB8_8320;

/// The remainder after one more bit.
pub open spec fn crc_shift(c: u32) -> u32 {
    if c & 1 == 1 {
        (c >> 1) ^ CRC_POLYNOMIAL
    } else {
        c >> 1
    }
}

/// The remainder after `n` more bits.
pub open spec fn crc_shifts(c: u32, n: nat) -> u32
    decreases n,
{
    if n == 0 {
        c
    } else {
        crc_shift(crc_shifts(c, (n - 1) as nat))
    }
}

/// The remainder after all bytes.
pub open spec fn crc_remainder(data: Seq<u8>) -> u32
    decreases data.len(),
{
    if data.len() == 0 {
        0xFFFF_FFFF
    } else {
        crc_shifts(crc_remainder(data.drop_last()) ^ (data.last() as u32), 8)
    }
}

/// The checksum of a chunk.
pub open spec fn crc(data: Seq<u8>) -> u32 {
    !crc_remainder(data)
}

/// Returns the checksum of a chunk.
pub fn crc32(data: &Vec<u8>) -> (r: u32)
    ensures
        r == crc(data@),
{
    let mut c: u32 = 0xFFFF_FFFF;
    let mut i: usize = 0;
    assert(data@.take(0) =~= Seq::empty());
    while i < data.len()
        invariant
            i <= data@.len(),
            c == crc_remainder(data@.take(i as int)),
        decreases data.len() - i,
    {
        assert(data@.take(i + 1).drop_last() =~= data@.take(i as int));
        let start: u32 = c ^ (data[i] as u32);
        c = start;
        let mut k: u32 = 0;
        while k < 8
            invariant
                k <= 8,
                c == crc_shifts(start, k as nat),
            decreases 8 - k,
        {
            c = if c & 1 == 1 {
                (c >> 1) ^ CRC_POLYNOMIAL
            } else {
                c >> 1
            };
            k += 1;
        }
        i += 1;
    }
    assert(data@.take(i as int) =~= data@);
    !c
}

/// The modulus of the checksum over a stream.
pub const ADLER_MODULUS: u32 = 65521;

/// One more than the sum of the bytes.
pub open spec fn byte_sum(data: Seq<u8>) -> nat
    decreases data.len(),
{
    if data.len() == 0 {
        1
    } else {
        byte_sum(data.drop_last()) + data.last() as nat
    }
}

/// The sum of what [`byte_sum`] is after each byte.
pub open spec fn running_sum(data: Seq<u8>) -> nat
    decreases data.len(),
{
    if data.len() == 0 {
        0
    } else {
        running_sum(data.drop_last()) + byte_sum(data)
    }
}

/// The checksum of a stream.
pub open spec fn adler(data: Seq<u8>) -> int {
    (running_sum(data) as int % ADLER_MODULUS as int) * 65536 + byte_sum(data) as int
        % ADLER_MODULUS as int
}

/// Returns the checksum of a stream.
pub fn adler32(data: &Vec<u8>) -> (r: u32)
    ensures
        r == adler(data@),
{
    let mut a: u32 = 1;
    let mut b: u32 = 0;
    let mut i: usize = 0;
    assert(data@.take(0) =~= Seq::empty());
    while i < data.len()
        invariant
            i <= data@.len(),
            a < 65521,
            b < 65521,
            a == byte_sum(data@.take(i as int)) % 65521,
            b == running_sum(data@.take(i as int)) % 65521,
        decreases data.len() - i,
    {
        let ghost before = data@.take(i as int);
        assert(data@.take(i + 1).drop_last() =~= before);
        let x: u32 = data[i] as u32;
        a = (a + x) % ADLER_MODULUS;
        b = (b + a) % ADLER_MODULUS;
        i += 1;
    }
    assert(data@.take(i as int) =~= data@);
    b * 65536 + a
}

// ── The stream ───────────────────────────────────────────────────────────────

/// The most bytes of a block.
pub const BLOCK_MAX: usize = 65535;

/// A block that holds its bytes as they are.
pub open spec fn block(last: bool, part: Seq<u8>) -> Seq<u8> {
    seq![
        if last {
            1u8
        } else {
            0u8
        },
    ] + le16(part.len() as int) + le16(65535 - part.len()) + part
}

/// The blocks of a stream.
pub open spec fn blocks(raw: Seq<u8>) -> Seq<u8>
    decreases raw.len(),
{
    if raw.len() <= BLOCK_MAX {
        block(true, raw)
    } else {
        block(false, raw.take(BLOCK_MAX as int)) + blocks(raw.skip(BLOCK_MAX as int))
    }
}

/// The stream that holds the bytes as they are.
pub open spec fn stored_stream(raw: Seq<u8>) -> Seq<u8> {
    seq![0x78u8, 0x01u8] + blocks(raw) + be32(adler(raw))
}

/// How many blocks hold a number of bytes: one at least, and each as full as it can be.
pub open spec fn block_count(n: int) -> int {
    if n == 0 {
        1
    } else {
        (n + 65534) / 65535
    }
}

/// How many bytes a stream takes that holds a number of bytes as they are.
pub open spec fn stream_len(n: int) -> int {
    n + 5 * block_count(n) + 6
}

/// How much the blocks of a stream take: five bytes each, beside what they hold.
pub proof fn lemma_blocks_len(raw: Seq<u8>)
    ensures
        blocks(raw).len() == raw.len() + 5 * block_count(raw.len() as int),
    decreases raw.len(),
{
    if raw.len() > BLOCK_MAX {
        lemma_blocks_len(raw.skip(BLOCK_MAX as int));
    }
}

/// Returns the stream that holds the bytes as they are.
pub fn zlib_stored(raw: &Vec<u8>) -> (z: Vec<u8>)
    ensures
        z@ == stored_stream(raw@),
{
    let mut z: Vec<u8> = Vec::new();
    z.push(0x78);
    z.push(0x01);
    let ghost head = seq![0x78u8, 0x01u8];
    assert(z@ =~= head);
    let mut i: usize = 0;
    assert(raw@.skip(0) =~= raw@);
    assert(z@ + blocks(raw@.skip(0)) =~= head + blocks(raw@));
    while raw.len() - i > BLOCK_MAX
        invariant
            i <= raw@.len(),
            raw@.len() == raw.len(),
            z@ + blocks(raw@.skip(i as int)) == head + blocks(raw@),
        decreases raw.len() - i,
    {
        let ghost before = z@;
        let ghost rest = raw@.skip(i as int);
        z.push(0);
        push_le16(&mut z, 65535);
        push_le16(&mut z, 0);
        push_range(&mut z, raw, i, i + BLOCK_MAX);
        assert(raw@.subrange(i as int, i + BLOCK_MAX) =~= rest.take(BLOCK_MAX as int));
        assert(z@ =~= before + block(false, rest.take(BLOCK_MAX as int)));
        i += BLOCK_MAX;
        assert(raw@.skip(i as int) =~= rest.skip(BLOCK_MAX as int));
        assert(z@ + blocks(raw@.skip(i as int)) =~= before + blocks(rest));
    }
    let ghost before = z@;
    let ghost rest = raw@.skip(i as int);
    let n: u16 = (raw.len() - i) as u16;
    z.push(1);
    push_le16(&mut z, n);
    push_le16(&mut z, 65535 - n);
    push_range(&mut z, raw, i, raw.len());
    assert(raw@.subrange(i as int, raw@.len() as int) =~= rest);
    assert(z@ =~= before + block(true, rest));
    push_be32(&mut z, adler32(raw));
    assert(z@ =~= stored_stream(raw@));
    z
}

/// What a reader makes of blocks: the bytes they hold, and what follows the last one.
pub open spec fn read_blocks(z: Seq<u8>) -> Option<(Seq<u8>, Seq<u8>)>
    decreases z.len(),
{
    if z.len() < 5 || z[0] > 1 {
        None
    } else {
        let n = z[1] + 256 * z[2];
        if n + z[3] + 256 * z[4] != 65535 || z.len() < 5 + n {
            None
        } else {
            let part = z.subrange(5, 5 + n);
            let rest = z.skip(5 + n);
            if z[0] == 1 {
                Some((part, rest))
            } else {
                match read_blocks(rest) {
                    Some(p) => Some((part + p.0, p.1)),
                    None => None,
                }
            }
        }
    }
}

proof fn lemma_read_block(last: bool, part: Seq<u8>, rest: Seq<u8>)
    requires
        part.len() <= BLOCK_MAX,
    ensures
        ({
            let z = block(last, part) + rest;
            let n = part.len() as int;
            &&& z.len() >= 5 + n
            &&& z[0] == if last {
                1u8
            } else {
                0u8
            }
            &&& z[1] + 256 * z[2] == n
            &&& n + z[3] + 256 * z[4] == 65535
            &&& z.subrange(5, 5 + n) == part
            &&& z.skip(5 + n) == rest
        }),
{
    let z = block(last, part) + rest;
    let n = part.len() as int;
    let m = 65535 - n;
    assert(z[1] == (n % 256) as u8);
    assert(z[2] == (n / 256 % 256) as u8);
    assert(z[3] == (m % 256) as u8);
    assert(z[4] == (m / 256 % 256) as u8);
    assert(z.subrange(5, 5 + n) =~= part);
    assert(z.skip(5 + n) =~= rest);
}

/// A reader gets back the bytes that a stream was made of.
pub proof fn lemma_stored_stream_round_trip(raw: Seq<u8>, rest: Seq<u8>)
    ensures
        read_blocks(blocks(raw) + rest) == Some((raw, rest)),
    decreases raw.len(),
{
    if raw.len() <= BLOCK_MAX {
        lemma_read_block(true, raw, rest);
    } else {
        let part = raw.take(BLOCK_MAX as int);
        let more = raw.skip(BLOCK_MAX as int);
        lemma_read_block(false, part, blocks(more) + rest);
        assert(blocks(raw) + rest =~= block(false, part) + (blocks(more) + rest));
        lemma_stored_stream_round_trip(more, rest);
        assert(part + more =~= raw);
    }
}

// ── The file ─────────────────────────────────────────────────────────────────

/// A chunk of a file: its length, its kind, its data, and a checksum.
pub open spec fn chunk_bytes(kind: Seq<u8>, data: Seq<u8>) -> Seq<u8> {
    be32(data.len() as int) + kind + data + be32(crc(kind + data) as int)
}

/// Appends a chunk.
pub fn chunk(out: &mut Vec<u8>, kind: &Vec<u8>, data: &Vec<u8>)
    requires
        data@.len() <= u32::MAX,
    ensures
        final(out)@ == old(out)@ + chunk_bytes(kind@, data@),
{
    let ghost before = out@;
    push_be32(out, data.len() as u32);
    let mut covered: Vec<u8> = Vec::new();
    push_range(&mut covered, kind, 0, kind.len());
    push_range(&mut covered, data, 0, data.len());
    assert(covered@ =~= kind@ + data@);
    push_range(out, &covered, 0, covered.len());
    push_be32(out, crc32(&covered));
    assert(out@ =~= before + chunk_bytes(kind@, data@));
}

/// The rows of an image, each behind a byte that says it is not filtered.
pub open spec fn scanlines(stride: int, h: nat, rgba: Seq<u8>) -> Seq<u8>
    decreases h,
{
    if h == 0 {
        Seq::empty()
    } else {
        scanlines(stride, (h - 1) as nat, rgba).push(0) + rgba.subrange(
            (h - 1) * stride,
            h * stride,
        )
    }
}

/// How much the rows of an image take.
pub proof fn lemma_scanlines_len(stride: int, h: nat, rgba: Seq<u8>)
    requires
        stride >= 0,
        h * stride <= rgba.len(),
    ensures
        scanlines(stride, h, rgba).len() == h * (stride + 1),
    decreases h,
{
    if h > 0 {
        assert((h - 1) * stride <= h * stride) by (nonlinear_arith)
            requires
                stride >= 0,
        ;
        assert(h * stride - (h - 1) * stride == stride) by (nonlinear_arith);
        assert(h * (stride + 1) == (h - 1) * (stride + 1) + stride + 1) by (nonlinear_arith);
        assert(0 <= (h - 1) * stride) by (nonlinear_arith)
            requires
                stride >= 0,
                h >= 1,
        ;
        lemma_scanlines_len(stride, (h - 1) as nat, rgba);
    } else {
        assert(h * (stride + 1) == 0) by (nonlinear_arith)
            requires
                h == 0,
        ;
    }
}

/// The bytes with which every file begins.
pub open spec fn signature() -> Seq<u8> {
    seq![0x89u8, 0x50u8, 0x4Eu8, 0x47u8, 0x0Du8, 0x0Au8, 0x1Au8, 0x0Au8]
}

/// The header of an image with eight bits of red, green, blue and alpha.
pub open spec fn header(w: int, h: int) -> Seq<u8> {
    be32(w) + be32(h) + seq![8u8, 6u8, 0u8, 0u8, 0u8]
}

/// The file of an image.
pub open spec fn png_bytes(w: int, h: int, rgba: Seq<u8>) -> Seq<u8> {
    signature() + chunk_bytes(seq![0x49u8, 0x48u8, 0x44u8, 0x52u8], header(w, h)) + chunk_bytes(
        seq![0x49u8, 0x44u8, 0x41u8, 0x54u8],
        stored_stream(scanlines(w * 4, h as nat, rgba)),
    ) + chunk_bytes(seq![0x49u8, 0x45u8, 0x4Eu8, 0x44u8], Seq::empty())
}

fn four(a: u8, b: u8, c: u8, d: u8) -> (v: Vec<u8>)
    ensures
        v@ == seq![a, b, c, d],
{
    let mut v: Vec<u8> = Vec::new();
    v.push(a);
    v.push(b);
    v.push(c);
    v.push(d);
    assert(v@ =~= seq![a, b, c, d]);
    v
}

fn header_of(w: u32, h: u32) -> (v: Vec<u8>)
    ensures
        v@ == header(w as int, h as int),
{
    let mut v: Vec<u8> = Vec::new();
    push_be32(&mut v, w);
    push_be32(&mut v, h);
    v.push(8);
    v.push(6);
    v.push(0);
    v.push(0);
    v.push(0);
    assert(v@ =~= header(w as int, h as int));
    v
}

fn scanlines_of(stride: usize, h: usize, rgba: &Vec<u8>) -> (raw: Vec<u8>)
    requires
        h * stride <= rgba@.len(),
    ensures
        raw@ == scanlines(stride as int, h as nat, rgba@),
{
    let mut raw: Vec<u8> = Vec::new();
    let mut y: usize = 0;
    let mut at: usize = 0;
    while y < h
        invariant
            y <= h,
            at == y * stride,
            h * stride <= rgba@.len(),
            rgba@.len() == rgba.len(),
            raw@ == scanlines(stride as int, y as nat, rgba@),
        decreases h - y,
    {
        assert((y + 1) * stride == y * stride + stride) by (nonlinear_arith);
        assert((y + 1) * stride <= h * stride) by (nonlinear_arith)
            requires
                y + 1 <= h,
                stride >= 0,
        ;
        raw.push(0);
        push_range(&mut raw, rgba, at, at + stride);
        y += 1;
        at += stride;
    }
    raw
}

/// Returns the file of an image: `w` by `h` pixels, four bytes each.
pub fn encode_png(w: u32, h: u32, rgba: &Vec<u8>) -> (png: Vec<u8>)
    requires
        w * 4 <= u32::MAX,
        h * (w * 4) <= rgba@.len(),
        stream_len(h * (w * 4 + 1)) <= u32::MAX,
    ensures
        png@ == png_bytes(w as int, h as int, rgba@),
{
    let stride: usize = (w * 4) as usize;
    let raw = scanlines_of(stride, h as usize, rgba);
    proof {
        lemma_scanlines_len(stride as int, h as nat, rgba@);
        lemma_blocks_len(raw@);
    }
    let mut png: Vec<u8> = Vec::new();
    png.push(0x89);
    png.push(0x50);
    png.push(0x4E);
    png.push(0x47);
    png.push(0x0D);
    png.push(0x0A);
    png.push(0x1A);
    png.push(0x0A);
    assert(png@ =~= signature());
    let z = zlib_stored(&raw);
    chunk(&mut png, &four(0x49, 0x48, 0x44, 0x52), &header_of(w, h));
    chunk(&mut png, &four(0x49, 0x44, 0x41, 0x54), &z);
    let nothing: Vec<u8> = Vec::new();
    assert(nothing@ =~= Seq::empty());
    chunk(&mut png, &four(0x49, 0x45, 0x4E, 0x44), &nothing);
    png
}

/// Four bytes with the greatest first stand for their number.
pub proof fn lemma_four_bytes(n: int)
    requires
        0 <= n <= u32::MAX,
    ensures
        be32(n).len() == 4,
        be32(n)[0] * 16777216 + be32(n)[1] * 65536 + be32(n)[2] * 256 + be32(n)[3] == n,
{
}

/// Each row of a picture comes behind a byte that is zero, in its order and as it is.
pub proof fn lemma_row_of_a_picture(stride: int, h: nat, rgba: Seq<u8>, y: int)
    requires
        stride >= 0,
        h * stride <= rgba.len(),
        0 <= y < h,
    ensures
        scanlines(stride, h, rgba)[y * (stride + 1)] == 0,
        scanlines(stride, h, rgba).subrange(y * (stride + 1) + 1, (y + 1) * (stride + 1))
            == rgba.subrange(y * stride, (y + 1) * stride),
    decreases h,
{
    let m = (h - 1) as nat;
    let all = scanlines(stride, h, rgba);
    let before = scanlines(stride, m, rgba);
    assert((h - 1) * stride <= h * stride) by (nonlinear_arith)
        requires
            stride >= 0,
    ;
    assert(h * stride - (h - 1) * stride == stride) by (nonlinear_arith);
    assert(0 <= (h - 1) * stride) by (nonlinear_arith)
        requires
            stride >= 0,
            h >= 1,
    ;
    assert((y + 1) * (stride + 1) == y * (stride + 1) + stride + 1) by (nonlinear_arith);
    assert((y + 1) * stride == y * stride + stride) by (nonlinear_arith);
    assert(0 <= y * (stride + 1)) by (nonlinear_arith)
        requires
            stride >= 0,
            y >= 0,
    ;
    lemma_scanlines_len(stride, m, rgba);
    lemma_scanlines_len(stride, h, rgba);
    if y < m {
        lemma_row_of_a_picture(stride, m, rgba, y);
        assert((y + 1) * (stride + 1) <= m * (stride + 1)) by (nonlinear_arith)
            requires
                y + 1 <= m,
                stride >= 0,
        ;
        let a = y * (stride + 1);
        assert(all[a] == before[a]);
        assert(all.subrange(a + 1, a + stride + 1) =~= before.subrange(a + 1, a + stride + 1));
    } else {
        let a = y * (stride + 1);
        assert(a == before.len());
        assert(all.subrange(a + 1, a + stride + 1) =~= rgba.subrange(y * stride, y * stride + stride));
    }
}

/// A chunk is how long its data is, its kind, its data and the checksum of its kind and its
/// data.
pub proof fn lemma_chunk_pieces(kind: Seq<u8>, data: Seq<u8>)
    requires
        kind.len() == 4,
        data.len() <= u32::MAX,
    ensures
        ({
            let c = chunk_bytes(kind, data);
            let n = data.len() as int;
            &&& c.len() == n + 12
            &&& c[0] * 16777216 + c[1] * 65536 + c[2] * 256 + c[3] == n
            &&& c.subrange(4, 8) == kind
            &&& c.subrange(8, 8 + n) == data
            &&& c[8 + n] * 16777216 + c[9 + n] * 65536 + c[10 + n] * 256 + c[11 + n] == crc(
                c.subrange(4, 8 + n),
            )
        }),
{
    let c = chunk_bytes(kind, data);
    let n = data.len() as int;
    lemma_four_bytes(n);
    lemma_four_bytes(crc(kind + data) as int);
    assert(c.subrange(4, 8) =~= kind);
    assert(c.subrange(8, 8 + n) =~= data);
    assert(c.subrange(4, 8 + n) =~= kind + data);
    assert(c[0] == be32(n)[0] && c[1] == be32(n)[1] && c[2] == be32(n)[2] && c[3] == be32(n)[3]);
    let s = be32(crc(kind + data) as int);
    assert(c[8 + n] == s[0] && c[9 + n] == s[1] && c[10 + n] == s[2] && c[11 + n] == s[3]);
}

/// The checksum counts each byte, and where it stands: one more byte adds itself to the first
/// sum, and the first sum to the second.
pub proof fn lemma_each_byte_is_summed(data: Seq<u8>, b: u8)
    ensures
        byte_sum(Seq::empty()) == 1 && running_sum(Seq::empty()) == 0,
        byte_sum(data.push(b)) == byte_sum(data) + b,
        running_sum(data.push(b)) == running_sum(data) + byte_sum(data) + b,
{
    assert(data.push(b).drop_last() =~= data);
}

#[verifier::spinoff_prover]
#[verifier::rlimit(40)]
proof fn lemma_two_sums(hi: int, lo: int)
    requires
        0 <= hi < 65521,
        0 <= lo < 65521,
    ensures
        be32(hi * 65536 + lo)[0] * 256 + be32(hi * 65536 + lo)[1] == hi,
        be32(hi * 65536 + lo)[2] * 256 + be32(hi * 65536 + lo)[3] == lo,
{
    let n = hi * 65536 + lo;
    let a = hi / 256;
    let b = hi % 256;
    let c = lo / 256;
    let d = lo % 256;
    assert(hi == a * 256 + b && lo == c * 256 + d);
    assert(0 <= a < 256 && 0 <= b < 256 && 0 <= c < 256 && 0 <= d < 256);
    assert(n == a * 16777216 + b * 65536 + c * 256 + d);
    assert(n / 16777216 == a);
    assert(n / 65536 == a * 256 + b);
    assert(n / 256 == a * 65536 + b * 256 + c);
    assert(n % 256 == d);
}

/// A stream says how it is stored, holds what it was made of, and ends with the two sums of
/// its bytes, the second one first.
#[verifier::spinoff_prover]
#[verifier::rlimit(40)]
pub proof fn lemma_stream_holds_its_bytes(raw: Seq<u8>)
    ensures
        ({
            let z = stored_stream(raw);
            let sums = be32(adler(raw));
            &&& z[0] == 0x78 && z[1] == 0x01
            &&& (z[0] * 256 + z[1]) % 31 == 0
            &&& read_blocks(z.skip(2)) == Some((raw, sums))
            &&& sums[0] * 256 + sums[1] == running_sum(raw) as int % 65521
            &&& sums[2] * 256 + sums[3] == byte_sum(raw) as int % 65521
        }),
{
    let z = stored_stream(raw);
    assert(z.skip(2) =~= blocks(raw) + be32(adler(raw)));
    lemma_stored_stream_round_trip(raw, be32(adler(raw)));
    lemma_two_sums(running_sum(raw) as int % 65521, byte_sum(raw) as int % 65521);
}

/// A picture's file begins with what marks it, says its width and its height and that its
/// pixels are of four bytes, and ends with the mark of its end.
pub proof fn lemma_picture_says_its_size(w: u32, h: u32, rgba: Seq<u8>)
    ensures
        ({
            let p = png_bytes(w as int, h as int, rgba);
            &&& p.take(8) == seq![0x89u8, 0x50u8, 0x4Eu8, 0x47u8, 0x0Du8, 0x0Au8, 0x1Au8, 0x0Au8]
            &&& p.subrange(12, 16) == seq![0x49u8, 0x48u8, 0x44u8, 0x52u8]
            &&& p[16] * 16777216 + p[17] * 65536 + p[18] * 256 + p[19] == w
            &&& p[20] * 16777216 + p[21] * 65536 + p[22] * 256 + p[23] == h
            &&& p[24] == 8 && p[25] == 6
            &&& p.subrange(p.len() - 8, p.len() - 4) == seq![0x49u8, 0x45u8, 0x4Eu8, 0x44u8]
        }),
{
    let p = png_bytes(w as int, h as int, rgba);
    let head = chunk_bytes(seq![0x49u8, 0x48u8, 0x44u8, 0x52u8], header(w as int, h as int));
    let data = chunk_bytes(
        seq![0x49u8, 0x44u8, 0x41u8, 0x54u8],
        stored_stream(scanlines(w * 4, h as nat, rgba)),
    );
    let last = chunk_bytes(seq![0x49u8, 0x45u8, 0x4Eu8, 0x44u8], Seq::empty());
    lemma_four_bytes(w as int);
    lemma_four_bytes(h as int);
    assert(p == signature() + head + data + last);
    assert(p.take(8) =~= signature());
    assert(p.subrange(8, 8 + head.len() as int) =~= head);
    assert(head.len() == 25);
    let hd = header(w as int, h as int);
    assert(head.subrange(8, 21) =~= hd);
    assert(head.subrange(4, 8) =~= seq![0x49u8, 0x48u8, 0x44u8, 0x52u8]);
    assert(p.subrange(12, 16) =~= seq![0x49u8, 0x48u8, 0x44u8, 0x52u8]);
    assert forall|i: int| 0 <= i < 13 implies p[16 + i] == #[trigger] hd[i] by {
        assert(head.subrange(8, 21)[i] == hd[i]);
        assert(p.subrange(8, 33)[8 + i] == head[8 + i]);
    }
    assert(hd[0] == be32(w as int)[0] && hd[1] == be32(w as int)[1] && hd[2] == be32(w as int)[2]
        && hd[3] == be32(w as int)[3]);
    assert(hd[4] == be32(h as int)[0] && hd[5] == be32(h as int)[1] && hd[6] == be32(h as int)[2]
        && hd[7] == be32(h as int)[3]);
    assert(hd[8] == 8 && hd[9] == 6);
    assert(last.len() == 12);
    assert(p.subrange(p.len() - 8, p.len() - 4) =~= seq![0x49u8, 0x45u8, 0x4Eu8, 0x44u8]);
}

} // verus!

//! The short names that single-file apps use: packed colors, named values, requests,
//! and pixels written straight into a buffer of bytes.
use vstd::prelude::*;
use vstd::arithmetic::div_mod::lemma_fundamental_div_mod_converse;
use vstd::utf8::encode_utf8;
use crate::color::{packed, Color};
use crate::net::{after_answer, answer, text_answer, Answer, Fetches, TextAnswer, MAX_REPLY};
use crate::pixel::{area_bytes, in_block, in_disc};
use crate::storage::{clip, clipped, maybe_text, text_from, utf8_text, Store};

verus! {

/// Packs four channels.
pub fn rgba(r: u8, g: u8, b: u8, a: u8) -> (c: i32)
    ensures
        c == packed(r, g, b, a),
{
    Color::rgba(r, g, b, a).0
}

/// Gives a name a text as its value.
pub fn store_str(store: &mut Store, key: &str, val: &str)
    requires
        old(store).wf(),
    ensures
        final(store).wf(),
        final(store)@ == old(store)@.insert(key@, encode_utf8(val@)),
{
    crate::storage::set_str(store, key, val);
}

/// Gives a name its value.
pub fn store(store: &mut Store, key: &str, val: &Vec<u8>)
    requires
        old(store).wf(),
    ensures
        final(store).wf(),
        final(store)@ == old(store)@.insert(key@, val@),
{
    crate::storage::set(store, key, val);
}

/// The most bytes of a text that an app reads at once.
pub const MAX_TEXT: usize = 4096;

/// The value of a name as text: nothing where the name is unknown, or where the part that
/// is read is not valid UTF-8.
pub fn load_str(store: &Store, key: &str) -> (r: Option<String>)
    requires
        store.wf(),
    ensures
        maybe_text(r) == if store@.contains_key(key@) {
            utf8_text(clipped(store@[key@], MAX_TEXT as int))
        } else {
            None
        },
{
    match store.get(key) {
        Some(v) => text_from(clip(v, MAX_TEXT)),
        None => None,
    }
}

/// The text of the clipboard, as far as an app reads it.
pub fn clip_read(clipboard: &Option<String>) -> (r: Option<String>)
    ensures
        maybe_text(r) == match clipboard {
            Some(t) => if t@.len() == 0 {
                None
            } else {
                utf8_text(clipped(encode_utf8(t@), MAX_TEXT as int))
            },
            None => None,
        },
{
    crate::sys::paste(clipboard)
}

/// What an app gets of a reply that it waited for.
pub fn http_get(reply: &Option<Vec<u8>>) -> (r: Option<Vec<u8>>)
    ensures
        match r {
            Some(b) => reply is Some && b@ == clipped(reply->0@, MAX_REPLY as int),
            None => reply is None,
        },
{
    crate::net::fetch(reply)
}

/// The reply to a request, if it is there.
pub fn http_poll(fetches: &mut Fetches, id: i32) -> (r: Option<Vec<u8>>)
    ensures
        final(fetches)@ == after_answer(old(fetches)@, id),
        match r {
            Some(b) => answer(old(fetches)@, id) == Answer::Done(b@),
            None => !(answer(old(fetches)@, id) is Done),
        },
{
    crate::net::poll(fetches, id)
}

/// What an app gets of a reply that it waited for, as text.
pub fn http_get_str(reply: &Option<Vec<u8>>) -> (r: Option<String>)
    ensures
        maybe_text(r) == match reply {
            Some(b) => utf8_text(clipped(b@, MAX_REPLY as int)),
            None => None,
        },
{
    crate::net::fetch_str(reply)
}

/// The reply to a request as text, if it is there.
pub fn http_poll_str(fetches: &mut Fetches, id: i32) -> (r: Option<String>)
    ensures
        final(fetches)@ == after_answer(old(fetches)@, id),
        match r {
            Some(s) => text_answer(answer(old(fetches)@, id)) == TextAnswer::Done(s@),
            None => !(text_answer(answer(old(fetches)@, id)) is Done),
        },
{
    crate::net::poll_str(fetches, id)
}

// ── Pixels in a buffer of bytes ──────────────────────────────────────────────

/// Four channels in the order of their bytes.
#[derive(Clone, Copy, Debug, PartialEq, Eq, Structural)]
pub struct Rgba {
    pub r: u8,
    pub g: u8,
    pub b: u8,
    pub a: u8,
}

/// The channel at a byte of a pixel.
pub open spec fn channel(c: Rgba, i: int) -> u8 {
    if i == 0 {
        c.r
    } else if i == 1 {
        c.g
    } else if i == 2 {
        c.b
    } else {
        c.a
    }
}

/// Whether byte `k` belongs to a whole pixel whose point, in rows of `w`, satisfies
/// `on`.
pub open spec fn byte_on(len: int, w: int, on: spec_fn(int, int) -> bool, k: int) -> bool {
    w > 0 && (k / 4) * 4 + 4 <= len && on((k / 4) % w, (k / 4) / w)
}

/// The buffer with the points that satisfy `on` in one color.
pub open spec fn drawn(
    bytes: Seq<u8>,
    w: int,
    on: spec_fn(int, int) -> bool,
    c: Rgba,
) -> Seq<u8> {
    Seq::new(
        bytes.len(),
        |k: int|
            if byte_on(bytes.len() as int, w, on, k) {
                channel(c, k % 4)
            } else {
                bytes[k]
            },
    )
}

/// Gives the buffer the size of an area. Bytes keep their place; new ones are zero.
pub fn px_resize(fb: &mut Vec<u8>, w: i32, h: i32)
    requires
        0 <= w,
        0 <= h,
        area_bytes(w as int, h as int) <= i32::MAX,
    ensures
        final(fb)@ == Seq::new(
            area_bytes(w as int, h as int) as nat,
            |i: int|
                if i < old(fb)@.len() {
                    old(fb)@[i]
                } else {
                    0u8
                },
        ),
{
    assert(0 <= w * h * 4 && w * h <= i32::MAX) by (nonlinear_arith)
        requires
            0 <= w,
            0 <= h,
            w * h * 4 <= i32::MAX,
    ;
    let need: usize = (w * h * 4) as usize;
    let ghost before = fb@;
    if fb.len() != need {
        fb.resize(need, 0);
    }
    assert(fb@ =~= Seq::new(
        need as nat,
        |i: int|
            if i < before.len() {
                before[i]
            } else {
                0u8
            },
    ));
}

proof fn lemma_point_of_index(w: int, x: int, y: int, p: int)
    requires
        0 <= x < w,
        p == y * w + x,
    ensures
        p % w == x,
        p / w == y,
{
    assert(p == y * w + x);
    lemma_fundamental_div_mod_converse(p, w, y, x);
}

/// Writes one pixel of rows of `w`, if the buffer holds all of it.
fn write_pixel(fb: &mut Vec<u8>, w: i32, x: i32, y: i32, c: Rgba)
    requires
        0 <= x < w,
        0 <= y,
    ensures
        final(fb)@ == drawn(old(fb)@, w as int, |u: int, v: int| u == x && v == y, c),
{
    let ghost before = fb@;
    assert(0 <= y * w <= 0x4000_0000_0000_0000) by (nonlinear_arith)
        requires
            0 <= y <= i32::MAX,
            0 < w <= i32::MAX,
    ;
    let p: u64 = y as u64 * w as u64 + x as u64;
    let on: Ghost<spec_fn(int, int) -> bool> = Ghost(|u: int, v: int| u == x && v == y);
    proof {
        assert forall|k: int| 0 <= k < before.len() implies byte_on(
            before.len() as int,
            w as int,
            on@,
            k,
        ) == (k / 4 == p && (k / 4) * 4 + 4 <= before.len()) by {
            if k / 4 == p {
                lemma_point_of_index(w as int, x as int, y as int, k / 4);
            } else if (k / 4) % (w as int) == x && (k / 4) / (w as int) == y {
                vstd::arithmetic::div_mod::lemma_fundamental_div_mod(k / 4, w as int);
                assert(w * ((k / 4) / (w as int)) == y * w) by (nonlinear_arith)
                    requires
                        (k / 4) / (w as int) == y,
                ;
            }
        }
    }
    if p < (fb.len() / 4) as u64 {
        let o: usize = p as usize * 4;
        fb.set(o, c.r);
        fb.set(o + 1, c.g);
        fb.set(o + 2, c.b);
        fb.set(o + 3, c.a);
    }
    assert(fb@ =~= drawn(before, w as int, on@, c));
}

/// Writes one pixel; a point outside the rows or the buffer is left alone.
pub fn px_set(fb: &mut Vec<u8>, w: i32, x: i32, y: i32, r: u8, g: u8, b: u8, a: u8)
    ensures
        final(fb)@ == drawn(
            old(fb)@,
            w as int,
            |u: int, v: int| u == x && v == y && 0 <= y,
            (Rgba { r, g, b, a }),
        ),
{
    let ghost before = fb@;
    if x < 0 || y < 0 || x >= w {
        proof {
            lemma_drawn_nothing(
                before,
                w as int,
                |u: int, v: int| u == x && v == y && 0 <= y,
                Rgba { r, g, b, a },
            );
        }
        return;
    }
    write_pixel(fb, w, x, y, Rgba { r, g, b, a });
    assert(fb@ =~= drawn(
        before,
        w as int,
        |u: int, v: int| u == x && v == y && 0 <= y,
        Rgba { r, g, b, a },
    ));
}

/// Gives the buffer the size of an area and every pixel one opaque color.
pub fn px_clear(fb: &mut Vec<u8>, w: i32, h: i32, r: u8, g: u8, b: u8)
    requires
        0 <= w,
        0 <= h,
        area_bytes(w as int, h as int) <= i32::MAX,
    ensures
        final(fb)@ == Seq::new(
            area_bytes(w as int, h as int) as nat,
            |k: int| channel((Rgba { r, g, b, a: 255 }), k % 4),
        ),
{
    assert(0 <= w * h * 4 && w * h <= i32::MAX) by (nonlinear_arith)
        requires
            0 <= w,
            0 <= h,
            w * h * 4 <= i32::MAX,
    ;
    let n: usize = (w * h) as usize;
    let need: usize = (w * h * 4) as usize;
    if fb.len() != need {
        fb.resize(need, 255);
    }
    let ghost c = Rgba { r, g, b, a: 255 };
    let mut i: usize = 0;
    while i < n
        invariant
            i <= n,
            need == n * 4,
            need <= i32::MAX,
            fb@.len() == need,
            c == (Rgba { r, g, b, a: 255 }),
            forall|k: int| 0 <= k < i * 4 ==> #[trigger] fb@[k] == channel(c, k % 4),
        decreases n - i,
    {
        let o: usize = i * 4;
        fb.set(o, r);
        fb.set(o + 1, g);
        fb.set(o + 2, b);
        fb.set(o + 3, 255);
        i += 1;
    }
    assert(fb@ =~= Seq::new(need as nat, |k: int| channel(c, k % 4)));
}

proof fn lemma_drawn_twice(
    before: Seq<u8>,
    mid: Seq<u8>,
    after: Seq<u8>,
    w: int,
    on: spec_fn(int, int) -> bool,
    more: spec_fn(int, int) -> bool,
    all: spec_fn(int, int) -> bool,
    c: Rgba,
)
    requires
        mid == drawn(before, w, on, c),
        after == drawn(mid, w, more, c),
        forall|x: int, y: int| 0 <= x < w && 0 <= y ==> #[trigger] all(x, y) == (on(x, y) || more(x, y)),
    ensures
        after == drawn(before, w, all, c),
{
    assert forall|k: int| 0 <= k < before.len() implies #[trigger] after[k] == drawn(
        before,
        w,
        all,
        c,
    )[k] by {
        if w > 0 {
            let x = (k / 4) % w;
            let y = (k / 4) / w;
            assert(0 <= x < w && 0 <= y) by (nonlinear_arith)
                requires
                    w > 0,
                    0 <= k,
                    x == (k / 4) % w,
                    y == (k / 4) / w,
            ;
            assert(all(x, y) == (on(x, y) || more(x, y)));
        }
        assert(mid[k] == drawn(before, w, on, c)[k]);
    }
    assert(after =~= drawn(before, w, all, c));
}

proof fn lemma_drawn_nothing(bytes: Seq<u8>, w: int, on: spec_fn(int, int) -> bool, c: Rgba)
    requires
        forall|x: int, y: int| 0 <= x < w && 0 <= y ==> !#[trigger] on(x, y),
    ensures
        drawn(bytes, w, on, c) == bytes,
{
    assert forall|k: int| 0 <= k < bytes.len() implies !byte_on(bytes.len() as int, w, on, k) by {
        if w > 0 {
            let x = (k / 4) % w;
            let y = (k / 4) / w;
            assert(0 <= x < w && 0 <= y) by (nonlinear_arith)
                requires
                    w > 0,
                    0 <= k,
                    x == (k / 4) % w,
                    y == (k / 4) / w,
            ;
            assert(!on(x, y));
        }
    }
    assert(drawn(bytes, w, on, c) =~= bytes);
}

/// Whether a point of an area of `w` by `h` lies in a block.
pub open spec fn clipped_block(
    w: int,
    h: int,
    x0: int,
    y0: int,
    x1: int,
    y1: int,
    x: int,
    y: int,
) -> bool {
    0 <= x < w && 0 <= y < h && in_block(x0, y0, x1, y1, x, y)
}

/// Fills a rectangle, clipped to an area of `w` by `h`.
pub fn px_rect(
    fb: &mut Vec<u8>,
    w: i32,
    h: i32,
    x0: i32,
    y0: i32,
    rw: i32,
    rh: i32,
    r: u8,
    g: u8,
    b: u8,
    a: u8,
)
    ensures
        final(fb)@ == drawn(
            old(fb)@,
            w as int,
            |x: int, y: int|
                clipped_block(w as int, h as int, x0 as int, y0 as int, x0 + rw, y0 + rh, x, y),
            (Rgba { r, g, b, a }),
        ),
{
    let c = Rgba { r, g, b, a };
    let left: i64 = if x0 < 0 { 0 } else { x0 as i64 };
    let top: i64 = if y0 < 0 { 0 } else { y0 as i64 };
    let right: i64 = if x0 as i64 + rw as i64 > w as i64 { w as i64 } else { x0 as i64 + rw as i64 };
    let bottom: i64 = if y0 as i64 + rh as i64 > h as i64 { h as i64 } else {
        y0 as i64 + rh as i64
    };
    let ghost before = fb@;
    let mut y: i64 = top;
    proof {
        lemma_drawn_nothing(before, w as int, |u: int, v: int| left <= u < right && top <= v < y, c);
    }
    while y < bottom
        invariant
            0 <= left,
            0 <= top <= y,
            y <= bottom || y == top,
            right <= w,
            bottom <= h,
            fb@ == drawn(
                before,
                w as int,
                |u: int, v: int| left <= u < right && top <= v < y,
                c,
            ),
        decreases bottom - y,
    {
        let ghost row = fb@;
        let mut x: i64 = left;
        proof {
            lemma_drawn_nothing(row, w as int, |u: int, v: int| left <= u < x && v == y, c);
        }
        while x < right
            invariant
                0 <= left <= x,
                x <= right || x == left,
                right <= w,
                0 <= y < h,
                fb@ == drawn(row, w as int, |u: int, v: int| left <= u < x && v == y, c),
            decreases right - x,
        {
            let ghost now = fb@;
            write_pixel(fb, w, x as i32, y as i32, c);
            proof {
                lemma_drawn_twice(
                    row,
                    now,
                    fb@,
                    w as int,
                    |u: int, v: int| left <= u < x && v == y,
                    |u: int, v: int| u == x as i32 && v == y as i32,
                    |u: int, v: int| left <= u < x + 1 && v == y,
                    c,
                );
            }
            x += 1;
        }
        proof {
            lemma_drawn_twice(
                before,
                row,
                fb@,
                w as int,
                |u: int, v: int| left <= u < right && top <= v < y,
                |u: int, v: int| left <= u < x && v == y,
                |u: int, v: int| left <= u < right && top <= v < y + 1,
                c,
            );
        }
        y += 1;
    }
    proof {
        lemma_drawn_nothing(fb@, w as int, |u: int, v: int| false, c);
        lemma_drawn_twice(
            before,
            fb@,
            fb@,
            w as int,
            |u: int, v: int| left <= u < right && top <= v < y,
            |u: int, v: int| false,
            |u: int, v: int|
                clipped_block(w as int, h as int, x0 as int, y0 as int, x0 + rw, y0 + rh, u, v),
            c,
        );
    }
}

/// Whether a point of an area of `w` by `h` lies in a disc.
pub open spec fn clipped_disc(
    w: int,
    h: int,
    cx: int,
    cy: int,
    rad: int,
    x: int,
    y: int,
) -> bool {
    0 <= x < w && 0 <= y < h && in_disc(cx, cy, rad, x, y)
}

/// Draws a filled circle, clipped to an area of `w` by `h`.
pub fn px_circle(
    fb: &mut Vec<u8>,
    w: i32,
    h: i32,
    cx: i32,
    cy: i32,
    rad: i32,
    r: u8,
    g: u8,
    b: u8,
    a: u8,
)
    ensures
        final(fb)@ == drawn(
            old(fb)@,
            w as int,
            |x: int, y: int|
                clipped_disc(w as int, h as int, cx as int, cy as int, rad as int, x, y),
            (Rgba { r, g, b, a }),
        ),
{
    let c = Rgba { r, g, b, a };
    let (ox, oy, rr) = (cx as i64, cy as i64, rad as i64);
    let left: i64 = if ox - rr < 0 { 0 } else { ox - rr };
    let top: i64 = if oy - rr < 0 { 0 } else { oy - rr };
    let right: i64 = if ox + rr + 1 > w as i64 { w as i64 } else { ox + rr + 1 };
    let bottom: i64 = if oy + rr + 1 > h as i64 { h as i64 } else { oy + rr + 1 };
    let ghost before = fb@;
    let mut y: i64 = top;
    proof {
        lemma_drawn_nothing(
            before,
            w as int,
            |u: int, v: int|
                left <= u < right && top <= v < y && in_disc(cx as int, cy as int, rad as int, u, v),
            c,
        );
    }
    while y < bottom
        invariant
            ox == cx,
            oy == cy,
            rr == rad,
            0 <= left,
            0 <= top <= y,
            y <= bottom || y == top,
            right <= w,
            bottom <= h,
            fb@ == drawn(
                before,
                w as int,
                |u: int, v: int|
                    left <= u < right && top <= v < y && in_disc(
                        cx as int,
                        cy as int,
                        rad as int,
                        u,
                        v,
                    ),
                c,
            ),
        decreases bottom - y,
    {
        let ghost row = fb@;
        let mut x: i64 = left;
        proof {
            lemma_drawn_nothing(
                row,
                w as int,
                |u: int, v: int|
                    left <= u < x && v == y && in_disc(cx as int, cy as int, rad as int, u, v),
                c,
            );
        }
        while x < right
            invariant
                ox == cx,
                oy == cy,
                rr == rad,
                0 <= left <= x,
                x <= right || x == left,
                right <= w,
                0 <= y < h,
                fb@ == drawn(
                    row,
                    w as int,
                    |u: int, v: int|
                        left <= u < x && v == y && in_disc(cx as int, cy as int, rad as int, u, v),
                    c,
                ),
            decreases right - x,
        {
            let ghost now = fb@;
            let inside = crate::pixel::disc_holds(ox, oy, rr, x, y);
            if inside {
                write_pixel(fb, w, x as i32, y as i32, c);
            } else {
                proof {
                    lemma_drawn_nothing(now, w as int, |u: int, v: int| false, c);
                }
            }
            proof {
                if inside {
                    lemma_drawn_twice(
                        row,
                        now,
                        fb@,
                        w as int,
                        |u: int, v: int|
                            left <= u < x && v == y && in_disc(
                                cx as int,
                                cy as int,
                                rad as int,
                                u,
                                v,
                            ),
                        |u: int, v: int| u == x as i32 && v == y as i32,
                        |u: int, v: int|
                            left <= u < x + 1 && v == y && in_disc(
                                cx as int,
                                cy as int,
                                rad as int,
                                u,
                                v,
                            ),
                        c,
                    );
                } else {
                    lemma_drawn_twice(
                        row,
                        now,
                        fb@,
                        w as int,
                        |u: int, v: int|
                            left <= u < x && v == y && in_disc(
                                cx as int,
                                cy as int,
                                rad as int,
                                u,
                                v,
                            ),
                        |u: int, v: int| false,
                        |u: int, v: int|
                            left <= u < x + 1 && v == y && in_disc(
                                cx as int,
                                cy as int,
                                rad as int,
                                u,
                                v,
                            ),
                        c,
                    );
                }
            }
            x += 1;
        }
        proof {
            lemma_drawn_twice(
                before,
                row,
                fb@,
                w as int,
                |u: int, v: int|
                    left <= u < right && top <= v < y && in_disc(
                        cx as int,
                        cy as int,
                        rad as int,
                        u,
                        v,
                    ),
                |u: int, v: int|
                    left <= u < x && v == y && in_disc(cx as int, cy as int, rad as int, u, v),
                |u: int, v: int|
                    left <= u < right && top <= v < y + 1 && in_disc(
                        cx as int,
                        cy as int,
                        rad as int,
                        u,
                        v,
                    ),
                c,
            );
        }
        y += 1;
    }
    proof {
        lemma_drawn_nothing(fb@, w as int, |u: int, v: int| false, c);
        assert forall|u: int, v: int|
            0 <= u < w && 0 <= v implies #[trigger] clipped_disc(
            w as int,
            h as int,
            cx as int,
            cy as int,
            rad as int,
            u,
            v,
        ) == (left <= u < right && top <= v < y && in_disc(cx as int, cy as int, rad as int, u, v)) by {
            if in_disc(cx as int, cy as int, rad as int, u, v) {
                crate::pixel::lemma_disc_in_box(cx as int, cy as int, rad as int, u, v);
            }
        }
        lemma_drawn_twice(
            before,
            fb@,
            fb@,
            w as int,
            |u: int, v: int|
                left <= u < right && top <= v < y && in_disc(cx as int, cy as int, rad as int, u, v),
            |u: int, v: int| false,
            |u: int, v: int|
                clipped_disc(w as int, h as int, cx as int, cy as int, rad as int, u, v),
            c,
        );
    }
}

/// Drawing writes the red, the green, the blue and the opacity of each pixel that it covers,
/// in this order and where the pixel lies, and no byte of another pixel.
pub proof fn lemma_pixel_is_written_in_its_place(
    bytes: Seq<u8>,
    w: int,
    on: spec_fn(int, int) -> bool,
    c: Rgba,
    x: int,
    y: int,
)
    requires
        0 <= x < w,
        0 <= y,
        (y * w + x) * 4 + 4 <= bytes.len(),
    ensures
        ({
            let d = drawn(bytes, w, on, c);
            let o = (y * w + x) * 4;
            &&& d.len() == bytes.len()
            &&& on(x, y) ==> d[o] == c.r && d[o + 1] == c.g && d[o + 2] == c.b && d[o + 3] == c.a
            &&& !on(x, y) ==> d[o] == bytes[o] && d[o + 1] == bytes[o + 1] && d[o + 2] == bytes[o
                + 2] && d[o + 3] == bytes[o + 3]
        }),
{
    let p = y * w + x;
    let o = p * 4;
    assert(p >= 0) by (nonlinear_arith)
        requires
            p == y * w + x,
            0 <= y,
            0 <= x < w,
    ;
    lemma_point_of_index(w, x, y, p);
    assert(o / 4 == p && (o + 1) / 4 == p && (o + 2) / 4 == p && (o + 3) / 4 == p);
    assert(o % 4 == 0 && (o + 1) % 4 == 1 && (o + 2) % 4 == 2 && (o + 3) % 4 == 3);
}

/// What is drawn beyond the edges is cut off, and what lies within them is drawn.
pub proof fn lemma_drawing_is_cut_at_the_edges(
    w: int,
    h: int,
    a: (int, int),
    b: (int, int),
    rad: int,
    x: int,
    y: int,
)
    ensures
        clipped_block(w, h, a.0, a.1, b.0, b.1, x, y) ==> 0 <= x < w && 0 <= y < h,
        clipped_disc(w, h, a.0, a.1, rad, x, y) ==> 0 <= x < w && 0 <= y < h,
        0 <= x < w && 0 <= y < h ==> clipped_block(w, h, a.0, a.1, b.0, b.1, x, y) == (a.0 <= x
            && x < b.0 && a.1 <= y && y < b.1),
        0 <= x < w && 0 <= y < h ==> clipped_disc(w, h, a.0, a.1, rad, x, y) == in_disc(
            a.0,
            a.1,
            rad,
            x,
            y,
        ),
{
}

} // verus!

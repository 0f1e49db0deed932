//! A framebuffer of RGBA pixels, and drawing on it.
use vstd::prelude::*;
use crate::color::{alpha, blue, green, packed, red, Color};
use crate::color::{lemma_color_is_its_channels, lemma_packed_channels};

verus! {

/// Pixels in rows from the top, four bytes each: red, green, blue, alpha.
pub struct Framebuffer {
    pub w: i32,
    pub h: i32,
    pub bytes: Vec<u8>,
}

/// Where the bytes of a pixel begin.
pub open spec fn offset(w: int, x: int, y: int) -> int {
    (y * w + x) * 4
}

/// How many bytes an area takes.
pub open spec fn area_bytes(w: int, h: int) -> int {
    w * h * 4
}

/// Whether two different pixels' bytes lie apart, and all within the buffer.
proof fn lemma_offset(w: int, h: int, x: int, y: int)
    requires
        0 <= x < w,
        0 <= y < h,
    ensures
        0 <= offset(w, x, y),
        offset(w, x, y) + 4 <= area_bytes(w, h),
{
    assert(y * w + x < h * w) by (nonlinear_arith)
        requires
            0 <= x < w,
            0 <= y < h,
    ;
    assert(0 <= y * w) by (nonlinear_arith)
        requires
            0 <= w,
            0 <= y,
    ;
    assert(w * h == h * w) by (nonlinear_arith);
}

proof fn lemma_offset_apart(w: int, x: int, y: int, u: int, v: int)
    requires
        0 <= x < w,
        0 <= u < w,
        x != u || y != v,
    ensures
        offset(w, x, y) + 4 <= offset(w, u, v) || offset(w, u, v) + 4 <= offset(w, x, y),
{
    if y < v {
        assert(y * w + x < v * w + u) by (nonlinear_arith)
            requires
                y < v,
                0 <= x < w,
                0 <= u < w,
        ;
    } else if v < y {
        assert(v * w + u < y * w + x) by (nonlinear_arith)
            requires
                v < y,
                0 <= x < w,
                0 <= u < w,
        ;
    }
}

impl Framebuffer {
    /// Whether the buffer holds exactly its pixels.
    pub open spec fn wf(self) -> bool {
        &&& 0 <= self.w
        &&& 0 <= self.h
        &&& area_bytes(self.w as int, self.h as int) <= i32::MAX
        &&& self.bytes@.len() == area_bytes(self.w as int, self.h as int)
    }

    /// Whether a point is on the buffer.
    pub open spec fn inside(self, x: int, y: int) -> bool {
        0 <= x < self.w && 0 <= y < self.h
    }

    /// The color of the pixel at a point of the buffer.
    pub open spec fn at(self, x: int, y: int) -> i32 {
        let o = offset(self.w as int, x, y);
        packed(self.bytes@[o], self.bytes@[o + 1], self.bytes@[o + 2], self.bytes@[o + 3])
    }

    /// Whether this buffer is `before` with the points that satisfy `on` in one
    /// color, and every other pixel as it was.
    pub open spec fn painted(
        self,
        before: Framebuffer,
        on: spec_fn(int, int) -> bool,
        color: i32,
    ) -> bool {
        &&& self.wf()
        &&& self.w == before.w
        &&& self.h == before.h
        &&& forall|x: int, y: int|
            self.inside(x, y) ==> #[trigger] self.at(x, y) == if on(x, y) {
                color
            } else {
                before.at(x, y)
            }
    }
}

/// An empty framebuffer.
pub fn empty() -> (fb: Framebuffer)
    ensures
        fb.wf(),
        fb.w == 0,
        fb.h == 0,
{
    Framebuffer { w: 0, h: 0, bytes: Vec::new() }
}

/// Gives the buffer a size. Bytes keep their place; new ones are zero.
pub fn resize(fb: &mut Framebuffer, w: i32, h: i32)
    requires
        0 <= w,
        0 <= h,
        area_bytes(w as int, h as int) <= i32::MAX,
    ensures
        final(fb).wf(),
        final(fb).w == w,
        final(fb).h == h,
        final(fb).bytes@ == Seq::new(
            area_bytes(w as int, h as int) as nat,
            |i: int|
                if i < old(fb).bytes@.len() {
                    old(fb).bytes@[i]
                } else {
                    0u8
                },
        ),
{
    assert(0 <= w * h * 4 && w * h <= i32::MAX) by (nonlinear_arith)
        requires
            0 <= w,
            0 <= h,
            w * h * 4 <= i32::MAX,
    ;
    let need: usize = (w * h * 4) as usize;
    fb.w = w;
    fb.h = h;
    let ghost before = fb.bytes@;
    if fb.bytes.len() != need {
        fb.bytes.resize(need, 0);
    }
    assert(fb.bytes@ =~= Seq::new(
        need as nat,
        |i: int|
            if i < before.len() {
                before[i]
            } else {
                0u8
            },
    ));
}

/// Sets one pixel of the buffer.
fn plot(fb: &mut Framebuffer, x: i32, y: i32, color: Color)
    requires
        old(fb).wf(),
        old(fb).inside(x as int, y as int),
    ensures
        final(fb).painted(*old(fb), |u: int, v: int| u == x && v == y, color.0),
{
    let ghost w = fb.w as int;
    let ghost h = fb.h as int;
    let ghost before = *fb;
    proof {
        lemma_offset(w, h, x as int, y as int);
        lemma_color_is_its_channels(color.0);
    }
    assert(0 <= y * fb.w <= i32::MAX) by (nonlinear_arith)
        requires
            0 <= y < h,
            0 <= w == fb.w,
            w * h * 4 <= i32::MAX,
    ;
    let o: usize = ((y * fb.w + x) * 4) as usize;
    let p = color.parts();
    fb.bytes.set(o, p.0);
    fb.bytes.set(o + 1, p.1);
    fb.bytes.set(o + 2, p.2);
    fb.bytes.set(o + 3, p.3);
    proof {
        assert forall|u: int, v: int| fb.inside(u, v) implies #[trigger] fb.at(u, v) == if u == x && v
            == y {
            color.0
        } else {
            before.at(u, v)
        } by {
            lemma_offset(w, h, u, v);
            if u != x || v != y {
                lemma_offset_apart(w, x as int, y as int, u, v);
            }
        }
    }
}

/// Sets every pixel.
pub fn fill(fb: &mut Framebuffer, color: Color)
    requires
        old(fb).wf(),
    ensures
        final(fb).painted(*old(fb), |x: int, y: int| true, color.0),
{
    let (w, h) = (fb.w as i64, fb.h as i64);
    let ghost before = *fb;
    paint_block(fb, 0, 0, w, h, color);
    assert(fb.painted(before, |x: int, y: int| true, color.0));
}

/// Sets one pixel; a point outside is left alone.
pub fn put(fb: &mut Framebuffer, x: i32, y: i32, color: Color)
    requires
        old(fb).wf(),
    ensures
        final(fb).painted(*old(fb), |u: int, v: int| u == x && v == y, color.0),
{
    if x < 0 || y < 0 || x >= fb.w || y >= fb.h {
        return;
    }
    plot(fb, x, y, color);
}

/// Whether a point lies from one corner up to, not including, another.
pub open spec fn in_block(x0: int, y0: int, x1: int, y1: int, x: int, y: int) -> bool {
    x0 <= x < x1 && y0 <= y < y1
}

/// Paints the points from `(x0, y0)` up to, not including, `(x1, y1)`.
fn paint_block(fb: &mut Framebuffer, x0: i64, y0: i64, x1: i64, y1: i64, color: Color)
    requires
        old(fb).wf(),
    ensures
        final(fb).painted(
            *old(fb),
            |x: int, y: int| in_block(x0 as int, y0 as int, x1 as int, y1 as int, x, y),
            color.0,
        ),
{
    let w: i64 = fb.w as i64;
    let h: i64 = fb.h as i64;
    let left: i64 = if x0 < 0 { 0 } else { x0 };
    let top: i64 = if y0 < 0 { 0 } else { y0 };
    let right: i64 = if x1 > w { w } else { x1 };
    let bottom: i64 = if y1 > h { h } else { y1 };
    let ghost before = *fb;
    let mut y: i64 = top;
    while y < bottom
        invariant
            fb.wf(),
            fb.w == before.w == w,
            fb.h == before.h == h,
            0 <= left,
            0 <= top <= y,
            y <= bottom || y == top,
            right <= w,
            bottom <= h,
            fb.painted(
                before,
                |u: int, v: int| left <= u < right && top <= v < y,
                color.0,
            ),
        decreases bottom - y,
    {
        let ghost row = *fb;
        let mut x: i64 = left;
        while x < right
            invariant
                fb.wf(),
                fb.w == row.w == w,
                fb.h == row.h == h,
                0 <= left <= x,
                x <= right || x == left,
                right <= w,
                0 <= y < h,
                fb.painted(row, |u: int, v: int| left <= u < x && v == y, color.0),
            decreases right - x,
        {
            let ghost now = *fb;
            plot(fb, x as i32, y as i32, color);
            assert(fb.painted(row, |u: int, v: int| left <= u < x + 1 && v == y, color.0)) by {
                assert forall|u: int, v: int| fb.inside(u, v) implies #[trigger] fb.at(u, v)
                    == if left <= u < x + 1 && v == y {
                    color.0
                } else {
                    row.at(u, v)
                } by {
                    assert(now.inside(u, v));
                    assert(now.at(u, v) == if left <= u < x && v == y {
                        color.0
                    } else {
                        row.at(u, v)
                    });
                }
            }
            x += 1;
        }
        assert(fb.painted(before, |u: int, v: int| left <= u < right && top <= v < y + 1, color.0))
            by {
            assert forall|u: int, v: int| fb.inside(u, v) implies #[trigger] fb.at(u, v) == if left
                <= u < right && top <= v < y + 1 {
                color.0
            } else {
                before.at(u, v)
            } by {
                assert(row.inside(u, v));
                assert(row.at(u, v) == if left <= u < right && top <= v < y {
                    color.0
                } else {
                    before.at(u, v)
                });
            }
        }
        y += 1;
    }
    assert forall|u: int, v: int| fb.inside(u, v) implies #[trigger] fb.at(u, v) == if in_block(
        x0 as int,
        y0 as int,
        x1 as int,
        y1 as int,
        u,
        v,
    ) {
        color.0
    } else {
        before.at(u, v)
    } by {
        assert((left <= u < right && top <= v < y) == in_block(
            x0 as int,
            y0 as int,
            x1 as int,
            y1 as int,
            u,
            v,
        ));
    }
}

/// Paints a rectangle, clipped to the buffer.
pub fn rect(fb: &mut Framebuffer, x0: i32, y0: i32, rw: i32, rh: i32, color: Color)
    requires
        old(fb).wf(),
    ensures
        final(fb).painted(
            *old(fb),
            |x: int, y: int| in_block(x0 as int, y0 as int, x0 + rw, y0 + rh, x, y),
            color.0,
        ),
{
    paint_block(
        fb,
        x0 as i64,
        y0 as i64,
        x0 as i64 + rw as i64,
        y0 as i64 + rh as i64,
        color,
    );
}

/// Paints a horizontal line from `x0` up to, not including, `x1`.
pub fn hline(fb: &mut Framebuffer, y: i32, x0: i32, x1: i32, color: Color)
    requires
        old(fb).wf(),
    ensures
        final(fb).painted(*old(fb), |u: int, v: int| x0 <= u < x1 && v == y, color.0),
{
    let ghost before = *fb;
    paint_block(fb, x0 as i64, y as i64, x1 as i64, y as i64 + 1, color);
    assert(fb.painted(before, |u: int, v: int| x0 <= u < x1 && v == y, color.0));
}

/// Paints a vertical line from `y0` up to, not including, `y1`.
pub fn vline(fb: &mut Framebuffer, x: i32, y0: i32, y1: i32, color: Color)
    requires
        old(fb).wf(),
    ensures
        final(fb).painted(*old(fb), |u: int, v: int| u == x && y0 <= v < y1, color.0),
{
    let ghost before = *fb;
    paint_block(fb, x as i64, y0 as i64, x as i64 + 1, y1 as i64, color);
    assert(fb.painted(before, |u: int, v: int| u == x && y0 <= v < y1, color.0));
}

/// Whether a point is no further from the center than the radius.
pub open spec fn in_disc(cx: int, cy: int, rad: int, x: int, y: int) -> bool {
    rad >= 0 && (x - cx) * (x - cx) + (y - cy) * (y - cy) <= rad * rad
}

/// A disc lies within the box around it.
pub proof fn lemma_disc_in_box(cx: int, cy: int, rad: int, x: int, y: int)
    requires
        in_disc(cx, cy, rad, x, y),
    ensures
        cx - rad <= x <= cx + rad,
        cy - rad <= y <= cy + rad,
{
    let dx = x - cx;
    let dy = y - cy;
    assert(-rad <= dx <= rad) by (nonlinear_arith)
        requires
            rad >= 0,
            dx * dx + dy * dy <= rad * rad,
    ;
    assert(-rad <= dy <= rad) by (nonlinear_arith)
        requires
            rad >= 0,
            dx * dx + dy * dy <= rad * rad,
    ;
}

/// Whether a point is no further from the center than the radius.
pub(crate) fn disc_holds(cx: i64, cy: i64, rad: i64, x: i64, y: i64) -> (r: bool)
    requires
        -0x1_0000_0000 <= x - cx <= 0x1_0000_0000,
        -0x1_0000_0000 <= y - cy <= 0x1_0000_0000,
        -0x1_0000_0000 <= rad <= 0x1_0000_0000,
    ensures
        r == in_disc(cx as int, cy as int, rad as int, x as int, y as int),
{
    if rad < 0 {
        return false;
    }
    let dx: i128 = (x - cx) as i128;
    let dy: i128 = (y - cy) as i128;
    let r: i128 = rad as i128;
    assert(0 <= dx * dx <= 0x1_0000_0000_0000_0000) by (nonlinear_arith)
        requires
            -0x1_0000_0000 <= dx <= 0x1_0000_0000,
    ;
    assert(0 <= dy * dy <= 0x1_0000_0000_0000_0000) by (nonlinear_arith)
        requires
            -0x1_0000_0000 <= dy <= 0x1_0000_0000,
    ;
    assert(0 <= r * r <= 0x1_0000_0000_0000_0000) by (nonlinear_arith)
        requires
            -0x1_0000_0000 <= r <= 0x1_0000_0000,
    ;
    dx * dx + dy * dy <= r * r
}

/// Paints a filled circle, clipped to the buffer.
pub fn circle(fb: &mut Framebuffer, cx: i32, cy: i32, rad: i32, color: Color)
    requires
        old(fb).wf(),
    ensures
        final(fb).painted(
            *old(fb),
            |x: int, y: int| in_disc(cx as int, cy as int, rad as int, x, y),
            color.0,
        ),
{
    let w: i64 = fb.w as i64;
    let h: i64 = fb.h as i64;
    let (c, d, r) = (cx as i64, cy as i64, rad as i64);
    let left: i64 = if c - r < 0 { 0 } else { c - r };
    let top: i64 = if d - r < 0 { 0 } else { d - r };
    let right: i64 = if c + r + 1 > w { w } else { c + r + 1 };
    let bottom: i64 = if d + r + 1 > h { h } else { d + r + 1 };
    let ghost before = *fb;
    let mut y: i64 = top;
    while y < bottom
        invariant
            fb.wf(),
            fb.w == before.w == w,
            fb.h == before.h == h,
            c == cx,
            d == cy,
            r == rad,
            0 <= left,
            0 <= top <= y,
            y <= bottom || y == top,
            right <= w,
            bottom <= h,
            fb.painted(
                before,
                |u: int, v: int|
                    left <= u < right && top <= v < y && in_disc(c as int, d as int, r as int, u, v),
                color.0,
            ),
        decreases bottom - y,
    {
        let ghost row = *fb;
        let mut x: i64 = left;
        while x < right
            invariant
                fb.wf(),
                fb.w == row.w == w,
                fb.h == row.h == h,
                c == cx,
                d == cy,
                r == rad,
                0 <= left <= x,
                x <= right || x == left,
                right <= w,
                0 <= y < h,
                fb.painted(
                    row,
                    |u: int, v: int|
                        left <= u < x && v == y && in_disc(c as int, d as int, r as int, u, v),
                    color.0,
                ),
            decreases right - x,
        {
            let ghost now = *fb;
            if disc_holds(c, d, r, x, y) {
                plot(fb, x as i32, y as i32, color);
            }
            assert(fb.painted(
                row,
                |u: int, v: int|
                    left <= u < x + 1 && v == y && in_disc(c as int, d as int, r as int, u, v),
                color.0,
            )) by {
                assert forall|u: int, v: int| fb.inside(u, v) implies #[trigger] fb.at(u, v)
                    == if left <= u < x + 1 && v == y && in_disc(
                    c as int,
                    d as int,
                    r as int,
                    u,
                    v,
                ) {
                    color.0
                } else {
                    row.at(u, v)
                } by {
                    assert(now.inside(u, v));
                    assert(now.at(u, v) == if left <= u < x && v == y && in_disc(
                        c as int,
                        d as int,
                        r as int,
                        u,
                        v,
                    ) {
                        color.0
                    } else {
                        row.at(u, v)
                    });
                }
            }
            x += 1;
        }
        assert(fb.painted(
            before,
            |u: int, v: int|
                left <= u < right && top <= v < y + 1 && in_disc(c as int, d as int, r as int, u, v),
            color.0,
        )) by {
            assert forall|u: int, v: int| fb.inside(u, v) implies #[trigger] fb.at(u, v) == if left
                <= u < right && top <= v < y + 1 && in_disc(c as int, d as int, r as int, u, v) {
                color.0
            } else {
                before.at(u, v)
            } by {
                assert(row.inside(u, v));
                assert(row.at(u, v) == if left <= u < right && top <= v < y && in_disc(
                    c as int,
                    d as int,
                    r as int,
                    u,
                    v,
                ) {
                    color.0
                } else {
                    before.at(u, v)
                });
            }
        }
        y += 1;
    }
    assert forall|u: int, v: int| fb.inside(u, v) implies #[trigger] fb.at(u, v) == if in_disc(
        cx as int,
        cy as int,
        rad as int,
        u,
        v,
    ) {
        color.0
    } else {
        before.at(u, v)
    } by {
        if in_disc(cx as int, cy as int, rad as int, u, v) {
            lemma_disc_in_box(cx as int, cy as int, rad as int, u, v);
            assert(left <= u < right && top <= v < y);
        }
    }
}

/// The color of a pixel; transparent where the point is outside.
pub fn get(fb: &Framebuffer, x: i32, y: i32) -> (c: Color)
    requires
        fb.wf(),
    ensures
        c.0 == if fb.inside(x as int, y as int) {
            fb.at(x as int, y as int)
        } else {
            packed(0, 0, 0, 0)
        },
{
    if x < 0 || y < 0 || x >= fb.w || y >= fb.h {
        return Color::transparent();
    }
    let ghost w = fb.w as int;
    let ghost h = fb.h as int;
    proof {
        lemma_offset(w, h, x as int, y as int);
    }
    assert(0 <= y * fb.w <= i32::MAX) by (nonlinear_arith)
        requires
            0 <= y < h,
            0 <= w == fb.w,
            w * h * 4 <= i32::MAX,
    ;
    let o: usize = ((y * fb.w + x) * 4) as usize;
    Color::rgba(fb.bytes[o], fb.bytes[o + 1], fb.bytes[o + 2], fb.bytes[o + 3])
}

/// The pixels lie in rows from the top and from left to right, four bytes each, with nothing
/// between them.
pub proof fn lemma_pixels_lie_in_rows(w: int, x: int, y: int)
    ensures
        offset(w, 0, 0) == 0,
        offset(w, x + 1, y) == offset(w, x, y) + 4,
        offset(w, 0, y + 1) == offset(w, w - 1, y) + 4,
        area_bytes(w, y) == offset(w, 0, y),
{
    assert((y + 1) * w == y * w + w) by (nonlinear_arith);
    assert(0 * w == 0) by (nonlinear_arith);
    assert(y * w == w * y) by (nonlinear_arith);
}

/// A block holds its first corner and the last pixel before its far corner, and no pixel
/// beyond its edges.
pub proof fn lemma_block_edges(x0: int, y0: int, x1: int, y1: int)
    requires
        x0 < x1 && y0 < y1,
    ensures
        in_block(x0, y0, x1, y1, x0, y0),
        in_block(x0, y0, x1, y1, x1 - 1, y1 - 1),
        forall|y: int| !#[trigger] in_block(x0, y0, x1, y1, x0 - 1, y),
        forall|y: int| !#[trigger] in_block(x0, y0, x1, y1, x1, y),
        forall|x: int| !#[trigger] in_block(x0, y0, x1, y1, x, y0 - 1),
        forall|x: int| !#[trigger] in_block(x0, y0, x1, y1, x, y1),
{
}

/// A disc reaches as far as its radius in each of the four directions and no further, and
/// looks the same turned over either way.
pub proof fn lemma_disc_edges(cx: int, cy: int, rad: int, dx: int, dy: int)
    requires
        rad >= 0,
    ensures
        in_disc(cx, cy, rad, cx, cy),
        in_disc(cx, cy, rad, cx + rad, cy) && in_disc(cx, cy, rad, cx - rad, cy),
        in_disc(cx, cy, rad, cx, cy + rad) && in_disc(cx, cy, rad, cx, cy - rad),
        !in_disc(cx, cy, rad, cx + rad + 1, cy) && !in_disc(cx, cy, rad, cx - rad - 1, cy),
        !in_disc(cx, cy, rad, cx, cy + rad + 1) && !in_disc(cx, cy, rad, cx, cy - rad - 1),
        in_disc(cx, cy, rad, cx + dx, cy + dy) == in_disc(cx, cy, rad, cx - dx, cy + dy),
        in_disc(cx, cy, rad, cx + dx, cy + dy) == in_disc(cx, cy, rad, cx + dx, cy - dy),
        in_disc(cx, cy, rad, cx + dx, cy + dy) == in_disc(cx, cy, rad, cx + dy, cy + dx),
{
    assert(0 * 0 <= rad * rad) by (nonlinear_arith);
    assert((-rad) * (-rad) == rad * rad) by (nonlinear_arith);
    assert((rad + 1) * (rad + 1) > rad * rad) by (nonlinear_arith)
        requires
            rad >= 0,
    ;
    assert((-rad - 1) * (-rad - 1) > rad * rad) by (nonlinear_arith)
        requires
            rad >= 0,
    ;
    assert((-dx) * (-dx) == dx * dx) by (nonlinear_arith);
    assert((-dy) * (-dy) == dy * dy) by (nonlinear_arith);
}

/// Of two colors that are drawn one after the other a pixel has the later one where that
/// covers it, else the earlier one where that does, else what it had.
pub proof fn lemma_later_color_covers(
    a: Framebuffer,
    b: Framebuffer,
    c: Framebuffer,
    on: spec_fn(int, int) -> bool,
    over: spec_fn(int, int) -> bool,
    p: i32,
    q: i32,
    x: int,
    y: int,
)
    requires
        b.painted(a, on, p),
        c.painted(b, over, q),
        0 <= x < a.w,
        0 <= y < a.h,
    ensures
        c.w == a.w && c.h == a.h,
        c.at(x, y) == if over(x, y) {
            q
        } else if on(x, y) {
            p
        } else {
            a.at(x, y)
        },
{
    assert(b.inside(x, y) && c.inside(x, y));
}

/// The four bytes of a pixel are its red, its green, its blue and its opacity.
pub proof fn lemma_pixel_is_its_bytes(fb: Framebuffer, x: int, y: int)
    ensures
        ({
            let o = (y * fb.w + x) * 4;
            &&& red(fb.at(x, y)) == fb.bytes@[o]
            &&& green(fb.at(x, y)) == fb.bytes@[o + 1]
            &&& blue(fb.at(x, y)) == fb.bytes@[o + 2]
            &&& alpha(fb.at(x, y)) == fb.bytes@[o + 3]
        }),
{
    let o = (y * fb.w + x) * 4;
    lemma_packed_channels(fb.bytes@[o], fb.bytes@[o + 1], fb.bytes@[o + 2], fb.bytes@[o + 3]);
}

} // verus!

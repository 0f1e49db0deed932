//! How the pixel-art canvas looks.
use vstd::prelude::*;
use crate::canvas::{palette, palette_color, rgb, rgb_of, Canvas, Rgb};
use crate::canvas::{CANVAS_CELLS, SIDE};
use crate::color::{packed, Color};
use crate::pixel::{area_bytes, resize, Framebuffer};
use crate::scene::{covers, draw, top_color, Patch};
use crate::scene::lemma_later_lies_over;

verus! {

// ── Layout ───────────────────────────────────────────────────────────────────

/// The height of the bar at the top.
pub const TOP_H: i32 = 40;

/// The width of the palette.
pub const PAL_W: i32 = 80;

/// The least width and height with room for the canvas.
pub const MIN_W: i32 = 112;

/// The least height with room for the canvas.
pub const MIN_H: i32 = 72;

/// Where everything stands in a window of a size.
#[derive(Clone, Copy, Debug, PartialEq, Eq, Structural)]
pub struct Layout {
    pub w: i32,
    pub h: i32,
    /// The height of a colour of the palette.
    pub cell_h: i32,
    /// How many pixels across and down a cell takes.
    pub scale: i32,
    /// The corner of the canvas.
    pub left: i32,
    pub top: i32,
    /// The left edges of the two buttons.
    pub clear_x: i32,
    pub export_x: i32,
}

/// The smaller of two numbers.
pub open spec fn least(a: int, b: int) -> int {
    if a <= b {
        a
    } else {
        b
    }
}

/// How many pixels across and down a cell takes: as many as fit beside the palette and
/// below the bar.
pub open spec fn scale_of(w: int, h: int) -> int {
    least(w - PAL_W, h - TOP_H) / 32
}

/// The layout for a window: the canvas stands in the middle of its room.
pub open spec fn layout_of(w: int, h: int) -> Layout {
    Layout {
        w: w as i32,
        h: h as i32,
        cell_h: ((h - TOP_H) / 8) as i32,
        scale: scale_of(w, h) as i32,
        left: (PAL_W + (w - PAL_W - scale_of(w, h) * 32) / 2) as i32,
        top: (TOP_H + (h - TOP_H - scale_of(w, h) * 32) / 2) as i32,
        clear_x: (w - 62) as i32,
        export_x: if w >= 140 {
            (w - 140) as i32
        } else {
            0
        },
    }
}

/// Returns the layout for a window.
pub fn layout(w: i32, h: i32) -> (l: Layout)
    requires
        w >= MIN_W,
        h >= MIN_H,
    ensures
        l == layout_of(w as int, h as int),
{
    let room: i32 = if w - PAL_W <= h - TOP_H {
        w - PAL_W
    } else {
        h - TOP_H
    };
    let scale: i32 = room / 32;
    Layout {
        w,
        h,
        cell_h: (h - TOP_H) / 8,
        scale,
        left: PAL_W + (w - PAL_W - scale * 32) / 2,
        top: TOP_H + (h - TOP_H - scale * 32) / 2,
        clear_x: w - 62,
        export_x: if w >= 140 {
            w - 140
        } else {
            0
        },
    }
}

/// The canvas lies beside the palette and below the bar, within the window.
pub proof fn lemma_canvas_fits(w: i32, h: i32)
    requires
        w >= MIN_W,
        h >= MIN_H,
    ensures
        ({
            let l = layout_of(w as int, h as int);
            &&& l.scale >= 1
            &&& PAL_W <= l.left && l.left + 32 * l.scale <= w
            &&& TOP_H <= l.top && l.top + 32 * l.scale <= h
        }),
{
}

// ── The picture ──────────────────────────────────────────────────────────────

/// A patch with its colour by parts.
pub open spec fn patch(x: int, y: int, w: int, h: int, c: Rgb) -> Patch {
    Patch {
        x: x as i32,
        y: y as i32,
        w: w as i32,
        h: h as i32,
        color: Color(packed(c.r, c.g, c.b, 255)),
    }
}

fn add_patch(out: &mut Vec<Patch>, x: i32, y: i32, w: i32, h: i32, c: Rgb)
    ensures
        final(out)@ == old(out)@.push(patch(x as int, y as int, w as int, h as int, c)),
{
    out.push(Patch { x, y, w, h, color: Color::rgb(c.r, c.g, c.b) });
}

/// Red, green and blue as a colour.
pub open spec fn shade(r: u8, g: u8, b: u8) -> Rgb {
    Rgb { r, g, b }
}

/// What the picture depends on besides the canvas.
pub struct Pointer {
    pub over_export: bool,
    pub over_clear: bool,
    /// The cell under the pointer.
    pub cell: Option<(usize, usize)>,
}

/// The background, the bar at the top, and the colour in hand.
pub open spec fn frame_patches(l: Layout, sel: Rgb) -> Seq<Patch> {
    seq![
        patch(0, 0, l.w as int, l.h as int, shade(13, 17, 27)),
        patch(0, 0, l.w as int, 40, shade(20, 27, 44)),
        patch(0, 40, l.w as int, 1, shade(38, 52, 78)),
        patch(8, 6, 28, 28, shade(200, 200, 200)),
        patch(9, 7, 26, 26, sel),
    ]
}

/// A button with an edge.
pub open spec fn button_patches(x: int, w: int, edge: Rgb, face: Rgb) -> Seq<Patch> {
    seq![patch(x, 7, w, 26, edge), patch(x + 1, 8, w - 2, 24, face)]
}

/// The arrow on the export button, around the column `x`.
pub open spec fn arrow_patches(x: int) -> Seq<Patch> {
    let white = shade(255, 255, 255);
    seq![patch(x - 4, 17, 9, 1, white), patch(x, 17, 1, 5, white)] + Seq::new(
        10,
        |i: int|
            if i % 2 == 0 {
                patch(x - i / 2, 19 + i / 2, 1, 1, white)
            } else {
                patch(x + i / 2, 19 + i / 2, 1, 1, white)
            },
    )
}

/// The cross on the clear button, around the column `x`.
pub open spec fn cross_patches(x: int) -> Seq<Patch> {
    Seq::new(
        22,
        |i: int|
            if i % 2 == 0 {
                patch(x + i / 2 - 5, 20 + i / 2 - 5, 1, 1, shade(255, 255, 255))
            } else {
                patch(x + i / 2 - 5, 20 - (i / 2 - 5), 1, 1, shade(255, 255, 255))
            },
    )
}

/// The palette: an edge and a face for each colour, the one in hand with a white edge.
pub open spec fn palette_patches(l: Layout, selected: int) -> Seq<Patch> {
    Seq::new(
        32,
        |i: int|
            {
                let k = i / 2;
                let x = k % 2 * 40;
                let y = TOP_H + k / 2 * l.cell_h;
                if i % 2 == 0 {
                    patch(
                        x,
                        y,
                        40,
                        l.cell_h as int,
                        if k == selected {
                            shade(255, 255, 255)
                        } else {
                            shade(20, 27, 42)
                        },
                    )
                } else {
                    patch(x + 2, y + 2, 36, l.cell_h - 4, rgb_of(palette_color(k)))
                }
            },
    )
}

/// What an empty cell looks like: a checkerboard.
pub open spec fn empty_shade(cx: int, cy: int) -> Rgb {
    if (cx + cy) % 2 == 0 {
        shade(28, 34, 50)
    } else {
        shade(20, 26, 40)
    }
}

/// The canvas: for each cell an edge and a face. A painted cell has no edge of its own.
pub open spec fn cell_patches(l: Layout, cells: Seq<u32>) -> Seq<Patch> {
    Seq::new(
        2048,
        |i: int|
            {
                let k = i / 2;
                let x = l.left + k % 32 * l.scale;
                let y = l.top + k / 32 * l.scale;
                let c = cells[k];
                if i % 2 == 0 {
                    patch(
                        x,
                        y,
                        l.scale as int,
                        l.scale as int,
                        if c == 0 {
                            shade(18, 22, 34)
                        } else {
                            rgb_of(c)
                        },
                    )
                } else {
                    patch(
                        x + 1,
                        y + 1,
                        l.scale - 1,
                        l.scale - 1,
                        if c == 0 {
                            empty_shade(k % 32, k / 32)
                        } else {
                            rgb_of(c)
                        },
                    )
                }
            },
    )
}

/// The frame around the cell under the pointer.
pub open spec fn hover_patches(l: Layout, cell: Option<(usize, usize)>, sel: Rgb) -> Seq<Patch> {
    match cell {
        Some(c) => {
            let x = l.left + c.0 * l.scale;
            let y = l.top + c.1 * l.scale;
            let s = l.scale as int;
            seq![
                patch(x, y, s, 1, sel),
                patch(x, y + s - 1, s, 1, sel),
                patch(x, y, 1, s, sel),
                patch(x + s - 1, y, 1, s, sel),
            ]
        },
        None => Seq::empty(),
    }
}

/// All patches of the picture, from the bottom up.
pub open spec fn picture(l: Layout, c: Canvas, p: Pointer) -> Seq<Patch> {
    let sel = rgb_of(palette_color(c.selected as int));
    frame_patches(l, sel) + button_patches(
        l.export_x as int,
        72,
        if p.over_export {
            shade(100, 210, 110)
        } else {
            shade(80, 150, 85)
        },
        if p.over_export {
            shade(60, 180, 80)
        } else {
            shade(40, 120, 55)
        },
    ) + arrow_patches(l.export_x + 36) + button_patches(
        l.clear_x as int,
        56,
        if p.over_clear {
            shade(250, 80, 80)
        } else {
            shade(190, 60, 60)
        },
        if p.over_clear {
            shade(210, 60, 60)
        } else {
            shade(150, 40, 40)
        },
    ) + cross_patches(l.clear_x + 28) + palette_patches(l, c.selected as int) + seq![
        patch(80, 40, 1, l.h - 40, shade(38, 52, 78)),
    ] + cell_patches(l, c.cells@) + hover_patches(l, p.cell, sel)
}

fn rgb3(r: u8, g: u8, b: u8) -> (c: Rgb)
    ensures
        c == shade(r, g, b),
{
    Rgb { r, g, b }
}

fn add_frame(out: &mut Vec<Patch>, l: Layout, sel: Rgb)
    ensures
        final(out)@ == old(out)@ + frame_patches(l, sel),
{
    let ghost before = out@;
    add_patch(out, 0, 0, l.w, l.h, rgb3(13, 17, 27));
    add_patch(out, 0, 0, l.w, 40, rgb3(20, 27, 44));
    add_patch(out, 0, 40, l.w, 1, rgb3(38, 52, 78));
    add_patch(out, 8, 6, 28, 28, rgb3(200, 200, 200));
    add_patch(out, 9, 7, 26, 26, sel);
    assert(out@ =~= before + frame_patches(l, sel));
}

fn add_button(out: &mut Vec<Patch>, x: i32, w: i32, edge: Rgb, face: Rgb)
    requires
        0 <= x < i32::MAX,
        2 <= w,
    ensures
        final(out)@ == old(out)@ + button_patches(x as int, w as int, edge, face),
{
    let ghost before = out@;
    add_patch(out, x, 7, w, 26, edge);
    add_patch(out, x + 1, 8, w - 2, 24, face);
    assert(out@ =~= before + button_patches(x as int, w as int, edge, face));
}

fn add_arrow(out: &mut Vec<Patch>, x: i32)
    requires
        10 <= x <= i32::MAX - 10,
    ensures
        final(out)@ == old(out)@ + arrow_patches(x as int),
{
    let ghost before = out@;
    let ghost all = arrow_patches(x as int);
    add_patch(out, x - 4, 17, 9, 1, rgb3(255, 255, 255));
    add_patch(out, x, 17, 1, 5, rgb3(255, 255, 255));
    assert(out@ =~= before + all.take(2));
    let mut d: i32 = 0;
    while d < 5
        invariant
            0 <= d <= 5,
            10 <= x <= i32::MAX - 10,
            all == arrow_patches(x as int),
            out@ == before + all.take(2 + 2 * d),
        decreases 5 - d,
    {
        add_patch(out, x - d, 19 + d, 1, 1, rgb3(255, 255, 255));
        add_patch(out, x + d, 19 + d, 1, 1, rgb3(255, 255, 255));
        d += 1;
        assert(out@ =~= before + all.take(2 + 2 * d));
    }
    assert(all.take(12) =~= all);
}

fn add_cross(out: &mut Vec<Patch>, x: i32)
    requires
        10 <= x <= i32::MAX - 10,
    ensures
        final(out)@ == old(out)@ + cross_patches(x as int),
{
    let ghost before = out@;
    let ghost all = cross_patches(x as int);
    let mut k: i32 = 0;
    assert(out@ =~= before + all.take(0));
    while k < 11
        invariant
            0 <= k <= 11,
            10 <= x <= i32::MAX - 10,
            all == cross_patches(x as int),
            out@ == before + all.take(2 * k),
        decreases 11 - k,
    {
        let d: i32 = k - 5;
        add_patch(out, x + d, 20 + d, 1, 1, rgb3(255, 255, 255));
        add_patch(out, x + d, 20 - d, 1, 1, rgb3(255, 255, 255));
        k += 1;
        assert(out@ =~= before + all.take(2 * k));
    }
    assert(all.take(22) =~= all);
}

fn add_palette(out: &mut Vec<Patch>, l: Layout, selected: u32)
    requires
        4 <= l.cell_h,
        TOP_H + 8 * l.cell_h <= i32::MAX,
    ensures
        final(out)@ == old(out)@ + palette_patches(l, selected as int),
{
    let ghost before = out@;
    let ghost all = palette_patches(l, selected as int);
    let mut k: i32 = 0;
    assert(out@ =~= before + all.take(0));
    while k < 16
        invariant
            0 <= k <= 16,
            4 <= l.cell_h,
            TOP_H + 8 * l.cell_h <= i32::MAX,
            all == palette_patches(l, selected as int),
            out@ == before + all.take(2 * k),
        decreases 16 - k,
    {
        let x: i32 = k % 2 * 40;
        assert(0 <= k / 2 * l.cell_h <= 7 * l.cell_h) by (nonlinear_arith)
            requires
                0 <= k < 16,
                0 <= l.cell_h,
        ;
        let y: i32 = TOP_H + k / 2 * l.cell_h;
        let edge = if k as u32 == selected {
            rgb3(255, 255, 255)
        } else {
            rgb3(20, 27, 42)
        };
        let face = rgb(palette(k as u32));
        add_patch(out, x, y, 40, l.cell_h, edge);
        add_patch(out, x + 2, y + 2, 36, l.cell_h - 4, face);
        k += 1;
        assert(out@ =~= before + all.take(2 * k));
    }
    assert(all.take(32) =~= all);
}

fn add_cells(out: &mut Vec<Patch>, l: Layout, cells: &Vec<u32>)
    requires
        cells@.len() == CANVAS_CELLS,
        0 <= l.left,
        0 <= l.top,
        1 <= l.scale,
        l.left + 32 * l.scale <= i32::MAX,
        l.top + 32 * l.scale <= i32::MAX,
    ensures
        final(out)@ == old(out)@ + cell_patches(l, cells@),
{
    let ghost before = out@;
    let ghost all = cell_patches(l, cells@);
    let mut k: usize = 0;
    assert(out@ =~= before + all.take(0));
    while k < CANVAS_CELLS
        invariant
            k <= CANVAS_CELLS,
            cells@.len() == CANVAS_CELLS,
            0 <= l.left,
            0 <= l.top,
            1 <= l.scale,
            l.left + 32 * l.scale <= i32::MAX,
            l.top + 32 * l.scale <= i32::MAX,
            all == cell_patches(l, cells@),
            out@ == before + all.take(2 * k),
        decreases CANVAS_CELLS - k,
    {
        let cx: i32 = (k % 32) as i32;
        let cy: i32 = (k / 32) as i32;
        assert(0 <= cx * l.scale <= 31 * l.scale) by (nonlinear_arith)
            requires
                0 <= cx <= 31,
                1 <= l.scale,
        ;
        assert(0 <= cy * l.scale <= 31 * l.scale) by (nonlinear_arith)
            requires
                0 <= cy <= 31,
                1 <= l.scale,
        ;
        let x: i32 = l.left + cx * l.scale;
        let y: i32 = l.top + cy * l.scale;
        let c: u32 = cells[k];
        let (edge, face) = if c == 0 {
            (
                rgb3(18, 22, 34),
                if (cx + cy) % 2 == 0 {
                    rgb3(28, 34, 50)
                } else {
                    rgb3(20, 26, 40)
                },
            )
        } else {
            (rgb(c), rgb(c))
        };
        let ghost now = out@;
        add_patch(out, x, y, l.scale, l.scale, edge);
        add_patch(out, x + 1, y + 1, l.scale - 1, l.scale - 1, face);
        proof {
            let i = 2 * k as int;
            assert(i / 2 == k && i % 2 == 0 && (i + 1) / 2 == k && (i + 1) % 2 == 1);
            assert(out@[now.len() as int] == all[i]);
            assert(out@[now.len() as int + 1] == all[i + 1]);
        }
        k += 1;
        assert(out@ =~= before + all.take(2 * k));
    }
    assert(all.take(2048) =~= all);
}

fn add_hover(out: &mut Vec<Patch>, l: Layout, cell: Option<(usize, usize)>, sel: Rgb)
    requires
        0 <= l.left,
        0 <= l.top,
        1 <= l.scale,
        l.left + 32 * l.scale <= i32::MAX,
        l.top + 32 * l.scale <= i32::MAX,
        cell matches Some(c) ==> c.0 < SIDE && c.1 < SIDE,
    ensures
        final(out)@ == old(out)@ + hover_patches(l, cell, sel),
{
    let ghost before = out@;
    match cell {
        Some((a, b)) => {
            let cx: i32 = a as i32;
            let cy: i32 = b as i32;
            assert(0 <= cx * l.scale <= 31 * l.scale) by (nonlinear_arith)
                requires
                    0 <= cx <= 31,
                    1 <= l.scale,
            ;
            assert(0 <= cy * l.scale <= 31 * l.scale) by (nonlinear_arith)
                requires
                    0 <= cy <= 31,
                    1 <= l.scale,
            ;
            let x: i32 = l.left + cx * l.scale;
            let y: i32 = l.top + cy * l.scale;
            let s: i32 = l.scale;
            add_patch(out, x, y, s, 1, sel);
            add_patch(out, x, y + s - 1, s, 1, sel);
            add_patch(out, x, y, 1, s, sel);
            add_patch(out, x + s - 1, y, 1, s, sel);
        },
        None => {},
    }
    assert(out@ =~= before + hover_patches(l, cell, sel));
}

/// Returns the patches of the picture.
pub fn compose(l: Layout, c: &Canvas, p: &Pointer) -> (out: Vec<Patch>)
    requires
        l.w >= MIN_W,
        l.h >= MIN_H,
        l == layout_of(l.w as int, l.h as int),
        c.wf(),
        p.cell matches Some(k) ==> k.0 < SIDE && k.1 < SIDE,
    ensures
        out@ == picture(l, *c, *p),
{
    proof {
        lemma_canvas_fits(l.w, l.h);
    }
    let sel = rgb(palette(c.selected));
    let mut out: Vec<Patch> = Vec::new();
    add_frame(&mut out, l, sel);
    assert(out@ =~= frame_patches(l, sel));
    let (export_edge, export_face) = if p.over_export {
        (rgb3(100, 210, 110), rgb3(60, 180, 80))
    } else {
        (rgb3(80, 150, 85), rgb3(40, 120, 55))
    };
    add_button(&mut out, l.export_x, 72, export_edge, export_face);
    add_arrow(&mut out, l.export_x + 36);
    let (clear_edge, clear_face) = if p.over_clear {
        (rgb3(250, 80, 80), rgb3(210, 60, 60))
    } else {
        (rgb3(190, 60, 60), rgb3(150, 40, 40))
    };
    add_button(&mut out, l.clear_x, 56, clear_edge, clear_face);
    add_cross(&mut out, l.clear_x + 28);
    add_palette(&mut out, l, c.selected);
    let ghost before = out@;
    add_patch(&mut out, 80, 40, 1, l.h - 40, rgb3(38, 52, 78));
    assert(out@ =~= before + seq![patch(80, 40, 1, l.h - 40, shade(38, 52, 78))]);
    add_cells(&mut out, l, &c.cells);
    add_hover(&mut out, l, p.cell, sel);
    out
}

/// Draws the canvas on a buffer of the window's size.
pub fn render_pixels(fb: &mut Framebuffer, c: &Canvas, p: &Pointer, w: i32, h: i32)
    requires
        w >= MIN_W,
        h >= MIN_H,
        area_bytes(w as int, h as int) <= i32::MAX,
        c.wf(),
        p.cell matches Some(k) ==> k.0 < SIDE && k.1 < SIDE,
    ensures
        final(fb).wf(),
        final(fb).w == w,
        final(fb).h == h,
        forall|x: int, y: int|
            final(fb).inside(x, y) ==> top_color(
                picture(layout_of(w as int, h as int), *c, *p),
                x,
                y,
            ) == Some(#[trigger] final(fb).at(x, y)),
{
    let l = layout(w, h);
    let patches = compose(l, c, p);
    resize(fb, w, h);
    let ghost before = *fb;
    draw(fb, &patches);
    proof {
        assert forall|x: int, y: int| fb.inside(x, y) implies top_color(patches@, x, y) == Some(
            #[trigger] fb.at(x, y),
        ) by {
            lemma_everything_is_covered(l, *c, *p, x, y);
        }
    }
}

/// Every pixel of the window has a colour of its own.
pub proof fn lemma_everything_is_covered(l: Layout, c: Canvas, p: Pointer, x: int, y: int)
    requires
        0 <= x < l.w,
        0 <= y < l.h,
    ensures
        top_color(picture(l, c, p), x, y) is Some,
{
    let all = picture(l, c, p);
    let first = all.take(1);
    assert(all =~= first + all.skip(1));
    assert(first.last() == patch(0, 0, l.w as int, l.h as int, shade(13, 17, 27)));
    lemma_later_lies_over(first, all.skip(1), x, y);
}

proof fn lemma_top_color_is(patches: Seq<Patch>, x: int, y: int, color: i32, i: int)
    requires
        0 <= i < patches.len(),
        covers(patches[i], x, y),
        forall|j: int|
            0 <= j < patches.len() && covers(#[trigger] patches[j], x, y) ==> patches[j].color.0
                == color,
    ensures
        top_color(patches, x, y) == Some(color),
    decreases patches.len(),
{
    let last = patches.len() - 1;
    assert(patches[last] == patches.last());
    if !covers(patches.last(), x, y) {
        let d = patches.drop_last();
        assert(d[i] == patches[i]);
        assert forall|j: int| 0 <= j < d.len() && covers(#[trigger] d[j], x, y) implies d[j].color.0
            == color by {
            assert(d[j] == patches[j]);
        }
        lemma_top_color_is(d, x, y, color, i);
    }
}

proof fn lemma_same_stretch(a: int, b: int, s: int, t: int)
    requires
        a * s <= t < a * s + s,
        b * s <= t < b * s + s,
        s > 0,
    ensures
        a == b,
{
    if a < b {
        assert((a + 1) * s <= b * s) by (nonlinear_arith)
            requires
                a + 1 <= b,
                s > 0,
        ;
        assert((a + 1) * s == a * s + s) by (nonlinear_arith);
    } else if b < a {
        assert((b + 1) * s <= a * s) by (nonlinear_arith)
            requires
                b + 1 <= a,
                s > 0,
        ;
        assert((b + 1) * s == b * s + s) by (nonlinear_arith);
    }
}

proof fn lemma_stretch_fits(k: int, s: int)
    requires
        0 <= k < 32,
        s > 0,
    ensures
        0 <= k * s,
        k * s + s <= 32 * s,
{
    assert(0 <= k * s) by (nonlinear_arith)
        requires
            0 <= k,
            s > 0,
    ;
    assert((k + 1) * s <= 32 * s) by (nonlinear_arith)
        requires
            k + 1 <= 32,
            s > 0,
    ;
    assert((k + 1) * s == k * s + s) by (nonlinear_arith);
}

/// A painted cell shows its color in the whole of its square, the pointer being elsewhere:
/// the squares lie in rows from the top, from left to right, as the cells do.
pub proof fn lemma_painted_cell_fills_its_square(
    w: i32,
    h: i32,
    c: Canvas,
    p: Pointer,
    cx: int,
    cy: int,
    x: int,
    y: int,
)
    requires
        w >= MIN_W,
        h >= MIN_H,
        c.wf(),
        p.cell is None,
        0 <= cx < 32 && 0 <= cy < 32,
        c.cells@[cy * 32 + cx] != 0,
        ({
            let l = layout_of(w as int, h as int);
            &&& cx * l.scale <= x - l.left < cx * l.scale + l.scale
            &&& cy * l.scale <= y - l.top < cy * l.scale + l.scale
        }),
    ensures
        ({
            let n = c.cells@[cy * 32 + cx];
            top_color(picture(layout_of(w as int, h as int), c, p), x, y) == Some(
                packed((n / 65536 % 256) as u8, (n / 256 % 256) as u8, (n % 256) as u8, 255),
            )
        }),
{
    let l = layout_of(w as int, h as int);
    let s = l.scale as int;
    let k = cy * 32 + cx;
    let n = c.cells@[k];
    let color = packed((n / 65536 % 256) as u8, (n / 256 % 256) as u8, (n % 256) as u8, 255);
    let cells = cell_patches(l, c.cells@);
    lemma_canvas_fits(w, h);
    assert(k % 32 == cx && k / 32 == cy);
    lemma_stretch_fits(cx, s);
    lemma_stretch_fits(cy, s);
    let even = cells[2 * k];
    assert((2 * k) / 2 == k && (2 * k) % 2 == 0);
    assert(even == patch(l.left + cx * s, l.top + cy * s, s, s, rgb_of(n)));
    assert(covers(even, x, y));
    assert forall|j: int| 0 <= j < cells.len() && covers(#[trigger] cells[j], x, y) implies cells[j].color.0
        == color by {
        let m = j / 2;
        assert(0 <= m < 1024);
        let mx = m % 32;
        let my = m / 32;
        lemma_stretch_fits(mx, s);
        lemma_stretch_fits(my, s);
        assert(cells[j].x as int == l.left + mx * s + j % 2);
        assert(cells[j].y as int == l.top + my * s + j % 2);
        assert(cells[j].w as int == s - j % 2 && cells[j].h as int == s - j % 2);
        lemma_same_stretch(mx, cx, s, x - l.left);
        lemma_same_stretch(my, cy, s, y - l.top);
        assert(m == k);
    }
    lemma_top_color_is(cells, x, y, color, 2 * k);
    let all = picture(l, c, p);
    let before = all.take(all.len() - 2048);
    assert(all.skip(all.len() - 2048) =~= cells);
    assert(all =~= before + cells);
    lemma_later_lies_over(before, cells, x, y);
}

/// The canvas lies in the middle of the room beside the palette and below the bar, and is as
/// large as fits there.
pub proof fn lemma_canvas_lies_in_the_middle(w: i32, h: i32)
    requires
        w >= MIN_W,
        h >= MIN_H,
    ensures
        ({
            let l = layout_of(w as int, h as int);
            let right = w - (l.left + 32 * l.scale);
            let below = h - (l.top + 32 * l.scale);
            &&& 0 <= right - (l.left - 80) <= 1
            &&& 0 <= below - (l.top - 40) <= 1
            &&& 32 * (l.scale + 1) > w - 80 || 32 * (l.scale + 1) > h - 40
        }),
{
}

} // verus!

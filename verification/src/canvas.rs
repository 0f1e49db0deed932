//! A pixel-art canvas that is drawn pixel by pixel: a grid of colours, a palette, and
//! two buttons.
use vstd::prelude::*;

verus! {

// ── The canvas ───────────────────────────────────────────────────────────────

/// Cells across and down.
pub const SIDE: usize = 32;

/// All cells.
pub const CANVAS_CELLS: usize = 1024;

/// How many bytes a stored canvas takes.
pub const CANVAS_BYTES: usize = 4096;

/// How many colours there are.
pub const COLORS: usize = 16;

/// Every so many frames a changed canvas is stored.
pub const SAVE_EVERY: u32 = 90;

/// A colour of the palette: red, green and blue.
pub open spec fn palette_color(i: int) -> u32 {
    if i == 0 {
        0x0D1117
    } else if i == 1 {
        0xF0F6FC
    } else if i == 2 {
        0xFF5555
    } else if i == 3 {
        0x55FF55
    } else if i == 4 {
        0x5599FF
    } else if i == 5 {
        0xFFFF55
    } else if i == 6 {
        0x55FFFF
    } else if i == 7 {
        0xFF55FF
    } else if i == 8 {
        0xFF8800
    } else if i == 9 {
        0x88FF00
    } else if i == 10 {
        0x00FF88
    } else if i == 11 {
        0x0088FF
    } else if i == 12 {
        0x8800FF
    } else if i == 13 {
        0xFF0088
    } else if i == 14 {
        0xAA7744
    } else {
        0x778899
    }
}

/// Returns a colour of the palette; the last for a number past it.
pub fn palette(i: u32) -> (c: u32)
    ensures
        c == palette_color(i as int),
        c <= 0xFFFFFF,
{
    if i == 0 {
        0x0D1117
    } else if i == 1 {
        0xF0F6FC
    } else if i == 2 {
        0xFF5555
    } else if i == 3 {
        0x55FF55
    } else if i == 4 {
        0x5599FF
    } else if i == 5 {
        0xFFFF55
    } else if i == 6 {
        0x55FFFF
    } else if i == 7 {
        0xFF55FF
    } else if i == 8 {
        0xFF8800
    } else if i == 9 {
        0x88FF00
    } else if i == 10 {
        0x00FF88
    } else if i == 11 {
        0x0088FF
    } else if i == 12 {
        0x8800FF
    } else if i == 13 {
        0xFF0088
    } else if i == 14 {
        0xAA7744
    } else {
        0x778899
    }
}

/// Red, green and blue.
#[derive(Clone, Copy, Debug, PartialEq, Eq, Structural)]
pub struct Rgb {
    pub r: u8,
    pub g: u8,
    pub b: u8,
}

/// Red, green and blue of a packed colour, whatever stands above them.
pub open spec fn rgb_of(c: u32) -> Rgb {
    Rgb { r: (c / 65536 % 256) as u8, g: (c / 256 % 256) as u8, b: (c % 256) as u8 }
}

/// Returns red, green and blue of a packed colour.
pub fn rgb(c: u32) -> (r: Rgb)
    ensures
        r == rgb_of(c),
{
    Rgb { r: (c / 65536 % 256) as u8, g: (c / 256 % 256) as u8, b: (c % 256) as u8 }
}

/// The editor.
pub struct Canvas {
    /// The colour of each cell, row after row; zero is empty.
    pub cells: Vec<u32>,
    /// The colour in hand.
    pub selected: u32,
    /// Whether something was painted since the canvas was stored.
    pub dirty: bool,
    /// How many frames there were, modulo the numbers a `u32` can hold.
    pub frame: u32,
}

impl Canvas {
    /// Whether the editor is in order.
    pub open spec fn wf(self) -> bool {
        self.cells@.len() == CANVAS_CELLS && self.selected < COLORS
    }
}

/// The mark of a cell that is painted, so that black is told from empty.
pub const PAINTED: u32 = 0xFF000000;

// ── Storing ──────────────────────────────────────────────────────────────────

/// The four bytes of a number, the least significant first.
pub open spec fn le32(n: u32) -> Seq<u8> {
    seq![
        (n % 256) as u8,
        (n / 256 % 256) as u8,
        (n / 65536 % 256) as u8,
        (n / 16777216 % 256) as u8,
    ]
}

/// The number of four bytes, the least significant first.
pub open spec fn le32_value(b: Seq<u8>) -> int {
    b[0] + b[1] * 256 + b[2] * 65536 + b[3] * 16777216
}

/// The bytes of a canvas.
pub open spec fn canvas_bytes(cells: Seq<u32>) -> Seq<u8>
    decreases cells.len(),
{
    if cells.len() == 0 {
        Seq::empty()
    } else {
        canvas_bytes(cells.drop_last()) + le32(cells.last())
    }
}

/// Returns the bytes of a canvas.
pub fn save_canvas(cells: &Vec<u32>) -> (b: Vec<u8>)
    ensures
        b@ == canvas_bytes(cells@),
{
    let mut b: Vec<u8> = Vec::new();
    let mut i: usize = 0;
    assert(cells@.take(0) =~= Seq::empty());
    while i < cells.len()
        invariant
            i <= cells@.len(),
            b@ == canvas_bytes(cells@.take(i as int)),
        decreases cells.len() - i,
    {
        assert(cells@.take(i + 1).drop_last() =~= cells@.take(i as int));
        let ghost before = b@;
        let n: u32 = cells[i];
        b.push((n % 256) as u8);
        b.push((n / 256 % 256) as u8);
        b.push((n / 65536 % 256) as u8);
        b.push((n / 16777216 % 256) as u8);
        assert(b@ =~= before + le32(n));
        i += 1;
    }
    assert(cells@.take(i as int) =~= cells@);
    b
}

/// The cells of stored bytes.
pub open spec fn canvas_cells(b: Seq<u8>) -> Seq<u32> {
    Seq::new(
        (b.len() / 4) as nat,
        |i: int| le32_value(b.subrange(4 * i, 4 * i + 4)) as u32,
    )
}

/// Returns the cells of stored bytes; nothing where their number is not that of a canvas.
pub fn load_canvas(b: &Vec<u8>) -> (r: Option<Vec<u32>>)
    ensures
        match r {
            Some(v) => b@.len() == CANVAS_BYTES && v@ == canvas_cells(b@),
            None => b@.len() != CANVAS_BYTES,
        },
{
    if b.len() != CANVAS_BYTES {
        return None;
    }
    let mut v: Vec<u32> = Vec::new();
    let mut i: usize = 0;
    while i < CANVAS_CELLS
        invariant
            i <= CANVAS_CELLS,
            b@.len() == CANVAS_BYTES,
            v@.len() == i,
            forall|k: int| 0 <= k < i ==> #[trigger] v@[k] == canvas_cells(b@)[k],
        decreases CANVAS_CELLS - i,
    {
        let n: u32 = b[4 * i] as u32 + b[4 * i + 1] as u32 * 256 + b[4 * i + 2] as u32 * 65536 + b[4
            * i + 3] as u32 * 16777216;
        v.push(n);
        i += 1;
    }
    assert(v@ =~= canvas_cells(b@));
    Some(v)
}

proof fn lemma_canvas_bytes(cells: Seq<u32>, i: int)
    ensures
        canvas_bytes(cells).len() == 4 * cells.len(),
        0 <= i < cells.len() ==> canvas_bytes(cells).subrange(4 * i, 4 * i + 4) == le32(cells[i]),
    decreases cells.len(),
{
    if cells.len() > 0 {
        lemma_canvas_bytes(cells.drop_last(), i);
        let a = canvas_bytes(cells.drop_last());
        let b = canvas_bytes(cells);
        if 0 <= i < cells.len() - 1 {
            assert(b.subrange(4 * i, 4 * i + 4) =~= a.subrange(4 * i, 4 * i + 4));
            assert(cells.drop_last()[i] == cells[i]);
        } else if i == cells.len() - 1 {
            assert(b.subrange(4 * i, 4 * i + 4) =~= le32(cells[i]));
        }
    }
}

/// A stored canvas is read back.
pub proof fn lemma_canvas_round_trip(cells: Seq<u32>)
    requires
        cells.len() == CANVAS_CELLS,
    ensures
        canvas_bytes(cells).len() == CANVAS_BYTES,
        canvas_cells(canvas_bytes(cells)) == cells,
{
    let b = canvas_bytes(cells);
    lemma_canvas_bytes(cells, 0);
    assert forall|i: int| 0 <= i < cells.len() implies canvas_cells(b)[i] == cells[i] by {
        lemma_canvas_bytes(cells, i);
        let n = cells[i];
        assert(le32_value(le32(n)) == n);
    }
    assert(canvas_cells(b) =~= cells);
}

/// The colour of a cell in an exported image.
pub open spec fn exported_color(c: u32) -> Rgb {
    if c == 0 {
        Rgb { r: 20, g: 26, b: 40 }
    } else {
        rgb_of(c)
    }
}

/// The header of an exported image, "P6", its size and its range.
pub open spec fn ppm_header() -> Seq<u8> {
    seq![
        0x50u8,
        0x36u8,
        0x0Au8,
        0x33u8,
        0x32u8,
        0x20u8,
        0x33u8,
        0x32u8,
        0x0Au8,
        0x32u8,
        0x35u8,
        0x35u8,
        0x0Au8,
    ]
}

/// The pixels of an exported image.
pub open spec fn ppm_pixels(cells: Seq<u32>) -> Seq<u8>
    decreases cells.len(),
{
    if cells.len() == 0 {
        Seq::empty()
    } else {
        let c = exported_color(cells.last());
        ppm_pixels(cells.drop_last()) + seq![c.r, c.g, c.b]
    }
}

/// Returns a canvas as an image file.
pub fn export_ppm(cells: &Vec<u32>) -> (out: Vec<u8>)
    ensures
        out@ == ppm_header() + ppm_pixels(cells@),
{
    let mut out: Vec<u8> = Vec::new();
    out.push(0x50);
    out.push(0x36);
    out.push(0x0A);
    out.push(0x33);
    out.push(0x32);
    out.push(0x20);
    out.push(0x33);
    out.push(0x32);
    out.push(0x0A);
    out.push(0x32);
    out.push(0x35);
    out.push(0x35);
    out.push(0x0A);
    assert(out@ =~= ppm_header());
    let mut i: usize = 0;
    assert(cells@.take(0) =~= Seq::empty());
    assert(out@ =~= ppm_header() + ppm_pixels(cells@.take(0)));
    while i < cells.len()
        invariant
            i <= cells@.len(),
            out@ == ppm_header() + ppm_pixels(cells@.take(i as int)),
        decreases cells.len() - i,
    {
        assert(cells@.take(i + 1).drop_last() =~= cells@.take(i as int));
        let ghost before = out@;
        let c = if cells[i] == 0 {
            Rgb { r: 20, g: 26, b: 40 }
        } else {
            rgb(cells[i])
        };
        out.push(c.r);
        out.push(c.g);
        out.push(c.b);
        assert(out@ =~= before + seq![c.r, c.g, c.b]);
        i += 1;
        assert(out@ =~= ppm_header() + ppm_pixels(cells@.take(i as int)));
    }
    assert(cells@.take(i as int) =~= cells@);
    out
}

// ── Acting ───────────────────────────────────────────────────────────────────

fn blank() -> (v: Vec<u32>)
    ensures
        v@ == Seq::new(CANVAS_CELLS as nat, |i: int| 0u32),
{
    let mut v: Vec<u32> = Vec::new();
    let mut i: usize = 0;
    while i < CANVAS_CELLS
        invariant
            i <= CANVAS_CELLS,
            v@ == Seq::new(i as nat, |k: int| 0u32),
        decreases CANVAS_CELLS - i,
    {
        v.push(0);
        i += 1;
        assert(v@ =~= Seq::new(i as nat, |k: int| 0u32));
    }
    v
}

impl Canvas {
    /// The editor with what was stored, or with an empty canvas.
    pub fn new(stored: &Option<Vec<u8>>) -> (c: Canvas)
        ensures
            c.wf(),
            c.selected == 2 && !c.dirty && c.frame == 0,
            c.cells@ == match stored {
                Some(b) => if b@.len() == CANVAS_BYTES {
                    canvas_cells(b@)
                } else {
                    Seq::new(CANVAS_CELLS as nat, |i: int| 0u32)
                },
                None => Seq::new(CANVAS_CELLS as nat, |i: int| 0u32),
            },
    {
        let cells = match stored {
            Some(b) => match load_canvas(b) {
                Some(v) => v,
                None => blank(),
            },
            None => blank(),
        };
        Canvas { cells, selected: 2, dirty: false, frame: 0 }
    }

    /// Counts a frame. Returns what has to be stored: now and then, if something changed.
    pub fn tick(&mut self) -> (r: Option<Vec<u8>>)
        requires
            old(self).wf(),
        ensures
            final(self).wf(),
            final(self).cells@ == old(self).cells@,
            final(self).selected == old(self).selected,
            final(self).frame == (old(self).frame + 1) % 0x1_0000_0000,
            match r {
                Some(b) => old(self).dirty && old(self).frame % SAVE_EVERY == 0
                    && !final(self).dirty && b@ == canvas_bytes(old(self).cells@),
                None => !(old(self).dirty && old(self).frame % SAVE_EVERY == 0) && final(self).dirty
                    == old(self).dirty,
            },
    {
        let frame: u32 = self.frame;
        self.frame = if frame == u32::MAX {
            0
        } else {
            frame + 1
        };
        if self.dirty && frame % SAVE_EVERY == 0 {
            self.dirty = false;
            return Some(save_canvas(&self.cells));
        }
        None
    }

    /// Paints a cell with the colour in hand.
    pub fn paint(&mut self, cx: usize, cy: usize)
        requires
            old(self).wf(),
            cx < SIDE,
            cy < SIDE,
        ensures
            final(self).wf(),
            final(self).cells@ == old(self).cells@.update(
                cy * 32 + cx,
                (palette_color(old(self).selected as int) + PAINTED) as u32,
            ),
            final(self).dirty,
            final(self).selected == old(self).selected && final(self).frame == old(self).frame,
    {
        let c: u32 = palette(self.selected) + PAINTED;
        self.cells.set(cy * 32 + cx, c);
        self.dirty = true;
    }

    /// The palette was pressed at a row and a column.
    pub fn pick(&mut self, row: usize, col: usize)
        requires
            old(self).wf(),
            row * 2 + col <= usize::MAX,
        ensures
            final(self).wf(),
            final(self).selected == if row * 2 + col < COLORS {
                (row * 2 + col) as u32
            } else {
                old(self).selected
            },
            *final(self) == (Canvas { selected: final(self).selected, ..*old(self) }),
    {
        let i: usize = row * 2 + col;
        if i < COLORS {
            self.selected = i as u32;
        }
    }

    /// Empties the canvas. Returns what has to be stored.
    pub fn clear(&mut self) -> (b: Vec<u8>)
        requires
            old(self).wf(),
        ensures
            final(self).wf(),
            final(self).cells@ == Seq::new(CANVAS_CELLS as nat, |i: int| 0u32),
            !final(self).dirty,
            final(self).selected == old(self).selected && final(self).frame == old(self).frame,
            b@ == canvas_bytes(final(self).cells@),
    {
        self.cells = blank();
        self.dirty = false;
        save_canvas(&self.cells)
    }
}

proof fn lemma_mark_keeps_color(c: u32)
    requires
        c <= 0xFFFFFF,
    ensures
        c + PAINTED <= u32::MAX,
        (c + PAINTED) as u32 != 0,
        rgb_of((c + PAINTED) as u32) == rgb_of(c),
{
    let d = (c + PAINTED) as u32;
    assert(d == c + 0xFF000000);
    assert(d / 65536 == c / 65536 + 65280);
    assert(d / 256 == c / 256 + 65280 * 256);
}

/// A painted cell shows the colour that was in hand, and is never taken for empty.
pub proof fn lemma_painted_cell_shows_its_color(i: int)
    ensures
        palette_color(i) + PAINTED <= u32::MAX,
        (palette_color(i) + PAINTED) as u32 != 0,
        rgb_of((palette_color(i) + PAINTED) as u32) == rgb_of(palette_color(i)),
{
    assert(palette_color(i) <= 0xFFFFFF);
    lemma_mark_keeps_color(palette_color(i));
}

/// Each cell is stored in four bytes at its place, the least first.
pub proof fn lemma_cell_is_stored_at_its_place(cells: Seq<u32>, i: int)
    requires
        0 <= i < cells.len(),
    ensures
        ({
            let b = canvas_bytes(cells);
            &&& b.len() == 4 * cells.len()
            &&& b[4 * i] + b[4 * i + 1] * 256 + b[4 * i + 2] * 65536 + b[4 * i + 3] * 16777216
                == cells[i]
        }),
{
    lemma_canvas_bytes(cells, i);
    let b = canvas_bytes(cells);
    let s = b.subrange(4 * i, 4 * i + 4);
    assert(s[0] == b[4 * i] && s[1] == b[4 * i + 1] && s[2] == b[4 * i + 2] && s[3] == b[4 * i + 3]);
    let n = cells[i];
    assert(n as int == n % 256 + n / 256 % 256 * 256 + n / 65536 % 256 * 65536 + n / 16777216 % 256
        * 16777216);
}

/// A picture has three bytes for each cell at its place: its red, its green and its blue,
/// or those of the empty canvas.
pub proof fn lemma_cell_is_exported_at_its_place(cells: Seq<u32>, i: int)
    requires
        0 <= i < cells.len(),
    ensures
        ppm_pixels(cells).len() == 3 * cells.len(),
        cells[i] != 0 ==> ppm_pixels(cells)[3 * i] * 65536 + ppm_pixels(cells)[3 * i + 1] * 256
            + ppm_pixels(cells)[3 * i + 2] == cells[i] % 0x1000000,
        cells[i] == 0 ==> ppm_pixels(cells)[3 * i] == 20 && ppm_pixels(cells)[3 * i + 1] == 26
            && ppm_pixels(cells)[3 * i + 2] == 40,
    decreases cells.len(),
{
    let d = cells.drop_last();
    if i < d.len() {
        lemma_cell_is_exported_at_its_place(d, i);
        assert(d[i] == cells[i]);
    } else {
        lemma_exported_len(d);
        let c = cells[i];
        assert(c % 0x1000000 == c / 65536 % 256 * 65536 + c / 256 % 256 * 256 + c % 256);
    }
}

proof fn lemma_exported_len(cells: Seq<u32>)
    ensures
        ppm_pixels(cells).len() == 3 * cells.len(),
    decreases cells.len(),
{
    if cells.len() > 0 {
        lemma_exported_len(cells.drop_last());
    }
}

/// The colors of the palette differ.
pub proof fn lemma_palette_colors_differ(i: int, j: int)
    requires
        0 <= i < j < 16,
    ensures
        palette_color(i) != palette_color(j),
{
}

} // verus!

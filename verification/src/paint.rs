//! A pixel-art editor: a grid of palette numbers, and the tools that change it.
use vstd::prelude::*;
use crate::color::Color;
use crate::color::packed;
use crate::png::{encode_png, png_bytes};

verus! {

// ── The grid ─────────────────────────────────────────────────────────────────

/// Cells across.
pub const GW: i32 = 64;

/// Cells down.
pub const GH: i32 = 48;

/// All cells.
pub const CELLS: usize = 3072;

/// How many pixels across and down a cell takes in an exported image.
pub const EXPORT_SCALE: u32 = 8;

/// How many colours there are, the empty one among them.
pub const PALETTE_LEN: u8 = 17;

/// What the pointer does on the canvas.
#[derive(Clone, Copy, Debug, PartialEq, Eq, Structural)]
pub enum Tool {
    Brush,
    Eraser,
    Fill,
    Pick,
}

/// The editor.
pub struct Paint {
    /// The colour of each cell, row after row; zero is empty.
    pub cells: Vec<u8>,
    pub color: u8,
    /// The radius of the brush in cells.
    pub size: i32,
    pub tool: Tool,
    /// The cell painted last while the pointer is down.
    pub prev: Option<(i32, i32)>,
    pub grid: bool,
    /// Whether something was painted since the drawing was stored.
    pub dirty: bool,
    pub was_down: bool,
}

/// Whether a position is on the grid.
pub open spec fn on_grid(x: int, y: int) -> bool {
    0 <= x < GW && 0 <= y < GH
}

/// Where a cell stands in its list.
pub open spec fn at(x: int, y: int) -> int {
    y * 64 + x
}

/// Whether a position is on the grid.
pub fn is_on_grid(x: i32, y: i32) -> (r: bool)
    ensures
        r == on_grid(x as int, y as int),
{
    0 <= x && x < GW && 0 <= y && y < GH
}

/// Whether a list of cells is a grid.
pub open spec fn is_grid(cells: Seq<u8>) -> bool {
    cells.len() == CELLS
}

/// Whether every cell has a colour of the palette.
pub open spec fn in_palette(cells: Seq<u8>) -> bool {
    forall|i: int| 0 <= i < cells.len() ==> #[trigger] cells[i] < PALETTE_LEN
}

impl Paint {
    /// Whether the editor is in order.
    pub open spec fn wf(self) -> bool {
        &&& is_grid(self.cells@)
        &&& 1 <= self.size <= 3
        &&& (self.prev matches Some(p) ==> on_grid(p.0 as int, p.1 as int))
    }
}

fn empty_cells() -> (v: Vec<u8>)
    ensures
        v@ == Seq::new(CELLS as nat, |i: int| 0u8),
{
    let mut v: Vec<u8> = Vec::new();
    let mut i: usize = 0;
    while i < CELLS
        invariant
            i <= CELLS,
            v@ == Seq::new(i as nat, |k: int| 0u8),
        decreases CELLS - i,
    {
        v.push(0);
        i += 1;
        assert(v@ =~= Seq::new(i as nat, |k: int| 0u8));
    }
    v
}

// ── The brush ────────────────────────────────────────────────────────────────

/// Whether a position is under a brush of radius `r` at `(cx, cy)`.
pub open spec fn under(cx: int, cy: int, r: int, x: int, y: int) -> bool {
    cx - r <= x <= cx + r && cy - r <= y <= cy + r
}

/// The grid after the brush was put down once.
pub open spec fn stamped(cells: Seq<u8>, cx: int, cy: int, r: int, ink: u8) -> Seq<u8> {
    Seq::new(
        cells.len(),
        |i: int|
            if under(cx, cy, r, i % 64, i / 64) {
                ink
            } else {
                cells[i]
            },
    )
}

/// Puts a brush down once. Only what lies on the grid is painted.
pub fn stamp_cells(cells: &mut Vec<u8>, cx: i32, cy: i32, r: i32, ink: u8)
    requires
        is_grid(old(cells)@),
        0 <= r <= 2,
        i32::MIN + 2 <= cx <= i32::MAX - 2,
        i32::MIN + 2 <= cy <= i32::MAX - 2,
    ensures
        final(cells)@ == stamped(old(cells)@, cx as int, cy as int, r as int, ink),
{
    let ghost before = cells@;
    let mut i: usize = 0;
    while i < CELLS
        invariant
            i <= CELLS,
            is_grid(before),
            cells@.len() == before.len(),
            0 <= r <= 2,
            i32::MIN + 2 <= cx <= i32::MAX - 2,
            i32::MIN + 2 <= cy <= i32::MAX - 2,
            forall|k: int|
                0 <= k < i ==> #[trigger] cells@[k] == stamped(
                    before,
                    cx as int,
                    cy as int,
                    r as int,
                    ink,
                )[k],
            forall|k: int| i <= k < CELLS ==> #[trigger] cells@[k] == before[k],
        decreases CELLS - i,
    {
        let x: i32 = (i % 64) as i32;
        let y: i32 = (i / 64) as i32;
        if cx - r <= x && x <= cx + r && cy - r <= y && y <= cy + r {
            cells.set(i, ink);
        }
        i += 1;
    }
    assert(cells@ =~= stamped(before, cx as int, cy as int, r as int, ink));
}

// ── Lines ────────────────────────────────────────────────────────────────────
// A line is walked in steps along its two axes: `dx` in all along the first and `dd`
// along the second. After `i` and `j` of them the error says which steps come next.

/// How far the walk has strayed, scaled to whole numbers.
#[verifier::opaque]
pub open spec fn strayed(dx: int, dd: int, i: int, j: int) -> int {
    (1 + j) * dx - (1 + i) * dd
}

/// The place after the next step.
pub open spec fn next_place(dx: int, dd: int, i: int, j: int) -> (int, int) {
    let e = strayed(dx, dd, i, j);
    (
        if 2 * e >= -dd {
            i + 1
        } else {
            i
        },
        if 2 * e <= dx {
            j + 1
        } else {
            j
        },
    )
}

/// Whether a place is within half a step of the straight line.
#[verifier::opaque]
pub open spec fn is_close(dx: int, dd: int, i: int, j: int) -> bool {
    let f = j * dx - i * dd;
    let most = if dx >= dd {
        dx
    } else {
        dd
    };
    -most <= 2 * f <= most
}

/// A step goes ahead and never past the end, and stays close to the straight line.
pub proof fn lemma_next_place(dx: int, dd: int, i: int, j: int)
    requires
        0 <= i <= dx,
        0 <= j <= dd,
        i < dx || j < dd,
    ensures
        ({
            let n = next_place(dx, dd, i, j);
            &&& i <= n.0 <= dx
            &&& j <= n.1 <= dd
            &&& n.0 + n.1 > i + j
            &&& is_close(dx, dd, i, j) ==> is_close(dx, dd, n.0, n.1)
        }),
{
    reveal(strayed);
    reveal(is_close);
    let e = strayed(dx, dd, i, j);
    let f = j * dx - i * dd;
    assert((1 + j) * dx == dx + j * dx) by (nonlinear_arith);
    assert((1 + i) * dd == dd + i * dd) by (nonlinear_arith);
    assert(e == f + dx - dd);
    if i == dx {
        assert(j * dx - dx * dd == dx * (j - dd)) by (nonlinear_arith);
        assert(dx * (j - dd) <= -dx) by (nonlinear_arith)
            requires
                j - dd <= -1,
                dx >= 0,
        ;
        assert(i * dd == dx * dd);
        assert(e <= -dd);
    }
    if j == dd {
        assert(dd * dx - i * dd == dd * (dx - i)) by (nonlinear_arith);
        assert(dd * (dx - i) >= dd) by (nonlinear_arith)
            requires
                dx - i >= 1,
                dd >= 0,
        ;
        assert(j * dx == dd * dx);
        assert(e >= dx);
    }
    let n = next_place(dx, dd, i, j);
    assert((i + 1) * dd == i * dd + dd) by (nonlinear_arith);
    assert((j + 1) * dx == j * dx + dx) by (nonlinear_arith);
}

proof fn lemma_strayed(dx: int, dd: int, i: int, j: int)
    requires
        0 <= dx,
        0 <= dd,
        is_close(dx, dd, i, j),
    ensures
        -2 * (dx + dd) <= strayed(dx, dd, i, j) <= 2 * (dx + dd),
        strayed(dx, dd, i + 1, j) == strayed(dx, dd, i, j) - dd,
        strayed(dx, dd, i, j + 1) == strayed(dx, dd, i, j) + dx,
        strayed(dx, dd, i + 1, j + 1) == strayed(dx, dd, i, j) - dd + dx,
{
    reveal(strayed);
    reveal(is_close);
    assert((1 + j) * dx == dx + j * dx) by (nonlinear_arith);
    assert((1 + i) * dd == dd + i * dd) by (nonlinear_arith);
    assert((1 + (j + 1)) * dx == 2 * dx + j * dx) by (nonlinear_arith);
    assert((1 + (i + 1)) * dd == 2 * dd + i * dd) by (nonlinear_arith);
}

proof fn lemma_start_is_close(dx: int, dd: int)
    requires
        0 <= dx,
        0 <= dd,
    ensures
        is_close(dx, dd, 0, 0),
        strayed(dx, dd, 0, 0) == dx - dd,
{
    reveal(strayed);
    reveal(is_close);
    assert(0 * dx == 0) by (nonlinear_arith);
    assert(0 * dd == 0) by (nonlinear_arith);
    assert(1 * dx == dx) by (nonlinear_arith);
    assert(1 * dd == dd) by (nonlinear_arith);
}

/// The places of the walk from `(i, j)` to its end.
pub open spec fn places(dx: int, dd: int, i: int, j: int) -> Seq<(int, int)>
    decreases dx - i + (dd - j),
    when 0 <= i <= dx && 0 <= j <= dd
{
    if i == dx && j == dd {
        seq![(i, j)]
    } else {
        proof {
            lemma_next_place(dx, dd, i, j);
        }
        let n = next_place(dx, dd, i, j);
        seq![(i, j)] + places(dx, dd, n.0, n.1)
    }
}

/// The distance of two numbers.
pub open spec fn apart(a: int, b: int) -> int {
    if a <= b {
        b - a
    } else {
        a - b
    }
}

/// `from`, `n` steps towards `to`.
pub open spec fn towards(from: int, to: int, n: int) -> int {
    if from < to {
        from + n
    } else {
        from - n
    }
}

/// The cells of a line.
pub open spec fn line_of(x0: int, y0: int, x1: int, y1: int) -> Seq<(int, int)> {
    let p = places(apart(x0, x1), apart(y0, y1), 0, 0);
    Seq::new(p.len(), |k: int| (towards(x0, x1, p[k].0), towards(y0, y1, p[k].1)))
}

/// The walk goes from its start to its end without a gap, and stays close to the
/// straight line.
pub proof fn lemma_places(dx: int, dd: int, i: int, j: int)
    requires
        0 <= i <= dx,
        0 <= j <= dd,
        is_close(dx, dd, i, j),
    ensures
        ({
            let p = places(dx, dd, i, j);
            &&& p.len() > 0
            &&& p[0] == (i, j)
            &&& p.last() == (dx, dd)
            &&& forall|k: int|
                0 <= k < p.len() ==> i <= (#[trigger] p[k]).0 <= dx && j <= p[k].1 <= dd && is_close(
                    dx,
                    dd,
                    p[k].0,
                    p[k].1,
                )
            &&& forall|k: int, m: int|
                #![trigger p[k], p[m]]
                0 <= k < m < p.len() && m == k + 1 ==> 0 <= p[m].0 - p[k].0 <= 1 && 0 <= p[m].1
                    - p[k].1 <= 1 && p[m] != p[k]
        }),
    decreases dx - i + (dd - j),
{
    let p = places(dx, dd, i, j);
    if !(i == dx && j == dd) {
        lemma_next_place(dx, dd, i, j);
        let n = next_place(dx, dd, i, j);
        lemma_places(dx, dd, n.0, n.1);
        let q = places(dx, dd, n.0, n.1);
        assert(p == seq![(i, j)] + q);
        assert(p.last() == q.last());
        assert forall|k: int| 0 <= k < p.len() implies i <= (#[trigger] p[k]).0 <= dx && j <= p[k].1
            <= dd && is_close(dx, dd, p[k].0, p[k].1) by {
            if k > 0 {
                assert(p[k] == q[k - 1]);
            }
        }
        assert forall|k: int, m: int|
            #![trigger p[k], p[m]]
            0 <= k < m < p.len() && m == k + 1 implies 0 <= p[m].0 - p[k].0 <= 1 && 0 <= p[m].1
            - p[k].1 <= 1 && p[m] != p[k] by {
            assert(p[m] == q[m - 1]);
            if k > 0 {
                assert(p[k] == q[k - 1]);
            }
        }
    }
}

/// A line has both its ends, no gap, and no cell further than half a cell from the
/// straight line.
pub proof fn lemma_line_is_continuous(x0: int, y0: int, x1: int, y1: int)
    ensures
        ({
            let l = line_of(x0, y0, x1, y1);
            &&& l.len() > 0
            &&& l[0] == (x0, y0)
            &&& l.last() == (x1, y1)
            &&& forall|k: int, m: int|
                #![trigger l[k], l[m]]
                0 <= k < m < l.len() && m == k + 1 ==> apart(l[k].0, l[m].0) <= 1 && apart(
                    l[k].1,
                    l[m].1,
                ) <= 1
            &&& forall|k: int|
                #![trigger l[k]]
                0 <= k < l.len() ==> is_close(
                    apart(x0, x1),
                    apart(y0, y1),
                    apart(x0, l[k].0),
                    apart(y0, l[k].1),
                )
        }),
{
    let dx = apart(x0, x1);
    let dd = apart(y0, y1);
    lemma_start_is_close(dx, dd);
    lemma_places(dx, dd, 0, 0);
    let p = places(dx, dd, 0, 0);
    let l = line_of(x0, y0, x1, y1);
    assert forall|k: int, m: int|
        #![trigger l[k], l[m]]
        0 <= k < m < l.len() && m == k + 1 implies apart(l[k].0, l[m].0) <= 1 && apart(
        l[k].1,
        l[m].1,
    ) <= 1 by {
        assert(p[m].0 - p[k].0 <= 1);
    }
    assert forall|k: int| #![trigger l[k]] 0 <= k < l.len() implies is_close(
        dx,
        dd,
        apart(x0, l[k].0),
        apart(y0, l[k].1),
    ) by {
        assert(is_close(dx, dd, p[k].0, p[k].1));
    }
}

/// The grid after the brush was put down on each of the cells in turn.
pub open spec fn stroked(cells: Seq<u8>, line: Seq<(int, int)>, r: int, ink: u8) -> Seq<u8>
    decreases line.len(),
{
    if line.len() == 0 {
        cells
    } else {
        stroked(stamped(cells, line[0].0, line[0].1, r, ink), line.drop_first(), r, ink)
    }
}

/// Puts a brush down on each cell of a line.
pub fn line_cells(cells: &mut Vec<u8>, x0: i32, y0: i32, x1: i32, y1: i32, r: i32, ink: u8)
    requires
        is_grid(old(cells)@),
        0 <= r <= 2,
        i32::MIN + 2 <= x0 <= i32::MAX - 2,
        i32::MIN + 2 <= y0 <= i32::MAX - 2,
        i32::MIN + 2 <= x1 <= i32::MAX - 2,
        i32::MIN + 2 <= y1 <= i32::MAX - 2,
    ensures
        is_grid(final(cells)@),
        final(cells)@ == stroked(
            old(cells)@,
            line_of(x0 as int, y0 as int, x1 as int, y1 as int),
            r as int,
            ink,
        ),
{
    let ghost start = cells@;
    let ghost gx0 = x0 as int;
    let ghost gy0 = y0 as int;
    let ghost gx1 = x1 as int;
    let ghost gy1 = y1 as int;
    let dx: i64 = if x0 <= x1 {
        x1 as i64 - x0 as i64
    } else {
        x0 as i64 - x1 as i64
    };
    let dd: i64 = if y0 <= y1 {
        y1 as i64 - y0 as i64
    } else {
        y0 as i64 - y1 as i64
    };
    let mut x: i32 = x0;
    let mut y: i32 = y0;
    let mut e: i64 = dx - dd;
    let ghost mut i: int = 0;
    let ghost mut j: int = 0;
    let ghost whole = line_of(gx0, gy0, gx1, gy1);
    let ghost gdx = dx as int;
    let ghost gdd = dd as int;
    proof {
        lemma_start_is_close(gdx, gdd);
        assert(whole =~= mapped(places(gdx, gdd, 0, 0), gx0, gy0, gx1, gy1));
    }
    loop
        invariant_except_break
            stroked(cells@, mapped(places(gdx, gdd, i, j), gx0, gy0, gx1, gy1), r as int, ink)
                == stroked(start, whole, r as int, ink),
        invariant
            gx0 == x0,
            gy0 == y0,
            gx1 == x1,
            gy1 == y1,
            is_grid(cells@),
            0 <= r <= 2,
            i32::MIN + 2 <= x0 <= i32::MAX - 2,
            i32::MIN + 2 <= y0 <= i32::MAX - 2,
            i32::MIN + 2 <= x1 <= i32::MAX - 2,
            i32::MIN + 2 <= y1 <= i32::MAX - 2,
            dx == apart(gx0, gx1) == gdx,
            dd == apart(gy0, gy1) == gdd,
            gdx <= u32::MAX,
            gdd <= u32::MAX,
            0 <= i <= gdx,
            0 <= j <= gdd,
            x == towards(gx0, gx1, i),
            y == towards(gy0, gy1, j),
            e == strayed(gdx, gdd, i, j),
            is_close(gdx, gdd, i, j),
        ensures
            is_grid(cells@),
            cells@ == stroked(start, whole, r as int, ink),
        decreases gdx - i + (gdd - j),
    {
        let ghost before = cells@;
        let ghost left = mapped(places(gdx, gdd, i, j), gx0, gy0, gx1, gy1);
        stamp_cells(cells, x, y, r, ink);
        proof {
            lemma_places(gdx, gdd, i, j);
            assert(left[0] == (x as int, y as int));
        }
        if x == x1 && y == y1 {
            assert(i == gdx && j == gdd);
            assert(left.drop_first() =~= Seq::empty());
            assert(stroked(cells@, Seq::empty(), r as int, ink) == cells@);
            break;
        }
        proof {
            lemma_next_place(gdx, gdd, i, j);
            let n = next_place(gdx, gdd, i, j);
            assert(left.drop_first() =~= mapped(
                places(gdx, gdd, n.0, n.1),
                gx0,
                gy0,
                gx1,
                gy1,
            ));
            lemma_strayed(gdx, gdd, i, j);
        }
        let e2: i64 = 2 * e;
        let ghost n = next_place(gdx, gdd, i, j);
        if e2 >= -dd {
            e = e - dd;
            x = if x0 < x1 {
                x + 1
            } else {
                x - 1
            };
        }
        if e2 <= dx {
            e = e + dx;
            y = if y0 < y1 {
                y + 1
            } else {
                y - 1
            };
        }
        proof {
            i = n.0;
            j = n.1;
        }
    }
}

/// Places of a walk as cells.
spec fn mapped(p: Seq<(int, int)>, x0: int, y0: int, x1: int, y1: int) -> Seq<(int, int)> {
    Seq::new(p.len(), |k: int| (towards(x0, x1, p[k].0), towards(y0, y1, p[k].1)))
}

// ── Filling ──────────────────────────────────────────────────────────────────

/// Whether two cells share an edge.
pub open spec fn share_edge(a: (int, int), b: (int, int)) -> bool {
    apart(a.0, b.0) + apart(a.1, b.1) == 1
}

/// Whether a cell is on the grid and has this colour.
pub open spec fn has_color(cells: Seq<u8>, color: u8, c: (int, int)) -> bool {
    on_grid(c.0, c.1) && cells[at(c.0, c.1)] == color
}

/// Whether a path leads over cells of one colour, from edge to edge.
pub open spec fn is_path(cells: Seq<u8>, color: u8, p: Seq<(int, int)>) -> bool {
    &&& p.len() > 0
    &&& forall|k: int| 0 <= k < p.len() ==> has_color(cells, color, #[trigger] p[k])
    &&& forall|k: int, m: int|
        #![trigger p[k], p[m]]
        0 <= k < m < p.len() && m == k + 1 ==> share_edge(p[k], p[m])
}

/// Whether a path over cells of one colour leads from one cell to another.
pub open spec fn connected(cells: Seq<u8>, color: u8, a: (int, int), b: (int, int)) -> bool {
    exists|p: Seq<(int, int)>| #[trigger]
        is_path(cells, color, p) && p[0] == a && p.last() == b
}

/// The grid after everything connected to a cell got another colour.
pub open spec fn flooded(cells: Seq<u8>, start: (int, int), target: u8, repl: u8) -> Seq<u8> {
    Seq::new(
        cells.len(),
        |i: int|
            if connected(cells, target, start, (i % 64, i / 64)) {
                repl
            } else {
                cells[i]
            },
    )
}

/// How many cells have a colour.
spec fn tally(cells: Seq<u8>, color: u8) -> nat
    decreases cells.len(),
{
    if cells.len() == 0 {
        0
    } else {
        tally(cells.drop_last(), color) + if cells.last() == color {
            1nat
        } else {
            0nat
        }
    }
}

proof fn lemma_tally_update(cells: Seq<u8>, color: u8, i: int, c: u8)
    requires
        0 <= i < cells.len(),
        cells[i] == color,
        c != color,
    ensures
        tally(cells.update(i, c), color) + 1 == tally(cells, color),
    decreases cells.len(),
{
    let u = cells.update(i, c);
    if i == cells.len() - 1 {
        assert(u.drop_last() =~= cells.drop_last());
    } else {
        lemma_tally_update(cells.drop_last(), color, i, c);
        assert(u.drop_last() =~= cells.drop_last().update(i, c));
    }
}

/// Whether a cell was filled.
spec fn is_filled(cells: Seq<u8>, old_cells: Seq<u8>, target: u8, c: (int, int)) -> bool {
    has_color(old_cells, target, c) && cells[at(c.0, c.1)] != target
}

/// Whether every neighbour of a filled cell is filled or waits to be looked at, and so
/// is the start.
spec fn is_frontier(
    cells: Seq<u8>,
    old_cells: Seq<u8>,
    target: u8,
    start: (int, int),
    stack: Seq<(i32, i32)>,
) -> bool {
    &&& has_color(old_cells, target, start) ==> is_filled(cells, old_cells, target, start) || waits(
        stack,
        start,
    )
    &&& forall|a: (int, int), b: (int, int)|
        #![trigger is_filled(cells, old_cells, target, a), has_color(old_cells, target, b)]
        is_filled(cells, old_cells, target, a) && share_edge(a, b) && has_color(
            old_cells,
            target,
            b,
        ) ==> is_filled(cells, old_cells, target, b) || waits(stack, b)
}

/// Whether a cell is on the stack.
spec fn waits(stack: Seq<(i32, i32)>, c: (int, int)) -> bool {
    exists|k: int| 0 <= k < stack.len() && (#[trigger] stack[k]).0 == c.0 && stack[k].1 == c.1
}

/// Whether everything on the stack can be reached.
spec fn is_sound(
    old_cells: Seq<u8>,
    target: u8,
    start: (int, int),
    stack: Seq<(i32, i32)>,
) -> bool {
    forall|k: int|
        0 <= k < stack.len() && has_color(
            old_cells,
            target,
            ((#[trigger] stack[k]).0 as int, stack[k].1 as int),
        ) ==> connected(old_cells, target, start, (stack[k].0 as int, stack[k].1 as int))
}

proof fn lemma_connected_further(
    cells: Seq<u8>,
    color: u8,
    a: (int, int),
    b: (int, int),
    c: (int, int),
)
    requires
        connected(cells, color, a, b),
        share_edge(b, c),
        has_color(cells, color, c),
    ensures
        connected(cells, color, a, c),
{
    let p = choose|p: Seq<(int, int)>| #[trigger]
        is_path(cells, color, p) && p[0] == a && p.last() == b;
    let q = p.push(c);
    assert(is_path(cells, color, q)) by {
        assert forall|k: int| 0 <= k < q.len() implies has_color(cells, color, #[trigger] q[k]) by {
            if k < p.len() {
                assert(q[k] == p[k]);
            }
        }
        assert forall|k: int, m: int|
            #![trigger q[k], q[m]]
            0 <= k < m < q.len() && m == k + 1 implies share_edge(q[k], q[m]) by {
            assert(q[k] == p[k]);
            if m < p.len() {
                assert(q[m] == p[m]);
            }
        }
    }
    assert(q[0] == a);
    assert(q.last() == c);
}

proof fn lemma_connected_is_filled(
    cells: Seq<u8>,
    old_cells: Seq<u8>,
    target: u8,
    start: (int, int),
    p: Seq<(int, int)>,
    n: int,
)
    requires
        is_frontier(cells, old_cells, target, start, Seq::empty()),
        is_path(old_cells, target, p),
        p[0] == start,
        0 <= n < p.len(),
    ensures
        is_filled(cells, old_cells, target, p[n]),
    decreases n,
{
    assert(has_color(old_cells, target, p[n]));
    if n > 0 {
        lemma_connected_is_filled(cells, old_cells, target, start, p, n - 1);
        assert(share_edge(p[n - 1], p[n]));
    }
}

/// Fills everything connected to a cell.
pub fn flood_cells(cells: &mut Vec<u8>, sx: i32, sy: i32, target: u8, repl: u8)
    requires
        is_grid(old(cells)@),
    ensures
        is_grid(final(cells)@),
        final(cells)@ == flooded(old(cells)@, (sx as int, sy as int), target, repl),
{
    let ghost old_cells = cells@;
    let ghost start = (sx as int, sy as int);
    if target == repl {
        proof {
            assert forall|i: int| 0 <= i < CELLS implies cells@[i] == flooded(
                old_cells,
                start,
                target,
                repl,
            )[i] by {
                if connected(old_cells, target, start, (i % 64, i / 64)) {
                    let p = choose|p: Seq<(int, int)>| #[trigger]
                        is_path(old_cells, target, p) && p[0] == start && p.last() == (
                            i % 64,
                            i / 64,
                        );
                    assert(has_color(old_cells, target, p[p.len() - 1]));
                }
            }
            assert(cells@ =~= flooded(old_cells, start, target, repl));
        }
        return;
    }
    let mut stack: Vec<(i32, i32)> = Vec::new();
    stack.push((sx, sy));
    proof {
        assert(stack@[0] == (sx, sy));
        assert(waits(stack@, start));
        if has_color(old_cells, target, start) {
            let p = seq![start];
            assert(is_path(old_cells, target, p));
            assert(p.last() == start);
        }
    }
    while stack.len() > 0
        invariant
            target != repl,
            start == (sx as int, sy as int),
            is_grid(old_cells),
            is_grid(cells@),
            forall|i: int|
                0 <= i < CELLS ==> #[trigger] cells@[i] == old_cells[i] || (old_cells[i] == target
                    && cells@[i] == repl && connected(
                    old_cells,
                    target,
                    start,
                    (i % 64, i / 64),
                )),
            is_sound(old_cells, target, start, stack@),
            is_frontier(cells@, old_cells, target, start, stack@),
        decreases tally(cells@, target), stack@.len(),
    {
        let ghost was = stack@;
        let ghost before = cells@;
        let top = stack.pop();
        let (x, y) = match top {
            Some(t) => t,
            None => {
                return;
            },
        };
        let ghost c = (x as int, y as int);
        assert(was.last() == (x, y));
        assert(stack@ == was.drop_last());
        proof {
            assert forall|d: (int, int)| waits(was, d) && d != c implies waits(stack@, d) by {
                let k = choose|k: int|
                    0 <= k < was.len() && (#[trigger] was[k]).0 == d.0 && was[k].1 == d.1;
                assert(stack@[k] == was[k]);
            }
            assert forall|k: int|
                0 <= k < stack@.len() && has_color(
                    old_cells,
                    target,
                    ((#[trigger] stack@[k]).0 as int, stack@[k].1 as int),
                ) implies connected(
                old_cells,
                target,
                start,
                (stack@[k].0 as int, stack@[k].1 as int),
            ) by {
                assert(stack@[k] == was[k]);
            }
        }
        if !is_on_grid(x, y) {
            assert(!has_color(old_cells, target, c));
            continue;
        }
        let i: usize = (y * GW + x) as usize;
        assert(i == at(c.0, c.1));
        if cells[i] != target {
            proof {
                assert(has_color(old_cells, target, c) ==> is_filled(
                    cells@,
                    old_cells,
                    target,
                    c,
                ));
            }
            continue;
        }
        let ghost left = stack@;
        proof {
            assert(old_cells[i as int] == target);
            assert(has_color(old_cells, target, c));
            assert(was[was.len() - 1] == (x, y));
            assert(connected(old_cells, target, start, c));
            lemma_tally_update(cells@, target, i as int, repl);
            assert(i as int % 64 == x && i as int / 64 == y);
        }
        cells.set(i, repl);
        stack.push((x + 1, y));
        stack.push((x - 1, y));
        stack.push((x, y + 1));
        stack.push((x, y - 1));
        proof {
            let n = left.len() as int;
            assert(stack@[n] == ((x + 1) as i32, y));
            assert(stack@[n + 1] == ((x - 1) as i32, y));
            assert(stack@[n + 2] == (x, (y + 1) as i32));
            assert(stack@[n + 3] == (x, (y - 1) as i32));
            assert forall|d: (int, int)| share_edge(c, d) implies waits(stack@, d) by {
                assert(stack@[n].0 == d.0 && stack@[n].1 == d.1 || stack@[n + 1].0 == d.0
                    && stack@[n + 1].1 == d.1 || stack@[n + 2].0 == d.0 && stack@[n + 2].1 == d.1
                    || stack@[n + 3].0 == d.0 && stack@[n + 3].1 == d.1);
            }
            assert forall|d: (int, int)| waits(left, d) implies waits(stack@, d) by {
                let k = choose|k: int|
                    0 <= k < left.len() && (#[trigger] left[k]).0 == d.0 && left[k].1 == d.1;
                assert(stack@[k] == left[k]);
            }
            assert(is_sound(old_cells, target, start, stack@)) by {
                assert forall|k: int|
                    0 <= k < stack@.len() && has_color(
                        old_cells,
                        target,
                        ((#[trigger] stack@[k]).0 as int, stack@[k].1 as int),
                    ) implies connected(
                    old_cells,
                    target,
                    start,
                    (stack@[k].0 as int, stack@[k].1 as int),
                ) by {
                    if k < n {
                        assert(stack@[k] == left[k]);
                    } else {
                        let d = (stack@[k].0 as int, stack@[k].1 as int);
                        assert(share_edge(c, d));
                        lemma_connected_further(old_cells, target, start, c, d);
                    }
                }
            }
            assert(is_frontier(cells@, old_cells, target, start, stack@)) by {
                assert forall|d: (int, int)| is_filled(before, old_cells, target, d) implies is_filled(
                    cells@,
                    old_cells,
                    target,
                    d,
                ) by {
                    assert(at(d.0, d.1) != i || before[i as int] == target);
                }
                assert(is_filled(cells@, old_cells, target, c));
                assert forall|a: (int, int), b: (int, int)|
                    #![trigger is_filled(cells@, old_cells, target, a), has_color(old_cells, target, b)]
                    is_filled(cells@, old_cells, target, a) && share_edge(a, b) && has_color(
                        old_cells,
                        target,
                        b,
                    ) implies is_filled(cells@, old_cells, target, b) || waits(stack@, b) by {
                    if a != c {
                        assert(at(a.0, a.1) != i);
                        assert(is_filled(before, old_cells, target, a));
                        assert(is_filled(before, old_cells, target, b) || waits(was, b));
                        if b != c && waits(was, b) {
                            assert(waits(left, b));
                        }
                    }
                }
            }
        }
    }
    proof {
        assert(stack@ =~= Seq::empty());
        assert forall|i: int| 0 <= i < CELLS implies cells@[i] == flooded(
            old_cells,
            start,
            target,
            repl,
        )[i] by {
            let d = (i % 64, i / 64);
            if connected(old_cells, target, start, d) {
                let p = choose|p: Seq<(int, int)>| #[trigger]
                    is_path(old_cells, target, p) && p[0] == start && p.last() == d;
                lemma_connected_is_filled(cells@, old_cells, target, start, p, p.len() - 1);
                assert(at(d.0, d.1) == i);
            }
        }
        assert(cells@ =~= flooded(old_cells, start, target, repl));
    }
}

// ── Colours and export ───────────────────────────────────────────────────────

/// Red, green and blue of a colour of the palette.
pub open spec fn palette_rgb(c: u8) -> (u8, u8, u8) {
    if c == 0 {
        (24, 30, 46)
    } else if c == 1 {
        (0, 0, 0)
    } else if c == 2 {
        (255, 255, 255)
    } else if c == 3 {
        (155, 173, 200)
    } else if c == 4 {
        (90, 105, 136)
    } else if c == 5 {
        (239, 68, 68)
    } else if c == 6 {
        (251, 146, 60)
    } else if c == 7 {
        (250, 204, 21)
    } else if c == 8 {
        (74, 222, 128)
    } else if c == 9 {
        (16, 185, 129)
    } else if c == 10 {
        (56, 189, 248)
    } else if c == 11 {
        (59, 130, 246)
    } else if c == 12 {
        (139, 92, 246)
    } else if c == 13 {
        (217, 70, 239)
    } else if c == 14 {
        (244, 114, 182)
    } else if c == 15 {
        (120, 53, 15)
    } else {
        (180, 120, 70)
    }
}

/// Returns red, green and blue of a colour of the palette.
pub fn palette_parts(c: u8) -> (r: (u8, u8, u8))
    requires
        c < PALETTE_LEN,
    ensures
        r == palette_rgb(c),
{
    if c == 0 {
        (24, 30, 46)
    } else if c == 1 {
        (0, 0, 0)
    } else if c == 2 {
        (255, 255, 255)
    } else if c == 3 {
        (155, 173, 200)
    } else if c == 4 {
        (90, 105, 136)
    } else if c == 5 {
        (239, 68, 68)
    } else if c == 6 {
        (251, 146, 60)
    } else if c == 7 {
        (250, 204, 21)
    } else if c == 8 {
        (74, 222, 128)
    } else if c == 9 {
        (16, 185, 129)
    } else if c == 10 {
        (56, 189, 248)
    } else if c == 11 {
        (59, 130, 246)
    } else if c == 12 {
        (139, 92, 246)
    } else if c == 13 {
        (217, 70, 239)
    } else if c == 14 {
        (244, 114, 182)
    } else if c == 15 {
        (120, 53, 15)
    } else {
        (180, 120, 70)
    }
}

/// Returns a colour of the palette.
pub fn palette(c: u8) -> (r: Color)
    requires
        c < PALETTE_LEN,
    ensures
        ({
            let p = palette_rgb(c);
            r.0 == packed(p.0, p.1, p.2, 255)
        }),
{
    let (r, g, b) = palette_parts(c);
    Color::rgb(r, g, b)
}

/// One of the four bytes of an exported pixel. Empty cells are transparent.
pub open spec fn export_channel(c: u8, channel: int) -> u8 {
    let p = palette_rgb(c);
    if c == 0 {
        0
    } else if channel == 0 {
        p.0
    } else if channel == 1 {
        p.1
    } else if channel == 2 {
        p.2
    } else {
        255
    }
}

/// The pixels of an exported drawing: every cell eight pixels across and down.
pub open spec fn exported(cells: Seq<u8>) -> Seq<u8> {
    Seq::new(
        786432,
        |i: int| export_channel(cells[at(i / 4 % 512 / 8, i / 4 / 512 / 8)], i % 4),
    )
}

fn exported_pixels(cells: &Vec<u8>) -> (rgba: Vec<u8>)
    requires
        is_grid(cells@),
        in_palette(cells@),
    ensures
        rgba@ == exported(cells@),
{
    let mut rgba: Vec<u8> = Vec::new();
    let mut k: usize = 0;
    while k < 196608
        invariant
            k <= 196608,
            is_grid(cells@),
            in_palette(cells@),
            rgba@.len() == 4 * k,
            forall|i: int| 0 <= i < 4 * k ==> #[trigger] rgba@[i] == exported(cells@)[i],
        decreases 196608 - k,
    {
        let x: usize = k % 512 / 8;
        let y: usize = k / 512 / 8;
        assert(x < 64 && y < 48);
        let c: u8 = cells[y * 64 + x];
        let ghost before = rgba@;
        if c == 0 {
            rgba.push(0);
            rgba.push(0);
            rgba.push(0);
            rgba.push(0);
        } else {
            let (r, g, b) = palette_parts(c);
            rgba.push(r);
            rgba.push(g);
            rgba.push(b);
            rgba.push(255);
        }
        proof {
            assert forall|i: int| 0 <= i < 4 * (k + 1) implies #[trigger] rgba@[i] == exported(
                cells@,
            )[i] by {
                if i < 4 * k {
                    assert(rgba@[i] == before[i]);
                } else {
                    assert(i / 4 == k);
                    assert(i % 4 == i - 4 * k);
                }
            }
        }
        k += 1;
    }
    assert(rgba@ =~= exported(cells@));
    rgba
}

/// Returns the image file of a drawing.
pub fn export_png(cells: &Vec<u8>) -> (png: Vec<u8>)
    requires
        is_grid(cells@),
        in_palette(cells@),
    ensures
        png@ == png_bytes(512, 384, exported(cells@)),
{
    let rgba = exported_pixels(cells);
    encode_png(512, 384, &rgba)
}

// ── The editor ───────────────────────────────────────────────────────────────

/// What can be pressed in the toolbar.
#[derive(Clone, Copy, Debug, PartialEq, Eq, Structural)]
pub enum BarItem {
    Tool(Tool),
    /// A brush size, from one.
    Size(i32),
    /// A colour of the palette, from one.
    Swatch(u8),
    Save,
    Grid,
    Clear,
}

/// What pressing something in the toolbar asks of the host.
pub enum BarAction {
    Nothing,
    /// Offer this image file to the user.
    SaveImage(Vec<u8>),
    /// Store this drawing.
    Store(Vec<u8>),
}

impl Paint {
    /// The editor with an empty drawing.
    pub fn new() -> (p: Paint)
        ensures
            p.wf(),
            p.cells@ == Seq::new(CELLS as nat, |i: int| 0u8),
            p.color == 2 && p.size == 1 && p.tool == Tool::Brush && p.prev is None && p.grid
                && !p.dirty && !p.was_down,
    {
        Paint {
            cells: empty_cells(),
            color: 2,
            size: 1,
            tool: Tool::Brush,
            prev: None,
            grid: true,
            dirty: false,
            was_down: false,
        }
    }

    /// Takes up a stored drawing, if it has the right size.
    pub fn load(&mut self, stored: &Vec<u8>)
        requires
            old(self).wf(),
        ensures
            final(self).wf(),
            final(self).cells@ == if stored@.len() == CELLS {
                stored@
            } else {
                old(self).cells@
            },
            *final(self) == (Paint { cells: final(self).cells, ..*old(self) }),
    {
        if stored.len() == CELLS {
            let mut v: Vec<u8> = Vec::new();
            let mut i: usize = 0;
            while i < CELLS
                invariant
                    i <= CELLS,
                    stored@.len() == CELLS,
                    v@ == stored@.take(i as int),
                decreases CELLS - i,
            {
                v.push(stored[i]);
                i += 1;
                assert(v@ =~= stored@.take(i as int));
            }
            assert(v@ =~= stored@);
            self.cells = v;
        }
    }

    /// The ink of the tool in hand.
    pub open spec fn ink(self) -> u8 {
        if self.tool == Tool::Eraser {
            0
        } else {
            self.color
        }
    }

    /// The pointer is down over a cell.
    pub fn drag(&mut self, gx: i32, gy: i32)
        requires
            old(self).wf(),
            on_grid(gx as int, gy as int),
        ensures
            final(self).wf(),
            final(self).size == old(self).size && final(self).grid == old(self).grid
                && final(self).was_down == old(self).was_down,
            ({
                let p = *old(self);
                let q = *final(self);
                let c = p.cells@[at(gx as int, gy as int)];
                match p.tool {
                    Tool::Pick => q.cells@ == p.cells@ && q.prev == p.prev && q.dirty == p.dirty
                        && q.tool == Tool::Brush && q.color == if c != 0 {
                        c
                    } else {
                        p.color
                    },
                    Tool::Fill => q.prev == p.prev && q.tool == p.tool && q.color == p.color
                        && if p.was_down {
                        q.cells@ == p.cells@ && q.dirty == p.dirty
                    } else {
                        q.cells@ == flooded(p.cells@, (gx as int, gy as int), c, p.color) && q.dirty
                    },
                    _ => q.tool == p.tool && q.color == p.color && q.prev == Some((gx, gy))
                        && q.dirty && q.cells@ == match p.prev {
                        Some(l) => stroked(
                            p.cells@,
                            line_of(l.0 as int, l.1 as int, gx as int, gy as int),
                            p.size - 1,
                            p.ink(),
                        ),
                        None => stamped(p.cells@, gx as int, gy as int, p.size - 1, p.ink()),
                    },
                }
            }),
    {
        let here: usize = (gy * GW + gx) as usize;
        match self.tool {
            Tool::Pick => {
                let c: u8 = self.cells[here];
                if c != 0 {
                    self.color = c;
                }
                self.tool = Tool::Brush;
            },
            Tool::Fill => {
                if !self.was_down {
                    let target: u8 = self.cells[here];
                    let repl: u8 = self.color;
                    flood_cells(&mut self.cells, gx, gy, target, repl);
                    self.dirty = true;
                }
            },
            _ => {
                let ink: u8 = match self.tool {
                    Tool::Eraser => 0,
                    _ => self.color,
                };
                let r: i32 = self.size - 1;
                match self.prev {
                    Some((px, py)) => line_cells(&mut self.cells, px, py, gx, gy, r, ink),
                    None => stamp_cells(&mut self.cells, gx, gy, r, ink),
                }
                self.prev = Some((gx, gy));
                self.dirty = true;
            },
        }
    }

    /// The pointer is up, or over the toolbar: the next stroke starts anew.
    pub fn lift(&mut self)
        requires
            old(self).wf(),
        ensures
            final(self).wf(),
            *final(self) == (Paint { prev: None, ..*old(self) }),
    {
        self.prev = None;
    }

    /// Ends a frame. Returns the drawing if it has to be stored: once, when the pointer
    /// is released after painting.
    pub fn settle(&mut self, down: bool) -> (r: Option<Vec<u8>>)
        requires
            old(self).wf(),
        ensures
            final(self).wf(),
            match r {
                Some(v) => old(self).was_down && !down && old(self).dirty && v@ == old(self).cells@,
                None => !(old(self).was_down && !down && old(self).dirty),
            },
            *final(self) == (Paint {
                was_down: down,
                dirty: old(self).dirty && r is None,
                ..*old(self)
            }),
    {
        let mut r: Option<Vec<u8>> = None;
        if self.was_down && !down && self.dirty {
            r = Some(self.cells.clone());
            self.dirty = false;
        }
        self.was_down = down;
        r
    }

    /// Something in the toolbar was pressed.
    pub fn tap(&mut self, item: BarItem) -> (a: BarAction)
        requires
            old(self).wf(),
            in_palette(old(self).cells@),
            item matches BarItem::Size(n) ==> 1 <= n <= 3,
        ensures
            final(self).wf(),
            final(self).prev == old(self).prev && final(self).was_down == old(self).was_down,
            ({
                let p = *old(self);
                let q = *final(self);
                &&& q.tool == match item {
                    BarItem::Tool(t) => t,
                    BarItem::Swatch(_) => if p.tool == Tool::Eraser {
                        Tool::Brush
                    } else {
                        p.tool
                    },
                    _ => p.tool,
                }
                &&& q.size == match item {
                    BarItem::Size(n) => n,
                    _ => p.size,
                }
                &&& q.color == match item {
                    BarItem::Swatch(c) => c,
                    _ => p.color,
                }
                &&& q.grid == (p.grid != (item == BarItem::Grid))
                &&& q.cells@ == if item == BarItem::Clear {
                    Seq::new(CELLS as nat, |i: int| 0u8)
                } else {
                    p.cells@
                }
                &&& q.dirty == (p.dirty && item != BarItem::Clear)
                &&& match a {
                    BarAction::Nothing => item != BarItem::Save && item != BarItem::Clear,
                    BarAction::SaveImage(v) => item == BarItem::Save && v@ == png_bytes(
                        512,
                        384,
                        exported(p.cells@),
                    ),
                    BarAction::Store(v) => item == BarItem::Clear && v@ == q.cells@,
                }
            }),
    {
        match item {
            BarItem::Tool(t) => {
                self.tool = t;
            },
            BarItem::Size(n) => {
                self.size = n;
            },
            BarItem::Swatch(c) => {
                self.color = c;
                match self.tool {
                    Tool::Eraser => {
                        self.tool = Tool::Brush;
                    },
                    _ => {},
                }
            },
            BarItem::Save => {
                return BarAction::SaveImage(export_png(&self.cells));
            },
            BarItem::Grid => {
                self.grid = !self.grid;
            },
            BarItem::Clear => {
                self.cells = empty_cells();
                self.dirty = false;
                return BarAction::Store(empty_cells());
            },
        }
        BarAction::Nothing
    }
}

proof fn lemma_stroke_in_palette(cells: Seq<u8>, line: Seq<(int, int)>, r: int, ink: u8)
    requires
        in_palette(cells),
        ink < PALETTE_LEN,
    ensures
        in_palette(stroked(cells, line, r, ink)),
    decreases line.len(),
{
    if line.len() > 0 {
        lemma_stroke_in_palette(
            stamped(cells, line[0].0, line[0].1, r, ink),
            line.drop_first(),
            r,
            ink,
        );
    }
}

/// Painting and filling with a colour of the palette leaves only colours of the palette.
pub proof fn lemma_tools_stay_in_palette(
    cells: Seq<u8>,
    line: Seq<(int, int)>,
    r: int,
    start: (int, int),
    target: u8,
    ink: u8,
)
    requires
        in_palette(cells),
        ink < PALETTE_LEN,
    ensures
        in_palette(stroked(cells, line, r, ink)),
        in_palette(stamped(cells, start.0, start.1, r, ink)),
        in_palette(flooded(cells, start, target, ink)),
{
    lemma_stroke_in_palette(cells, line, r, ink);
}

// ── The toolbar ──────────────────────────────────────────────────────────────

/// The width of the toolbar in pixels.
pub const BAR: i32 = 74;

/// Where something in the toolbar stands.
#[derive(Clone, Copy, Debug, PartialEq, Eq, Structural)]
pub struct BarRect {
    pub x: i32,
    /// From the top, or from the bottom where it is negative.
    pub y: i32,
    pub w: i32,
    pub h: i32,
}

/// The place of a tool, of the four in two columns.
pub open spec fn tool_place(i: int) -> BarRect {
    BarRect { x: (8 + i % 2 * 30) as i32, y: (14 + i / 2 * 30) as i32, w: 26, h: 26 }
}

/// The place of a brush size, of the three in a row.
pub open spec fn size_place(i: int) -> BarRect {
    BarRect { x: (8 + i * 21) as i32, y: 78, w: 18, h: 18 }
}

/// The place of a colour, of the sixteen in two columns.
pub open spec fn swatch_place(i: int) -> BarRect {
    BarRect { x: (8 + i % 2 * 30) as i32, y: (106 + i / 2 * 30) as i32, w: 26, h: 26 }
}

/// The place of a button at the bottom, of the three below each other.
pub open spec fn bottom_place(i: int) -> BarRect {
    BarRect { x: 8, y: (-110 + i * 34) as i32, w: 56, h: 28 }
}

/// Returns the place of a tool.
pub fn tool_rect(i: i32) -> (r: BarRect)
    requires
        0 <= i < 4,
    ensures
        r == tool_place(i as int),
{
    BarRect { x: 8 + i % 2 * 30, y: 14 + i / 2 * 30, w: 26, h: 26 }
}

/// Returns the place of a brush size.
pub fn size_rect(i: i32) -> (r: BarRect)
    requires
        0 <= i < 3,
    ensures
        r == size_place(i as int),
{
    BarRect { x: 8 + i * 21, y: 78, w: 18, h: 18 }
}

/// Returns the place of a colour.
pub fn swatch_rect(i: i32) -> (r: BarRect)
    requires
        0 <= i < 16,
    ensures
        r == swatch_place(i as int),
{
    BarRect { x: 8 + i % 2 * 30, y: 106 + i / 2 * 30, w: 26, h: 26 }
}

/// Returns the place of a button at the bottom.
pub fn bottom_rect(i: i32) -> (r: BarRect)
    requires
        0 <= i < 3,
    ensures
        r == bottom_place(i as int),
{
    BarRect { x: 8, y: -110 + i * 34, w: 56, h: 28 }
}

/// The item at a position of the toolbar's list: the tools, the sizes, the colours, and
/// the buttons at the bottom.
pub open spec fn listed_item(i: int) -> (BarItem, BarRect) {
    if i < 4 {
        (
            BarItem::Tool(
                if i == 0 {
                    Tool::Brush
                } else if i == 1 {
                    Tool::Eraser
                } else if i == 2 {
                    Tool::Fill
                } else {
                    Tool::Pick
                },
            ),
            tool_place(i),
        )
    } else if i < 7 {
        (BarItem::Size((i - 3) as i32), size_place(i - 4))
    } else if i < 23 {
        (BarItem::Swatch((i - 6) as u8), swatch_place(i - 7))
    } else {
        (
            if i == 23 {
                BarItem::Save
            } else if i == 24 {
                BarItem::Grid
            } else {
                BarItem::Clear
            },
            bottom_place(i - 23),
        )
    }
}

/// How many items the toolbar has.
pub const BAR_ITEMS: i32 = 26;

/// Returns the item at a position of the toolbar's list. Where several lie under the
/// pointer, the first is pressed.
pub fn bar_item(i: i32) -> (r: (BarItem, BarRect))
    requires
        0 <= i < BAR_ITEMS,
    ensures
        r == listed_item(i as int),
        (r.0 matches BarItem::Size(n) ==> 1 <= n <= 3),
{
    if i < 4 {
        let t = if i == 0 {
            Tool::Brush
        } else if i == 1 {
            Tool::Eraser
        } else if i == 2 {
            Tool::Fill
        } else {
            Tool::Pick
        };
        (BarItem::Tool(t), tool_rect(i))
    } else if i < 7 {
        (BarItem::Size(i - 3), size_rect(i - 4))
    } else if i < 23 {
        (BarItem::Swatch((i - 6) as u8), swatch_rect(i - 7))
    } else {
        let b = if i == 23 {
            BarItem::Save
        } else if i == 24 {
            BarItem::Grid
        } else {
            BarItem::Clear
        };
        (b, bottom_rect(i - 23))
    }
}

/// Whether two places have nothing in common.
pub open spec fn disjoint(a: BarRect, b: BarRect) -> bool {
    a.x + a.w < b.x || b.x + b.w < a.x || a.y + a.h < b.y || b.y + b.h < a.y
}

/// Everything in the toolbar fits its width, and no two tools, sizes or colours, nor two
/// of the buttons at the bottom, lie over each other.
pub proof fn lemma_toolbar_fits(i: int, j: int)
    requires
        0 <= i < j < BAR_ITEMS,
    ensures
        0 <= listed_item(i).1.x && listed_item(i).1.x + listed_item(i).1.w < BAR,
        (j < 23 || i >= 23) ==> disjoint(listed_item(i).1, listed_item(j).1),
{
}

// ── What the tools change ────────────────────────────────────────────────────

/// The cells lie in rows from the top and from left to right, each at a place of its own.
pub proof fn lemma_cells_lie_in_rows(x: int, y: int)
    requires
        on_grid(x, y),
    ensures
        0 <= at(x, y) < 3072,
        at(x, y) % 64 == x && at(x, y) / 64 == y,
        at(0, 0) == 0,
        x + 1 < 64 ==> at(x + 1, y) == at(x, y) + 1,
        at(0, y + 1) == at(63, y) + 1,
{
}

/// A stamp inks the square around its middle, as far as its radius to every side, and leaves
/// every other cell.
pub proof fn lemma_stamp_inks_a_square(
    cells: Seq<u8>,
    cx: int,
    cy: int,
    r: int,
    ink: u8,
    x: int,
    y: int,
)
    requires
        is_grid(cells),
        on_grid(x, y),
    ensures
        stamped(cells, cx, cy, r, ink).len() == cells.len(),
        stamped(cells, cx, cy, r, ink)[at(x, y)] == if apart(cx, x) <= r && apart(cy, y) <= r {
            ink
        } else {
            cells[at(x, y)]
        },
{
    lemma_cells_lie_in_rows(x, y);
}

/// Whether a cell lies within a radius of a point of a line.
pub open spec fn near(line: Seq<(int, int)>, r: int, x: int, y: int) -> bool {
    exists|k: int|
        0 <= k < line.len() && apart((#[trigger] line[k]).0, x) <= r && apart(line[k].1, y) <= r
}

/// A stroke inks what lies within its radius of its line, and leaves every other cell.
pub proof fn lemma_stroke_inks_along_its_line(
    cells: Seq<u8>,
    line: Seq<(int, int)>,
    r: int,
    ink: u8,
    x: int,
    y: int,
)
    requires
        is_grid(cells),
        on_grid(x, y),
    ensures
        is_grid(stroked(cells, line, r, ink)),
        stroked(cells, line, r, ink)[at(x, y)] == if near(line, r, x, y) {
            ink
        } else {
            cells[at(x, y)]
        },
    decreases line.len(),
{
    if line.len() > 0 {
        let next = stamped(cells, line[0].0, line[0].1, r, ink);
        let rest = line.drop_first();
        lemma_stamp_inks_a_square(cells, line[0].0, line[0].1, r, ink, x, y);
        lemma_stroke_inks_along_its_line(next, rest, r, ink, x, y);
        if near(rest, r, x, y) {
            let k = choose|k: int|
                0 <= k < rest.len() && apart((#[trigger] rest[k]).0, x) <= r && apart(rest[k].1, y)
                    <= r;
            assert(line[k + 1] == rest[k]);
        }
        if near(line, r, x, y) && !near(rest, r, x, y) {
            let k = choose|k: int|
                0 <= k < line.len() && apart((#[trigger] line[k]).0, x) <= r && apart(line[k].1, y)
                    <= r;
            if k > 0 {
                assert(rest[k - 1] == line[k]);
            }
        }
        assert(apart(line[0].0, x) <= r && apart(line[0].1, y) <= r ==> near(line, r, x, y));
    }
}

/// Cells share an edge where one is directly left of, right of, above or below the other.
pub proof fn lemma_four_neighbours(a: (int, int), b: (int, int))
    ensures
        share_edge(a, b) <==> b == (a.0 - 1, a.1) || b == (a.0 + 1, a.1) || b == (a.0, a.1 - 1) || b
            == (a.0, a.1 + 1),
{
}

/// Filling inks the cell it begins at where this has the color that is exchanged, goes on
/// from each inked cell to the neighbours of that color, and leaves cells of other colors.
pub proof fn lemma_fill_spreads(
    cells: Seq<u8>,
    start: (int, int),
    target: u8,
    repl: u8,
    a: (int, int),
    b: (int, int),
)
    requires
        is_grid(cells),
        target != repl,
        on_grid(start.0, start.1) && on_grid(a.0, a.1) && on_grid(b.0, b.1),
    ensures
        ({
            let f = flooded(cells, start, target, repl);
            &&& cells[at(start.0, start.1)] == target ==> f[at(start.0, start.1)] == repl
            &&& cells[at(a.0, a.1)] != target ==> f[at(a.0, a.1)] == cells[at(a.0, a.1)]
            &&& f[at(a.0, a.1)] == repl || f[at(a.0, a.1)] == cells[at(a.0, a.1)]
            &&& share_edge(a, b) && cells[at(a.0, a.1)] == target && f[at(a.0, a.1)] == repl
                && cells[at(b.0, b.1)] == target ==> f[at(b.0, b.1)] == repl
        }),
{
    lemma_cells_lie_in_rows(start.0, start.1);
    lemma_cells_lie_in_rows(a.0, a.1);
    lemma_cells_lie_in_rows(b.0, b.1);
    if cells[at(start.0, start.1)] == target {
        let p = seq![start];
        assert(is_path(cells, target, p) && p[0] == start && p.last() == start);
        assert(connected(cells, target, start, start));
    }
    if connected(cells, target, start, a) {
        let p = choose|p: Seq<(int, int)>| #[trigger]
            is_path(cells, target, p) && p[0] == start && p.last() == a;
        assert(has_color(cells, target, p[p.len() - 1]));
        if share_edge(a, b) && cells[at(b.0, b.1)] == target {
            lemma_connected_further(cells, target, start, a, b);
        }
    }
}

/// Each cell is exported as a square of eight by eight pixels of its color, or clear ones
/// where it is empty.
pub proof fn lemma_cell_is_exported_as_a_square(cells: Seq<u8>, px: int, py: int)
    requires
        is_grid(cells),
        0 <= px < 512,
        0 <= py < 384,
    ensures
        ({
            let o = (py * 512 + px) * 4;
            let c = cells[at(px / 8, py / 8)];
            let e = exported(cells);
            &&& e.len() == 512 * 384 * 4
            &&& c == 0 ==> e[o] == 0 && e[o + 1] == 0 && e[o + 2] == 0 && e[o + 3] == 0
            &&& c != 0 ==> (e[o], e[o + 1], e[o + 2]) == palette_rgb(c) && e[o + 3] == 255
        }),
{
    let n = py * 512 + px;
    let o = n * 4;
    assert(n % 512 == px && n / 512 == py);
    assert(o / 4 == n && (o + 1) / 4 == n && (o + 2) / 4 == n && (o + 3) / 4 == n);
    assert(o % 4 == 0 && (o + 1) % 4 == 1 && (o + 2) % 4 == 2 && (o + 3) % 4 == 3);
}

/// The colors of the palette differ.
pub proof fn lemma_palette_differs(a: u8, b: u8)
    requires
        a < b < 17,
    ensures
        palette_rgb(a) != palette_rgb(b),
{
}

/// The eraser leaves cells empty; every other tool draws with the color that is chosen.
pub proof fn lemma_tools_draw_with_their_ink(p: Paint)
    ensures
        p.tool == Tool::Eraser ==> p.ink() == 0,
        p.tool != Tool::Eraser ==> p.ink() == p.color,
{
}

} // verus!

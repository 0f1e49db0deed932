//! How the flat list of widgets that a guest asked for nests: rows, cards and columns.
use vstd::prelude::*;
use crate::color::Color;
use crate::widget::WidgetCmd;

verus! {

/// What a widget means for the layout.
#[derive(Clone, Copy, Debug, PartialEq, Eq, Structural)]
pub enum Kind {
    RowBegin,
    RowEnd,
    CardBegin,
    CardEnd,
    ColumnsBegin(i32),
    ColumnNext,
    ColumnsEnd,
    /// Something to draw.
    Leaf,
}

/// What a widget means for the layout.
pub open spec fn kind_of(c: WidgetCmd) -> Kind {
    match c {
        WidgetCmd::RowBegin => Kind::RowBegin,
        WidgetCmd::RowEnd => Kind::RowEnd,
        WidgetCmd::CardBegin => Kind::CardBegin,
        WidgetCmd::CardBeginColor(_) => Kind::CardBegin,
        WidgetCmd::CardEnd => Kind::CardEnd,
        WidgetCmd::ColumnsBegin(n) => Kind::ColumnsBegin(n),
        WidgetCmd::ColumnNext => Kind::ColumnNext,
        WidgetCmd::ColumnsEnd => Kind::ColumnsEnd,
        _ => Kind::Leaf,
    }
}

/// What the widgets mean for the layout.
pub open spec fn kinds_of(cmds: Seq<WidgetCmd>) -> Seq<Kind> {
    Seq::new(cmds.len(), |i: int| kind_of(cmds[i]))
}

/// Returns what the widgets mean for the layout.
pub fn kinds(cmds: &Vec<WidgetCmd>) -> (r: Vec<Kind>)
    ensures
        r@ == kinds_of(cmds@),
{
    let mut out: Vec<Kind> = Vec::new();
    let mut i: usize = 0;
    while i < cmds.len()
        invariant
            i <= cmds@.len(),
            out@ == kinds_of(cmds@).take(i as int),
        decreases cmds.len() - i,
    {
        let k = match &cmds[i] {
            WidgetCmd::RowBegin => Kind::RowBegin,
            WidgetCmd::RowEnd => Kind::RowEnd,
            WidgetCmd::CardBegin => Kind::CardBegin,
            WidgetCmd::CardBeginColor(_) => Kind::CardBegin,
            WidgetCmd::CardEnd => Kind::CardEnd,
            WidgetCmd::ColumnsBegin(n) => Kind::ColumnsBegin(*n),
            WidgetCmd::ColumnNext => Kind::ColumnNext,
            WidgetCmd::ColumnsEnd => Kind::ColumnsEnd,
            _ => Kind::Leaf,
        };
        out.push(k);
        i += 1;
        assert(out@ =~= kinds_of(cmds@).take(i as int));
    }
    assert(out@ =~= kinds_of(cmds@));
    out
}

/// A pair of marks that belong together.
#[derive(Clone, Copy, Debug, PartialEq, Eq, Structural)]
pub enum Bracket {
    Row,
    Card,
    Columns,
}

/// Whether a mark opens a bracket.
pub open spec fn opens(b: Bracket, k: Kind) -> bool {
    match b {
        Bracket::Row => k is RowBegin,
        Bracket::Card => k is CardBegin,
        Bracket::Columns => k is ColumnsBegin,
    }
}

/// Whether a mark closes a bracket.
pub open spec fn closes(b: Bracket, k: Kind) -> bool {
    match b {
        Bracket::Row => k is RowEnd,
        Bracket::Card => k is CardEnd,
        Bracket::Columns => k is ColumnsEnd,
    }
}

fn does_open(b: Bracket, k: Kind) -> (r: bool)
    ensures
        r == opens(b, k),
{
    match (b, k) {
        (Bracket::Row, Kind::RowBegin) => true,
        (Bracket::Card, Kind::CardBegin) => true,
        (Bracket::Columns, Kind::ColumnsBegin(_)) => true,
        _ => false,
    }
}

fn does_close(b: Bracket, k: Kind) -> (r: bool)
    ensures
        r == closes(b, k),
{
    match (b, k) {
        (Bracket::Row, Kind::RowEnd) => true,
        (Bracket::Card, Kind::CardEnd) => true,
        (Bracket::Columns, Kind::ColumnsEnd) => true,
        _ => false,
    }
}

/// Where, from `i` on and before `to`, the bracket closes that is `depth` deep;
/// `to` where it does not. Brackets of other kinds are not looked at.
pub open spec fn end_at(k: Seq<Kind>, i: int, to: int, depth: nat, b: Bracket) -> int
    decreases to - i,
{
    if i >= to {
        to
    } else if opens(b, k[i]) {
        end_at(k, i + 1, to, depth + 1, b)
    } else if closes(b, k[i]) {
        if depth == 0 {
            i
        } else {
            end_at(k, i + 1, to, (depth - 1) as nat, b)
        }
    } else {
        end_at(k, i + 1, to, depth, b)
    }
}

/// Whether a mark opens any bracket.
pub open spec fn opens_any(k: Kind) -> bool {
    k is RowBegin || k is CardBegin || k is ColumnsBegin
}

/// Whether a mark closes any bracket.
pub open spec fn closes_any(k: Kind) -> bool {
    k is RowEnd || k is CardEnd || k is ColumnsEnd
}

/// Where, from `i` on and before `to`, the column ends that is `depth` deep in
/// brackets; `to` where none ends.
pub open spec fn column_end(k: Seq<Kind>, i: int, to: int, depth: int) -> int
    decreases to - i,
{
    if i >= to {
        to
    } else if opens_any(k[i]) {
        column_end(k, i + 1, to, depth + 1)
    } else if closes_any(k[i]) {
        column_end(k, i + 1, to, depth - 1)
    } else if k[i] is ColumnNext && depth == 0 {
        i
    } else {
        column_end(k, i + 1, to, depth)
    }
}

/// The end of a bracket lies where it was looked for.
pub proof fn lemma_end_bounds(k: Seq<Kind>, i: int, to: int, depth: nat, b: Bracket)
    ensures
        i <= to ==> i <= end_at(k, i, to, depth, b) <= to,
    decreases to - i,
{
    if i < to {
        if opens(b, k[i]) {
            lemma_end_bounds(k, i + 1, to, depth + 1, b);
        } else if closes(b, k[i]) {
            if depth > 0 {
                lemma_end_bounds(k, i + 1, to, (depth - 1) as nat, b);
            }
        } else {
            lemma_end_bounds(k, i + 1, to, depth, b);
        }
    }
}

/// The end of a column lies where it was looked for.
pub proof fn lemma_column_bounds(k: Seq<Kind>, i: int, to: int, depth: int)
    ensures
        i <= to ==> i <= column_end(k, i, to, depth) <= to,
    decreases to - i,
{
    if i < to {
        if opens_any(k[i]) {
            lemma_column_bounds(k, i + 1, to, depth + 1);
        } else if closes_any(k[i]) {
            lemma_column_bounds(k, i + 1, to, depth - 1);
        } else {
            lemma_column_bounds(k, i + 1, to, depth);
        }
    }
}

/// One step of drawing.
#[derive(Clone, Copy, Debug, PartialEq, Eq, Structural)]
pub enum Step {
    /// Begin the container that this widget opens.
    Open(usize),
    /// Begin the next column.
    Column,
    /// End what was begun last.
    Close,
    /// Draw this widget.
    Draw(usize),
}

/// The steps that draw the widgets from `i` up to `to`. A container takes what
/// stands up to its end, or everything where it has none; stray ends are skipped.
pub open spec fn steps(k: Seq<Kind>, i: int, to: int) -> Seq<Step>
    decreases to - i, 1int,
{
    if i >= to {
        Seq::empty()
    } else {
        match k[i] {
            Kind::RowBegin => contained(k, i, to, Bracket::Row),
            Kind::CardBegin => contained(k, i, to, Bracket::Card),
            Kind::ColumnsBegin(n) => {
                let e = end_at(k, i + 1, to, 0, Bracket::Columns);
                proof {
                    lemma_end_bounds(k, i + 1, to, 0, Bracket::Columns);
                }
                seq![Step::Open(i as usize)] + columns(k, i + 1, e, 0, n as int)
                    + seq![Step::Close] + if e + 1 <= to {
                    steps(k, e + 1, to)
                } else {
                    Seq::empty()
                }
            },
            Kind::Leaf => seq![Step::Draw(i as usize)] + steps(k, i + 1, to),
            _ => steps(k, i + 1, to),
        }
    }
}

/// The steps for the container that begins at `i`, and for what follows it.
pub open spec fn contained(k: Seq<Kind>, i: int, to: int, b: Bracket) -> Seq<Step>
    decreases to - i, 0int,
    when i < to
{
    let e = end_at(k, i + 1, to, 0, b);
    proof {
        lemma_end_bounds(k, i + 1, to, 0, b);
    }
    seq![Step::Open(i as usize)] + steps(k, i + 1, e) + seq![Step::Close] + if e + 1 <= to {
        steps(k, e + 1, to)
    } else {
        Seq::empty()
    }
}

/// The steps for the columns from number `idx` on, of `n`, that stand from `i` up to
/// `to`. Columns past the number asked for are not drawn.
pub open spec fn columns(k: Seq<Kind>, i: int, to: int, idx: int, n: int) -> Seq<Step>
    decreases to - i, 2int,
    when i <= to
{
    let e = column_end(k, i, to, 0);
    proof {
        lemma_column_bounds(k, i, to, 0);
    }
    let here = if idx < n {
        seq![Step::Column] + steps(k, i, e) + seq![Step::Close]
    } else {
        Seq::empty()
    };
    if e < to {
        here + columns(k, e + 1, to, idx + 1, n)
    } else {
        here
    }
}

/// Returns where the bracket that was opened just before `i` closes.
pub fn find_end(k: &Vec<Kind>, i: usize, to: usize, b: Bracket) -> (e: usize)
    requires
        i <= to <= k@.len(),
    ensures
        e == end_at(k@, i as int, to as int, 0, b),
        i <= e <= to,
{
    let mut at: usize = i;
    let mut depth: usize = 0;
    while at < to
        invariant
            i <= at <= to <= k@.len(),
            depth <= at,
            end_at(k@, i as int, to as int, 0, b) == end_at(
                k@,
                at as int,
                to as int,
                depth as nat,
                b,
            ),
        decreases to - at,
    {
        if does_open(b, k[at]) {
            depth += 1;
        } else if does_close(b, k[at]) {
            if depth == 0 {
                return at;
            }
            depth -= 1;
        }
        at += 1;
    }
    to
}

/// Returns where the column that begins at `i` ends.
pub fn find_column_end(k: &Vec<Kind>, i: usize, to: usize) -> (e: usize)
    requires
        i <= to <= k@.len(),
        to <= i64::MAX,
    ensures
        e == column_end(k@, i as int, to as int, 0),
        i <= e <= to,
{
    let mut at: usize = i;
    let mut depth: i64 = 0;
    while at < to
        invariant
            i <= at <= to <= k@.len(),
            to <= i64::MAX,
            -(at as int) <= depth <= at,
            column_end(k@, i as int, to as int, 0) == column_end(
                k@,
                at as int,
                to as int,
                depth as int,
            ),
        decreases to - at,
    {
        match k[at] {
            Kind::RowBegin | Kind::CardBegin | Kind::ColumnsBegin(_) => {
                depth += 1;
            },
            Kind::RowEnd | Kind::CardEnd | Kind::ColumnsEnd => {
                depth -= 1;
            },
            Kind::ColumnNext => {
                if depth == 0 {
                    return at;
                }
            },
            Kind::Leaf => {},
        }
        at += 1;
    }
    to
}

/// Adds the steps that draw the widgets from `from` up to `to`.
fn add_steps(k: &Vec<Kind>, from: usize, to: usize, out: &mut Vec<Step>)
    requires
        from <= to <= k@.len(),
        to <= i64::MAX,
    ensures
        final(out)@ == old(out)@ + steps(k@, from as int, to as int),
    decreases to - from, 1int,
{
    let ghost begun = out@;
    let mut i: usize = from;
    assert(begun + steps(k@, from as int, to as int) == out@ + steps(k@, i as int, to as int));
    while i < to
        invariant
            from <= i <= to <= k@.len(),
            to <= i64::MAX,
            begun + steps(k@, from as int, to as int) == out@ + steps(k@, i as int, to as int),
        decreases to - i,
    {
        let ghost before = out@;
        let ghost rest = steps(k@, i as int, to as int);
        match k[i] {
            Kind::RowBegin => {
                let e: usize = find_end(k, i + 1, to, Bracket::Row);
                assert(rest == contained(k@, i as int, to as int, Bracket::Row));
                out.push(Step::Open(i));
                add_steps(k, i + 1, e, out);
                out.push(Step::Close);
                i = if e < to { e + 1 } else { to };
            },
            Kind::CardBegin => {
                let e: usize = find_end(k, i + 1, to, Bracket::Card);
                assert(rest == contained(k@, i as int, to as int, Bracket::Card));
                out.push(Step::Open(i));
                add_steps(k, i + 1, e, out);
                out.push(Step::Close);
                i = if e < to { e + 1 } else { to };
            },
            Kind::ColumnsBegin(n) => {
                let e: usize = find_end(k, i + 1, to, Bracket::Columns);
                out.push(Step::Open(i));
                add_columns(k, i + 1, e, n, out);
                out.push(Step::Close);
                i = if e < to { e + 1 } else { to };
            },
            Kind::Leaf => {
                out.push(Step::Draw(i));
                i += 1;
            },
            _ => {
                i += 1;
            },
        }
        assert(before + rest =~= out@ + steps(k@, i as int, to as int));
    }
    assert(out@ + steps(k@, i as int, to as int) =~= out@);
}

/// Adds the steps for `n` columns that stand from `from` up to `to`.
fn add_columns(k: &Vec<Kind>, from: usize, to: usize, n: i32, out: &mut Vec<Step>)
    requires
        from <= to <= k@.len(),
        to <= i64::MAX,
    ensures
        final(out)@ == old(out)@ + columns(k@, from as int, to as int, 0, n as int),
    decreases to - from, 2int,
{
    let ghost begun = out@;
    let ghost all = columns(k@, from as int, to as int, 0, n as int);
    let mut at: usize = from;
    let mut idx: i64 = 0;
    loop
        invariant_except_break
            from <= at <= to <= k@.len(),
            to <= i64::MAX,
            0 <= idx <= at,
            begun + all == out@ + columns(k@, at as int, to as int, idx as int, n as int),
        ensures
            begun + all == out@,
        decreases to - at,
    {
        let e: usize = find_column_end(k, at, to);
        let ghost before = out@;
        let ghost rest = columns(k@, at as int, to as int, idx as int, n as int);
        if idx < n as i64 {
            out.push(Step::Column);
            add_steps(k, at, e, out);
            out.push(Step::Close);
        }
        if e >= to {
            assert(before + rest =~= out@);
            break;
        }
        at = e + 1;
        idx += 1;
        assert(before + rest =~= out@ + columns(k@, at as int, to as int, idx as int, n as int));
    }
}

/// Returns the steps that draw a list of widgets.
pub fn draw_steps(cmds: &Vec<WidgetCmd>) -> (r: Vec<Step>)
    requires
        cmds@.len() <= i64::MAX,
    ensures
        r@ == steps(kinds_of(cmds@), 0, cmds@.len() as int),
{
    let k = kinds(cmds);
    let mut out: Vec<Step> = Vec::new();
    add_steps(&k, 0, k.len(), &mut out);
    assert(out@ =~= steps(kinds_of(cmds@), 0, cmds@.len() as int));
    out
}

// ── What holds of every layout ───────────────────────────────────────────────

/// How deep the drawing is nested after some steps that began `depth` deep; nothing
/// where more was ended than begun.
pub open spec fn depth_after(s: Seq<Step>, depth: nat) -> Option<nat>
    decreases s.len(),
{
    if s.len() == 0 {
        Some(depth)
    } else {
        match s[0] {
            Step::Open(_) => depth_after(s.drop_first(), depth + 1),
            Step::Column => depth_after(s.drop_first(), depth + 1),
            Step::Close => if depth == 0 {
                None
            } else {
                depth_after(s.drop_first(), (depth - 1) as nat)
            },
            Step::Draw(_) => depth_after(s.drop_first(), depth),
        }
    }
}

proof fn lemma_depth_sum(a: Seq<Step>, b: Seq<Step>, depth: nat)
    ensures
        depth_after(a + b, depth) == match depth_after(a, depth) {
            Some(d) => depth_after(b, d),
            None => None,
        },
    decreases a.len(),
{
    if a.len() == 0 {
        assert(a + b =~= b);
    } else {
        assert((a + b).drop_first() =~= a.drop_first() + b);
        match a[0] {
            Step::Open(_) => lemma_depth_sum(a.drop_first(), b, depth + 1),
            Step::Column => lemma_depth_sum(a.drop_first(), b, depth + 1),
            Step::Close => if depth > 0 {
                lemma_depth_sum(a.drop_first(), b, (depth - 1) as nat)
            },
            Step::Draw(_) => lemma_depth_sum(a.drop_first(), b, depth),
        }
    }
}

proof fn lemma_depth_one(st: Step, depth: nat)
    ensures
        st is Open || st is Column ==> depth_after(seq![st], depth) == Some(depth + 1),
        st is Draw ==> depth_after(seq![st], depth) == Some(depth),
        st is Close && depth > 0 ==> depth_after(seq![st], depth) == Some((depth - 1) as nat),
{
    let s = seq![st];
    assert(s.drop_first() =~= Seq::<Step>::empty());
    reveal_with_fuel(depth_after, 2);
}

/// Whatever a guest asks for, drawing ends every container it began, and nothing
/// else.
pub proof fn lemma_steps_nested(k: Seq<Kind>, i: int, to: int, depth: nat)
    ensures
        depth_after(steps(k, i, to), depth) == Some(depth),
    decreases to - i, 1int,
{
    if i < to {
        match k[i] {
            Kind::RowBegin => lemma_contained_nested(k, i, to, Bracket::Row, depth),
            Kind::CardBegin => lemma_contained_nested(k, i, to, Bracket::Card, depth),
            Kind::ColumnsBegin(n) => {
                lemma_end_bounds(k, i + 1, to, 0, Bracket::Columns);
                let e = end_at(k, i + 1, to, 0, Bracket::Columns);
                lemma_columns_nested(k, i + 1, e, 0, n as int, depth + 1);
                let body = columns(k, i + 1, e, 0, n as int);
                let rest = if e + 1 <= to { steps(k, e + 1, to) } else { Seq::empty() };
                if e + 1 <= to {
                    lemma_steps_nested(k, e + 1, to, depth);
                }
                lemma_nested_parts(Step::Open(i as usize), body, rest, depth);
            },
            Kind::Leaf => {
                lemma_steps_nested(k, i + 1, to, depth);
                lemma_depth_one(Step::Draw(i as usize), depth);
                lemma_depth_sum(seq![Step::Draw(i as usize)], steps(k, i + 1, to), depth);
            },
            _ => lemma_steps_nested(k, i + 1, to, depth),
        }
    }
}

proof fn lemma_nested_parts(open: Step, body: Seq<Step>, rest: Seq<Step>, depth: nat)
    requires
        open is Open || open is Column,
        depth_after(body, depth + 1) == Some(depth + 1),
        depth_after(rest, depth) == Some(depth),
    ensures
        depth_after(seq![open] + body + seq![Step::Close] + rest, depth) == Some(depth),
{
    lemma_depth_one(open, depth);
    lemma_depth_one(Step::Close, depth + 1);
    lemma_depth_sum(seq![open], body, depth);
    lemma_depth_sum(seq![open] + body, seq![Step::Close], depth);
    lemma_depth_sum(seq![open] + body + seq![Step::Close], rest, depth);
}

proof fn lemma_contained_nested(k: Seq<Kind>, i: int, to: int, b: Bracket, depth: nat)
    requires
        i < to,
    ensures
        depth_after(contained(k, i, to, b), depth) == Some(depth),
    decreases to - i, 0int,
{
    lemma_end_bounds(k, i + 1, to, 0, b);
    let e = end_at(k, i + 1, to, 0, b);
    lemma_steps_nested(k, i + 1, e, depth + 1);
    let rest = if e + 1 <= to { steps(k, e + 1, to) } else { Seq::empty() };
    if e + 1 <= to {
        lemma_steps_nested(k, e + 1, to, depth);
    }
    lemma_nested_parts(Step::Open(i as usize), steps(k, i + 1, e), rest, depth);
}

proof fn lemma_columns_nested(k: Seq<Kind>, i: int, to: int, idx: int, n: int, depth: nat)
    requires
        i <= to,
    ensures
        depth_after(columns(k, i, to, idx, n), depth) == Some(depth),
    decreases to - i, 2int,
{
    lemma_column_bounds(k, i, to, 0);
    let e = column_end(k, i, to, 0);
    let here = if idx < n {
        seq![Step::Column] + steps(k, i, e) + seq![Step::Close]
    } else {
        Seq::empty()
    };
    if idx < n {
        lemma_steps_nested(k, i, e, depth + 1);
        lemma_nested_parts(Step::Column, steps(k, i, e), Seq::empty(), depth);
        assert(here + Seq::<Step>::empty() =~= here);
    }
    if e < to {
        lemma_columns_nested(k, e + 1, to, idx + 1, n, depth);
        lemma_depth_sum(here, columns(k, e + 1, to, idx + 1, n), depth);
    }
}

/// Whether the steps draw widgets from `i` up to `to` only, in their order, so none
/// of them twice.
pub open spec fn draws_in_order(s: Seq<Step>, i: int, to: int) -> bool {
    &&& forall|a: int|
        0 <= a < s.len() && (#[trigger] s[a]) is Draw ==> i <= s[a]->Draw_0 < to
    &&& forall|a: int, b: int|
        0 <= a < b < s.len() && (#[trigger] s[a]) is Draw && (#[trigger] s[b]) is Draw
            ==> s[a]->Draw_0 < s[b]->Draw_0
}

proof fn lemma_order_sum(a: Seq<Step>, b: Seq<Step>, i: int, mid: int, to: int)
    requires
        i <= mid <= to,
        draws_in_order(a, i, mid),
        draws_in_order(b, mid, to),
    ensures
        draws_in_order(a + b, i, to),
{
    let s = a + b;
    assert forall|x: int| 0 <= x < s.len() && (#[trigger] s[x]) is Draw implies i <= s[x]->Draw_0
        < to by {
        if x < a.len() {
            assert(s[x] == a[x]);
        } else {
            assert(s[x] == b[x - a.len()]);
        }
    }
    assert forall|x: int, y: int|
        0 <= x < y < s.len() && (#[trigger] s[x]) is Draw && (
        #[trigger] s[y]) is Draw implies s[x]->Draw_0 < s[y]->Draw_0 by {
        if y < a.len() {
            assert(s[x] == a[x] && s[y] == a[y]);
        } else if x >= a.len() {
            assert(s[x] == b[x - a.len()] && s[y] == b[y - a.len()]);
        } else {
            assert(s[x] == a[x] && s[y] == b[y - a.len()]);
        }
    }
}

proof fn lemma_order_widen(s: Seq<Step>, i: int, to: int, i2: int, to2: int)
    requires
        draws_in_order(s, i, to),
        i2 <= i,
        to <= to2,
    ensures
        draws_in_order(s, i2, to2),
{
}

proof fn lemma_order_parts(
    open: Step,
    body: Seq<Step>,
    rest: Seq<Step>,
    i: int,
    e: int,
    to: int,
)
    requires
        !(open is Draw),
        0 <= i <= e <= to,
        draws_in_order(body, i, e),
        draws_in_order(rest, e, to),
    ensures
        draws_in_order(seq![open] + body + seq![Step::Close] + rest, i, to),
{
    assert(draws_in_order(seq![open], i, i));
    assert(draws_in_order(seq![Step::Close], e, e));
    lemma_order_sum(seq![open], body, i, i, e);
    lemma_order_sum(seq![open] + body, seq![Step::Close], i, e, e);
    lemma_order_sum(seq![open] + body + seq![Step::Close], rest, i, e, to);
}

/// Whatever a guest asks for, widgets are drawn in the order in which it asked, and
/// none is drawn twice.
pub proof fn lemma_steps_ordered(k: Seq<Kind>, i: int, to: int)
    requires
        0 <= i,
        to <= usize::MAX,
    ensures
        draws_in_order(steps(k, i, to), i, to),
    decreases to - i, 1int,
{
    if i < to {
        match k[i] {
            Kind::RowBegin => lemma_contained_ordered(k, i, to, Bracket::Row),
            Kind::CardBegin => lemma_contained_ordered(k, i, to, Bracket::Card),
            Kind::ColumnsBegin(n) => {
                lemma_end_bounds(k, i + 1, to, 0, Bracket::Columns);
                let e = end_at(k, i + 1, to, 0, Bracket::Columns);
                lemma_columns_ordered(k, i + 1, e, 0, n as int);
                let body = columns(k, i + 1, e, 0, n as int);
                let rest = if e + 1 <= to { steps(k, e + 1, to) } else { Seq::empty() };
                if e + 1 <= to {
                    lemma_steps_ordered(k, e + 1, to);
                }
                lemma_order_widen(body, i + 1, e, i, e);
                lemma_order_widen(rest, e + 1, to, e, to);
                lemma_order_parts(Step::Open(i as usize), body, rest, i, e, to);
            },
            Kind::Leaf => {
                lemma_steps_ordered(k, i + 1, to);
                assert(draws_in_order(seq![Step::Draw(i as usize)], i, i + 1));
                lemma_order_sum(
                    seq![Step::Draw(i as usize)],
                    steps(k, i + 1, to),
                    i,
                    i + 1,
                    to,
                );
            },
            _ => {
                lemma_steps_ordered(k, i + 1, to);
                lemma_order_widen(steps(k, i + 1, to), i + 1, to, i, to);
            },
        }
    }
}

proof fn lemma_contained_ordered(k: Seq<Kind>, i: int, to: int, b: Bracket)
    requires
        0 <= i < to,
        to <= usize::MAX,
    ensures
        draws_in_order(contained(k, i, to, b), i, to),
    decreases to - i, 0int,
{
    lemma_end_bounds(k, i + 1, to, 0, b);
    let e = end_at(k, i + 1, to, 0, b);
    lemma_steps_ordered(k, i + 1, e);
    let rest = if e + 1 <= to { steps(k, e + 1, to) } else { Seq::empty() };
    if e + 1 <= to {
        lemma_steps_ordered(k, e + 1, to);
    }
    lemma_order_widen(steps(k, i + 1, e), i + 1, e, i, e);
    lemma_order_widen(rest, e + 1, to, e, to);
    lemma_order_parts(Step::Open(i as usize), steps(k, i + 1, e), rest, i, e, to);
}

proof fn lemma_columns_ordered(k: Seq<Kind>, i: int, to: int, idx: int, n: int)
    requires
        0 <= i <= to,
        to <= usize::MAX,
    ensures
        draws_in_order(columns(k, i, to, idx, n), i, to),
    decreases to - i, 2int,
{
    lemma_column_bounds(k, i, to, 0);
    let e = column_end(k, i, to, 0);
    let here = if idx < n {
        seq![Step::Column] + steps(k, i, e) + seq![Step::Close]
    } else {
        Seq::empty()
    };
    if idx < n {
        lemma_steps_ordered(k, i, e);
        lemma_order_parts(Step::Column, steps(k, i, e), Seq::empty(), i, e, e);
        assert(here + Seq::<Step>::empty() =~= here);
    }
    if e < to {
        lemma_columns_ordered(k, e + 1, to, idx + 1, n);
        lemma_order_widen(columns(k, e + 1, to, idx + 1, n), e + 1, to, e, to);
        lemma_order_sum(here, columns(k, e + 1, to, idx + 1, n), i, e, to);
    } else {
        lemma_order_widen(here, i, e, i, to);
    }
}

// ── Where a column ends ──────────────────────────────────────────────────────

/// How many marks of a layout, from `i` on and before `j`, begin a container.
pub open spec fn begins(k: Seq<Kind>, i: int, j: int) -> nat
    decreases j - i,
{
    if i >= j {
        0
    } else {
        begins(k, i + 1, j) + if k[i] is RowBegin || k[i] is CardBegin || k[i] is ColumnsBegin {
            1nat
        } else {
            0
        }
    }
}

/// How many marks of a layout, from `i` on and before `j`, end a container.
pub open spec fn ends(k: Seq<Kind>, i: int, j: int) -> nat
    decreases j - i,
{
    if i >= j {
        0
    } else {
        ends(k, i + 1, j) + if k[i] is RowEnd || k[i] is CardEnd || k[i] is ColumnsEnd {
            1nat
        } else {
            0
        }
    }
}

/// Whether a mark between columns stands at `j` with as many containers begun as ended
/// since `i`, `depth` of them begun before.
pub open spec fn parts(k: Seq<Kind>, i: int, depth: int, j: int) -> bool {
    k[j] is ColumnNext && depth + begins(k, i, j) == ends(k, i, j)
}

proof fn lemma_column_end_found(k: Seq<Kind>, i: int, to: int, depth: int, e: int)
    requires
        i <= e <= to,
        e < to ==> parts(k, i, depth, e),
        forall|j: int| i <= j < e ==> !#[trigger] parts(k, i, depth, j),
    ensures
        column_end(k, i, to, depth) == e,
    decreases e - i,
{
    if i < e {
        assert(!parts(k, i, depth, i));
        let d = depth + (if k[i] is RowBegin || k[i] is CardBegin || k[i] is ColumnsBegin {
            1int
        } else if k[i] is RowEnd || k[i] is CardEnd || k[i] is ColumnsEnd {
            -1
        } else {
            0
        });
        assert forall|j: int| i + 1 <= j < e implies !#[trigger] parts(k, i + 1, d, j) by {
            assert(!parts(k, i, depth, j));
        }
        lemma_column_end_found(k, i + 1, to, d, e);
    }
}

/// A column ends at the first mark between columns that has as many containers ended as
/// begun between the start of the column and itself, and where there is none, with the
/// columns.
pub proof fn lemma_column_ends_where_marks_balance(k: Seq<Kind>, i: int, to: int, e: int)
    requires
        i <= e <= to,
        e < to ==> k[e] is ColumnNext && begins(k, i, e) == ends(k, i, e),
        forall|j: int|
            i <= j < e && #[trigger] k[j] is ColumnNext ==> begins(k, i, j) != ends(k, i, j),
    ensures
        column_end(k, i, to, 0) == e,
{
    assert forall|j: int| i <= j < e implies !#[trigger] parts(k, i, 0, j) by {
        assert(k[j] is ColumnNext ==> begins(k, i, j) != ends(k, i, j));
    }
    lemma_column_end_found(k, i, to, 0, e);
}

// ── What nests ───────────────────────────────────────────────────────────────

/// Widgets as a guest nests them: one after the other, in rows, cards and columns.
pub enum Nest {
    Nothing,
    /// A widget to draw, and what follows it.
    Widget(WidgetCmd, Box<Nest>),
    /// A row of widgets, and what follows it.
    Row(Box<Nest>, Box<Nest>),
    /// A card of widgets, of a color of its own or not, and what follows it.
    Card(Option<Color>, Box<Nest>, Box<Nest>),
    /// As many columns as are asked for, what was drawn for them, and what follows them.
    Columns(i32, Box<Panes>, Box<Nest>),
}

/// The columns of widgets that stand side by side.
pub enum Panes {
    Last(Box<Nest>),
    More(Box<Nest>, Box<Panes>),
}

/// Whether a widget is no mark of a container.
pub open spec fn is_drawn(c: WidgetCmd) -> bool {
    !(c is RowBegin) && !(c is RowEnd) && !(c is CardBegin) && !(c is CardBeginColor) && !(
    c is CardEnd) && !(c is ColumnsBegin) && !(c is ColumnNext) && !(c is ColumnsEnd)
}

impl Nest {
    /// Whether the widgets in it are none that mark a container.
    pub open spec fn plain(self) -> bool
        decreases self,
    {
        match self {
            Nest::Nothing => true,
            Nest::Widget(c, rest) => is_drawn(c) && rest.plain(),
            Nest::Row(inside, rest) => inside.plain() && rest.plain(),
            Nest::Card(_, inside, rest) => inside.plain() && rest.plain(),
            Nest::Columns(_, panes, rest) => panes.plain() && rest.plain(),
        }
    }

    /// The list that the guest asks for, with the marks of the containers.
    pub open spec fn flat(self) -> Seq<WidgetCmd>
        decreases self,
    {
        match self {
            Nest::Nothing => Seq::empty(),
            Nest::Widget(c, rest) => seq![c] + rest.flat(),
            Nest::Row(inside, rest) => seq![WidgetCmd::RowBegin] + inside.flat() + seq![
                WidgetCmd::RowEnd,
            ] + rest.flat(),
            Nest::Card(color, inside, rest) => seq![
                match color {
                    Some(c) => WidgetCmd::CardBeginColor(c),
                    None => WidgetCmd::CardBegin,
                },
            ] + inside.flat() + seq![WidgetCmd::CardEnd] + rest.flat(),
            Nest::Columns(n, panes, rest) => seq![WidgetCmd::ColumnsBegin(n)] + panes.flat()
                + seq![WidgetCmd::ColumnsEnd] + rest.flat(),
        }
    }

    /// How it is drawn, its list standing from `at` on: every container around what it
    /// holds.
    pub open spec fn drawn(self, at: int) -> Seq<Step>
        decreases self,
    {
        match self {
            Nest::Nothing => Seq::empty(),
            Nest::Widget(_, rest) => seq![Step::Draw(at as usize)] + rest.drawn(at + 1),
            Nest::Row(inside, rest) => seq![Step::Open(at as usize)] + inside.drawn(at + 1) + seq![
                Step::Close,
            ] + rest.drawn(at + inside.flat().len() + 2),
            Nest::Card(_, inside, rest) => seq![Step::Open(at as usize)] + inside.drawn(at + 1)
                + seq![Step::Close] + rest.drawn(at + inside.flat().len() + 2),
            Nest::Columns(n, panes, rest) => seq![Step::Open(at as usize)] + panes.drawn(
                at + 1,
                n as int,
            ) + seq![Step::Close] + rest.drawn(at + panes.flat().len() + 2),
        }
    }
}

impl Panes {
    /// Whether the widgets in the columns are none that mark a container.
    pub open spec fn plain(self) -> bool
        decreases self,
    {
        match self {
            Panes::Last(only) => only.plain(),
            Panes::More(first, rest) => first.plain() && rest.plain(),
        }
    }

    /// The list that the guest asks for, with the marks between the columns.
    pub open spec fn flat(self) -> Seq<WidgetCmd>
        decreases self,
    {
        match self {
            Panes::Last(only) => only.flat(),
            Panes::More(first, rest) => first.flat() + seq![WidgetCmd::ColumnNext] + rest.flat(),
        }
    }

    /// How they are drawn, `room` columns being left: one column around each, as long as
    /// there is one.
    pub open spec fn drawn(self, at: int, room: int) -> Seq<Step>
        decreases self,
    {
        match self {
            Panes::Last(only) => if room > 0 {
                seq![Step::Column] + only.drawn(at) + seq![Step::Close]
            } else {
                Seq::empty()
            },
            Panes::More(first, rest) => (if room > 0 {
                seq![Step::Column] + first.drawn(at) + seq![Step::Close]
            } else {
                Seq::empty()
            }) + rest.drawn(at + first.flat().len() + 1, room - 1),
        }
    }
}

/// Whether a list of widgets stands in a layout from `i` on.
pub open spec fn lies(k: Seq<Kind>, i: int, s: Seq<WidgetCmd>) -> bool {
    0 <= i && i + s.len() <= k.len() && forall|j: int|
        0 <= j < s.len() ==> #[trigger] k[i + j] == kind_of(s[j])
}

proof fn lemma_lies_parts(k: Seq<Kind>, i: int, a: Seq<WidgetCmd>, b: Seq<WidgetCmd>)
    requires
        lies(k, i, a + b),
    ensures
        lies(k, i, a),
        lies(k, i + a.len(), b),
{
    let s = a + b;
    assert forall|j: int| 0 <= j < a.len() implies #[trigger] k[i + j] == kind_of(a[j]) by {
        assert(s[j] == a[j]);
    }
    assert forall|j: int| 0 <= j < b.len() implies #[trigger] k[i + a.len() + j] == kind_of(
        b[j],
    ) by {
        assert(k[i + (a.len() + j)] == kind_of(s[a.len() + j]));
        assert(s[a.len() + j] == b[j]);
    }
}

/// A container in a layout: its mark, what it holds, its end and what follows.
proof fn lemma_lies_container(
    k: Seq<Kind>,
    i: int,
    open: WidgetCmd,
    inside: Seq<WidgetCmd>,
    close: WidgetCmd,
    rest: Seq<WidgetCmd>,
)
    requires
        lies(k, i, seq![open] + inside + seq![close] + rest),
    ensures
        k[i] == kind_of(open),
        lies(k, i + 1, inside),
        k[i + 1 + inside.len()] == kind_of(close),
        lies(k, i + inside.len() + 2, rest),
        i + inside.len() + 2 + rest.len() <= k.len(),
        0 <= i,
{
    let a = seq![open];
    let c = seq![close];
    lemma_lies_parts(k, i, a + inside + c, rest);
    lemma_lies_parts(k, i, a + inside, c);
    lemma_lies_parts(k, i, a, inside);
    assert(k[i + 0] == kind_of(a[0]));
    assert(k[i + (a + inside).len() + 0] == kind_of(c[0]));
}

/// Looking for the end of a bracket passes over what nests.
proof fn lemma_end_passes(f: Nest, k: Seq<Kind>, i: int, to: int, depth: nat, b: Bracket)
    requires
        f.plain(),
        lies(k, i, f.flat()),
        i + f.flat().len() <= to,
    ensures
        end_at(k, i, to, depth, b) == end_at(k, i + f.flat().len(), to, depth, b),
    decreases f,
{
    match f {
        Nest::Nothing => {},
        Nest::Widget(c, rest) => {
            lemma_lies_parts(k, i, seq![c], rest.flat());
            assert(k[i + 0] == kind_of(seq![c][0]));
            lemma_end_passes(*rest, k, i + 1, to, depth, b);
        },
        Nest::Row(inside, rest) => {
            lemma_lies_container(
                k,
                i,
                WidgetCmd::RowBegin,
                inside.flat(),
                WidgetCmd::RowEnd,
                rest.flat(),
            );
            let d = if b == Bracket::Row { depth + 1 } else { depth };
            lemma_end_passes(*inside, k, i + 1, to, d, b);
            lemma_end_passes(*rest, k, i + inside.flat().len() + 2, to, depth, b);
        },
        Nest::Card(color, inside, rest) => {
            let open = match color {
                Some(c) => WidgetCmd::CardBeginColor(c),
                None => WidgetCmd::CardBegin,
            };
            lemma_lies_container(k, i, open, inside.flat(), WidgetCmd::CardEnd, rest.flat());
            let d = if b == Bracket::Card { depth + 1 } else { depth };
            lemma_end_passes(*inside, k, i + 1, to, d, b);
            lemma_end_passes(*rest, k, i + inside.flat().len() + 2, to, depth, b);
        },
        Nest::Columns(n, panes, rest) => {
            lemma_lies_container(
                k,
                i,
                WidgetCmd::ColumnsBegin(n),
                panes.flat(),
                WidgetCmd::ColumnsEnd,
                rest.flat(),
            );
            let d = if b == Bracket::Columns { depth + 1 } else { depth };
            lemma_end_passes_panes(*panes, k, i + 1, to, d, b);
            lemma_end_passes(*rest, k, i + panes.flat().len() + 2, to, depth, b);
        },
    }
}

proof fn lemma_end_passes_panes(p: Panes, k: Seq<Kind>, i: int, to: int, depth: nat, b: Bracket)
    requires
        p.plain(),
        lies(k, i, p.flat()),
        i + p.flat().len() <= to,
    ensures
        end_at(k, i, to, depth, b) == end_at(k, i + p.flat().len(), to, depth, b),
    decreases p,
{
    match p {
        Panes::Last(only) => lemma_end_passes(*only, k, i, to, depth, b),
        Panes::More(first, rest) => {
            let a = first.flat();
            let c = seq![WidgetCmd::ColumnNext];
            lemma_lies_parts(k, i, a + c, rest.flat());
            lemma_lies_parts(k, i, a, c);
            assert(k[i + a.len() + 0] == kind_of(c[0]));
            lemma_end_passes(*first, k, i, to, depth, b);
            lemma_end_passes_panes(*rest, k, i + a.len() + 1, to, depth, b);
        },
    }
}

/// Looking for the end of a column passes over what nests in it.
proof fn lemma_column_passes(f: Nest, k: Seq<Kind>, i: int, to: int, depth: nat)
    requires
        f.plain(),
        lies(k, i, f.flat()),
        i + f.flat().len() <= to,
    ensures
        column_end(k, i, to, depth as int) == column_end(k, i + f.flat().len(), to, depth as int),
    decreases f,
{
    match f {
        Nest::Nothing => {},
        Nest::Widget(c, rest) => {
            lemma_lies_parts(k, i, seq![c], rest.flat());
            assert(k[i + 0] == kind_of(seq![c][0]));
            lemma_column_passes(*rest, k, i + 1, to, depth);
        },
        Nest::Row(inside, rest) => {
            lemma_lies_container(
                k,
                i,
                WidgetCmd::RowBegin,
                inside.flat(),
                WidgetCmd::RowEnd,
                rest.flat(),
            );
            lemma_column_passes(*inside, k, i + 1, to, depth + 1);
            lemma_column_passes(*rest, k, i + inside.flat().len() + 2, to, depth);
        },
        Nest::Card(color, inside, rest) => {
            let open = match color {
                Some(c) => WidgetCmd::CardBeginColor(c),
                None => WidgetCmd::CardBegin,
            };
            lemma_lies_container(k, i, open, inside.flat(), WidgetCmd::CardEnd, rest.flat());
            lemma_column_passes(*inside, k, i + 1, to, depth + 1);
            lemma_column_passes(*rest, k, i + inside.flat().len() + 2, to, depth);
        },
        Nest::Columns(n, panes, rest) => {
            lemma_lies_container(
                k,
                i,
                WidgetCmd::ColumnsBegin(n),
                panes.flat(),
                WidgetCmd::ColumnsEnd,
                rest.flat(),
            );
            lemma_column_passes_panes(*panes, k, i + 1, to, depth + 1);
            lemma_column_passes(*rest, k, i + panes.flat().len() + 2, to, depth);
        },
    }
}

proof fn lemma_column_passes_panes(p: Panes, k: Seq<Kind>, i: int, to: int, depth: nat)
    requires
        p.plain(),
        lies(k, i, p.flat()),
        i + p.flat().len() <= to,
        depth > 0,
    ensures
        column_end(k, i, to, depth as int) == column_end(k, i + p.flat().len(), to, depth as int),
    decreases p,
{
    match p {
        Panes::Last(only) => lemma_column_passes(*only, k, i, to, depth),
        Panes::More(first, rest) => {
            let a = first.flat();
            let c = seq![WidgetCmd::ColumnNext];
            lemma_lies_parts(k, i, a + c, rest.flat());
            lemma_lies_parts(k, i, a, c);
            assert(k[i + a.len() + 0] == kind_of(c[0]));
            lemma_column_passes(*first, k, i, to, depth);
            lemma_column_passes_panes(*rest, k, i + a.len() + 1, to, depth);
        },
    }
}

/// What nests is drawn as it nests, wherever it stands.
proof fn lemma_nest_drawn(f: Nest, k: Seq<Kind>, i: int, to: int)
    requires
        f.plain(),
        lies(k, i, f.flat()),
        to == i + f.flat().len(),
    ensures
        steps(k, i, to) == f.drawn(i),
    decreases f,
{
    match f {
        Nest::Nothing => {},
        Nest::Widget(c, rest) => {
            lemma_lies_parts(k, i, seq![c], rest.flat());
            assert(k[i + 0] == kind_of(seq![c][0]));
            lemma_nest_drawn(*rest, k, i + 1, to);
        },
        Nest::Row(inside, rest) => {
            lemma_lies_container(
                k,
                i,
                WidgetCmd::RowBegin,
                inside.flat(),
                WidgetCmd::RowEnd,
                rest.flat(),
            );
            lemma_nest_drawn(*inside, k, i + 1, i + 1 + inside.flat().len());
            lemma_nest_drawn(*rest, k, i + inside.flat().len() + 2, to);
            lemma_contained_drawn(k, i, to, Bracket::Row, *inside, *rest);
        },
        Nest::Card(color, inside, rest) => {
            let open = match color {
                Some(c) => WidgetCmd::CardBeginColor(c),
                None => WidgetCmd::CardBegin,
            };
            lemma_lies_container(k, i, open, inside.flat(), WidgetCmd::CardEnd, rest.flat());
            lemma_nest_drawn(*inside, k, i + 1, i + 1 + inside.flat().len());
            lemma_nest_drawn(*rest, k, i + inside.flat().len() + 2, to);
            lemma_contained_drawn(k, i, to, Bracket::Card, *inside, *rest);
        },
        Nest::Columns(n, panes, rest) => {
            lemma_lies_container(
                k,
                i,
                WidgetCmd::ColumnsBegin(n),
                panes.flat(),
                WidgetCmd::ColumnsEnd,
                rest.flat(),
            );
            let e = i + 1 + panes.flat().len();
            lemma_end_passes_panes(*panes, k, i + 1, to, 0, Bracket::Columns);
            assert(end_at(k, i + 1, to, 0, Bracket::Columns) == e);
            lemma_panes_drawn(*panes, k, i + 1, e, 0, n as int);
            lemma_nest_drawn(*rest, k, e + 1, to);
        },
    }
}

proof fn lemma_contained_drawn(k: Seq<Kind>, i: int, to: int, b: Bracket, inside: Nest, rest: Nest)
    requires
        b == Bracket::Row || b == Bracket::Card,
        inside.plain() && rest.plain(),
        0 <= i && to == i + inside.flat().len() + 2 + rest.flat().len() && to <= k.len(),
        lies(k, i + 1, inside.flat()),
        closes(b, k[i + 1 + inside.flat().len()]),
        steps(k, i + 1, i + 1 + inside.flat().len()) == inside.drawn(i + 1),
        steps(k, i + inside.flat().len() + 2, to) == rest.drawn(i + inside.flat().len() + 2),
    ensures
        contained(k, i, to, b) == seq![Step::Open(i as usize)] + inside.drawn(i + 1) + seq![
            Step::Close,
        ] + rest.drawn(i + inside.flat().len() + 2),
{
    let e = i + 1 + inside.flat().len();
    lemma_end_passes(inside, k, i + 1, to, 0, b);
    assert(end_at(k, i + 1, to, 0, b) == e);
}

proof fn lemma_panes_drawn(p: Panes, k: Seq<Kind>, i: int, to: int, idx: int, n: int)
    requires
        p.plain(),
        lies(k, i, p.flat()),
        to == i + p.flat().len(),
    ensures
        columns(k, i, to, idx, n) == p.drawn(i, n - idx),
    decreases p,
{
    match p {
        Panes::Last(only) => {
            lemma_column_passes(*only, k, i, to, 0);
            assert(column_end(k, i, to, 0) == to);
            lemma_nest_drawn(*only, k, i, to);
        },
        Panes::More(first, rest) => {
            let a = first.flat();
            let c = seq![WidgetCmd::ColumnNext];
            lemma_lies_parts(k, i, a + c, rest.flat());
            lemma_lies_parts(k, i, a, c);
            assert(k[i + a.len() + 0] == kind_of(c[0]));
            let e = i + a.len();
            lemma_column_passes(*first, k, i, to, 0);
            assert(column_end(k, i, to, 0) == e);
            lemma_nest_drawn(*first, k, i, e);
            lemma_panes_drawn(*rest, k, e + 1, to, idx + 1, n);
        },
    }
}

/// However a guest nests rows, cards and columns, each container is drawn around what it
/// was asked to hold, every column around its own widgets, and what follows a container
/// behind it.
pub proof fn lemma_nested_widgets_are_drawn_nested(f: Nest)
    requires
        f.plain(),
    ensures
        steps(kinds_of(f.flat()), 0, f.flat().len() as int) == f.drawn(0),
{
    let s = f.flat();
    let k = kinds_of(s);
    assert forall|j: int| 0 <= j < s.len() implies #[trigger] k[0 + j] == kind_of(s[j]) by {}
    lemma_nest_drawn(f, k, 0, s.len() as int);
}

/// A row or card that a guest does not end takes all that follows.
pub proof fn lemma_unended_container_takes_the_rest(open: WidgetCmd, inside: Nest)
    requires
        open is RowBegin || open is CardBegin || open is CardBeginColor,
        inside.plain(),
    ensures
        ({
            let s = seq![open] + inside.flat();
            steps(kinds_of(s), 0, s.len() as int) == seq![Step::Open(0)] + inside.drawn(1) + seq![
                Step::Close,
            ]
        }),
{
    let s = seq![open] + inside.flat();
    let k = kinds_of(s);
    let to = s.len() as int;
    assert forall|j: int| 0 <= j < s.len() implies #[trigger] k[0 + j] == kind_of(s[j]) by {}
    lemma_lies_parts(k, 0, seq![open], inside.flat());
    assert(k[0] == kind_of(open));
    let b = if open is RowBegin { Bracket::Row } else { Bracket::Card };
    lemma_end_passes(inside, k, 1, to, 0, b);
    assert(end_at(k, 1, to, 0, b) == to);
    lemma_nest_drawn(inside, k, 1, to);
    assert(steps(k, 0, to) == contained(k, 0, to, b));
    assert(steps(k, 0, to) =~= seq![Step::Open(0)] + inside.drawn(1) + seq![Step::Close]);
}

} // verus!

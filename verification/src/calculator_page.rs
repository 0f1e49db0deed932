//! The page of the calculator, piece by piece.
use vstd::prelude::*;
use crate::calculator::{key_for, key_of, type_size, Calc, Key};
use crate::color::Color;
use crate::page::{
    accent, accent_color, depth, depth_at, lemma_depth_of_join, pieces, put, put_button, put_small,
    put_text, tint, white, white_color, Item, Look,
};
use crate::text::byte_len;

verus! {

/// What a button of the calculator does: it presses the key with a mark.
#[derive(Clone, Copy, Debug, PartialEq, Eq, Structural)]
pub struct Press(pub char);

impl View for Press {
    type V = Press;

    open spec fn view(&self) -> Press {
        *self
    }
}

/// A page.
pub type CalcPage = Vec<Item<String, Press>>;

/// The contents of a page.
pub type CalcPieces = Seq<Item<Seq<char>, Press>>;

/// The color of the digits.
pub open spec fn ink() -> Color {
    tint(226, 232, 240)
}

fn ink_color() -> (c: Color)
    ensures
        c == ink(),
{
    Color::rgb(226, 232, 240)
}

/// How a key looks, by what it does.
pub open spec fn look_of(k: Key) -> Look {
    match k {
        Key::Digit(_) => Look::Styled(ink(), tint(22, 30, 48), tint(40, 52, 76)),
        Key::Op(_) => Look::Styled(ink(), tint(30, 41, 59), accent()),
        Key::Equals => Look::Styled(white(), accent(), accent()),
        _ => Look::Styled(tint(100, 116, 139), tint(51, 65, 85), tint(71, 85, 105)),
    }
}

/// The button of a key.
pub open spec fn key_piece(label: Seq<char>, mark: char) -> Item<Seq<char>, Press> {
    Item::Button(label, look_of(key_for(mark)), Press(mark))
}

fn add_key(page: &mut CalcPage, label: &str, mark: char)
    ensures
        pieces(final(page)@) == pieces(old(page)@).push(key_piece(label@, mark)),
{
    let look = match key_of(mark) {
        Key::Digit(_) => Look::Styled(ink_color(), Color::rgb(22, 30, 48), Color::rgb(40, 52, 76)),
        Key::Op(_) => Look::Styled(ink_color(), Color::rgb(30, 41, 59), accent_color()),
        Key::Equals => Look::Styled(white_color(), accent_color(), accent_color()),
        _ => Look::Styled(
            Color::rgb(100, 116, 139),
            Color::rgb(51, 65, 85),
            Color::rgb(71, 85, 105),
        ),
    };
    put_button(page, label, look, Press(mark));
}

/// Four keys in a row.
pub open spec fn row_pieces(
    a: (Seq<char>, char),
    b: (Seq<char>, char),
    c: (Seq<char>, char),
    d: (Seq<char>, char),
) -> CalcPieces {
    seq![
        Item::ColumnsBegin(4),
        key_piece(a.0, a.1),
        Item::ColumnNext,
        key_piece(b.0, b.1),
        Item::ColumnNext,
        key_piece(c.0, c.1),
        Item::ColumnNext,
        key_piece(d.0, d.1),
        Item::ColumnsEnd,
        Item::Space(6),
    ]
}

fn add_row(page: &mut CalcPage, a: (&str, char), b: (&str, char), c: (&str, char), d: (&str, char))
    ensures
        pieces(final(page)@) == pieces(old(page)@) + row_pieces(
            (a.0@, a.1),
            (b.0@, b.1),
            (c.0@, c.1),
            (d.0@, d.1),
        ),
{
    let ghost before = pieces(page@);
    put(page, Item::ColumnsBegin(4));
    add_key(page, a.0, a.1);
    put(page, Item::ColumnNext);
    add_key(page, b.0, b.1);
    put(page, Item::ColumnNext);
    add_key(page, c.0, c.1);
    put(page, Item::ColumnNext);
    add_key(page, d.0, d.1);
    put(page, Item::ColumnsEnd);
    put(page, Item::Space(6));
    assert(pieces(page@) =~= before + row_pieces((a.0@, a.1), (b.0@, b.1), (c.0@, c.1), (d.0@, d.1)));
}

/// What the display shows of an entry.
pub open spec fn shown_entry(entry: Seq<char>) -> Seq<char> {
    if entry.len() == 0 {
        "0"@
    } else {
        entry
    }
}

/// The title and the display. The type shrinks as the number grows.
pub open spec fn display_pieces(c: Calc) -> CalcPieces {
    let shown = shown_entry(c.entry@);
    seq![
        Item::RowBegin,
        Item::Text("Calculator"@, 22, ink()),
        Item::RowEnd,
        Item::Space(10),
        Item::TintedCard(tint(10, 16, 30)),
        Item::Small(
            if c.memo@.len() == 0 {
                " "@
            } else {
                c.memo@
            },
        ),
        Item::Text(
            shown,
            if byte_len(shown) > 11 {
                26u32
            } else if byte_len(shown) > 8 {
                32u32
            } else {
                40u32
            },
            ink(),
        ),
        Item::CardEnd,
        Item::Space(12),
    ]
}

fn add_display(page: &mut CalcPage, c: &Calc)
    ensures
        pieces(final(page)@) == pieces(old(page)@) + display_pieces(*c),
{
    let ghost before = pieces(page@);
    put(page, Item::RowBegin);
    put_text(page, "Calculator", 22, ink_color());
    put(page, Item::RowEnd);
    put(page, Item::Space(10));
    put(page, Item::TintedCard(Color::rgb(10, 16, 30)));
    if c.memo.as_str().is_empty() {
        put_small(page, " ");
    } else {
        put_small(page, c.memo.as_str());
    }
    let shown = c.show();
    put_text(page, shown.as_str(), type_size(shown.as_str()), ink_color());
    put(page, Item::CardEnd);
    put(page, Item::Space(12));
    assert(pieces(page@) =~= before + display_pieces(*c));
}

/// The last row, whose third place is empty, and the notes below it.
pub open spec fn bottom_pieces() -> CalcPieces {
    seq![
        Item::ColumnsBegin(4),
        key_piece(" 0 "@, '0'),
        Item::ColumnNext,
        key_piece(" . "@, '.'),
        Item::ColumnNext,
        Item::ColumnNext,
        key_piece("  =  "@, '='),
        Item::ColumnsEnd,
        Item::Space(14),
        Item::Small(
            "Chained operations fold as you go — 2 + 3 × 4 evaluates left to right."@,
        ),
        Item::Small("Press = again to repeat the last operation."@),
    ]
}

fn add_bottom(page: &mut CalcPage)
    ensures
        pieces(final(page)@) == pieces(old(page)@) + bottom_pieces(),
{
    let ghost before = pieces(page@);
    put(page, Item::ColumnsBegin(4));
    add_key(page, " 0 ", '0');
    put(page, Item::ColumnNext);
    add_key(page, " . ", '.');
    put(page, Item::ColumnNext);
    put(page, Item::ColumnNext);
    add_key(page, "  =  ", '=');
    put(page, Item::ColumnsEnd);
    put(page, Item::Space(14));
    put_small(page, "Chained operations fold as you go — 2 + 3 × 4 evaluates left to right.");
    put_small(page, "Press = again to repeat the last operation.");
    assert(pieces(page@) =~= before + bottom_pieces());
}

/// The row with the keys that act on the whole entry.
pub open spec fn first_row() -> CalcPieces {
    row_pieces(("  C  "@, 'C'), ("  ±  "@, '~'), ("  %  "@, '%'), ("  ÷  "@, '/'))
}

/// The rows with the digits.
pub open spec fn digit_rows() -> CalcPieces {
    row_pieces((" 7 "@, '7'), (" 8 "@, '8'), (" 9 "@, '9'), ("  ×  "@, '*')) + row_pieces(
        (" 4 "@, '4'),
        (" 5 "@, '5'),
        (" 6 "@, '6'),
        ("  −  "@, '-'),
    ) + row_pieces((" 1 "@, '1'), (" 2 "@, '2'), (" 3 "@, '3'), ("  +  "@, '+'))
}

/// The page.
pub open spec fn calculator_pieces(c: Calc) -> CalcPieces {
    display_pieces(c) + first_row() + digit_rows() + bottom_pieces()
}

proof fn lemma_rows_joined(z: CalcPieces, a: CalcPieces, b: CalcPieces, c: CalcPieces)
    ensures
        z + a + b + c == z + (a + b + c),
{
    assert(z + a + b + c =~= z + (a + b + c));
}

/// Returns the page of the calculator.
pub fn calculator_page(c: &Calc) -> (page: CalcPage)
    ensures
        pieces(page@) == calculator_pieces(*c),
{
    let mut page: CalcPage = Vec::new();
    let ghost empty: CalcPieces = Seq::empty();
    assert(pieces(page@) =~= empty);
    add_display(&mut page, c);
    assert(empty + display_pieces(*c) =~= display_pieces(*c));
    add_row(&mut page, ("  C  ", 'C'), ("  ±  ", '~'), ("  %  ", '%'), ("  ÷  ", '/'));
    let ghost head = pieces(page@);
    add_row(&mut page, (" 7 ", '7'), (" 8 ", '8'), (" 9 ", '9'), ("  ×  ", '*'));
    add_row(&mut page, (" 4 ", '4'), (" 5 ", '5'), (" 6 ", '6'), ("  −  ", '-'));
    add_row(&mut page, (" 1 ", '1'), (" 2 ", '2'), (" 3 ", '3'), ("  +  ", '+'));
    proof {
        lemma_rows_joined(
            head,
            row_pieces((" 7 "@, '7'), (" 8 "@, '8'), (" 9 "@, '9'), ("  ×  "@, '*')),
            row_pieces((" 4 "@, '4'), (" 5 "@, '5'), (" 6 "@, '6'), ("  −  "@, '-')),
            row_pieces((" 1 "@, '1'), (" 2 "@, '2'), (" 3 "@, '3'), ("  +  "@, '+')),
        );
    }
    add_bottom(&mut page);
    page
}

proof fn lemma_row_closes(
    a: (Seq<char>, char),
    b: (Seq<char>, char),
    c: (Seq<char>, char),
    d: (Seq<char>, char),
)
    ensures
        depth(row_pieces(a, b, c, d)) == 0,
{
    reveal_with_fuel(depth_at, 11);
}

proof fn lemma_ends_close(c: Calc)
    ensures
        depth(display_pieces(c)) == 0,
        depth(bottom_pieces()) == 0,
{
    reveal_with_fuel(depth_at, 12);
}

/// Every container that the page opens it closes.
pub proof fn lemma_page_closes_its_containers(c: Calc)
    ensures
        depth(calculator_pieces(c)) == 0,
{
    broadcast use lemma_depth_of_join;

    lemma_ends_close(c);
    lemma_row_closes(("  C  "@, 'C'), ("  ±  "@, '~'), ("  %  "@, '%'), ("  ÷  "@, '/'));
    lemma_row_closes((" 7 "@, '7'), (" 8 "@, '8'), (" 9 "@, '9'), ("  ×  "@, '*'));
    lemma_row_closes((" 4 "@, '4'), (" 5 "@, '5'), (" 6 "@, '6'), ("  −  "@, '-'));
    lemma_row_closes((" 1 "@, '1'), (" 2 "@, '2'), (" 3 "@, '3'), ("  +  "@, '+'));
}

/// Whether a key's caption shows what the key does: its own mark, or the sign of the
/// operation.
pub open spec fn shows_mark(label: Seq<char>, mark: char) -> bool {
    ||| label.contains(mark)
    ||| mark == '/' && label.contains('÷')
    ||| mark == '*' && label.contains('×')
    ||| mark == '-' && label.contains('−')
    ||| mark == '~' && label.contains('±')
}

/// Whether the buttons among pieces show what they do.
pub open spec fn all_show_marks(s: CalcPieces) -> bool {
    forall|i: int|
        0 <= i < s.len() ==> (#[trigger] s[i] matches Item::Button(l, _, Press(m)) ==> shows_mark(l, m))
}

proof fn lemma_row_shows_marks(
    a: (Seq<char>, char),
    b: (Seq<char>, char),
    c: (Seq<char>, char),
    d: (Seq<char>, char),
)
    requires
        shows_mark(a.0, a.1) && shows_mark(b.0, b.1) && shows_mark(c.0, c.1) && shows_mark(d.0, d.1),
    ensures
        all_show_marks(row_pieces(a, b, c, d)),
{
}

/// Every key sends what its caption shows.
pub proof fn lemma_keys_send_what_they_show(c: Calc)
    ensures
        all_show_marks(calculator_pieces(c)),
{
    reveal_strlit("  C  ");
    reveal_strlit("  ±  ");
    reveal_strlit("  %  ");
    reveal_strlit("  ÷  ");
    reveal_strlit(" 7 ");
    reveal_strlit(" 8 ");
    reveal_strlit(" 9 ");
    reveal_strlit("  ×  ");
    reveal_strlit(" 4 ");
    reveal_strlit(" 5 ");
    reveal_strlit(" 6 ");
    reveal_strlit("  −  ");
    reveal_strlit(" 1 ");
    reveal_strlit(" 2 ");
    reveal_strlit(" 3 ");
    reveal_strlit("  +  ");
    reveal_strlit(" 0 ");
    reveal_strlit(" . ");
    reveal_strlit("  =  ");
    assert("  C  "@[2] == 'C' && "  ±  "@[2] == '±' && "  %  "@[2] == '%' && "  ÷  "@[2] == '÷');
    assert(" 7 "@[1] == '7' && " 8 "@[1] == '8' && " 9 "@[1] == '9' && "  ×  "@[2] == '×');
    assert(" 4 "@[1] == '4' && " 5 "@[1] == '5' && " 6 "@[1] == '6' && "  −  "@[2] == '−');
    assert(" 1 "@[1] == '1' && " 2 "@[1] == '2' && " 3 "@[1] == '3' && "  +  "@[2] == '+');
    assert(" 0 "@[1] == '0' && " . "@[1] == '.' && "  =  "@[2] == '=');
    lemma_row_shows_marks(("  C  "@, 'C'), ("  ±  "@, '~'), ("  %  "@, '%'), ("  ÷  "@, '/'));
    lemma_row_shows_marks((" 7 "@, '7'), (" 8 "@, '8'), (" 9 "@, '9'), ("  ×  "@, '*'));
    lemma_row_shows_marks((" 4 "@, '4'), (" 5 "@, '5'), (" 6 "@, '6'), ("  −  "@, '-'));
    lemma_row_shows_marks((" 1 "@, '1'), (" 2 "@, '2'), (" 3 "@, '3'), ("  +  "@, '+'));
    assert(all_show_marks(display_pieces(c)));
    assert(all_show_marks(bottom_pieces()));
}

/// Whether a button among pieces sends a mark.
pub open spec fn offers(s: CalcPieces, mark: char) -> bool {
    exists|i: int|
        0 <= i < s.len() && (#[trigger] s[i] matches Item::Button(_, _, Press(m)) && m == mark)
}

proof fn lemma_offered_in_part(s: CalcPieces, mark: char, i: int)
    requires
        0 <= i < s.len(),
        s[i] matches Item::Button(_, _, Press(m)) && m == mark,
    ensures
        offers(s, mark),
{
}

/// There is a key for every digit, the point, every operation, the sign, the hundredth, the
/// result and starting over.
pub proof fn lemma_every_key_is_there(c: Calc, mark: char)
    requires
        !(key_for(mark) is Other),
    ensures
        offers(calculator_pieces(c), mark),
{
    let s = calculator_pieces(c);
    let at: int = if mark == 'C' {
        10
    } else if mark == '~' {
        12
    } else if mark == '%' {
        14
    } else if mark == '/' {
        16
    } else if mark == '7' {
        20
    } else if mark == '8' {
        22
    } else if mark == '9' {
        24
    } else if mark == '*' {
        26
    } else if mark == '4' {
        30
    } else if mark == '5' {
        32
    } else if mark == '6' {
        34
    } else if mark == '-' {
        36
    } else if mark == '1' {
        40
    } else if mark == '2' {
        42
    } else if mark == '3' {
        44
    } else if mark == '+' {
        46
    } else if mark == '0' {
        50
    } else if mark == '.' {
        52
    } else {
        55
    };
    lemma_offered_in_part(s, mark, at);
}

} // verus!

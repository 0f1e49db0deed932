//! Pages as data: what an app shows, with what each button does.
use vstd::prelude::*;
use crate::color::{packed, Color};
use crate::text::texts;

verus! {

/// An opaque color by its channels.
pub open spec fn tint(r: u8, g: u8, b: u8) -> Color {
    Color(packed(r, g, b, 255))
}

// ── Colors ───────────────────────────────────────────────────────────────────

/// The color of what stands out.
pub open spec fn white() -> Color {
    tint(255, 255, 255)
}

/// The color of what is chosen.
pub open spec fn accent() -> Color {
    tint(37, 99, 235)
}

/// The background of a quiet card.
pub open spec fn slate() -> Color {
    tint(15, 23, 42)
}

/// The color of what stands back.
pub open spec fn muted() -> Color {
    tint(71, 85, 105)
}

/// The color of stars.
pub open spec fn gold() -> Color {
    tint(250, 204, 21)
}

/// Returns the color of the same name.
pub fn white_color() -> (c: Color)
    ensures
        c == white(),
{
    Color::white()
}

/// Returns the color of the same name.
pub fn accent_color() -> (c: Color)
    ensures
        c == accent(),
{
    Color::rgb(37, 99, 235)
}

/// Returns the color of the same name.
pub fn slate_color() -> (c: Color)
    ensures
        c == slate(),
{
    Color::rgb(15, 23, 42)
}

/// Returns the color of the same name.
pub fn muted_color() -> (c: Color)
    ensures
        c == muted(),
{
    Color::rgb(71, 85, 105)
}

/// Returns the color of the same name.
pub fn gold_color() -> (c: Color)
    ensures
        c == gold(),
{
    Color::rgb(250, 204, 21)
}

// ── Pieces ───────────────────────────────────────────────────────────────────

/// How a button looks.
#[derive(Clone, Copy, Debug, PartialEq, Eq, Structural)]
pub enum Look {
    Plain,
    /// For what goes ahead.
    Success,
    /// For what cannot be undone.
    Danger,
    /// Unobtrusive.
    Faint,
    /// Text, background and border of its own.
    Styled(Color, Color, Color),
}

/// One piece of a page. Its texts are of the type `T`, and what its buttons do is of the
/// type `A`. Sizes are in pixels.
pub enum Item<T, A> {
    Heading(T),
    Label(T),
    Small(T),
    Code(T),
    Colored(T, Color),
    Text(T, u32, Color),
    Badge(T, Color),
    Button(T, Look, A),
    /// A field to type in, by its number, with a hint.
    Field(i32, T),
    /// A field that hides what is typed.
    Secret(i32, T),
    /// A box to tick, by its number.
    Checkbox(i32, T),
    /// A slider, by its number: its least, greatest and first value.
    Slider(i32, T, u32, u32, u32),
    /// A bar that is filled by so many hundredths.
    Progress(u32, T),
    RowBegin,
    RowEnd,
    CardBegin,
    /// A card with a background of its own.
    TintedCard(Color),
    CardEnd,
    ColumnsBegin(i32),
    ColumnNext,
    ColumnsEnd,
    Separator,
    Space(u32),
}

impl<A: View> View for Item<String, A> {
    type V = Item<Seq<char>, A::V>;

    open spec fn view(&self) -> Item<Seq<char>, A::V> {
        match *self {
            Item::Heading(s) => Item::Heading(s@),
            Item::Label(s) => Item::Label(s@),
            Item::Small(s) => Item::Small(s@),
            Item::Code(s) => Item::Code(s@),
            Item::Colored(s, c) => Item::Colored(s@, c),
            Item::Text(s, n, c) => Item::Text(s@, n, c),
            Item::Badge(s, c) => Item::Badge(s@, c),
            Item::Button(s, l, a) => Item::Button(s@, l, a@),
            Item::Field(id, s) => Item::Field(id, s@),
            Item::Secret(id, s) => Item::Secret(id, s@),
            Item::Checkbox(id, s) => Item::Checkbox(id, s@),
            Item::Slider(id, s, min, max, first) => Item::Slider(id, s@, min, max, first),
            Item::Progress(n, s) => Item::Progress(n, s@),
            Item::RowBegin => Item::RowBegin,
            Item::RowEnd => Item::RowEnd,
            Item::CardBegin => Item::CardBegin,
            Item::TintedCard(c) => Item::TintedCard(c),
            Item::CardEnd => Item::CardEnd,
            Item::ColumnsBegin(n) => Item::ColumnsBegin(n),
            Item::ColumnNext => Item::ColumnNext,
            Item::ColumnsEnd => Item::ColumnsEnd,
            Item::Separator => Item::Separator,
            Item::Space(n) => Item::Space(n),
        }
    }
}

/// The contents of the pieces of a page.
pub open spec fn pieces<A: View>(v: Seq<Item<String, A>>) -> Seq<Item<Seq<char>, A::V>> {
    Seq::new(v.len(), |i: int| v[i]@)
}

/// Adds a piece.
pub fn put<A: View>(page: &mut Vec<Item<String, A>>, i: Item<String, A>)
    ensures
        pieces(final(page)@) == pieces(old(page)@).push(i@),
{
    let ghost before = pieces(page@);
    page.push(i);
    assert(pieces(page@) =~= before.push(i@));
}

/// Adds a plain text.
pub fn put_label<A: View>(page: &mut Vec<Item<String, A>>, s: &str)
    ensures
        pieces(final(page)@) == pieces(old(page)@).push(Item::Label(s@)),
{
    put(page, Item::Label(s.to_owned()));
}

/// Adds a small text.
pub fn put_small<A: View>(page: &mut Vec<Item<String, A>>, s: &str)
    ensures
        pieces(final(page)@) == pieces(old(page)@).push(Item::Small(s@)),
{
    put(page, Item::Small(s.to_owned()));
}

/// Adds a text of a size and a color.
pub fn put_text<A: View>(page: &mut Vec<Item<String, A>>, s: &str, size: u32, c: Color)
    ensures
        pieces(final(page)@) == pieces(old(page)@).push(Item::Text(s@, size, c)),
{
    put(page, Item::Text(s.to_owned(), size, c));
}

/// Adds a badge.
pub fn put_badge<A: View>(page: &mut Vec<Item<String, A>>, s: &str, c: Color)
    ensures
        pieces(final(page)@) == pieces(old(page)@).push(Item::Badge(s@, c)),
{
    put(page, Item::Badge(s.to_owned(), c));
}

/// Adds a button.
pub fn put_button<A: View>(page: &mut Vec<Item<String, A>>, s: &str, look: Look, act: A)
    ensures
        pieces(final(page)@) == pieces(old(page)@).push(Item::Button(s@, look, act@)),
{
    put(page, Item::Button(s.to_owned(), look, act));
}

/// Adds a field to type in.
pub fn put_field<A: View>(page: &mut Vec<Item<String, A>>, id: i32, hint: &str)
    ensures
        pieces(final(page)@) == pieces(old(page)@).push(Item::Field(id, hint@)),
{
    put(page, Item::Field(id, hint.to_owned()));
}

/// The lines of a listing.
pub open spec fn code_pieces<A>(ls: Seq<Seq<char>>) -> Seq<Item<Seq<char>, A>> {
    Seq::new(ls.len(), |i: int| Item::Code(ls[i]))
}

/// Adds the lines of a listing.
pub fn put_code<A: View>(page: &mut Vec<Item<String, A>>, rows: &Vec<String>)
    ensures
        pieces(final(page)@) == pieces(old(page)@) + code_pieces::<A::V>(texts(rows@)),
{
    let ghost head = pieces(page@);
    let ghost ls = texts(rows@);
    let mut i: usize = 0;
    assert(head + code_pieces::<A::V>(ls).take(0) =~= head);
    while i < rows.len()
        invariant
            i <= rows@.len(),
            ls == texts(rows@),
            pieces(page@) == head + code_pieces::<A::V>(ls).take(i as int),
        decreases rows.len() - i,
    {
        assert(ls[i as int] == rows@[i as int]@);
        put(page, Item::Code(rows[i].clone()));
        i += 1;
        assert(pieces(page@) =~= head + code_pieces::<A::V>(ls).take(i as int));
    }
    assert(code_pieces::<A::V>(ls).take(i as int) =~= code_pieces::<A::V>(ls));
}

proof fn lemma_codes_are_flat_at<A>(ls: Seq<Seq<char>>, n: int)
    requires
        n <= ls.len(),
    ensures
        depth_at(code_pieces::<A>(ls), n) == 0,
    decreases n,
{
    if n > 0 {
        lemma_codes_are_flat_at::<A>(ls, n - 1);
    }
}

/// A listing opens and closes nothing.
pub proof fn lemma_codes_are_flat<A>(ls: Seq<Seq<char>>)
    ensures
        depth(code_pieces::<A>(ls)) == 0,
{
    lemma_codes_are_flat_at::<A>(ls, ls.len() as int);
}

/// How much deeper a page is nested after a piece: containers begin and end.
pub open spec fn depth_change<T, A>(i: Item<T, A>) -> int {
    match i {
        Item::RowBegin => 1,
        Item::CardBegin => 1,
        Item::TintedCard(_) => 1,
        Item::ColumnsBegin(_) => 1,
        Item::RowEnd => -1,
        Item::CardEnd => -1,
        Item::ColumnsEnd => -1,
        _ => 0,
    }
}

/// How deep a page is nested after its first pieces.
pub open spec fn depth_at<T, A>(s: Seq<Item<T, A>>, n: int) -> int
    decreases n,
{
    if n <= 0 {
        0
    } else {
        depth_at(s, n - 1) + depth_change(s[n - 1])
    }
}

/// How deep a page is nested at its end.
pub open spec fn depth<T, A>(s: Seq<Item<T, A>>) -> int {
    depth_at(s, s.len() as int)
}

proof fn lemma_depth_within_join<T, A>(a: Seq<Item<T, A>>, b: Seq<Item<T, A>>, n: int)
    requires
        0 <= n <= a.len() + b.len(),
    ensures
        depth_at(a + b, n) == if n <= a.len() {
            depth_at(a, n)
        } else {
            depth(a) + depth_at(b, n - a.len())
        },
    decreases n,
{
    reveal_with_fuel(depth_at, 2);
    if n > 0 {
        lemma_depth_within_join(a, b, n - 1);
        assert((a + b)[n - 1] == if n <= a.len() {
            a[n - 1]
        } else {
            b[n - 1 - a.len()]
        });
    }
}

/// The depths of parts add up.
pub broadcast proof fn lemma_depth_of_join<T, A>(a: Seq<Item<T, A>>, b: Seq<Item<T, A>>)
    ensures
        #[trigger] depth(a + b) == depth(a) + depth(b),
{
    lemma_depth_within_join(a, b, (a + b).len() as int);
}

} // verus!

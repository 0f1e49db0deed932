//! The page of the widget gallery, piece by piece.
use vstd::prelude::*;
use vstd::string::StringExecFns;
use crate::color::Color;
use crate::gallery::Gallery;
use crate::numerals::{decimal, format_u64};
use crate::page::{
    accent, accent_color, code_pieces, depth, depth_at, lemma_codes_are_flat, lemma_depth_of_join,
    muted, muted_color, pieces, put, put_badge, put_button, put_code, put_field, put_label,
    put_small, put_text, tint, white, white_color, Item, Look,
};
use crate::text::{lines, lines_of};

verus! {

/// The slider that sets how loud the looped sound is.
pub const VOLUME_SLIDER: i32 = 103;

/// What a button of the gallery does.
#[derive(Clone, Copy, Debug, PartialEq, Eq, Structural)]
pub enum GalleryAct {
    Nothing,
    /// Plays a sound once.
    Beep,
    StartLoop,
    StopLoop,
    CountUp,
    CountDown,
    Reset,
}

impl View for GalleryAct {
    type V = GalleryAct;

    open spec fn view(&self) -> GalleryAct {
        *self
    }
}

/// A page.
pub type GalleryPage = Vec<Item<String, GalleryAct>>;

/// The contents of a page.
pub type GalleryPieces = Seq<Item<Seq<char>, GalleryAct>>;

// ── Entries ──────────────────────────────────────────────────────────────────

/// What stands before a widget: its name and what it is for.
pub open spec fn before_widget(name: Seq<char>, about: Seq<char>) -> GalleryPieces {
    seq![
        Item::CardBegin,
        Item::Text(name, 15, tint(56, 189, 248)),
        Item::Small(about),
        Item::Space(8),
    ]
}

/// What stands behind a widget: the call that made it.
pub open spec fn behind_widget(call: Seq<char>) -> GalleryPieces {
    seq![Item::Space(8), Item::TintedCard(tint(15, 30, 15))] + code_pieces(lines(call)) + seq![
        Item::CardEnd,
        Item::CardEnd,
        Item::Space(10),
    ]
}

/// One widget: its name, what it is for, the thing itself, and its call.
pub open spec fn entry_pieces(
    name: Seq<char>,
    about: Seq<char>,
    live: GalleryPieces,
    call: Seq<char>,
) -> GalleryPieces {
    before_widget(name, about) + live + behind_widget(call)
}

fn add_entry(page: &mut GalleryPage, name: &str, about: &str, live: GalleryPage, call: &str)
    ensures
        pieces(final(page)@) == pieces(old(page)@) + entry_pieces(
            name@,
            about@,
            pieces(live@),
            call@,
        ),
{
    let ghost before = pieces(page@);
    let ghost shown = pieces(live@);
    put(page, Item::CardBegin);
    put_text(page, name, 15, Color::cyan());
    put_small(page, about);
    put(page, Item::Space(8));
    assert(pieces(page@) =~= before + before_widget(name@, about@));
    append(page, live);
    put(page, Item::Space(8));
    put(page, Item::TintedCard(Color::rgb(15, 30, 15)));
    put_code(page, &lines_of(call));
    put(page, Item::CardEnd);
    put(page, Item::CardEnd);
    put(page, Item::Space(10));
    assert(pieces(page@) =~= before + (before_widget(name@, about@) + shown + behind_widget(
        call@,
    )));
}

/// Puts one page behind another.
fn append(page: &mut GalleryPage, more: GalleryPage)
    ensures
        pieces(final(page)@) == pieces(old(page)@) + pieces(more@),
{
    let ghost before = page@;
    let mut rest = more;
    page.append(&mut rest);
    assert(pieces(page@) =~= pieces(before) + pieces(more@));
}

/// An entry opens and closes as many containers as the widget that it shows.
broadcast proof fn lemma_entry_closes(
    name: Seq<char>,
    about: Seq<char>,
    live: GalleryPieces,
    call: Seq<char>,
)
    ensures
        #[trigger] depth(entry_pieces(name, about, live, call)) == depth(live),
{
    broadcast use lemma_depth_of_join;

    reveal_with_fuel(depth_at, 5);
    lemma_codes_are_flat::<GalleryAct>(lines(call));
}

/// The title of a group of widgets.
pub open spec fn section_title(title: Seq<char>) -> GalleryPieces {
    seq![Item::Text(title, 20, white()), Item::Space(8)]
}

/// What stands behind a group of widgets.
pub open spec fn section_end() -> GalleryPieces {
    seq![Item::Space(16)]
}

fn begin_section(title: &str) -> (page: GalleryPage)
    ensures
        pieces(page@) == section_title(title@),
{
    let mut page: GalleryPage = Vec::new();
    put_text(&mut page, title, 20, white_color());
    put(&mut page, Item::Space(8));
    assert(pieces(page@) =~= section_title(title@));
    page
}

fn end_section(page: &mut GalleryPage)
    ensures
        pieces(final(page)@) == pieces(old(page)@) + section_end(),
{
    let ghost before = pieces(page@);
    put(page, Item::Space(16));
    assert(pieces(page@) =~= before + section_end());
}

// ── Text ──────────────────────────────────────────────────────────────────────

/// The entry of heading.
pub open spec fn heading_entry() -> GalleryPieces {
    entry_pieces(
        "heading"@,
        "A large, bold title."@,
        seq![Item::Heading("Section title"@)],
        "heading(\"Section title\");"@,
    )
}

fn add_heading(page: &mut GalleryPage)
    ensures
        pieces(final(page)@) == pieces(old(page)@) + heading_entry(),
{
    let mut live: GalleryPage = Vec::new();
    put(&mut live, Item::Heading("Section title".to_owned()));
    assert(pieces(live@) =~= seq![Item::Heading("Section title"@)]);
    add_entry(
        page,
        "heading",
        "A large, bold title.",
        live,
        "heading(\"Section title\");",
    );
}

/// The entry of label.
pub open spec fn label_entry() -> GalleryPieces {
    entry_pieces(
        "label"@,
        "The default body text style."@,
        seq![Item::Label("Regular body text."@)],
        "label(\"Regular body text.\");"@,
    )
}

fn add_label(page: &mut GalleryPage)
    ensures
        pieces(final(page)@) == pieces(old(page)@) + label_entry(),
{
    let mut live: GalleryPage = Vec::new();
    put_label(&mut live, "Regular body text.");
    assert(pieces(live@) =~= seq![Item::Label("Regular body text."@)]);
    add_entry(
        page,
        "label",
        "The default body text style.",
        live,
        "label(\"Regular body text.\");",
    );
}

/// The entry of small.
pub open spec fn small_entry() -> GalleryPieces {
    entry_pieces(
        "small"@,
        "Dimmer, smaller — captions and fine print."@,
        seq![Item::Small("A quieter caption."@)],
        "small(\"A quieter caption.\");"@,
    )
}

fn add_small(page: &mut GalleryPage)
    ensures
        pieces(final(page)@) == pieces(old(page)@) + small_entry(),
{
    let mut live: GalleryPage = Vec::new();
    put_small(&mut live, "A quieter caption.");
    assert(pieces(live@) =~= seq![Item::Small("A quieter caption."@)]);
    add_entry(
        page,
        "small",
        "Dimmer, smaller — captions and fine print.",
        live,
        "small(\"A quieter caption.\");",
    );
}

/// The entry of colored.
pub open spec fn colored_entry() -> GalleryPieces {
    entry_pieces(
        "colored"@,
        "Label in an arbitrary color."@,
        seq![Item::Colored("Careful — this can't be undone."@, tint(251, 146, 60))],
        "colored(\"Careful — this can't be undone.\", Color::rgb(251, 146, 60));"@,
    )
}

fn add_colored(page: &mut GalleryPage)
    ensures
        pieces(final(page)@) == pieces(old(page)@) + colored_entry(),
{
    let mut live: GalleryPage = Vec::new();
    put(&mut live, Item::Colored("Careful — this can't be undone.".to_owned(), Color::rgb(251, 146, 60)));
    assert(pieces(live@) =~= seq![Item::Colored("Careful — this can't be undone."@, tint(251, 146, 60))]);
    add_entry(
        page,
        "colored",
        "Label in an arbitrary color.",
        live,
        "colored(\"Careful — this can't be undone.\", Color::rgb(251, 146, 60));",
    );
}

/// The entry of text.
pub open spec fn text_entry() -> GalleryPieces {
    entry_pieces(
        "text"@,
        "Size and color set explicitly, not tied to a fixed style."@,
        seq![Item::Text("Custom size"@, 20, tint(167, 139, 250))],
        "text(\"Custom size\", 20.0, Color::rgb(167, 139, 250));"@,
    )
}

fn add_text(page: &mut GalleryPage)
    ensures
        pieces(final(page)@) == pieces(old(page)@) + text_entry(),
{
    let mut live: GalleryPage = Vec::new();
    put_text(&mut live, "Custom size", 20, Color::rgb(167, 139, 250));
    assert(pieces(live@) =~= seq![Item::Text("Custom size"@, 20, tint(167, 139, 250))]);
    add_entry(
        page,
        "text",
        "Size and color set explicitly, not tied to a fixed style.",
        live,
        "text(\"Custom size\", 20.0, Color::rgb(167, 139, 250));",
    );
}

/// The entry of code.
pub open spec fn code_entry() -> GalleryPieces {
    entry_pieces(
        "code"@,
        "Monospace, for snippets — this whole gallery is built from it."@,
        seq![Item::Code("let x = 1 + 1;"@)],
        "code(\"let x = 1 + 1;\");"@,
    )
}

fn add_code(page: &mut GalleryPage)
    ensures
        pieces(final(page)@) == pieces(old(page)@) + code_entry(),
{
    let mut live: GalleryPage = Vec::new();
    put(&mut live, Item::Code("let x = 1 + 1;".to_owned()));
    assert(pieces(live@) =~= seq![Item::Code("let x = 1 + 1;"@)]);
    add_entry(
        page,
        "code",
        "Monospace, for snippets — this whole gallery is built from it.",
        live,
        "code(\"let x = 1 + 1;\");",
    );
}

/// The entry of badge.
pub open spec fn badge_entry() -> GalleryPieces {
    entry_pieces(
        "badge"@,
        "A small colored pill, usually next to a label."@,
        seq![Item::Badge("NEW"@, tint(74, 222, 128))],
        "badge(\"NEW\", Color::rgb(74, 222, 128));"@,
    )
}

fn add_badge(page: &mut GalleryPage)
    ensures
        pieces(final(page)@) == pieces(old(page)@) + badge_entry(),
{
    let mut live: GalleryPage = Vec::new();
    put_badge(&mut live, "NEW", Color::rgb(74, 222, 128));
    assert(pieces(live@) =~= seq![Item::Badge("NEW"@, tint(74, 222, 128))]);
    add_entry(
        page,
        "badge",
        "A small colored pill, usually next to a label.",
        live,
        "badge(\"NEW\", Color::rgb(74, 222, 128));",
    );
}

/// The group of widgets called Text.
pub open spec fn text_section() -> GalleryPieces {
    section_title("Text"@)
        + heading_entry()
        + label_entry()
        + small_entry()
        + colored_entry()
        + text_entry()
        + code_entry()
        + badge_entry()
        + section_end()
}

fn text_group() -> (page: GalleryPage)
    ensures
        pieces(page@) == text_section(),
{
    let mut page = begin_section("Text");
    add_heading(&mut page);
    add_label(&mut page);
    add_small(&mut page);
    add_colored(&mut page);
    add_text(&mut page);
    add_code(&mut page);
    add_badge(&mut page);
    end_section(&mut page);
    page
}

proof fn lemma_text_section_closes()
    ensures
        depth(text_section()) == 0,
{
    broadcast use {lemma_depth_of_join, lemma_entry_closes};

    reveal_with_fuel(depth_at, 3);
}

// ── Buttons ───────────────────────────────────────────────────────────────────

/// The entry of button.
pub open spec fn button_entry() -> GalleryPieces {
    entry_pieces(
        "button"@,
        "Returns true on the frame it was clicked."@,
        seq![Item::Button("  Click me  "@, Look::Plain, GalleryAct::Nothing)],
        "if button(\"  Click me  \") {\n    // runs once, the frame of the click\n}"@,
    )
}

fn add_button(page: &mut GalleryPage)
    ensures
        pieces(final(page)@) == pieces(old(page)@) + button_entry(),
{
    let mut live: GalleryPage = Vec::new();
    put_button(&mut live, "  Click me  ", Look::Plain, GalleryAct::Nothing);
    assert(pieces(live@) =~= seq![Item::Button("  Click me  "@, Look::Plain, GalleryAct::Nothing)]);
    add_entry(
        page,
        "button",
        "Returns true on the frame it was clicked.",
        live,
        "if button(\"  Click me  \") {\n    // runs once, the frame of the click\n}",
    );
}

/// The entry of button_success / button_danger / button_ghost.
pub open spec fn button_success_entry() -> GalleryPieces {
    entry_pieces(
        "button_success / button_danger / button_ghost"@,
        "Pre-styled variants for common intents."@,
        seq![
            Item::RowBegin,
            Item::Button("  Confirm  "@, Look::Success, GalleryAct::Nothing),
            Item::Button("  Delete  "@, Look::Danger, GalleryAct::Nothing),
            Item::Button("  Cancel  "@, Look::Faint, GalleryAct::Nothing),
            Item::RowEnd,
        ],
        "button_success(\"  Confirm  \");\nbutton_danger(\"  Delete  \");\nbutton_ghost(\"  Cancel  \");"@,
    )
}

fn add_button_success(page: &mut GalleryPage)
    ensures
        pieces(final(page)@) == pieces(old(page)@) + button_success_entry(),
{
    let mut live: GalleryPage = Vec::new();
    put(&mut live, Item::RowBegin);
    put_button(&mut live, "  Confirm  ", Look::Success, GalleryAct::Nothing);
    put_button(&mut live, "  Delete  ", Look::Danger, GalleryAct::Nothing);
    put_button(&mut live, "  Cancel  ", Look::Faint, GalleryAct::Nothing);
    put(&mut live, Item::RowEnd);
    assert(pieces(live@) =~= seq![
        Item::RowBegin,
        Item::Button("  Confirm  "@, Look::Success, GalleryAct::Nothing),
        Item::Button("  Delete  "@, Look::Danger, GalleryAct::Nothing),
        Item::Button("  Cancel  "@, Look::Faint, GalleryAct::Nothing),
        Item::RowEnd,
    ]);
    add_entry(
        page,
        "button_success / button_danger / button_ghost",
        "Pre-styled variants for common intents.",
        live,
        "button_success(\"  Confirm  \");\nbutton_danger(\"  Delete  \");\nbutton_ghost(\"  Cancel  \");",
    );
}

/// The entry of button_styled.
pub open spec fn button_styled_entry() -> GalleryPieces {
    entry_pieces(
        "button_styled"@,
        "Full control over foreground, background, and border color."@,
        seq![Item::Button("  Custom  "@, Look::Styled(white(), tint(124, 58, 237), tint(167, 139, 250)), GalleryAct::Nothing)],
        "button_styled(\"  Custom  \", Color::WHITE, Color::rgb(124, 58, 237), Color::rgb(167, 139, 250));"@,
    )
}

fn add_button_styled(page: &mut GalleryPage)
    ensures
        pieces(final(page)@) == pieces(old(page)@) + button_styled_entry(),
{
    let mut live: GalleryPage = Vec::new();
    put_button(&mut live, "  Custom  ", Look::Styled(white_color(), Color::rgb(124, 58, 237), Color::rgb(167, 139, 250)), GalleryAct::Nothing);
    assert(pieces(live@) =~= seq![Item::Button("  Custom  "@, Look::Styled(white(), tint(124, 58, 237), tint(167, 139, 250)), GalleryAct::Nothing)]);
    add_entry(
        page,
        "button_styled",
        "Full control over foreground, background, and border color.",
        live,
        "button_styled(\"  Custom  \", Color::WHITE, Color::rgb(124, 58, 237), Color::rgb(167, 139, 250));",
    );
}

/// The group of widgets called Buttons.
pub open spec fn buttons_section() -> GalleryPieces {
    section_title("Buttons"@)
        + button_entry()
        + button_success_entry()
        + button_styled_entry()
        + section_end()
}

fn buttons_group() -> (page: GalleryPage)
    ensures
        pieces(page@) == buttons_section(),
{
    let mut page = begin_section("Buttons");
    add_button(&mut page);
    add_button_success(&mut page);
    add_button_styled(&mut page);
    end_section(&mut page);
    page
}

proof fn lemma_buttons_section_closes()
    ensures
        depth(buttons_section()) == 0,
{
    broadcast use {lemma_depth_of_join, lemma_entry_closes};

    reveal_with_fuel(depth_at, 6);
}

// ── Input ─────────────────────────────────────────────────────────────────────

/// The entry of checkbox.
pub open spec fn checkbox_entry() -> GalleryPieces {
    entry_pieces(
        "checkbox"@,
        "Toggles and returns its new state."@,
        seq![Item::Checkbox(100, "Enable notifications"@)],
        "let on = checkbox(0, \"Enable notifications\");"@,
    )
}

fn add_checkbox(page: &mut GalleryPage)
    ensures
        pieces(final(page)@) == pieces(old(page)@) + checkbox_entry(),
{
    let mut live: GalleryPage = Vec::new();
    put(&mut live, Item::Checkbox(100, "Enable notifications".to_owned()));
    assert(pieces(live@) =~= seq![Item::Checkbox(100, "Enable notifications"@)]);
    add_entry(
        page,
        "checkbox",
        "Toggles and returns its new state.",
        live,
        "let on = checkbox(0, \"Enable notifications\");",
    );
}

/// The entry of slider.
pub open spec fn slider_entry() -> GalleryPieces {
    entry_pieces(
        "slider"@,
        "Drag to change; returns the current value every frame."@,
        seq![Item::Slider(101, "Volume"@, 0, 100, 80)],
        "let v = slider(1, \"Volume\", 0.0, 100.0, 80.0);"@,
    )
}

fn add_slider(page: &mut GalleryPage)
    ensures
        pieces(final(page)@) == pieces(old(page)@) + slider_entry(),
{
    let mut live: GalleryPage = Vec::new();
    put(&mut live, Item::Slider(101, "Volume".to_owned(), 0, 100, 80));
    assert(pieces(live@) =~= seq![Item::Slider(101, "Volume"@, 0, 100, 80)]);
    add_entry(
        page,
        "slider",
        "Drag to change; returns the current value every frame.",
        live,
        "let v = slider(1, \"Volume\", 0.0, 100.0, 80.0);",
    );
}

/// The entry of text_field.
pub open spec fn text_field_entry() -> GalleryPieces {
    entry_pieces(
        "text_field"@,
        "A single-line editable field; returns its current text."@,
        seq![Item::Field(102, "Type here…"@)],
        "let name = text_field(2, \"Type here…\");"@,
    )
}

fn add_text_field(page: &mut GalleryPage)
    ensures
        pieces(final(page)@) == pieces(old(page)@) + text_field_entry(),
{
    let mut live: GalleryPage = Vec::new();
    put_field(&mut live, 102, "Type here…");
    assert(pieces(live@) =~= seq![Item::Field(102, "Type here…"@)]);
    add_entry(
        page,
        "text_field",
        "A single-line editable field; returns its current text.",
        live,
        "let name = text_field(2, \"Type here…\");",
    );
}

/// The entry of progress / progress_bar.
pub open spec fn progress_entry() -> GalleryPieces {
    entry_pieces(
        "progress / progress_bar"@,
        "A fill bar, with or without a label."@,
        seq![
            Item::Progress(60, ""@),
            Item::Space(4),
            Item::Progress(60, "3 / 5"@),
        ],
        "progress(0.6);\nprogress_bar(0.6, \"3 / 5\");"@,
    )
}

fn add_progress(page: &mut GalleryPage)
    ensures
        pieces(final(page)@) == pieces(old(page)@) + progress_entry(),
{
    let mut live: GalleryPage = Vec::new();
    put(&mut live, Item::Progress(60, "".to_owned()));
    put(&mut live, Item::Space(4));
    put(&mut live, Item::Progress(60, "3 / 5".to_owned()));
    assert(pieces(live@) =~= seq![
        Item::Progress(60, ""@),
        Item::Space(4),
        Item::Progress(60, "3 / 5"@),
    ]);
    add_entry(
        page,
        "progress / progress_bar",
        "A fill bar, with or without a label.",
        live,
        "progress(0.6);\nprogress_bar(0.6, \"3 / 5\");",
    );
}

/// The group of widgets called Input.
pub open spec fn input_section() -> GalleryPieces {
    section_title("Input"@)
        + checkbox_entry()
        + slider_entry()
        + text_field_entry()
        + progress_entry()
        + section_end()
}

fn input_group() -> (page: GalleryPage)
    ensures
        pieces(page@) == input_section(),
{
    let mut page = begin_section("Input");
    add_checkbox(&mut page);
    add_slider(&mut page);
    add_text_field(&mut page);
    add_progress(&mut page);
    end_section(&mut page);
    page
}

proof fn lemma_input_section_closes()
    ensures
        depth(input_section()) == 0,
{
    broadcast use {lemma_depth_of_join, lemma_entry_closes};

    reveal_with_fuel(depth_at, 4);
}

// ── Layout ────────────────────────────────────────────────────────────────────

/// The entry of row.
pub open spec fn row_entry() -> GalleryPieces {
    entry_pieces(
        "row"@,
        "Lays out whatever the closure draws left to right instead of stacked."@,
        seq![
            Item::RowBegin,
            Item::Label("left"@),
            Item::Space(8),
            Item::Label("right"@),
            Item::RowEnd,
        ],
        "row(|| {\n    label(\"left\");\n    space(8.0);\n    label(\"right\");\n});"@,
    )
}

fn add_row(page: &mut GalleryPage)
    ensures
        pieces(final(page)@) == pieces(old(page)@) + row_entry(),
{
    let mut live: GalleryPage = Vec::new();
    put(&mut live, Item::RowBegin);
    put_label(&mut live, "left");
    put(&mut live, Item::Space(8));
    put_label(&mut live, "right");
    put(&mut live, Item::RowEnd);
    assert(pieces(live@) =~= seq![
        Item::RowBegin,
        Item::Label("left"@),
        Item::Space(8),
        Item::Label("right"@),
        Item::RowEnd,
    ]);
    add_entry(
        page,
        "row",
        "Lays out whatever the closure draws left to right instead of stacked.",
        live,
        "row(|| {\n    label(\"left\");\n    space(8.0);\n    label(\"right\");\n});",
    );
}

/// The entry of columns2 / columns3 / columns4.
pub open spec fn columns2_entry() -> GalleryPieces {
    entry_pieces(
        "columns2 / columns3 / columns4"@,
        "Side-by-side panes, each with its own closure."@,
        seq![
            Item::ColumnsBegin(2),
            Item::Label("first column"@),
            Item::ColumnNext,
            Item::Label("second column"@),
            Item::ColumnsEnd,
        ],
        "columns2(\n    || label(\"first column\"),\n    || label(\"second column\"),\n);"@,
    )
}

fn add_columns2(page: &mut GalleryPage)
    ensures
        pieces(final(page)@) == pieces(old(page)@) + columns2_entry(),
{
    let mut live: GalleryPage = Vec::new();
    put(&mut live, Item::ColumnsBegin(2));
    put_label(&mut live, "first column");
    put(&mut live, Item::ColumnNext);
    put_label(&mut live, "second column");
    put(&mut live, Item::ColumnsEnd);
    assert(pieces(live@) =~= seq![
        Item::ColumnsBegin(2),
        Item::Label("first column"@),
        Item::ColumnNext,
        Item::Label("second column"@),
        Item::ColumnsEnd,
    ]);
    add_entry(
        page,
        "columns2 / columns3 / columns4",
        "Side-by-side panes, each with its own closure.",
        live,
        "columns2(\n    || label(\"first column\"),\n    || label(\"second column\"),\n);",
    );
}

/// The entry of space.
pub open spec fn space_entry() -> GalleryPieces {
    entry_pieces(
        "space"@,
        "A fixed gap, in logical pixels."@,
        seq![
            Item::Label("above"@),
            Item::Space(16),
            Item::Label("below"@),
        ],
        "space(16.0);"@,
    )
}

fn add_space(page: &mut GalleryPage)
    ensures
        pieces(final(page)@) == pieces(old(page)@) + space_entry(),
{
    let mut live: GalleryPage = Vec::new();
    put_label(&mut live, "above");
    put(&mut live, Item::Space(16));
    put_label(&mut live, "below");
    assert(pieces(live@) =~= seq![
        Item::Label("above"@),
        Item::Space(16),
        Item::Label("below"@),
    ]);
    add_entry(
        page,
        "space",
        "A fixed gap, in logical pixels.",
        live,
        "space(16.0);",
    );
}

/// The entry of separator.
pub open spec fn separator_entry() -> GalleryPieces {
    entry_pieces(
        "separator"@,
        "A thin horizontal rule."@,
        seq![
            Item::Label("above"@),
            Item::Separator,
            Item::Label("below"@),
        ],
        "separator();"@,
    )
}

fn add_separator(page: &mut GalleryPage)
    ensures
        pieces(final(page)@) == pieces(old(page)@) + separator_entry(),
{
    let mut live: GalleryPage = Vec::new();
    put_label(&mut live, "above");
    put(&mut live, Item::Separator);
    put_label(&mut live, "below");
    assert(pieces(live@) =~= seq![
        Item::Label("above"@),
        Item::Separator,
        Item::Label("below"@),
    ]);
    add_entry(
        page,
        "separator",
        "A thin horizontal rule.",
        live,
        "separator();",
    );
}

/// The group of widgets called Layout.
pub open spec fn layout_section() -> GalleryPieces {
    section_title("Layout"@)
        + row_entry()
        + columns2_entry()
        + space_entry()
        + separator_entry()
        + section_end()
}

fn layout_group() -> (page: GalleryPage)
    ensures
        pieces(page@) == layout_section(),
{
    let mut page = begin_section("Layout");
    add_row(&mut page);
    add_columns2(&mut page);
    add_space(&mut page);
    add_separator(&mut page);
    end_section(&mut page);
    page
}

proof fn lemma_layout_section_closes()
    ensures
        depth(layout_section()) == 0,
{
    broadcast use {lemma_depth_of_join, lemma_entry_closes};

    reveal_with_fuel(depth_at, 6);
}

// ── Containers ────────────────────────────────────────────────────────────────

/// The entry of card.
pub open spec fn card_entry() -> GalleryPieces {
    entry_pieces(
        "card"@,
        "A bordered panel with default styling — the box every entry on this page is drawn in."@,
        seq![
            Item::CardBegin,
            Item::Label("Content inside a card."@),
            Item::CardEnd,
        ],
        "card(|| {\n    label(\"Content inside a card.\");\n});"@,
    )
}

fn add_card(page: &mut GalleryPage)
    ensures
        pieces(final(page)@) == pieces(old(page)@) + card_entry(),
{
    let mut live: GalleryPage = Vec::new();
    put(&mut live, Item::CardBegin);
    put_label(&mut live, "Content inside a card.");
    put(&mut live, Item::CardEnd);
    assert(pieces(live@) =~= seq![
        Item::CardBegin,
        Item::Label("Content inside a card."@),
        Item::CardEnd,
    ]);
    add_entry(
        page,
        "card",
        "A bordered panel with default styling — the box every entry on this page is drawn in.",
        live,
        "card(|| {\n    label(\"Content inside a card.\");\n});",
    );
}

/// The entry of card_color.
pub open spec fn card_color_entry() -> GalleryPieces {
    entry_pieces(
        "card_color"@,
        "Same as card, with a custom background — used for alerts, warnings, highlights."@,
        seq![
            Item::TintedCard(tint(20, 83, 45)),
            Item::Label("A green-tinted card."@),
            Item::CardEnd,
        ],
        "card_color(Color::rgb(20, 83, 45), || {\n    label(\"A green-tinted card.\");\n});"@,
    )
}

fn add_card_color(page: &mut GalleryPage)
    ensures
        pieces(final(page)@) == pieces(old(page)@) + card_color_entry(),
{
    let mut live: GalleryPage = Vec::new();
    put(&mut live, Item::TintedCard(Color::rgb(20, 83, 45)));
    put_label(&mut live, "A green-tinted card.");
    put(&mut live, Item::CardEnd);
    assert(pieces(live@) =~= seq![
        Item::TintedCard(tint(20, 83, 45)),
        Item::Label("A green-tinted card."@),
        Item::CardEnd,
    ]);
    add_entry(
        page,
        "card_color",
        "Same as card, with a custom background — used for alerts, warnings, highlights.",
        live,
        "card_color(Color::rgb(20, 83, 45), || {\n    label(\"A green-tinted card.\");\n});",
    );
}

/// The group of widgets called Containers.
pub open spec fn containers_section() -> GalleryPieces {
    section_title("Containers"@)
        + card_entry()
        + card_color_entry()
        + section_end()
}

fn containers_group() -> (page: GalleryPage)
    ensures
        pieces(page@) == containers_section(),
{
    let mut page = begin_section("Containers");
    add_card(&mut page);
    add_card_color(&mut page);
    end_section(&mut page);
    page
}

proof fn lemma_containers_section_closes()
    ensures
        depth(containers_section()) == 0,
{
    broadcast use {lemma_depth_of_join, lemma_entry_closes};

    reveal_with_fuel(depth_at, 4);
}

// ── Sound ────────────────────────────────────────────────────────────────────

/// The entry of a sound that is played once.
pub open spec fn play_entry() -> GalleryPieces {
    entry_pieces(
        "sound::play"@,
        "Fire-and-forget playback — several can overlap. Decoding (WAV/MP3/OGG/FLAC) happens on the host."@,
        seq![Item::Button(" ▶ Play beep "@, Look::Plain, GalleryAct::Beep)],
        "static CLICK: &[u8] = include_bytes!(\"click.wav\");\n\nif button(\" Play \") {\n    sound::play(CLICK);\n}"@,
    )
}

fn add_play(page: &mut GalleryPage)
    ensures
        pieces(final(page)@) == pieces(old(page)@) + play_entry(),
{
    let mut live: GalleryPage = Vec::new();
    put_button(&mut live, " ▶ Play beep ", Look::Plain, GalleryAct::Beep);
    assert(pieces(live@) =~= seq![
        Item::Button(" ▶ Play beep "@, Look::Plain, GalleryAct::Beep),
    ]);
    add_entry(
        page,
        "sound::play",
        "Fire-and-forget playback — several can overlap. Decoding (WAV/MP3/OGG/FLAC) happens on the host.",
        live,
        "static CLICK: &[u8] = include_bytes!(\"click.wav\");\n\nif button(\" Play \") {\n    sound::play(CLICK);\n}",
    );
}

/// The buttons of a sound that is looped, and its volume while it plays.
pub open spec fn loop_pieces(playing: bool) -> GalleryPieces {
    seq![
        Item::RowBegin,
        if playing {
            Item::Button(" ■ Stop loop "@, Look::Danger, GalleryAct::StopLoop)
        } else {
            Item::Button(" ▶ Start loop "@, Look::Success, GalleryAct::StartLoop)
        },
        Item::Space(8),
        if playing {
            Item::Badge("LOOPING"@, tint(74, 222, 128))
        } else {
            Item::Badge("STOPPED"@, tint(100, 116, 139))
        },
        Item::RowEnd,
    ] + if playing {
        seq![Item::Space(6), Item::Slider(VOLUME_SLIDER, "Volume"@, 0, 2, 1)]
    } else {
        Seq::empty()
    }
}

fn loop_controls(playing: bool) -> (page: GalleryPage)
    ensures
        pieces(page@) == loop_pieces(playing),
{
    let mut page: GalleryPage = Vec::new();
    put(&mut page, Item::RowBegin);
    if playing {
        put_button(&mut page, " ■ Stop loop ", Look::Danger, GalleryAct::StopLoop);
    } else {
        put_button(&mut page, " ▶ Start loop ", Look::Success, GalleryAct::StartLoop);
    }
    put(&mut page, Item::Space(8));
    if playing {
        put_badge(&mut page, "LOOPING", Color::green());
    } else {
        put_badge(&mut page, "STOPPED", Color::rgb(100, 116, 139));
    }
    put(&mut page, Item::RowEnd);
    if playing {
        put(&mut page, Item::Space(6));
        put(&mut page, Item::Slider(VOLUME_SLIDER, "Volume".to_owned(), 0, 2, 1));
    }
    assert(pieces(page@) =~= loop_pieces(playing));
    page
}

/// The entry of a sound that is looped.
pub open spec fn looped_entry(playing: bool) -> GalleryPieces {
    entry_pieces(
        "sound::play_looped / stop / set_volume"@,
        "Loops until stopped; the returned handle is also how its volume gets adjusted."@,
        loop_pieces(playing),
        "let handle = sound::play_looped(MUSIC);\nsound::set_volume(handle, 0.4);\n// ...later:\nsound::stop(handle);"@,
    )
}

/// The group of sounds.
pub open spec fn sound_section(playing: bool) -> GalleryPieces {
    section_title("Sound"@) + play_entry() + looped_entry(playing) + section_end()
}

fn sound_group(playing: bool) -> (page: GalleryPage)
    ensures
        pieces(page@) == sound_section(playing),
{
    let mut page = begin_section("Sound");
    add_play(&mut page);
    add_entry(
        &mut page,
        "sound::play_looped / stop / set_volume",
        "Loops until stopped; the returned handle is also how its volume gets adjusted.",
        loop_controls(playing),
        "let handle = sound::play_looped(MUSIC);\nsound::set_volume(handle, 0.4);\n// ...later:\nsound::stop(handle);",
    );
    end_section(&mut page);
    page
}

proof fn lemma_sound_section_closes(playing: bool)
    ensures
        depth(sound_section(playing)) == 0,
{
    broadcast use {lemma_depth_of_join, lemma_entry_closes};

    reveal_with_fuel(depth_at, 6);
}

// ── Putting it together ──────────────────────────────────────────────────────

/// A whole number in decimal, with a sign where it is negative.
pub open spec fn signed(n: int) -> Seq<char> {
    if n < 0 {
        "-"@ + decimal((-n) as nat)
    } else {
        decimal(n as nat)
    }
}

fn signed_text(n: i32) -> (r: String)
    ensures
        r@ == signed(n as int),
{
    if n < 0 {
        let mut r = "-".to_owned();
        r.append(format_u64((-(n as i64)) as u64).as_str());
        r
    } else {
        format_u64(n as u64)
    }
}

/// The counter.
pub open spec fn counter_section(n: i32) -> GalleryPieces {
    seq![
        Item::Text("Putting it together"@, 20, white()),
        Item::Space(8),
        Item::CardBegin,
        Item::RowBegin,
        Item::Text("Counter"@, 16, white()),
        Item::Space(8),
        Item::Badge(
            signed(n as int),
            if n > 0 {
                tint(74, 222, 128)
            } else if n < 0 {
                tint(239, 68, 68)
            } else {
                tint(100, 116, 139)
            },
        ),
        Item::RowEnd,
        Item::Space(8),
        Item::RowBegin,
        Item::Button("  +  "@, Look::Success, GalleryAct::CountUp),
        Item::Button("  −  "@, Look::Danger, GalleryAct::CountDown),
        Item::Button(" Reset "@, Look::Faint, GalleryAct::Reset),
        Item::RowEnd,
        Item::Space(10),
        Item::Code(
            "row + button_success/button_danger/button_ghost + badge, wired to one AtomicI32"@,
        ),
        Item::CardEnd,
        Item::Space(16),
    ]
}

fn counter_group(n: i32) -> (page: GalleryPage)
    ensures
        pieces(page@) == counter_section(n),
{
    let mut page: GalleryPage = Vec::new();
    put_text(&mut page, "Putting it together", 20, white_color());
    put(&mut page, Item::Space(8));
    put(&mut page, Item::CardBegin);
    put(&mut page, Item::RowBegin);
    put_text(&mut page, "Counter", 16, white_color());
    put(&mut page, Item::Space(8));
    let tone = if n > 0 {
        Color::green()
    } else if n < 0 {
        Color::red()
    } else {
        Color::rgb(100, 116, 139)
    };
    put(&mut page, Item::Badge(signed_text(n), tone));
    put(&mut page, Item::RowEnd);
    put(&mut page, Item::Space(8));
    put(&mut page, Item::RowBegin);
    put_button(&mut page, "  +  ", Look::Success, GalleryAct::CountUp);
    put_button(&mut page, "  −  ", Look::Danger, GalleryAct::CountDown);
    put_button(&mut page, " Reset ", Look::Faint, GalleryAct::Reset);
    put(&mut page, Item::RowEnd);
    put(&mut page, Item::Space(10));
    put(
        &mut page,
        Item::Code(
            "row + button_success/button_danger/button_ghost + badge, wired to one AtomicI32".to_owned(),
        ),
    );
    put(&mut page, Item::CardEnd);
    put(&mut page, Item::Space(16));
    assert(pieces(page@) =~= counter_section(n));
    page
}

proof fn lemma_counter_section_closes(n: i32)
    ensures
        depth(counter_section(n)) == 0,
{
    reveal_with_fuel(depth_at, 19);
}

// ── The whole page ───────────────────────────────────────────────────────────

/// The title.
pub open spec fn title_pieces() -> GalleryPieces {
    seq![
        Item::RowBegin,
        Item::Text("annessaia"@, 28, tint(56, 189, 248)),
        Item::Space(8),
        Item::Badge("widgets"@, accent()),
        Item::Space(4),
        Item::Badge("reference"@, muted()),
        Item::RowEnd,
        Item::Label("Every widget the SDK offers, live, with the code that made it."@),
        Item::Separator,
        Item::Space(8),
    ]
}

fn title_group() -> (page: GalleryPage)
    ensures
        pieces(page@) == title_pieces(),
{
    let mut page: GalleryPage = Vec::new();
    put(&mut page, Item::RowBegin);
    put_text(&mut page, "annessaia", 28, Color::cyan());
    put(&mut page, Item::Space(8));
    put_badge(&mut page, "widgets", accent_color());
    put(&mut page, Item::Space(4));
    put_badge(&mut page, "reference", muted_color());
    put(&mut page, Item::RowEnd);
    put_label(&mut page, "Every widget the SDK offers, live, with the code that made it.");
    put(&mut page, Item::Separator);
    put(&mut page, Item::Space(8));
    assert(pieces(page@) =~= title_pieces());
    page
}

proof fn lemma_title_closes()
    ensures
        depth(title_pieces()) == 0,
{
    reveal_with_fuel(depth_at, 11);
}

/// The page.
pub open spec fn gallery_pieces(g: Gallery) -> GalleryPieces {
    title_pieces() + text_section() + buttons_section() + input_section() + layout_section()
        + containers_section() + sound_section(g.looping is Some) + counter_section(g.counter)
}

/// Returns the page of the gallery.
pub fn gallery_page(g: &Gallery) -> (page: GalleryPage)
    ensures
        pieces(page@) == gallery_pieces(*g),
{
    let mut page = title_group();
    append(&mut page, text_group());
    append(&mut page, buttons_group());
    append(&mut page, input_group());
    append(&mut page, layout_group());
    append(&mut page, containers_group());
    append(&mut page, sound_group(g.looping.is_some()));
    append(&mut page, counter_group(g.counter));
    page
}

/// Every container that the page opens it closes.
pub proof fn lemma_page_closes_its_containers(g: Gallery)
    ensures
        depth(gallery_pieces(g)) == 0,
{
    broadcast use lemma_depth_of_join;

    lemma_title_closes();
    lemma_text_section_closes();
    lemma_buttons_section_closes();
    lemma_input_section_closes();
    lemma_layout_section_closes();
    lemma_containers_section_closes();
    lemma_sound_section_closes(g.looping is Some);
    lemma_counter_section_closes(g.counter);
}

} // verus!

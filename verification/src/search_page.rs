//! The pages of the search app, piece by piece.
use vstd::prelude::*;
use vstd::string::StringExecFns;
use crate::color::Color;
use crate::numerals::{decimal, format_u64};
use crate::page::{
    accent, accent_color, code_pieces, depth, depth_at, gold, gold_color, lemma_codes_are_flat,
    lemma_depth_of_join, muted, muted_color, pieces, put, put_badge, put_button, put_code,
    put_field, put_label, put_small, put_text, slate, slate_color, tint, white, white_color,
    Item, Look,
};
use crate::search_app::{Hosting, Listing, Meant, Progress, SearchApp, Tab, PER_PAGE};
use crate::search_view::{
    author_text, count_text, counted, failure_text, missing, page_end, page_start, page_text,
    page_words, pages_for, rating_text, star_row, stars_text, stat_for, stat_index, window_text,
    window_words, Body, FormEnd, ReviewPanel, Window,
};
use crate::text::{filled_lines, lines, split, texts};

verus! {

/// What a button of the app does. Addresses are of the type `T`.
pub enum Act<T> {
    /// Nothing: what it stands for is shown already.
    Nothing,
    ShowSearch,
    ShowSubmit,
    ToggleAi,
    /// Search for what is typed.
    Search,
    SearchFor(T),
    Browse,
    ToggleDebug,
    Open(T),
    Copy(T),
    ToggleReviews(T),
    ToggleRating(T),
    Rate(T, u8),
    Previous,
    Next,
    HostHere,
    HostElsewhere,
    ChooseFile,
    Submit,
    Cancel,
    SubmitAnother,
    TryAgain,
}

impl View for Act<String> {
    type V = Act<Seq<char>>;

    open spec fn view(&self) -> Act<Seq<char>> {
        match *self {
            Act::Nothing => Act::Nothing,
            Act::ShowSearch => Act::ShowSearch,
            Act::ShowSubmit => Act::ShowSubmit,
            Act::ToggleAi => Act::ToggleAi,
            Act::Search => Act::Search,
            Act::SearchFor(s) => Act::SearchFor(s@),
            Act::Browse => Act::Browse,
            Act::ToggleDebug => Act::ToggleDebug,
            Act::Open(s) => Act::Open(s@),
            Act::Copy(s) => Act::Copy(s@),
            Act::ToggleReviews(s) => Act::ToggleReviews(s@),
            Act::ToggleRating(s) => Act::ToggleRating(s@),
            Act::Rate(s, n) => Act::Rate(s@, n),
            Act::Previous => Act::Previous,
            Act::Next => Act::Next,
            Act::HostHere => Act::HostHere,
            Act::HostElsewhere => Act::HostElsewhere,
            Act::ChooseFile => Act::ChooseFile,
            Act::Submit => Act::Submit,
            Act::Cancel => Act::Cancel,
            Act::SubmitAnother => Act::SubmitAnother,
            Act::TryAgain => Act::TryAgain,
        }
    }
}

/// A page.
pub type Page = Vec<Item<String, Act<String>>>;

/// The contents of a page.
pub type Pieces = Seq<Item<Seq<char>, Act<Seq<char>>>>;

/// How an app's average is shown: by so many filled stars, and as a text.
pub struct Liked {
    pub filled: u8,
    pub average: String,
}

// ── Head ─────────────────────────────────────────────────────────────────────

/// The title.
pub open spec fn title_pieces() -> Pieces {
    seq![
        Item::RowBegin,
        Item::Text("annessaia"@, 28, tint(56, 189, 248)),
        Item::Space(6),
        Item::Badge("search"@, accent()),
        Item::RowEnd,
        Item::Label("Discover and share WASM apps."@),
        Item::Separator,
    ]
}

fn add_title(page: &mut Page)
    ensures
        pieces(final(page)@) == pieces(old(page)@) + title_pieces(),
{
    let ghost before = pieces(page@);
    put(page, Item::RowBegin);
    put_text(page, "annessaia", 28, Color::cyan());
    put(page, Item::Space(6));
    put_badge(page, "search", accent_color());
    put(page, Item::RowEnd);
    put_label(page, "Discover and share WASM apps.");
    put(page, Item::Separator);
    assert(pieces(page@) =~= before + title_pieces());
}

/// One of several buttons of which one is chosen.
pub open spec fn choice_piece(label: Seq<char>, chosen: bool, act: Act<Seq<char>>) -> Item<
    Seq<char>,
    Act<Seq<char>>,
> {
    if chosen {
        Item::Button(label, Look::Styled(white(), accent(), accent()), Act::Nothing)
    } else {
        Item::Button(label, Look::Faint, act)
    }
}

fn add_choice(page: &mut Page, label: &str, chosen: bool, act: Act<String>)
    ensures
        pieces(final(page)@) == pieces(old(page)@).push(choice_piece(label@, chosen, act@)),
{
    if chosen {
        let look = Look::Styled(white_color(), accent_color(), accent_color());
        put_button(page, label, look, Act::Nothing);
    } else {
        put_button(page, label, Look::Faint, act);
    }
}

/// The tabs, where there is more than one.
pub open spec fn tab_pieces(a: SearchApp) -> Pieces {
    if a.read_only {
        Seq::empty()
    } else {
        seq![
            Item::RowBegin,
            choice_piece("  Search  "@, a.tab == Tab::Search, Act::ShowSearch),
            choice_piece("  + Submit App  "@, a.tab == Tab::Submit, Act::ShowSubmit),
            Item::RowEnd,
            Item::Space(12),
        ]
    }
}

fn add_tabs(page: &mut Page, a: &SearchApp)
    ensures
        pieces(final(page)@) == pieces(old(page)@) + tab_pieces(*a),
{
    let ghost before = pieces(page@);
    if !a.read_only {
        put(page, Item::RowBegin);
        let searching = match a.tab {
            Tab::Search => true,
            Tab::Submit => false,
        };
        add_choice(page, "  Search  ", searching, Act::ShowSearch);
        add_choice(page, "  + Submit App  ", !searching, Act::ShowSubmit);
        put(page, Item::RowEnd);
        put(page, Item::Space(12));
    }
    assert(pieces(page@) =~= before + tab_pieces(*a));
}

// ── Searching ────────────────────────────────────────────────────────────────

/// The bar to search with.
pub open spec fn bar_pieces(a: SearchApp) -> Pieces {
    seq![
        Item::RowBegin,
        if a.ai_enabled {
            Item::Button(
                " AI search: ON "@,
                Look::Styled(white(), tint(20, 83, 45), tint(74, 222, 128)),
                Act::ToggleAi,
            )
        } else {
            Item::Button(" AI search: OFF "@, Look::Faint, Act::ToggleAi)
        },
        Item::Space(8),
        Item::Field(0, "Search by name, tag, or description…"@),
        Item::RowEnd,
        Item::Space(8),
        Item::RowBegin,
        Item::Button("  Search  "@, Look::Plain, Act::Search),
        Item::Button(" Browse all "@, Look::Faint, Act::Browse),
        Item::Space(12),
        if a.debug_mode {
            Item::Button(
                " Debug: ON "@,
                Look::Styled(white(), tint(120, 90, 10), gold()),
                Act::ToggleDebug,
            )
        } else {
            Item::Button(" Debug "@, Look::Faint, Act::ToggleDebug)
        },
        Item::RowEnd,
        Item::Space(16),
    ]
}

fn add_bar(page: &mut Page, a: &SearchApp)
    ensures
        pieces(final(page)@) == pieces(old(page)@) + bar_pieces(*a),
{
    let ghost before = pieces(page@);
    put(page, Item::RowBegin);
    if a.ai_enabled {
        let look = Look::Styled(white_color(), Color::rgb(20, 83, 45), Color::rgb(74, 222, 128));
        put_button(page, " AI search: ON ", look, Act::ToggleAi);
    } else {
        put_button(page, " AI search: OFF ", Look::Faint, Act::ToggleAi);
    }
    put(page, Item::Space(8));
    put_field(page, 0, "Search by name, tag, or description…");
    put(page, Item::RowEnd);
    put(page, Item::Space(8));
    put(page, Item::RowBegin);
    put_button(page, "  Search  ", Look::Plain, Act::Search);
    put_button(page, " Browse all ", Look::Faint, Act::Browse);
    put(page, Item::Space(12));
    if a.debug_mode {
        let look = Look::Styled(white_color(), Color::rgb(120, 90, 10), gold_color());
        put_button(page, " Debug: ON ", look, Act::ToggleDebug);
    } else {
        put_button(page, " Debug ", Look::Faint, Act::ToggleDebug);
    }
    put(page, Item::RowEnd);
    put(page, Item::Space(16));
    assert(pieces(page@) =~= before + bar_pieces(*a));
}

/// The panel with raw scores, where it is asked for.
pub open spec fn debug_pieces(a: SearchApp) -> Pieces {
    if a.debug_mode {
        seq![
            Item::TintedCard(tint(20, 16, 8)),
            Item::Small("DEBUG — raw scores, unfiltered by threshold"@),
            Item::Space(6),
        ] + (if lines(a.debug_text@).len() == 0 {
            seq![Item::Small("Run a search to populate this."@)]
        } else {
            code_pieces(lines(a.debug_text@))
        }) + seq![Item::CardEnd, Item::Space(12)]
    } else {
        Seq::empty()
    }
}

fn add_debug(page: &mut Page, a: &SearchApp)
    ensures
        pieces(final(page)@) == pieces(old(page)@) + debug_pieces(*a),
{
    let ghost before = pieces(page@);
    match a.debug_rows() {
        None => {
            assert(pieces(page@) =~= before + debug_pieces(*a));
        },
        Some(rows) => {
            put(page, Item::TintedCard(Color::rgb(20, 16, 8)));
            put_small(page, "DEBUG — raw scores, unfiltered by threshold");
            put(page, Item::Space(6));
            assert(texts(rows@).len() == rows@.len());
            if rows.len() == 0 {
                put_small(page, "Run a search to populate this.");
            }
            put_code(page, &rows);
            put(page, Item::CardEnd);
            put(page, Item::Space(12));
            assert(pieces(page@) =~= before + debug_pieces(*a));
        },
    }
}

/// What is shown before anything was asked for.
pub open spec fn home_pieces() -> Pieces {
    seq![
        Item::TintedCard(slate()),
        Item::Text("Find an app"@, 16, white()),
        Item::Space(4),
        Item::Small("Search by name, tag, description, or author."@),
        Item::Space(10),
        Item::RowBegin,
        Item::Small("Try:"@),
        Item::Space(8),
        Item::Button("  game  "@, Look::Faint, Act::SearchFor("game"@)),
        Item::Button("  tool  "@, Look::Faint, Act::SearchFor("tool"@)),
        Item::Button("  art  "@, Look::Faint, Act::SearchFor("art"@)),
        Item::Button("  demo  "@, Look::Faint, Act::SearchFor("demo"@)),
        Item::RowEnd,
        Item::Space(10),
        Item::Small("Or press Browse all to page through everything."@),
        Item::CardEnd,
    ]
}

fn add_home(page: &mut Page)
    ensures
        pieces(final(page)@) == pieces(old(page)@) + home_pieces(),
{
    let ghost before = pieces(page@);
    put(page, Item::TintedCard(slate_color()));
    put_text(page, "Find an app", 16, white_color());
    put(page, Item::Space(4));
    put_small(page, "Search by name, tag, description, or author.");
    put(page, Item::Space(10));
    put(page, Item::RowBegin);
    put_small(page, "Try:");
    put(page, Item::Space(8));
    put_button(page, "  game  ", Look::Faint, Act::SearchFor("game".to_owned()));
    put_button(page, "  tool  ", Look::Faint, Act::SearchFor("tool".to_owned()));
    put_button(page, "  art  ", Look::Faint, Act::SearchFor("art".to_owned()));
    put_button(page, "  demo  ", Look::Faint, Act::SearchFor("demo".to_owned()));
    put(page, Item::RowEnd);
    put(page, Item::Space(10));
    put_small(page, "Or press Browse all to page through everything.");
    put(page, Item::CardEnd);
    assert(pieces(page@) =~= before + home_pieces());
}

/// What is said of results by meaning.
pub open spec fn notice_pieces(m: Meant) -> Pieces {
    match m {
        Meant::Idle => Seq::empty(),
        Meant::Computing => seq![
            Item::RowBegin,
            Item::Badge("COMPUTING"@, gold()),
            Item::Space(8),
            Item::Small(
                "Refining by meaning — the first search each session may take a while if a model is still downloading."@,
            ),
            Item::RowEnd,
            Item::Space(10),
        ],
        Meant::Unavailable => seq![
            Item::RowBegin,
            Item::Badge("KEYWORD ONLY"@, tint(148, 163, 184)),
            Item::Space(8),
            Item::Small(
                "Meaning-based search isn't available right now — showing keyword matches only."@,
            ),
            Item::RowEnd,
            Item::Space(10),
        ],
    }
}

fn add_notice(page: &mut Page, m: Meant)
    ensures
        pieces(final(page)@) == pieces(old(page)@) + notice_pieces(m),
{
    let ghost before = pieces(page@);
    match m {
        Meant::Idle => {},
        Meant::Computing => {
            put(page, Item::RowBegin);
            put_badge(page, "COMPUTING", gold_color());
            put(page, Item::Space(8));
            put_small(
                page,
                "Refining by meaning — the first search each session may take a while if a model is still downloading.",
            );
            put(page, Item::RowEnd);
            put(page, Item::Space(10));
        },
        Meant::Unavailable => {
            put(page, Item::RowBegin);
            put_badge(page, "KEYWORD ONLY", Color::rgb(148, 163, 184));
            put(page, Item::Space(8));
            put_small(
                page,
                "Meaning-based search isn't available right now — showing keyword matches only.",
            );
            put(page, Item::RowEnd);
            put(page, Item::Space(10));
        },
    }
    assert(pieces(page@) =~= before + notice_pieces(m));
}

// ── A result ─────────────────────────────────────────────────────────────────

/// The tags of an app.
pub open spec fn tags_pieces(tags: Seq<Seq<char>>) -> Pieces
    decreases tags.len(),
{
    if tags.len() == 0 {
        Seq::empty()
    } else {
        tags_pieces(tags.drop_last()) + seq![
            Item::Badge(tags.last(), accent()),
            Item::Space(3),
        ]
    }
}

fn add_tags(page: &mut Page, tags: &Vec<String>)
    ensures
        pieces(final(page)@) == pieces(old(page)@) + tags_pieces(texts(tags@)),
{
    let ghost before = pieces(page@);
    let ghost all = texts(tags@);
    let mut i: usize = 0;
    assert(pieces(page@) =~= before + tags_pieces(all.take(0)));
    while i < tags.len()
        invariant
            i <= tags@.len(),
            all == texts(tags@),
            pieces(page@) == before + tags_pieces(all.take(i as int)),
        decreases tags.len() - i,
    {
        assert(all.take(i + 1).drop_last() =~= all.take(i as int));
        assert(all[i as int] == tags@[i as int]@);
        put_badge(page, tags[i].as_str(), accent_color());
        put(page, Item::Space(3));
        i += 1;
        assert(pieces(page@) =~= before + tags_pieces(all.take(i as int)));
    }
    assert(all.take(i as int) =~= all);
}

/// What an app is called and about.
pub open spec fn about_pieces(
    name: Seq<char>,
    tags: Seq<Seq<char>>,
    desc: Seq<char>,
    snippet: Seq<char>,
) -> Pieces {
    seq![Item::RowBegin, Item::Text(name, 16, white()), Item::Space(8)] + tags_pieces(tags) + seq![
        Item::RowEnd,
        Item::Space(4),
    ] + (if desc.len() > 0 {
        seq![Item::Label(desc)]
    } else {
        Seq::empty()
    }) + (if snippet.len() > 0 {
        seq![Item::Small(snippet)]
    } else {
        Seq::empty()
    }) + seq![Item::Space(6)]
}

fn add_about(page: &mut Page, name: &str, tags: &Vec<String>, desc: &str, snippet: &str)
    ensures
        pieces(final(page)@) == pieces(old(page)@) + about_pieces(
            name@,
            texts(tags@),
            desc@,
            snippet@,
        ),
{
    let ghost before = pieces(page@);
    put(page, Item::RowBegin);
    put_text(page, name, 16, white_color());
    put(page, Item::Space(8));
    add_tags(page, tags);
    put(page, Item::RowEnd);
    put(page, Item::Space(4));
    if !desc.is_empty() {
        put_label(page, desc);
    }
    if !snippet.is_empty() {
        put_small(page, snippet);
    }
    put(page, Item::Space(6));
    assert(pieces(page@) =~= before + about_pieces(name@, texts(tags@), desc@, snippet@));
}

/// How an app is liked.
pub open spec fn liking_pieces(votes: u32, opens: u64, filled: int, average: Seq<char>) -> Pieces {
    seq![Item::RowBegin] + (if votes > 0 {
        seq![
            Item::Colored(star_row(filled), gold()),
            Item::Space(6),
            Item::Small(average + " · "@ + counted(votes as nat, "rating"@)),
        ]
    } else {
        seq![Item::Small("not rated yet"@)]
    }) + (if opens > 0 {
        seq![Item::Space(12), Item::Small(counted(opens as nat, "open"@))]
    } else {
        Seq::empty()
    }) + seq![Item::RowEnd, Item::Space(8)]
}

fn add_liking(page: &mut Page, votes: u32, opens: u64, filled: u8, average: &str)
    ensures
        pieces(final(page)@) == pieces(old(page)@) + liking_pieces(
            votes,
            opens,
            filled as int,
            average@,
        ),
{
    let ghost before = pieces(page@);
    put(page, Item::RowBegin);
    if votes > 0 {
        put(page, Item::Colored(stars_text(filled), gold_color()));
        put(page, Item::Space(6));
        put(page, Item::Small(rating_text(average, votes)));
    } else {
        put_small(page, "not rated yet");
    }
    if opens > 0 {
        put(page, Item::Space(12));
        put(page, Item::Small(count_text(opens, "open")));
    }
    put(page, Item::RowEnd);
    put(page, Item::Space(8));
    assert(pieces(page@) =~= before + liking_pieces(votes, opens, filled as int, average@));
}

/// What can be done with an app.
pub open spec fn deeds_pieces(
    author: Seq<char>,
    url: Seq<char>,
    rated: bool,
    reviews_shown: bool,
    can_rate: bool,
    rating_shown: bool,
) -> Pieces {
    seq![
        Item::RowBegin,
        Item::Small("by "@ + author),
        Item::Space(16),
        Item::Button(" Open "@, Look::Faint, Act::Open(url)),
        Item::Button(" Copy URL "@, Look::Faint, Act::Copy(url)),
    ] + (if rated {
        seq![
            Item::Button(
                if reviews_shown {
                    " Hide reviews "@
                } else {
                    " Reviews "@
                },
                Look::Faint,
                Act::ToggleReviews(url),
            ),
        ]
    } else {
        Seq::empty()
    }) + (if can_rate {
        seq![
            Item::Button(
                if rating_shown {
                    " Cancel "@
                } else {
                    " Rate "@
                },
                Look::Faint,
                Act::ToggleRating(url),
            ),
        ]
    } else {
        Seq::empty()
    }) + seq![Item::RowEnd]
}

fn add_deeds(
    page: &mut Page,
    author: &str,
    url: &str,
    rated: bool,
    reviews_shown: bool,
    can_rate: bool,
    rating_shown: bool,
)
    ensures
        pieces(final(page)@) == pieces(old(page)@) + deeds_pieces(
            author@,
            url@,
            rated,
            reviews_shown,
            can_rate,
            rating_shown,
        ),
{
    let ghost before = pieces(page@);
    put(page, Item::RowBegin);
    put(page, Item::Small(author_text(author)));
    put(page, Item::Space(16));
    put_button(page, " Open ", Look::Faint, Act::Open(url.to_owned()));
    put_button(page, " Copy URL ", Look::Faint, Act::Copy(url.to_owned()));
    if rated {
        let label = if reviews_shown {
            " Hide reviews "
        } else {
            " Reviews "
        };
        put_button(page, label, Look::Faint, Act::ToggleReviews(url.to_owned()));
    }
    if can_rate {
        let label = if rating_shown {
            " Cancel "
        } else {
            " Rate "
        };
        put_button(page, label, Look::Faint, Act::ToggleRating(url.to_owned()));
    }
    put(page, Item::RowEnd);
    assert(pieces(page@) =~= before + deeds_pieces(
        author@,
        url@,
        rated,
        reviews_shown,
        can_rate,
        rating_shown,
    ));
}

/// The first so many written reviews.
pub open spec fn review_rows(a: SearchApp, n: int) -> Pieces
    decreases n,
{
    if n <= 0 {
        Seq::empty()
    } else {
        review_rows(a, n - 1) + seq![
            Item::RowBegin,
            Item::Colored(star_row(a.reviews@[n - 1].stars as int), gold()),
            Item::Space(8),
            Item::Label(a.reviews@[n - 1].text@),
            Item::RowEnd,
            Item::Space(6),
        ]
    }
}

/// The panel with the reviews of an app.
pub open spec fn reviews_pieces(a: SearchApp) -> Pieces {
    seq![Item::Space(8), Item::TintedCard(slate())] + (if a.reviews_id is Some {
        seq![Item::Small("Loading reviews…"@)]
    } else if a.reviews@.len() == 0 {
        seq![Item::Small("No written reviews yet — only star ratings."@)]
    } else {
        review_rows(a, a.reviews@.len() as int)
    }) + seq![Item::CardEnd]
}

fn add_reviews(page: &mut Page, a: &SearchApp)
    ensures
        pieces(final(page)@) == pieces(old(page)@) + reviews_pieces(*a),
{
    let ghost before = pieces(page@);
    put(page, Item::Space(8));
    put(page, Item::TintedCard(slate_color()));
    let ghost head = pieces(page@);
    match a.review_panel() {
        ReviewPanel::Loading => put_small(page, "Loading reviews…"),
        ReviewPanel::NoWords => put_small(page, "No written reviews yet — only star ratings."),
        ReviewPanel::Reviews(rows) => {
            let mut i: usize = 0;
            assert(pieces(page@) =~= head + review_rows(*a, 0));
            while i < rows.len()
                invariant
                    i <= rows@.len(),
                    rows@.len() == a.reviews@.len(),
                    forall|k: int|
                        0 <= k < rows@.len() ==> (#[trigger] rows@[k]).0@ == star_row(
                            a.reviews@[k].stars as int,
                        ) && rows@[k].1@ == a.reviews@[k].text@,
                    pieces(page@) == head + review_rows(*a, i as int),
                decreases rows.len() - i,
            {
                assert(rows@[i as int].1@ == a.reviews@[i as int].text@);
                put(page, Item::RowBegin);
                put(page, Item::Colored(rows[i].0.clone(), gold_color()));
                put(page, Item::Space(8));
                put_label(page, rows[i].1.as_str());
                put(page, Item::RowEnd);
                put(page, Item::Space(6));
                i += 1;
                assert(pieces(page@) =~= head + review_rows(*a, i as int));
            }
        },
    }
    put(page, Item::CardEnd);
    assert(pieces(page@) =~= before + reviews_pieces(*a));
}

/// A button that gives so many stars.
pub open spec fn star_button(url: Seq<char>, n: u8) -> Item<Seq<char>, Act<Seq<char>>> {
    Item::Button(
        "  "@ + decimal(n as nat) + "★  "@,
        Look::Styled(white(), tint(120, 90, 10), gold()),
        Act::Rate(url, n),
    )
}

/// The panel to rate an app with.
pub open spec fn rating_pieces(url: Seq<char>) -> Pieces {
    seq![
        Item::Space(8),
        Item::TintedCard(slate()),
        Item::Small("Your rating"@),
        Item::Space(6),
        Item::Field(900, "Optional: a sentence about it"@),
        Item::Space(8),
        Item::RowBegin,
        star_button(url, 1),
        star_button(url, 2),
        star_button(url, 3),
        star_button(url, 4),
        star_button(url, 5),
        Item::RowEnd,
        Item::Space(4),
        Item::Small("One rating per node — rating again replaces your last."@),
        Item::CardEnd,
    ]
}

fn add_star_button(page: &mut Page, url: &str, n: u8)
    ensures
        pieces(final(page)@) == pieces(old(page)@).push(star_button(url@, n)),
{
    let mut label = "  ".to_owned();
    label.append(format_u64(n as u64).as_str());
    label.append("★  ");
    let look = Look::Styled(white_color(), Color::rgb(120, 90, 10), gold_color());
    put_button(page, label.as_str(), look, Act::Rate(url.to_owned(), n));
}

fn add_rating(page: &mut Page, url: &str)
    ensures
        pieces(final(page)@) == pieces(old(page)@) + rating_pieces(url@),
{
    let ghost before = pieces(page@);
    put(page, Item::Space(8));
    put(page, Item::TintedCard(slate_color()));
    put_small(page, "Your rating");
    put(page, Item::Space(6));
    put_field(page, 900, "Optional: a sentence about it");
    put(page, Item::Space(8));
    put(page, Item::RowBegin);
    add_star_button(page, url, 1);
    add_star_button(page, url, 2);
    add_star_button(page, url, 3);
    add_star_button(page, url, 4);
    add_star_button(page, url, 5);
    put(page, Item::RowEnd);
    put(page, Item::Space(4));
    put_small(page, "One rating per node — rating again replaces your last.");
    put(page, Item::CardEnd);
    assert(pieces(page@) =~= before + rating_pieces(url@));
}

/// The card of a result.
pub open spec fn card_pieces(a: SearchApp, i: int, liked: Seq<Liked>) -> Pieces {
    let e = a.results@[i];
    let s = stat_index(a.stats@, e.url@);
    let votes: u32 = match s {
        Some(k) => a.stats@[k].votes,
        None => 0,
    };
    let opens: u64 = match s {
        Some(k) => a.stats@[k].opens,
        None => 0,
    };
    let filled: int = match s {
        Some(k) => liked[k].filled as int,
        None => 0,
    };
    let average: Seq<char> = match s {
        Some(k) => liked[k].average@,
        None => Seq::empty(),
    };
    let reviews_shown = a.reviews_for@ == e.url@;
    let rating_shown = !a.read_only && a.rating_for@ == e.url@;
    seq![Item::CardBegin] + about_pieces(
        e.name@,
        filled_lines(split(e.tags@, ',')),
        e.desc@,
        e.doc_snippet@,
    ) + liking_pieces(votes, opens, filled, average) + deeds_pieces(
        e.author@,
        e.url@,
        votes > 0,
        reviews_shown,
        !a.read_only,
        rating_shown,
    ) + (if reviews_shown {
        reviews_pieces(a)
    } else {
        Seq::empty()
    }) + (if rating_shown {
        rating_pieces(e.url@)
    } else {
        Seq::empty()
    }) + seq![Item::CardEnd, Item::Space(8)]
}

proof fn lemma_card_joined(
    z: Pieces,
    a: Pieces,
    b: Pieces,
    c: Pieces,
    d: Pieces,
    e: Pieces,
    x: Item<Seq<char>, Act<Seq<char>>>,
    y: Item<Seq<char>, Act<Seq<char>>>,
    w: Item<Seq<char>, Act<Seq<char>>>,
)
    ensures
        (z.push(x) + a + b + c + d + e).push(y).push(w) == z + (seq![x] + a + b + c + d + e + seq![
            y,
            w,
        ]),
{
    assert((z.push(x) + a + b + c + d + e).push(y).push(w) =~= z + (seq![x] + a + b + c + d + e
        + seq![y, w]));
}

fn add_card(page: &mut Page, a: &SearchApp, i: usize, liked: &Vec<Liked>)
    requires
        i < a.results@.len(),
        liked@.len() == a.stats@.len(),
    ensures
        pieces(final(page)@) == pieces(old(page)@) + card_pieces(*a, i as int, liked@),
{
    let ghost before = pieces(page@);
    let c = a.card(i);
    let (filled, average) = match stat_for(&a.stats, a.results[i].url.as_str()) {
        Some(k) => (liked[k].filled, liked[k].average.clone()),
        None => (0u8, String::new()),
    };
    let ghost none: Pieces = Seq::empty();
    put(page, Item::CardBegin);
    add_about(page, c.name.as_str(), &c.tags, c.desc.as_str(), c.snippet.as_str());
    add_liking(page, c.votes, c.opens, filled, average.as_str());
    add_deeds(
        page,
        c.author.as_str(),
        c.url.as_str(),
        c.votes > 0,
        c.reviews_shown,
        c.can_rate,
        c.rating_shown,
    );
    let ghost three = pieces(page@);
    if c.reviews_shown {
        add_reviews(page, a);
    }
    let ghost four = pieces(page@);
    if c.rating_shown {
        add_rating(page, c.url.as_str());
    }
    let ghost five = pieces(page@);
    put(page, Item::CardEnd);
    put(page, Item::Space(8));
    proof {
        let e = a.results@[i as int];
        let d = if c.reviews_shown {
            reviews_pieces(*a)
        } else {
            none
        };
        let r = if c.rating_shown {
            rating_pieces(e.url@)
        } else {
            none
        };
        assert(three + none =~= three);
        assert(four + none =~= four);
        assert(four == three + d);
        assert(five == four + r);
        assert(stat_index(a.stats@, e.url@) is None ==> average@ =~= Seq::empty());
        lemma_card_joined(
            before,
            about_pieces(e.name@, filled_lines(split(e.tags@, ',')), e.desc@, e.doc_snippet@),
            liking_pieces(c.votes, c.opens, filled as int, average@),
            deeds_pieces(
                e.author@,
                e.url@,
                c.votes > 0,
                c.reviews_shown,
                c.can_rate,
                c.rating_shown,
            ),
            d,
            r,
            Item::CardBegin,
            Item::CardEnd,
            Item::Space(8),
        );
    }
}

// ── The results ──────────────────────────────────────────────────────────────

/// The cards of some results.
pub open spec fn cards_pieces(a: SearchApp, liked: Seq<Liked>, from: int, to: int) -> Pieces
    decreases to - from,
{
    if from >= to {
        Seq::empty()
    } else {
        cards_pieces(a, liked, from, to - 1) + card_pieces(a, to - 1, liked)
    }
}

/// The buttons that turn the page, where there is more than one.
pub open spec fn pager_pieces(w: Window) -> Pieces {
    if w.pages > 1 {
        seq![Item::Space(8), Item::RowBegin] + (if w.page > 0 {
            seq![Item::Button("  ‹ Previous  "@, Look::Faint, Act::Previous)]
        } else {
            Seq::empty()
        }) + (if w.page + 1 < w.pages {
            seq![Item::Button("  Next ›  "@, Look::Faint, Act::Next)]
        } else {
            Seq::empty()
        }) + seq![Item::Space(12), Item::Small(page_words(w)), Item::RowEnd]
    } else {
        Seq::empty()
    }
}

/// A page of results.
pub open spec fn results_pieces(a: SearchApp, liked: Seq<Liked>, w: Window) -> Pieces {
    seq![Item::RowBegin, Item::Badge(counted(w.total as nat, "app"@), muted())] + (if w.pages > 1 {
        seq![Item::Space(8), Item::Small(window_words(w))]
    } else {
        Seq::empty()
    }) + seq![Item::RowEnd, Item::Space(12)] + cards_pieces(
        a,
        liked,
        w.start as int,
        w.end as int,
    ) + pager_pieces(w)
}

fn add_pager(page: &mut Page, w: &Window)
    requires
        w.page < usize::MAX,
    ensures
        pieces(final(page)@) == pieces(old(page)@) + pager_pieces(*w),
{
    let ghost before = pieces(page@);
    if w.pages > 1 {
        put(page, Item::Space(8));
        put(page, Item::RowBegin);
        if w.page > 0 {
            put_button(page, "  ‹ Previous  ", Look::Faint, Act::Previous);
        }
        if w.page + 1 < w.pages {
            put_button(page, "  Next ›  ", Look::Faint, Act::Next);
        }
        put(page, Item::Space(12));
        put(page, Item::Small(page_text(w)));
        put(page, Item::RowEnd);
    }
    assert(pieces(page@) =~= before + pager_pieces(*w));
}

fn add_results(page: &mut Page, a: &SearchApp, liked: &Vec<Liked>, w: &Window)
    requires
        w.start <= w.end <= a.results@.len(),
        w.start < usize::MAX,
        w.page < usize::MAX,
        liked@.len() == a.stats@.len(),
    ensures
        pieces(final(page)@) == pieces(old(page)@) + results_pieces(*a, liked@, *w),
{
    let ghost before = pieces(page@);
    put(page, Item::RowBegin);
    put(page, Item::Badge(count_text(w.total as u64, "app"), muted_color()));
    if w.pages > 1 {
        put(page, Item::Space(8));
        put(page, Item::Small(window_text(w)));
    }
    put(page, Item::RowEnd);
    put(page, Item::Space(12));
    let ghost head = pieces(page@);
    let mut i: usize = w.start;
    assert(pieces(page@) =~= head + cards_pieces(*a, liked@, w.start as int, i as int));
    while i < w.end
        invariant
            w.start <= i <= w.end <= a.results@.len(),
            liked@.len() == a.stats@.len(),
            pieces(page@) == head + cards_pieces(*a, liked@, w.start as int, i as int),
        decreases w.end - i,
    {
        add_card(page, a, i, liked);
        i += 1;
        assert(pieces(page@) =~= head + cards_pieces(*a, liked@, w.start as int, i as int));
    }
    add_pager(page, w);
    assert(pieces(page@) =~= before + results_pieces(*a, liked@, *w));
}

/// Which of the results are shown.
pub open spec fn window_of(a: SearchApp) -> Window {
    let total = a.results@.len() as int;
    let pages = pages_for(total);
    let page = if a.page < pages {
        a.page as int
    } else {
        pages - 1
    };
    Window {
        total: total as usize,
        pages: pages as usize,
        page: page as usize,
        start: page_start(page) as usize,
        end: page_end(total, page) as usize,
    }
}

/// What stands below the bar.
pub open spec fn below_pieces(a: SearchApp, liked: Seq<Liked>) -> Pieces {
    if a.search_id is Some {
        seq![Item::Label("Searching…"@)]
    } else if !a.browsed {
        home_pieces()
    } else if a.results@.len() == 0 {
        notice_pieces(a.meant) + seq![
            Item::TintedCard(slate()),
            Item::Label("No apps found."@),
            Item::Space(4),
            Item::Small("Try a different search, or add one from the Submit tab."@),
            Item::CardEnd,
        ]
    } else {
        notice_pieces(a.meant) + results_pieces(a, liked, window_of(a))
    }
}

fn add_below(page: &mut Page, a: &SearchApp, liked: &Vec<Liked>)
    requires
        a.results@.len() + PER_PAGE <= usize::MAX,
        liked@.len() == a.stats@.len(),
    ensures
        pieces(final(page)@) == pieces(old(page)@) + below_pieces(*a, liked@),
{
    let ghost before = pieces(page@);
    match a.body() {
        Body::Searching => put_label(page, "Searching…"),
        Body::Home => add_home(page),
        Body::Empty => {
            add_notice(page, a.notice());
            put(page, Item::TintedCard(slate_color()));
            put_label(page, "No apps found.");
            put(page, Item::Space(4));
            put_small(page, "Try a different search, or add one from the Submit tab.");
            put(page, Item::CardEnd);
        },
        Body::Results(w) => {
            assert(w == window_of(*a));
            add_notice(page, a.notice());
            add_results(page, a, liked, &w);
        },
    }
    assert(pieces(page@) =~= before + below_pieces(*a, liked@));
}

// ── Submitting ───────────────────────────────────────────────────────────────

/// What is asked about the app that is submitted, and where it lives.
pub open spec fn form_pieces(a: SearchApp) -> Pieces {
    seq![
        Item::Text("Submit your app"@, 18, white()),
        Item::Label("Share your WASM app with the annessaia community."@),
        Item::Separator,
        Item::Label("App name  *"@),
        Item::Field(10, "e.g. My Awesome Game"@),
        Item::Space(10),
        Item::Label("Description"@),
        Item::Field(11, "One sentence about what it does"@),
        Item::Space(10),
        Item::Label("Where does the app live?"@),
        Item::Space(4),
        Item::RowBegin,
        choice_piece("  Upload to this node  "@, a.hosting == Hosting::Here, Act::HostHere),
        choice_piece("  I have a URL  "@, a.hosting == Hosting::Elsewhere, Act::HostElsewhere),
        Item::RowEnd,
        Item::Space(10),
    ]
}

fn add_form(page: &mut Page, a: &SearchApp)
    ensures
        pieces(final(page)@) == pieces(old(page)@) + form_pieces(*a),
{
    let ghost before = pieces(page@);
    let here = match a.hosting {
        Hosting::Here => true,
        Hosting::Elsewhere => false,
    };
    put_text(page, "Submit your app", 18, white_color());
    put_label(page, "Share your WASM app with the annessaia community.");
    put(page, Item::Separator);
    put_label(page, "App name  *");
    put_field(page, 10, "e.g. My Awesome Game");
    put(page, Item::Space(10));
    put_label(page, "Description");
    put_field(page, 11, "One sentence about what it does");
    put(page, Item::Space(10));
    put_label(page, "Where does the app live?");
    put(page, Item::Space(4));
    put(page, Item::RowBegin);
    add_choice(page, "  Upload to this node  ", here, Act::HostHere);
    add_choice(page, "  I have a URL  ", !here, Act::HostElsewhere);
    put(page, Item::RowEnd);
    put(page, Item::Space(10));
    assert(pieces(page@) =~= before + form_pieces(*a));
}

/// What is said of where this node serves the app from.
pub open spec fn hosted_pieces(a: SearchApp, gap: u32, words: Seq<char>) -> Pieces {
    if a.hosted_url@.len() > 0 {
        seq![Item::Space(gap), Item::Small(words + a.hosted_url@)]
    } else {
        Seq::empty()
    }
}

fn add_hosted(page: &mut Page, a: &SearchApp, gap: u32, words: &str)
    ensures
        pieces(final(page)@) == pieces(old(page)@) + hosted_pieces(*a, gap, words@),
{
    let ghost before = pieces(page@);
    match a.hosted_text(words) {
        Some(s) => {
            put(page, Item::Space(gap));
            put(page, Item::Small(s));
        },
        None => {},
    }
    assert(pieces(page@) =~= before + hosted_pieces(*a, gap, words@));
}

/// The module, or its address.
pub open spec fn source_pieces(a: SearchApp) -> Pieces {
    match a.hosting {
        Hosting::Here => (match a.picked {
            Some(p) => seq![
                Item::RowBegin,
                Item::Badge("READY"@, tint(74, 222, 128)),
                Item::Space(8),
                Item::Label(p.name@),
                Item::Space(8),
                Item::Small(decimal((p.bytes@.len() / 1024) as nat) + " KB"@),
                Item::RowEnd,
                Item::Space(6),
                Item::Button(" Choose a different file "@, Look::Faint, Act::ChooseFile),
            ],
            None => seq![
                Item::Button("  Choose a .wasm file…  "@, Look::Plain, Act::ChooseFile),
                Item::Space(4),
                Item::Small("The node will host it and fill in the URL for you."@),
            ],
        }) + hosted_pieces(a, 6, "hosted at "@),
        Hosting::Elsewhere => seq![
            Item::Label("WASM URL  *"@),
            Item::Field(12, "https://example.com/myapp.wasm"@),
            Item::Space(4),
            Item::Small("Must be reachable by anyone, not just you."@),
        ],
    }
}

fn add_source(page: &mut Page, a: &SearchApp)
    ensures
        pieces(final(page)@) == pieces(old(page)@) + source_pieces(*a),
{
    let ghost before = pieces(page@);
    match a.hosting {
        Hosting::Here => {
            match a.picked_text() {
                Some((name, size)) => {
                    put(page, Item::RowBegin);
                    put_badge(page, "READY", Color::green());
                    put(page, Item::Space(8));
                    put_label(page, name.as_str());
                    put(page, Item::Space(8));
                    put_small(page, size.as_str());
                    put(page, Item::RowEnd);
                    put(page, Item::Space(6));
                    put_button(page, " Choose a different file ", Look::Faint, Act::ChooseFile);
                },
                None => {
                    put_button(page, "  Choose a .wasm file…  ", Look::Plain, Act::ChooseFile);
                    put(page, Item::Space(4));
                    put_small(page, "The node will host it and fill in the URL for you.");
                },
            }
            add_hosted(page, a, 6, "hosted at ");
        },
        Hosting::Elsewhere => {
            put_label(page, "WASM URL  *");
            put_field(page, 12, "https://example.com/myapp.wasm");
            put(page, Item::Space(4));
            put_small(page, "Must be reachable by anyone, not just you.");
        },
    }
    assert(pieces(page@) =~= before + source_pieces(*a));
}

/// Who wrote the app, and its tags.
pub open spec fn credit_pieces() -> Pieces {
    seq![
        Item::Space(10),
        Item::Label("Author"@),
        Item::Field(13, "Your name or handle"@),
        Item::Space(10),
        Item::Label("Tags  (comma-separated)"@),
        Item::Field(14, "e.g. game, tool, demo"@),
        Item::Space(16),
    ]
}

fn add_credit(page: &mut Page)
    ensures
        pieces(final(page)@) == pieces(old(page)@) + credit_pieces(),
{
    let ghost before = pieces(page@);
    put(page, Item::Space(10));
    put_label(page, "Author");
    put_field(page, 13, "Your name or handle");
    put(page, Item::Space(10));
    put_label(page, "Tags  (comma-separated)");
    put_field(page, 14, "e.g. game, tool, demo");
    put(page, Item::Space(16));
    assert(pieces(page@) =~= before + credit_pieces());
}

/// The button that submits, and what is missing.
pub open spec fn submit_pieces(lack: Option<Seq<char>>) -> Pieces {
    seq![Item::RowBegin, Item::Button("  Submit App  "@, Look::Success, Act::Submit)] + (match lack {
        Some(m) => seq![Item::Space(8), Item::Small(m)],
        None => Seq::empty(),
    }) + seq![Item::RowEnd]
}

fn add_submit(page: &mut Page, lack: &Option<String>)
    ensures
        pieces(final(page)@) == pieces(old(page)@) + submit_pieces(crate::gossip::seen(*lack)),
{
    let ghost before = pieces(page@);
    put(page, Item::RowBegin);
    put_button(page, "  Submit App  ", Look::Success, Act::Submit);
    match lack {
        Some(m) => {
            put(page, Item::Space(8));
            put_small(page, m.as_str());
        },
        None => {},
    }
    put(page, Item::RowEnd);
    assert(pieces(page@) =~= before + submit_pieces(crate::gossip::seen(*lack)));
}

/// What is said of a submission that arrived.
pub open spec fn submitted_pieces(a: SearchApp) -> Pieces {
    seq![
        Item::Space(8),
        Item::TintedCard(tint(20, 83, 45)),
        Item::RowBegin,
        Item::Badge("SUBMITTED"@, tint(74, 222, 128)),
        Item::Space(8),
        Item::Label("Your app is now in the index!"@),
        Item::RowEnd,
    ] + hosted_pieces(a, 4, "served from "@) + seq![
        Item::CardEnd,
        Item::Space(8),
        Item::RowBegin,
        Item::Button(" Submit another "@, Look::Faint, Act::SubmitAnother),
    ] + (if a.hosted_url@.len() > 0 {
        seq![Item::Button(" Copy URL "@, Look::Faint, Act::Copy(a.hosted_url@))]
    } else {
        Seq::empty()
    }) + seq![Item::RowEnd]
}

fn add_submitted(page: &mut Page, a: &SearchApp)
    ensures
        pieces(final(page)@) == pieces(old(page)@) + submitted_pieces(*a),
{
    let ghost before = pieces(page@);
    put(page, Item::Space(8));
    put(page, Item::TintedCard(Color::rgb(20, 83, 45)));
    put(page, Item::RowBegin);
    put_badge(page, "SUBMITTED", Color::green());
    put(page, Item::Space(8));
    put_label(page, "Your app is now in the index!");
    put(page, Item::RowEnd);
    add_hosted(page, a, 4, "served from ");
    put(page, Item::CardEnd);
    put(page, Item::Space(8));
    put(page, Item::RowBegin);
    put_button(page, " Submit another ", Look::Faint, Act::SubmitAnother);
    if !a.hosted_url.as_str().is_empty() {
        put_button(page, " Copy URL ", Look::Faint, Act::Copy(a.hosted_url.clone()));
    }
    put(page, Item::RowEnd);
    assert(pieces(page@) =~= before + submitted_pieces(*a));
}

/// What is said of a submission that failed.
pub open spec fn failed_pieces(a: SearchApp) -> Pieces {
    seq![
        Item::Space(8),
        Item::TintedCard(tint(127, 29, 29)),
        Item::RowBegin,
        Item::Badge("FAILED"@, tint(239, 68, 68)),
        Item::Space(8),
        Item::Label(failure_text(a)),
        Item::RowEnd,
        Item::CardEnd,
        Item::Space(8),
        Item::Button(" Try again "@, Look::Faint, Act::TryAgain),
    ]
}

fn add_failed(page: &mut Page, a: &SearchApp, why: &str)
    requires
        why@ == failure_text(*a),
    ensures
        pieces(final(page)@) == pieces(old(page)@) + failed_pieces(*a),
{
    let ghost before = pieces(page@);
    put(page, Item::Space(8));
    put(page, Item::TintedCard(Color::rgb(127, 29, 29)));
    put(page, Item::RowBegin);
    put_badge(page, "FAILED", Color::red());
    put(page, Item::Space(8));
    put_label(page, why);
    put(page, Item::RowEnd);
    put(page, Item::CardEnd);
    put(page, Item::Space(8));
    put_button(page, " Try again ", Look::Faint, Act::TryAgain);
    assert(pieces(page@) =~= before + failed_pieces(*a));
}

/// The end of the form; `name` and `url` are what is typed.
pub open spec fn end_pieces(a: SearchApp, name: Seq<char>, url: Seq<char>) -> Pieces {
    match a.progress {
        Progress::Pending => seq![
            Item::RowBegin,
            Item::Badge("SUBMITTING…"@, muted()),
            Item::Space(8),
            Item::Button(" Cancel "@, Look::Faint, Act::Cancel),
            Item::RowEnd,
        ],
        Progress::Idle => submit_pieces(missing(a, name, url)),
        Progress::Done => submitted_pieces(a),
        Progress::Failed => submit_pieces(missing(a, name, url)) + failed_pieces(a),
    }
}

proof fn lemma_joined(z: Pieces, a: Pieces, b: Pieces)
    ensures
        z + a + b == z + (a + b),
{
    assert(z + a + b =~= z + (a + b));
}

fn add_end(page: &mut Page, a: &SearchApp, name: &str, url: &str)
    ensures
        pieces(final(page)@) == pieces(old(page)@) + end_pieces(*a, name@, url@),
{
    let ghost before = pieces(page@);
    match a.form_end(name, url) {
        FormEnd::Submitting => {
            put(page, Item::RowBegin);
            put_badge(page, "SUBMITTING…", muted_color());
            put(page, Item::Space(8));
            put_button(page, " Cancel ", Look::Faint, Act::Cancel);
            put(page, Item::RowEnd);
            assert(pieces(page@) =~= before + end_pieces(*a, name@, url@));
        },
        FormEnd::Button(lack) => add_submit(page, &lack),
        FormEnd::Submitted(_) => add_submitted(page, a),
        FormEnd::Failed(why, lack) => {
            add_submit(page, &lack);
            add_failed(page, a, why.as_str());
            proof {
                lemma_joined(
                    before,
                    submit_pieces(missing(*a, name@, url@)),
                    failed_pieces(*a),
                );
            }
        },
    }
}

/// The form.
pub open spec fn submit_tab_pieces(a: SearchApp, name: Seq<char>, url: Seq<char>) -> Pieces {
    seq![Item::CardBegin] + form_pieces(a) + source_pieces(a) + credit_pieces() + end_pieces(
        a,
        name,
        url,
    ) + seq![Item::CardEnd]
}

proof fn lemma_form_joined(
    z: Pieces,
    a: Pieces,
    b: Pieces,
    c: Pieces,
    d: Pieces,
    x: Item<Seq<char>, Act<Seq<char>>>,
    y: Item<Seq<char>, Act<Seq<char>>>,
)
    ensures
        (z.push(x) + a + b + c + d).push(y) == z + (seq![x] + a + b + c + d + seq![y]),
{
    assert((z.push(x) + a + b + c + d).push(y) =~= z + (seq![x] + a + b + c + d + seq![y]));
}

fn add_submit_tab(page: &mut Page, a: &SearchApp, name: &str, url: &str)
    ensures
        pieces(final(page)@) == pieces(old(page)@) + submit_tab_pieces(*a, name@, url@),
{
    let ghost before = pieces(page@);
    put(page, Item::CardBegin);
    add_form(page, a);
    add_source(page, a);
    add_credit(page);
    add_end(page, a, name, url);
    put(page, Item::CardEnd);
    proof {
        lemma_form_joined(
            before,
            form_pieces(*a),
            source_pieces(*a),
            credit_pieces(),
            end_pieces(*a, name@, url@),
            Item::CardBegin,
            Item::CardEnd,
        );
    }
}

// ── The whole page ───────────────────────────────────────────────────────────

/// What is said where nothing can be submitted.
pub open spec fn foot_pieces(a: SearchApp) -> Pieces {
    if a.read_only {
        seq![
            Item::Space(20),
            Item::TintedCard(slate()),
            Item::Text("Want to publish an app?"@, 15, white()),
            Item::Space(4),
            Item::Small("This index is read-only. Entries arrive by gossip from nodes, so"@),
            Item::Small("listing an app means running one and serving the app yourself:"@),
            Item::Space(6),
            Item::Code("cargo run -p annessaia-server"@),
            Item::Space(4),
            Item::Small("Then submit at http://localhost:3000/search.wasm — your node connects"@),
            Item::Small("here automatically and the entry propagates within a minute."@),
            Item::CardEnd,
        ]
    } else {
        Seq::empty()
    }
}

fn add_foot(page: &mut Page, a: &SearchApp)
    ensures
        pieces(final(page)@) == pieces(old(page)@) + foot_pieces(*a),
{
    let ghost before = pieces(page@);
    if a.read_only {
        put(page, Item::Space(20));
        put(page, Item::TintedCard(slate_color()));
        put_text(page, "Want to publish an app?", 15, white_color());
        put(page, Item::Space(4));
        put_small(page, "This index is read-only. Entries arrive by gossip from nodes, so");
        put_small(page, "listing an app means running one and serving the app yourself:");
        put(page, Item::Space(6));
        put(page, Item::Code("cargo run -p annessaia-server".to_owned()));
        put(page, Item::Space(4));
        put_small(page, "Then submit at http://localhost:3000/search.wasm — your node connects");
        put_small(page, "here automatically and the entry propagates within a minute.");
        put(page, Item::CardEnd);
    }
    assert(pieces(page@) =~= before + foot_pieces(*a));
}

/// The search tab.
pub open spec fn search_tab_pieces(a: SearchApp, liked: Seq<Liked>) -> Pieces {
    bar_pieces(a) + debug_pieces(a) + below_pieces(a, liked)
}

/// The page. `liked` says how the averages are shown, `name` and `url` what is typed in
/// the form.
pub open spec fn page_pieces(
    a: SearchApp,
    liked: Seq<Liked>,
    name: Seq<char>,
    url: Seq<char>,
) -> Pieces {
    title_pieces() + tab_pieces(a) + (match a.shown_tab() {
        Tab::Search => search_tab_pieces(a, liked),
        Tab::Submit => submit_tab_pieces(a, name, url),
    }) + foot_pieces(a)
}

/// Returns the page of the app.
pub fn search_page(a: &SearchApp, liked: &Vec<Liked>, name: &str, url: &str) -> (page: Page)
    requires
        a.results@.len() + PER_PAGE <= usize::MAX,
        liked@.len() == a.stats@.len(),
    ensures
        pieces(page@) == page_pieces(*a, liked@, name@, url@),
{
    let mut page: Page = Vec::new();
    let ghost empty: Pieces = Seq::empty();
    assert(pieces(page@) =~= empty);
    add_title(&mut page);
    assert(empty + title_pieces() =~= title_pieces());
    add_tabs(&mut page, a);
    let ghost head = pieces(page@);
    match a.current_tab() {
        Tab::Search => {
            add_bar(&mut page, a);
            add_debug(&mut page, a);
            add_below(&mut page, a, liked);
            proof {
                lemma_joined(head, bar_pieces(*a), debug_pieces(*a));
                lemma_joined(
                    head,
                    bar_pieces(*a) + debug_pieces(*a),
                    below_pieces(*a, liked@),
                );
            }
        },
        Tab::Submit => add_submit_tab(&mut page, a, name, url),
    }
    add_foot(&mut page, a);
    page
}

// ── What holds of every page ─────────────────────────────────────────────────

proof fn lemma_tags_are_flat(tags: Seq<Seq<char>>)
    ensures
        depth(tags_pieces(tags)) == 0,
    decreases tags.len(),
{
    broadcast use lemma_depth_of_join;

    reveal_with_fuel(depth_at, 17);
    if tags.len() > 0 {
        lemma_tags_are_flat(tags.drop_last());
    }
}

proof fn lemma_review_rows_close(a: SearchApp, n: int)
    ensures
        depth(review_rows(a, n)) == 0,
    decreases n,
{
    broadcast use lemma_depth_of_join;

    reveal_with_fuel(depth_at, 17);
    if n > 0 {
        lemma_review_rows_close(a, n - 1);
    }
}

proof fn lemma_about_closes(name: Seq<char>, tags: Seq<Seq<char>>, desc: Seq<char>, snippet: Seq<char>)
    ensures
        depth(about_pieces(name, tags, desc, snippet)) == 0,
{
    broadcast use lemma_depth_of_join;

    reveal_with_fuel(depth_at, 4);
    lemma_tags_are_flat(tags);
}

proof fn lemma_liking_closes(votes: u32, opens: u64, filled: int, average: Seq<char>)
    ensures
        depth(liking_pieces(votes, opens, filled, average)) == 0,
{
    broadcast use lemma_depth_of_join;

    reveal_with_fuel(depth_at, 4);
}

proof fn lemma_deeds_closes(author: Seq<char>, url: Seq<char>, rated: bool, shown: bool, can: bool, rating: bool)
    ensures
        depth(deeds_pieces(author, url, rated, shown, can, rating)) == 0,
{
    broadcast use lemma_depth_of_join;

    reveal_with_fuel(depth_at, 6);
}

proof fn lemma_reviews_closes(a: SearchApp)
    ensures
        depth(reviews_pieces(a)) == 0,
{
    broadcast use lemma_depth_of_join;

    reveal_with_fuel(depth_at, 3);
    lemma_review_rows_close(a, a.reviews@.len() as int);
}

proof fn lemma_rating_closes(url: Seq<char>)
    ensures
        depth(rating_pieces(url)) == 0,
{
    broadcast use lemma_depth_of_join;

    reveal_with_fuel(depth_at, 17);
}

proof fn lemma_card_closes(a: SearchApp, i: int, liked: Seq<Liked>)
    ensures
        depth(card_pieces(a, i, liked)) == 0,
{
    broadcast use lemma_depth_of_join;

    reveal_with_fuel(depth_at, 3);
    let e = a.results@[i];
    let s = stat_index(a.stats@, e.url@);
    let votes: u32 = match s {
        Some(k) => a.stats@[k].votes,
        None => 0,
    };
    let opens: u64 = match s {
        Some(k) => a.stats@[k].opens,
        None => 0,
    };
    let filled: int = match s {
        Some(k) => liked[k].filled as int,
        None => 0,
    };
    let average: Seq<char> = match s {
        Some(k) => liked[k].average@,
        None => Seq::empty(),
    };
    let shown = a.reviews_for@ == e.url@;
    let rating = !a.read_only && a.rating_for@ == e.url@;
    lemma_about_closes(e.name@, filled_lines(split(e.tags@, ',')), e.desc@, e.doc_snippet@);
    lemma_liking_closes(votes, opens, filled, average);
    lemma_deeds_closes(e.author@, e.url@, votes > 0, shown, !a.read_only, rating);
    lemma_reviews_closes(a);
    lemma_rating_closes(e.url@);
}

proof fn lemma_cards_close(a: SearchApp, liked: Seq<Liked>, from: int, to: int)
    ensures
        depth(cards_pieces(a, liked, from, to)) == 0,
    decreases to - from,
{
    broadcast use lemma_depth_of_join;

    if from < to {
        lemma_cards_close(a, liked, from, to - 1);
        lemma_card_closes(a, to - 1, liked);
    }
}

proof fn lemma_pager_closes(w: Window)
    ensures
        depth(pager_pieces(w)) == 0,
{
    broadcast use lemma_depth_of_join;

    reveal_with_fuel(depth_at, 4);
}

proof fn lemma_results_closes(a: SearchApp, liked: Seq<Liked>, w: Window)
    ensures
        depth(results_pieces(a, liked, w)) == 0,
{
    broadcast use lemma_depth_of_join;

    reveal_with_fuel(depth_at, 3);
    lemma_cards_close(a, liked, w.start as int, w.end as int);
    lemma_pager_closes(w);
}

proof fn lemma_notice_closes(m: Meant)
    ensures
        depth(notice_pieces(m)) == 0,
{
    broadcast use lemma_depth_of_join;

    reveal_with_fuel(depth_at, 7);
}

proof fn lemma_home_closes()
    ensures
        depth(home_pieces()) == 0,
{
    reveal_with_fuel(depth_at, 17);
}

proof fn lemma_below_closes(a: SearchApp, liked: Seq<Liked>)
    ensures
        depth(below_pieces(a, liked)) == 0,
{
    broadcast use lemma_depth_of_join;

    reveal_with_fuel(depth_at, 6);
    lemma_home_closes();
    lemma_notice_closes(a.meant);
    lemma_results_closes(a, liked, window_of(a));
}

proof fn lemma_bar_closes(a: SearchApp)
    ensures
        depth(bar_pieces(a)) == 0,
{
    broadcast use lemma_depth_of_join;

    reveal_with_fuel(depth_at, 17);
}

proof fn lemma_debug_closes(a: SearchApp)
    ensures
        depth(debug_pieces(a)) == 0,
{
    broadcast use lemma_depth_of_join;

    reveal_with_fuel(depth_at, 4);
    lemma_codes_are_flat::<Act<Seq<char>>>(lines(a.debug_text@));
}

proof fn lemma_form_closes(a: SearchApp)
    ensures
        depth(form_pieces(a)) == 0,
{
    broadcast use lemma_depth_of_join;

    reveal_with_fuel(depth_at, 17);
}

proof fn lemma_source_closes(a: SearchApp)
    ensures
        depth(source_pieces(a)) == 0,
{
    broadcast use lemma_depth_of_join;

    reveal_with_fuel(depth_at, 10);
}

proof fn lemma_submit_closes(lack: Option<Seq<char>>)
    ensures
        depth(submit_pieces(lack)) == 0,
{
    broadcast use lemma_depth_of_join;

    reveal_with_fuel(depth_at, 3);
}

proof fn lemma_submitted_closes(a: SearchApp)
    ensures
        depth(submitted_pieces(a)) == 0,
{
    broadcast use lemma_depth_of_join;

    reveal_with_fuel(depth_at, 8);
}

proof fn lemma_failed_closes(a: SearchApp)
    ensures
        depth(failed_pieces(a)) == 0,
{
    broadcast use lemma_depth_of_join;

    reveal_with_fuel(depth_at, 11);
}

proof fn lemma_end_closes(a: SearchApp, name: Seq<char>, url: Seq<char>)
    ensures
        depth(end_pieces(a, name, url)) == 0,
{
    broadcast use lemma_depth_of_join;

    reveal_with_fuel(depth_at, 6);
    lemma_submit_closes(missing(a, name, url));
    lemma_submitted_closes(a);
    lemma_failed_closes(a);
}

proof fn lemma_submit_tab_closes(a: SearchApp, name: Seq<char>, url: Seq<char>)
    ensures
        depth(submit_tab_pieces(a, name, url)) == 0,
{
    broadcast use lemma_depth_of_join;

    reveal_with_fuel(depth_at, 8);
    lemma_form_closes(a);
    lemma_source_closes(a);
    lemma_end_closes(a, name, url);
}

proof fn lemma_foot_closes(a: SearchApp)
    ensures
        depth(foot_pieces(a)) == 0,
{
    broadcast use lemma_depth_of_join;

    reveal_with_fuel(depth_at, 13);
}

/// Every container that the page opens it closes, whatever it shows.
pub proof fn lemma_page_closes_its_containers(
    a: SearchApp,
    liked: Seq<Liked>,
    name: Seq<char>,
    url: Seq<char>,
)
    ensures
        depth(page_pieces(a, liked, name, url)) == 0,
{
    broadcast use lemma_depth_of_join;

    reveal_with_fuel(depth_at, 8);
    lemma_bar_closes(a);
    lemma_debug_closes(a);
    lemma_below_closes(a, liked);
    lemma_submit_tab_closes(a, name, url);
    lemma_foot_closes(a);
}

// ── What the page shows and offers ───────────────────────────────────────────

broadcast proof fn lemma_in_join(a: Pieces, b: Pieces, x: Item<Seq<char>, Act<Seq<char>>>)
    requires
        a.contains(x) || b.contains(x),
    ensures
        #[trigger] (a + b).contains(x),
{
    if a.contains(x) {
        let i = choose|i: int| 0 <= i < a.len() && a[i] == x;
        assert((a + b)[i] == x);
    } else {
        let i = choose|i: int| 0 <= i < b.len() && b[i] == x;
        assert((a + b)[a.len() + i] == x);
    }
}

proof fn lemma_tag_is_shown(tags: Seq<Seq<char>>, i: int)
    requires
        0 <= i < tags.len(),
    ensures
        tags_pieces(tags).contains(Item::Badge(tags[i], accent())),
    decreases tags.len(),
{
    broadcast use lemma_in_join;

    let tail: Pieces = seq![Item::Badge(tags.last(), accent()), Item::Space(3)];
    if i < tags.len() - 1 {
        lemma_tag_is_shown(tags.drop_last(), i);
        assert(tags.drop_last()[i] == tags[i]);
    } else {
        assert(tail[0] == Item::<Seq<char>, Act<Seq<char>>>::Badge(tags[i], accent()));
    }
}

/// Whether pieces show an app: its name, description, preview and author, a badge for each of
/// its tags, and what opens it and copies its address.
pub open spec fn shows_app(s: Pieces, l: Listing) -> bool {
    &&& s.contains(Item::Text(l.name@, 16, white()))
    &&& l.desc@.len() > 0 ==> s.contains(Item::Label(l.desc@))
    &&& l.doc_snippet@.len() > 0 ==> s.contains(Item::Small(l.doc_snippet@))
    &&& s.contains(Item::Small("by "@ + l.author@))
    &&& s.contains(Item::Button(" Open "@, Look::Faint, Act::Open(l.url@)))
    &&& s.contains(Item::Button(" Copy URL "@, Look::Faint, Act::Copy(l.url@)))
    &&& forall|i: int|
        0 <= i < filled_lines(split(l.tags@, ',')).len() ==> s.contains(
            Item::Badge(#[trigger] filled_lines(split(l.tags@, ','))[i], accent()),
        )
}

proof fn lemma_shown_in_join(a: Pieces, b: Pieces, l: Listing)
    requires
        shows_app(a, l) || shows_app(b, l),
    ensures
        shows_app(a + b, l),
{
    broadcast use lemma_in_join;

}

proof fn lemma_card_shows_its_app(a: SearchApp, i: int, liked: Seq<Liked>)
    requires
        0 <= i < a.results@.len(),
    ensures
        shows_app(card_pieces(a, i, liked), a.results@[i]),
{
    broadcast use lemma_in_join;

    let e = a.results@[i];
    let tags = filled_lines(split(e.tags@, ','));
    let about = about_pieces(e.name@, tags, e.desc@, e.doc_snippet@);
    let first: Pieces = seq![Item::RowBegin, Item::Text(e.name@, 16, white()), Item::Space(8)];
    assert(first[1] == Item::<Seq<char>, Act<Seq<char>>>::Text(e.name@, 16, white()));
    assert(first.contains(Item::Text(e.name@, 16, white())));
    assert(about.contains(Item::Text(e.name@, 16, white())));
    if e.desc@.len() > 0 {
        let d: Pieces = seq![Item::Label(e.desc@)];
        assert(d[0] == Item::<Seq<char>, Act<Seq<char>>>::Label(e.desc@));
        assert(about.contains(Item::Label(e.desc@)));
    }
    if e.doc_snippet@.len() > 0 {
        let d: Pieces = seq![Item::Small(e.doc_snippet@)];
        assert(d[0] == Item::<Seq<char>, Act<Seq<char>>>::Small(e.doc_snippet@));
        assert(about.contains(Item::Small(e.doc_snippet@)));
    }
    assert forall|k: int| 0 <= k < tags.len() implies about.contains(
        Item::Badge(#[trigger] tags[k], accent()),
    ) by {
        lemma_tag_is_shown(tags, k);
    }
    let votes: u32 = match stat_index(a.stats@, e.url@) {
        Some(k) => a.stats@[k].votes,
        None => 0,
    };
    let deeds = deeds_pieces(
        e.author@,
        e.url@,
        votes > 0,
        a.reviews_for@ == e.url@,
        !a.read_only,
        !a.read_only && a.rating_for@ == e.url@,
    );
    let front: Pieces = seq![
        Item::RowBegin,
        Item::Small("by "@ + e.author@),
        Item::Space(16),
        Item::Button(" Open "@, Look::Faint, Act::Open(e.url@)),
        Item::Button(" Copy URL "@, Look::Faint, Act::Copy(e.url@)),
    ];
    assert(front[1] == Item::<Seq<char>, Act<Seq<char>>>::Small("by "@ + e.author@));
    assert(front[3] == Item::<Seq<char>, Act<Seq<char>>>::Button(
        " Open "@,
        Look::Faint,
        Act::Open(e.url@),
    ));
    assert(front[4] == Item::<Seq<char>, Act<Seq<char>>>::Button(
        " Copy URL "@,
        Look::Faint,
        Act::Copy(e.url@),
    ));
    assert(deeds.contains(Item::Small("by "@ + e.author@)));
    assert(deeds.contains(Item::Button(" Open "@, Look::Faint, Act::Open(e.url@))));
    assert(deeds.contains(Item::Button(" Copy URL "@, Look::Faint, Act::Copy(e.url@))));
}

proof fn lemma_cards_show_their_apps(a: SearchApp, liked: Seq<Liked>, from: int, to: int, i: int)
    requires
        0 <= from <= i < to <= a.results@.len(),
    ensures
        shows_app(cards_pieces(a, liked, from, to), a.results@[i]),
    decreases to - from,
{
    if i < to - 1 {
        lemma_cards_show_their_apps(a, liked, from, to - 1, i);
    } else {
        lemma_card_shows_its_app(a, i, liked);
    }
    lemma_shown_in_join(
        cards_pieces(a, liked, from, to - 1),
        card_pieces(a, to - 1, liked),
        a.results@[i],
    );
}

/// The page shows every app that was found and is on the page that is looked at.
pub proof fn lemma_page_shows_what_was_found(
    a: SearchApp,
    liked: Seq<Liked>,
    name: Seq<char>,
    url: Seq<char>,
    i: int,
)
    requires
        a.shown_tab() == Tab::Search,
        a.search_id is None && a.browsed,
        a.results@.len() + PER_PAGE <= usize::MAX,
        window_of(a).start <= i < window_of(a).end,
    ensures
        shows_app(page_pieces(a, liked, name, url), a.results@[i]),
{
    let w = window_of(a);
    let total = a.results@.len() as int;
    assert(total > 0);
    lemma_cards_show_their_apps(a, liked, w.start as int, w.end as int, i);
    let l = a.results@[i];
    let cards = cards_pieces(a, liked, w.start as int, w.end as int);
    let head: Pieces = seq![
        Item::RowBegin,
        Item::Badge(counted(w.total as nat, "app"@), muted()),
    ] + (if w.pages > 1 {
        seq![Item::Space(8), Item::Small(window_words(w))]
    } else {
        Seq::empty()
    }) + seq![Item::RowEnd, Item::Space(12)];
    lemma_shown_in_join(head, cards, l);
    lemma_shown_in_join(head + cards, pager_pieces(w), l);
    lemma_shown_in_join(notice_pieces(a.meant), results_pieces(a, liked, w), l);
    lemma_shown_in_join(bar_pieces(a) + debug_pieces(a), below_pieces(a, liked), l);
    lemma_shown_in_join(title_pieces() + tab_pieces(a), search_tab_pieces(a, liked), l);
    lemma_shown_in_join(
        title_pieces() + tab_pieces(a) + search_tab_pieces(a, liked),
        foot_pieces(a),
        l,
    );
}

/// The next page is offered exactly where there is one, and the one before likewise.
pub proof fn lemma_pager_offers_what_there_is(w: Window)
    requires
        w.page < w.pages,
    ensures
        (exists|i: int|
            0 <= i < pager_pieces(w).len() && (#[trigger] pager_pieces(w)[i] matches Item::Button(
                _,
                _,
                act,
            ) && act is Next)) <==> w.page + 1 < w.pages,
        (exists|i: int|
            0 <= i < pager_pieces(w).len() && (#[trigger] pager_pieces(w)[i] matches Item::Button(
                _,
                _,
                act,
            ) && act is Previous)) <==> w.page > 0,
{
    let s = pager_pieces(w);
    if w.pages > 1 {
        let n: int = if w.page > 0 {
            3
        } else {
            2
        };
        if w.page > 0 {
            assert(s[2] matches Item::Button(_, _, act) && act is Previous);
        }
        if w.page + 1 < w.pages {
            assert(s[n] matches Item::Button(_, _, act) && act is Next);
        }
    }
}

/// Whether a deed neither submits nor rates.
pub open spec fn only_reads(act: Act<Seq<char>>) -> bool {
    match act {
        Act::ShowSubmit | Act::ToggleRating(_) | Act::Rate(_, _) | Act::HostHere
        | Act::HostElsewhere | Act::ChooseFile | Act::Submit | Act::Cancel | Act::SubmitAnother
        | Act::TryAgain => false,
        _ => true,
    }
}

/// Whether the buttons among pieces neither submit nor rate.
pub open spec fn all_read(s: Pieces) -> bool {
    forall|i: int|
        0 <= i < s.len() ==> (#[trigger] s[i] matches Item::Button(_, _, act) ==> only_reads(act))
}

proof fn lemma_tags_only_read(tags: Seq<Seq<char>>)
    ensures
        all_read(tags_pieces(tags)),
    decreases tags.len(),
{
    if tags.len() > 0 {
        lemma_tags_only_read(tags.drop_last());
    }
}

proof fn lemma_reviews_only_read(a: SearchApp, n: int)
    ensures
        all_read(review_rows(a, n)),
    decreases n,
{
    if n > 0 {
        lemma_reviews_only_read(a, n - 1);
    }
}

proof fn lemma_cards_only_read(a: SearchApp, liked: Seq<Liked>, from: int, to: int)
    requires
        a.read_only,
    ensures
        all_read(cards_pieces(a, liked, from, to)),
    decreases to - from,
{
    if from < to {
        lemma_cards_only_read(a, liked, from, to - 1);
        let e = a.results@[to - 1];
        let tags = filled_lines(split(e.tags@, ','));
        lemma_tags_only_read(tags);
        lemma_reviews_only_read(a, a.reviews@.len() as int);
        assert(all_read(about_pieces(e.name@, tags, e.desc@, e.doc_snippet@)));
        assert(all_read(reviews_pieces(a)));
        assert(forall|v: u32, o: u64, f: int, s: Seq<char>| all_read(#[trigger] liking_pieces(v, o, f, s)));
        assert(forall|r: bool, s: bool| all_read(
            #[trigger] deeds_pieces(e.author@, e.url@, r, s, false, false),
        ));
        assert(all_read(card_pieces(a, to - 1, liked)));
    }
}

/// Where nothing can be submitted or rated, the page offers neither.
pub proof fn lemma_read_only_page_only_reads(
    a: SearchApp,
    liked: Seq<Liked>,
    name: Seq<char>,
    url: Seq<char>,
)
    requires
        a.read_only,
    ensures
        all_read(page_pieces(a, liked, name, url)),
{
    let w = window_of(a);
    lemma_cards_only_read(a, liked, w.start as int, w.end as int);
    assert(all_read(title_pieces()));
    assert(all_read(tab_pieces(a)));
    assert(all_read(bar_pieces(a)));
    assert(all_read(debug_pieces(a)));
    assert(all_read(home_pieces()));
    assert(all_read(notice_pieces(a.meant)));
    assert(all_read(pager_pieces(w)));
    assert(all_read(results_pieces(a, liked, w)));
    assert(all_read(below_pieces(a, liked)));
    assert(all_read(foot_pieces(a)));
    assert(all_read(search_tab_pieces(a, liked)));
}

/// Each of the five stars rates with as many stars as it says.
pub proof fn lemma_stars_rate_what_they_say(url: Seq<char>, n: u8)
    requires
        1 <= n <= 5,
    ensures
        exists|i: int|
            0 <= i < rating_pieces(url).len() && (#[trigger] rating_pieces(url)[i] matches Item::Button(
                label,
                _,
                Act::Rate(u, m),
            ) && label == "  "@ + decimal(n as nat) + "★  "@ && u == url && m == n),
{
    let i: int = 6 + n;
    assert(rating_pieces(url)[i] == star_button(url, n));
}

} // verus!

//! The pages of the admin app, piece by piece.
use vstd::prelude::*;
use vstd::string::StringExecFns;
use crate::admin_app::{peers_words, AdminApp, AdminTab, AppRow, Stage};
use crate::color::Color;
use crate::numerals::{decimal, format_u64};
use crate::page::{
    accent, accent_color, depth, depth_at, lemma_depth_of_join, muted, muted_color, pieces, put,
    put_badge, put_button, put_field, put_label, put_small, put_text, slate, slate_color, tint,
    white, white_color, Item, Look,
};
use crate::search_view::author_text;
use crate::text::texts;

verus! {

/// What a button of the app does. Addresses are of the type `T`.
pub enum AdminAct<T> {
    /// Nothing: what it stands for is shown already.
    Nothing,
    Show(AdminTab),
    Refresh,
    ToggleAi,
    /// Takes the message away.
    Dismiss,
    /// Sets the password, or logs in.
    Enter,
    Open(T),
    Copy(T),
    Delete(T),
    /// Connects to the peer that is typed.
    Connect,
    Remove(T),
    Publish,
    Unpublish,
    /// Asks the directory for peers.
    FindPeers,
}

impl View for AdminAct<String> {
    type V = AdminAct<Seq<char>>;

    open spec fn view(&self) -> AdminAct<Seq<char>> {
        match *self {
            AdminAct::Nothing => AdminAct::Nothing,
            AdminAct::Show(t) => AdminAct::Show(t),
            AdminAct::Refresh => AdminAct::Refresh,
            AdminAct::ToggleAi => AdminAct::ToggleAi,
            AdminAct::Dismiss => AdminAct::Dismiss,
            AdminAct::Enter => AdminAct::Enter,
            AdminAct::Open(s) => AdminAct::Open(s@),
            AdminAct::Copy(s) => AdminAct::Copy(s@),
            AdminAct::Delete(s) => AdminAct::Delete(s@),
            AdminAct::Connect => AdminAct::Connect,
            AdminAct::Remove(s) => AdminAct::Remove(s@),
            AdminAct::Publish => AdminAct::Publish,
            AdminAct::Unpublish => AdminAct::Unpublish,
            AdminAct::FindPeers => AdminAct::FindPeers,
        }
    }
}

/// A page.
pub type AdminPage = Vec<Item<String, AdminAct<String>>>;

/// One piece of a page, by its content.
pub type AdminPiece = Item<Seq<char>, AdminAct<Seq<char>>>;

/// The contents of a page.
pub type AdminPieces = Seq<AdminPiece>;

/// The color of what is well.
pub open spec fn green() -> Color {
    tint(74, 222, 128)
}

/// The color of what is wrong.
pub open spec fn red() -> Color {
    tint(239, 68, 68)
}

proof fn lemma_joined(z: AdminPieces, a: AdminPieces, b: AdminPieces)
    ensures
        z + a + b == z + (a + b),
{
    assert(z + a + b =~= z + (a + b));
}

// ── Head ─────────────────────────────────────────────────────────────────────

/// The title.
pub open spec fn title_pieces() -> AdminPieces {
    seq![
        Item::RowBegin,
        Item::Text("annessaia"@, 28, tint(56, 189, 248)),
        Item::Space(6),
        Item::Badge("admin"@, accent()),
        Item::RowEnd,
        Item::Label("Manage this node, its peers, and its directory listing."@),
        Item::Separator,
    ]
}

fn add_title(page: &mut AdminPage)
    ensures
        pieces(final(page)@) == pieces(old(page)@) + title_pieces(),
{
    let ghost before = pieces(page@);
    put(page, Item::RowBegin);
    put_text(page, "annessaia", 28, Color::cyan());
    put(page, Item::Space(6));
    put_badge(page, "admin", accent_color());
    put(page, Item::RowEnd);
    put_label(page, "Manage this node, its peers, and its directory listing.");
    put(page, Item::Separator);
    assert(pieces(page@) =~= before + title_pieces());
}

/// The button of a tab.
pub open spec fn tab_piece(label: Seq<char>, tab: AdminTab, current: AdminTab) -> AdminPiece {
    if tab == current {
        Item::Button(label, Look::Styled(white(), accent(), accent()), AdminAct::Nothing)
    } else {
        Item::Button(label, Look::Faint, AdminAct::Show(tab))
    }
}

fn add_tab(page: &mut AdminPage, label: &str, tab: AdminTab, current: AdminTab)
    ensures
        pieces(final(page)@) == pieces(old(page)@).push(tab_piece(label@, tab, current)),
{
    if tab == current {
        let look = Look::Styled(white_color(), accent_color(), accent_color());
        put_button(page, label, look, AdminAct::Nothing);
    } else {
        put_button(page, label, Look::Faint, AdminAct::Show(tab));
    }
}

/// The switch of search by meaning on this node, once its state is known.
pub open spec fn switch_pieces(on: Option<bool>) -> AdminPieces {
    match on {
        Some(true) => seq![
            Item::Button(
                " AI on server: ON "@,
                Look::Styled(white(), tint(20, 83, 45), green()),
                AdminAct::ToggleAi,
            ),
        ],
        Some(false) => seq![
            Item::Button(" AI on server: OFF "@, Look::Faint, AdminAct::ToggleAi),
        ],
        None => Seq::empty(),
    }
}

/// What the switch is about, once its state is known.
pub open spec fn caption_pieces(on: Option<bool>) -> AdminPieces {
    if on is Some {
        seq![
            Item::Small(
                "AI on server applies to every user of this node, not just to you."@,
            ),
        ]
    } else {
        Seq::empty()
    }
}

/// The tabs, and the switch for search by meaning.
pub open spec fn tabs_pieces(a: AdminApp) -> AdminPieces {
    seq![
        Item::RowBegin,
        tab_piece("  Apps  "@, AdminTab::Apps, a.tab),
        tab_piece("  Peers  "@, AdminTab::Peers, a.tab),
        tab_piece("  Directory  "@, AdminTab::Directory, a.tab),
        Item::Space(12),
        Item::Button(" ⟳ Refresh "@, Look::Faint, AdminAct::Refresh),
        Item::Space(12),
    ] + switch_pieces(a.ai_on) + seq![Item::RowEnd] + caption_pieces(a.ai_on)
}

fn add_tabs(page: &mut AdminPage, a: &AdminApp)
    ensures
        pieces(final(page)@) == pieces(old(page)@) + tabs_pieces(*a),
{
    let ghost before = pieces(page@);
    put(page, Item::RowBegin);
    add_tab(page, "  Apps  ", AdminTab::Apps, a.tab);
    add_tab(page, "  Peers  ", AdminTab::Peers, a.tab);
    add_tab(page, "  Directory  ", AdminTab::Directory, a.tab);
    put(page, Item::Space(12));
    put_button(page, " ⟳ Refresh ", Look::Faint, AdminAct::Refresh);
    put(page, Item::Space(12));
    match a.ai_on {
        Some(true) => {
            let look = Look::Styled(white_color(), Color::rgb(20, 83, 45), Color::green());
            put_button(page, " AI on server: ON ", look, AdminAct::ToggleAi);
        },
        Some(false) => {
            put_button(page, " AI on server: OFF ", Look::Faint, AdminAct::ToggleAi);
        },
        None => {},
    }
    put(page, Item::RowEnd);
    if a.ai_on.is_some() {
        put_small(page, "AI on server applies to every user of this node, not just to you.");
    }
    assert(pieces(page@) =~= before + tabs_pieces(*a));
}

/// The message, where there is one.
pub open spec fn flash_pieces(a: AdminApp) -> AdminPieces {
    if a.flash@.len() > 0 {
        seq![
            Item::Space(8),
            Item::RowBegin,
            Item::Badge("STATUS"@, muted()),
            Item::Space(8),
            Item::Label(a.flash@),
            Item::Space(8),
            Item::Button(" ✕ "@, Look::Faint, AdminAct::Dismiss),
            Item::RowEnd,
        ]
    } else {
        Seq::empty()
    }
}

fn add_flash(page: &mut AdminPage, a: &AdminApp)
    ensures
        pieces(final(page)@) == pieces(old(page)@) + flash_pieces(*a),
{
    let ghost before = pieces(page@);
    if !a.flash.as_str().is_empty() {
        put(page, Item::Space(8));
        put(page, Item::RowBegin);
        put_badge(page, "STATUS", muted_color());
        put(page, Item::Space(8));
        put_label(page, a.flash.as_str());
        put(page, Item::Space(8));
        put_button(page, " ✕ ", Look::Faint, AdminAct::Dismiss);
        put(page, Item::RowEnd);
    }
    assert(pieces(page@) =~= before + flash_pieces(*a));
}

// ── The password ─────────────────────────────────────────────────────────────

/// The field for the password.
pub const PASSWORD_FIELD: i32 = 2;

/// The field for the password again.
pub const CONFIRM_FIELD: i32 = 3;

/// What the password is for.
pub open spec fn password_head(setup: bool) -> AdminPieces {
    seq![
        Item::Space(120),
        Item::CardBegin,
        Item::Text(
            if setup {
                "Create an admin password"@
            } else {
                "Admin login"@
            },
            20,
            white(),
        ),
        Item::Space(6),
        Item::Small("This protects everything on this page — revoking apps, managing peers,"@),
        Item::Small("publishing to the directory, and the AI toggle. There is no reset button,"@),
        Item::Small("so don't lose it."@),
        Item::Space(12),
    ]
}

/// The fields of the form.
pub open spec fn password_fields(setup: bool) -> AdminPieces {
    if setup {
        seq![
            Item::Secret(PASSWORD_FIELD, "Password (at least 8 characters)"@),
            Item::Space(6),
            Item::Secret(CONFIRM_FIELD, "Confirm password"@),
            Item::Space(10),
        ]
    } else {
        seq![Item::Secret(PASSWORD_FIELD, "Password"@), Item::Space(10)]
    }
}

/// The form in which the password is set or entered. There is no button while the node has
/// not answered.
pub open spec fn password_pieces(setup: bool, error: Seq<char>, busy: bool) -> AdminPieces {
    password_head(setup) + password_fields(setup) + (if error.len() > 0 {
        seq![Item::Colored(error, red()), Item::Space(8)]
    } else {
        Seq::empty()
    }) + seq![
        if busy {
            Item::Badge("WORKING…"@, muted())
        } else {
            Item::Button(
                if setup {
                    "  Create password  "@
                } else {
                    "  Log in  "@
                },
                Look::Success,
                AdminAct::Enter,
            )
        },
        Item::CardEnd,
    ]
}

fn password_form(setup: bool, error: &str, busy: bool) -> (page: AdminPage)
    ensures
        pieces(page@) == password_pieces(setup, error@, busy),
{
    let mut page: AdminPage = Vec::new();
    put(&mut page, Item::Space(120));
    put(&mut page, Item::CardBegin);
    let title = if setup {
        "Create an admin password"
    } else {
        "Admin login"
    };
    put_text(&mut page, title, 20, white_color());
    put(&mut page, Item::Space(6));
    put_small(
        &mut page,
        "This protects everything on this page — revoking apps, managing peers,",
    );
    put_small(
        &mut page,
        "publishing to the directory, and the AI toggle. There is no reset button,",
    );
    put_small(&mut page, "so don't lose it.");
    put(&mut page, Item::Space(12));
    if setup {
        put(
            &mut page,
            Item::Secret(PASSWORD_FIELD, "Password (at least 8 characters)".to_owned()),
        );
        put(&mut page, Item::Space(6));
        put(&mut page, Item::Secret(CONFIRM_FIELD, "Confirm password".to_owned()));
    } else {
        put(&mut page, Item::Secret(PASSWORD_FIELD, "Password".to_owned()));
    }
    put(&mut page, Item::Space(10));
    if !error.is_empty() {
        put(&mut page, Item::Colored(error.to_owned(), Color::red()));
        put(&mut page, Item::Space(8));
    }
    if busy {
        put_badge(&mut page, "WORKING…", muted_color());
    } else if setup {
        put_button(&mut page, "  Create password  ", Look::Success, AdminAct::Enter);
    } else {
        put_button(&mut page, "  Log in  ", Look::Success, AdminAct::Enter);
    }
    put(&mut page, Item::CardEnd);
    assert(pieces(page@) =~= password_pieces(setup, error@, busy));
    page
}

// ── Apps ─────────────────────────────────────────────────────────────────────

/// The card of an app. Only one that was published here can be deleted, and not while
/// the node is busy.
pub open spec fn app_pieces(
    name: Seq<char>,
    url: Seq<char>,
    author: Seq<char>,
    owned: bool,
    busy: bool,
) -> AdminPieces {
    seq![Item::CardBegin, Item::RowBegin, Item::Text(name, 15, white()), Item::Space(8)] + (
    if owned {
        seq![Item::Badge("YOURS"@, green()), Item::Space(6)]
    } else {
        Seq::empty()
    }) + (if author.len() > 0 {
        seq![Item::Small("by "@ + author)]
    } else {
        Seq::empty()
    }) + seq![
        Item::RowEnd,
        Item::Space(4),
        Item::Small(url),
        Item::Space(8),
        Item::RowBegin,
        Item::Button(" Open "@, Look::Faint, AdminAct::Open(url)),
        Item::Button(" Copy "@, Look::Faint, AdminAct::Copy(url)),
    ] + (if !owned {
        seq![Item::Space(8), Item::Small("published elsewhere"@)]
    } else if !busy {
        seq![Item::Button(" Delete "@, Look::Danger, AdminAct::Delete(url))]
    } else {
        Seq::empty()
    }) + seq![Item::RowEnd, Item::CardEnd, Item::Space(8)]
}

fn add_app(page: &mut AdminPage, app: &AppRow, owned: bool, busy: bool)
    ensures
        pieces(final(page)@) == pieces(old(page)@) + app_pieces(
            app.name@,
            app.url@,
            app.author@,
            owned,
            busy,
        ),
{
    let ghost before = pieces(page@);
    put(page, Item::CardBegin);
    put(page, Item::RowBegin);
    put_text(page, app.name.as_str(), 15, white_color());
    put(page, Item::Space(8));
    if owned {
        put_badge(page, "YOURS", Color::green());
        put(page, Item::Space(6));
    }
    if !app.author.as_str().is_empty() {
        put(page, Item::Small(author_text(app.author.as_str())));
    }
    put(page, Item::RowEnd);
    put(page, Item::Space(4));
    put_small(page, app.url.as_str());
    put(page, Item::Space(8));
    put(page, Item::RowBegin);
    put_button(page, " Open ", Look::Faint, AdminAct::Open(app.url.clone()));
    put_button(page, " Copy ", Look::Faint, AdminAct::Copy(app.url.clone()));
    if !owned {
        put(page, Item::Space(8));
        put_small(page, "published elsewhere");
    } else if !busy {
        put_button(page, " Delete ", Look::Danger, AdminAct::Delete(app.url.clone()));
    }
    put(page, Item::RowEnd);
    put(page, Item::CardEnd);
    put(page, Item::Space(8));
    assert(pieces(page@) =~= before + app_pieces(app.name@, app.url@, app.author@, owned, busy));
}

/// The cards of the first apps.
pub open spec fn app_rows(a: AdminApp, n: int) -> AdminPieces
    decreases n,
{
    if n <= 0 {
        Seq::empty()
    } else {
        let r = a.apps@[n - 1];
        app_rows(a, n - 1) + app_pieces(
            r.name@,
            r.url@,
            r.author@,
            texts(a.mine@).contains(r.url@),
            a.act_id is Some,
        )
    }
}

/// How many apps there are.
pub open spec fn apps_head(all: nat, mine: nat) -> AdminPieces {
    seq![
        Item::RowBegin,
        Item::Text("Live apps"@, 18, white()),
        Item::Space(8),
        Item::Badge(decimal(all), muted()),
        Item::Space(6),
        Item::Badge(decimal(mine) + " yours"@, green()),
        Item::RowEnd,
        Item::Space(8),
    ]
}

/// What is shown where there are no apps.
pub open spec fn no_apps() -> AdminPieces {
    seq![
        Item::TintedCard(slate()),
        Item::Label("No apps yet."@),
        Item::Small("Anything submitted here propagates to every connected peer."@),
        Item::CardEnd,
    ]
}

/// The tab with the apps.
pub open spec fn apps_pieces(a: AdminApp) -> AdminPieces {
    apps_head(a.apps@.len(), a.mine@.len()) + if a.apps@.len() == 0 {
        no_apps()
    } else {
        app_rows(a, a.apps@.len() as int)
    }
}

fn add_apps_head(page: &mut AdminPage, a: &AdminApp)
    ensures
        pieces(final(page)@) == pieces(old(page)@) + apps_head(a.apps@.len(), a.mine@.len()),
{
    let ghost before = pieces(page@);
    put(page, Item::RowBegin);
    put_text(page, "Live apps", 18, white_color());
    put(page, Item::Space(8));
    put(page, Item::Badge(format_u64(a.apps.len() as u64), muted_color()));
    put(page, Item::Space(6));
    let mut mine = format_u64(a.mine.len() as u64);
    mine.append(" yours");
    put(page, Item::Badge(mine, Color::green()));
    put(page, Item::RowEnd);
    put(page, Item::Space(8));
    assert(pieces(page@) =~= before + apps_head(a.apps@.len(), a.mine@.len()));
}

fn add_no_apps(page: &mut AdminPage)
    ensures
        pieces(final(page)@) == pieces(old(page)@) + no_apps(),
{
    let ghost before = pieces(page@);
    put(page, Item::TintedCard(slate_color()));
    put_label(page, "No apps yet.");
    put_small(page, "Anything submitted here propagates to every connected peer.");
    put(page, Item::CardEnd);
    assert(pieces(page@) =~= before + no_apps());
}

fn add_apps(page: &mut AdminPage, a: &AdminApp)
    ensures
        pieces(final(page)@) == pieces(old(page)@) + apps_pieces(*a),
{
    let ghost before = pieces(page@);
    let ghost top = apps_head(a.apps@.len(), a.mine@.len());
    add_apps_head(page, a);
    if a.apps.len() == 0 {
        add_no_apps(page);
        proof {
            lemma_joined(before, top, no_apps());
        }
        return;
    }
    let ghost head = pieces(page@);
    let mut i: usize = 0;
    assert(head + app_rows(*a, 0) =~= head);
    while i < a.apps.len()
        invariant
            i <= a.apps@.len(),
            pieces(page@) == head + app_rows(*a, i as int),
        decreases a.apps.len() - i,
    {
        let owned = a.owns(a.apps[i].url.as_str());
        add_app(page, &a.apps[i], owned, a.busy());
        i += 1;
        proof {
            let r = a.apps@[i - 1];
            lemma_joined(
                head,
                app_rows(*a, i - 1),
                app_pieces(
                    r.name@,
                    r.url@,
                    r.author@,
                    texts(a.mine@).contains(r.url@),
                    a.act_id is Some,
                ),
            );
        }
    }
    proof {
        lemma_joined(before, top, app_rows(*a, a.apps@.len() as int));
    }
}

// ── Peers ────────────────────────────────────────────────────────────────────

/// How many peers there are, and the form to add one.
pub open spec fn peers_head(active: nat, all: nat) -> AdminPieces {
    seq![
        Item::RowBegin,
        Item::Text("Network peers"@, 18, white()),
        Item::Space(8),
        Item::Badge(peers_words(active, all), muted()),
        Item::RowEnd,
        Item::Space(8),
        Item::CardBegin,
        Item::Label("Add a peer"@),
        Item::Small("Paste another node's base URL. Its apps sync over immediately."@),
        Item::Space(8),
        Item::Field(1, "http://other-node:3000"@),
        Item::Space(8),
        Item::Button("  Connect  "@, Look::Success, AdminAct::Connect),
        Item::CardEnd,
        Item::Space(12),
    ]
}

fn add_peers_head(page: &mut AdminPage, a: &AdminApp)
    ensures
        pieces(final(page)@) == pieces(old(page)@) + peers_head(a.active@.len(), a.peers@.len()),
{
    let ghost before = pieces(page@);
    put(page, Item::RowBegin);
    put_text(page, "Network peers", 18, white_color());
    put(page, Item::Space(8));
    put(page, Item::Badge(a.peers_text(), muted_color()));
    put(page, Item::RowEnd);
    put(page, Item::Space(8));
    put(page, Item::CardBegin);
    put_label(page, "Add a peer");
    put_small(page, "Paste another node's base URL. Its apps sync over immediately.");
    put(page, Item::Space(8));
    put_field(page, 1, "http://other-node:3000");
    put(page, Item::Space(8));
    put_button(page, "  Connect  ", Look::Success, AdminAct::Connect);
    put(page, Item::CardEnd);
    put(page, Item::Space(12));
    assert(pieces(page@) =~= before + peers_head(a.active@.len(), a.peers@.len()));
}

/// The card of a peer.
pub open spec fn peer_pieces(peer: Seq<char>, live: bool, busy: bool) -> AdminPieces {
    seq![
        Item::CardBegin,
        Item::RowBegin,
        if live {
            Item::Badge("CONNECTED"@, green())
        } else {
            Item::Badge("OFFLINE"@, muted())
        },
        Item::Space(8),
        Item::Label(peer),
        Item::RowEnd,
        Item::Space(8),
    ] + (if busy {
        Seq::empty()
    } else {
        seq![Item::Button(" Remove "@, Look::Danger, AdminAct::Remove(peer))]
    }) + seq![Item::CardEnd, Item::Space(8)]
}

fn add_peer(page: &mut AdminPage, peer: &str, live: bool, busy: bool)
    ensures
        pieces(final(page)@) == pieces(old(page)@) + peer_pieces(peer@, live, busy),
{
    let ghost before = pieces(page@);
    put(page, Item::CardBegin);
    put(page, Item::RowBegin);
    if live {
        put_badge(page, "CONNECTED", Color::green());
    } else {
        put_badge(page, "OFFLINE", muted_color());
    }
    put(page, Item::Space(8));
    put_label(page, peer);
    put(page, Item::RowEnd);
    put(page, Item::Space(8));
    if !busy {
        put_button(page, " Remove ", Look::Danger, AdminAct::Remove(peer.to_owned()));
    }
    put(page, Item::CardEnd);
    put(page, Item::Space(8));
    assert(pieces(page@) =~= before + peer_pieces(peer@, live, busy));
}

/// The cards of the first peers.
pub open spec fn peer_rows(a: AdminApp, n: int) -> AdminPieces
    decreases n,
{
    if n <= 0 {
        Seq::empty()
    } else {
        let p = a.peers@[n - 1]@;
        peer_rows(a, n - 1) + peer_pieces(p, texts(a.active@).contains(p), a.act_id is Some)
    }
}

/// What is shown where there are no peers.
pub open spec fn no_peers() -> AdminPieces {
    seq![
        Item::TintedCard(slate()),
        Item::Label("No peers yet."@),
        Item::Small("Add one above, or publish this node so others can find it."@),
        Item::CardEnd,
    ]
}

fn add_no_peers(page: &mut AdminPage)
    ensures
        pieces(final(page)@) == pieces(old(page)@) + no_peers(),
{
    let ghost before = pieces(page@);
    put(page, Item::TintedCard(slate_color()));
    put_label(page, "No peers yet.");
    put_small(page, "Add one above, or publish this node so others can find it.");
    put(page, Item::CardEnd);
    assert(pieces(page@) =~= before + no_peers());
}

/// The tab with the peers.
pub open spec fn peers_pieces(a: AdminApp) -> AdminPieces {
    peers_head(a.active@.len(), a.peers@.len()) + if a.peers@.len() == 0 {
        no_peers()
    } else {
        peer_rows(a, a.peers@.len() as int)
    }
}

fn add_peers(page: &mut AdminPage, a: &AdminApp)
    ensures
        pieces(final(page)@) == pieces(old(page)@) + peers_pieces(*a),
{
    let ghost before = pieces(page@);
    let ghost top = peers_head(a.active@.len(), a.peers@.len());
    add_peers_head(page, a);
    if a.peers.len() == 0 {
        add_no_peers(page);
        proof {
            lemma_joined(before, top, no_peers());
        }
        return;
    }
    let ghost head = pieces(page@);
    let mut i: usize = 0;
    assert(head + peer_rows(*a, 0) =~= head);
    while i < a.peers.len()
        invariant
            i <= a.peers@.len(),
            pieces(page@) == head + peer_rows(*a, i as int),
        decreases a.peers.len() - i,
    {
        let live = a.is_live(a.peers[i].as_str());
        add_peer(page, a.peers[i].as_str(), live, a.busy());
        i += 1;
        proof {
            let p = a.peers@[i - 1]@;
            lemma_joined(
                head,
                peer_rows(*a, i - 1),
                peer_pieces(p, texts(a.active@).contains(p), a.act_id is Some),
            );
        }
    }
    proof {
        lemma_joined(before, top, peer_rows(*a, a.peers@.len() as int));
    }
}

// ── The directory ────────────────────────────────────────────────────────────

/// What the directory is.
pub open spec fn directory_head() -> AdminPieces {
    seq![
        Item::Text("Bootstrap directory"@, 18, white()),
        Item::Space(4),
        Item::Label(
            "A public list of nodes, used only so new nodes can find their first peer."@,
        ),
        Item::Small("Reading it is automatic. This node is never listed until you publish it."@),
        Item::Space(12),
    ]
}

fn add_directory_head(page: &mut AdminPage)
    ensures
        pieces(final(page)@) == pieces(old(page)@) + directory_head(),
{
    let ghost before = pieces(page@);
    put_text(page, "Bootstrap directory", 18, white_color());
    put(page, Item::Space(4));
    put_label(page, "A public list of nodes, used only so new nodes can find their first peer.");
    put_small(page, "Reading it is automatic. This node is never listed until you publish it.");
    put(page, Item::Space(12));
    assert(pieces(page@) =~= before + directory_head());
}

/// A name and a value; a dash where there is none.
pub open spec fn value_pieces(name: Seq<char>, value: Seq<char>) -> AdminPieces {
    seq![
        Item::RowBegin,
        Item::Small(name),
        Item::Space(12),
        Item::Colored(
            if value.len() == 0 {
                "—"@
            } else {
                value
            },
            tint(56, 189, 248),
        ),
        Item::RowEnd,
        Item::Space(4),
    ]
}

fn add_value(page: &mut AdminPage, name: &str, value: &str)
    ensures
        pieces(final(page)@) == pieces(old(page)@) + value_pieces(name@, value@),
{
    let ghost before = pieces(page@);
    put(page, Item::RowBegin);
    put_small(page, name);
    put(page, Item::Space(12));
    let shown = if value.is_empty() {
        "—".to_owned()
    } else {
        value.to_owned()
    };
    put(page, Item::Colored(shown, Color::cyan()));
    put(page, Item::RowEnd);
    put(page, Item::Space(4));
    assert(pieces(page@) =~= before + value_pieces(name@, value@));
}

/// Whether this node is listed.
pub open spec fn status_pieces(published: bool) -> AdminPieces {
    seq![
        Item::RowBegin,
        Item::Small("Status"@),
        Item::Space(12),
        if published {
            Item::Badge("PUBLISHED"@, green())
        } else {
            Item::Badge("NOT PUBLISHED"@, muted())
        },
        Item::RowEnd,
        Item::CardEnd,
        Item::Space(12),
    ]
}

fn add_status(page: &mut AdminPage, published: bool)
    ensures
        pieces(final(page)@) == pieces(old(page)@) + status_pieces(published),
{
    let ghost before = pieces(page@);
    put(page, Item::RowBegin);
    put_small(page, "Status");
    put(page, Item::Space(12));
    if published {
        put_badge(page, "PUBLISHED", Color::green());
    } else {
        put_badge(page, "NOT PUBLISHED", muted_color());
    }
    put(page, Item::RowEnd);
    put(page, Item::CardEnd);
    put(page, Item::Space(12));
    assert(pieces(page@) =~= before + status_pieces(published));
}

/// What can be done about the directory.
pub open spec fn listing_pieces(published: bool, busy: bool) -> AdminPieces {
    seq![Item::RowBegin] + (if busy {
        seq![Item::Badge("WORKING…"@, muted()), Item::Space(8)]
    } else {
        seq![
            if published {
                Item::Button("  Unpublish this node  "@, Look::Danger, AdminAct::Unpublish)
            } else {
                Item::Button("  Publish this node  "@, Look::Success, AdminAct::Publish)
            },
            Item::Space(8),
            Item::Button("  Refresh peers from directory  "@, Look::Faint, AdminAct::FindPeers),
        ]
    }) + seq![Item::RowEnd] + (if published {
        Seq::empty()
    } else {
        seq![
            Item::Space(12),
            Item::TintedCard(slate()),
            Item::Colored("Publishing requires a public address."@, red()),
            Item::Space(4),
            Item::Small("The directory fetches this node's /api/apps before listing it, so a"@),
            Item::Small("localhost URL is rejected. Tunnel it or host it somewhere reachable."@),
            Item::CardEnd,
        ]
    })
}

fn add_listing(page: &mut AdminPage, published: bool, busy: bool)
    ensures
        pieces(final(page)@) == pieces(old(page)@) + listing_pieces(published, busy),
{
    let ghost before = pieces(page@);
    put(page, Item::RowBegin);
    if busy {
        put_badge(page, "WORKING…", muted_color());
        put(page, Item::Space(8));
    } else {
        if published {
            put_button(page, "  Unpublish this node  ", Look::Danger, AdminAct::Unpublish);
        } else {
            put_button(page, "  Publish this node  ", Look::Success, AdminAct::Publish);
        }
        put(page, Item::Space(8));
        put_button(page, "  Refresh peers from directory  ", Look::Faint, AdminAct::FindPeers);
    }
    put(page, Item::RowEnd);
    if !published {
        put(page, Item::Space(12));
        put(page, Item::TintedCard(slate_color()));
        let words = "Publishing requires a public address.".to_owned();
        put(page, Item::Colored(words, Color::red()));
        put(page, Item::Space(4));
        put_small(page, "The directory fetches this node's /api/apps before listing it, so a");
        put_small(page, "localhost URL is rejected. Tunnel it or host it somewhere reachable.");
        put(page, Item::CardEnd);
    }
    assert(pieces(page@) =~= before + listing_pieces(published, busy));
}

/// What is shown until the directory's state is known.
pub open spec fn directory_loading() -> AdminPieces {
    seq![Item::TintedCard(slate()), Item::Label("Loading…"@), Item::CardEnd]
}

/// The tab with the directory.
pub open spec fn directory_pieces(a: AdminApp) -> AdminPieces {
    let d = a.directory;
    if d.loaded {
        directory_head() + seq![Item::CardBegin] + value_pieces("Directory"@, d.url@)
            + value_pieces("This node"@, d.self_url@) + status_pieces(d.published)
            + listing_pieces(d.published, a.act_id is Some)
    } else {
        directory_head() + directory_loading()
    }
}

proof fn lemma_directory_joined(
    z: AdminPieces,
    a: AdminPieces,
    x: AdminPiece,
    b: AdminPieces,
    c: AdminPieces,
    d: AdminPieces,
    e: AdminPieces,
)
    ensures
        (z + a).push(x) + b + c + d + e == z + (a + seq![x] + b + c + d + e),
{
    assert((z + a).push(x) + b + c + d + e =~= z + (a + seq![x] + b + c + d + e));
}

fn add_directory(page: &mut AdminPage, a: &AdminApp)
    ensures
        pieces(final(page)@) == pieces(old(page)@) + directory_pieces(*a),
{
    let ghost before = pieces(page@);
    add_directory_head(page);
    if !a.directory.loaded {
        let ghost head = pieces(page@);
        put(page, Item::TintedCard(slate_color()));
        put_label(page, "Loading…");
        put(page, Item::CardEnd);
        assert(pieces(page@) =~= head + directory_loading());
        proof {
            lemma_joined(before, directory_head(), directory_loading());
        }
        return;
    }
    put(page, Item::CardBegin);
    add_value(page, "Directory", a.directory.url.as_str());
    add_value(page, "This node", a.directory.self_url.as_str());
    add_status(page, a.directory.published);
    add_listing(page, a.directory.published, a.busy());
    proof {
        let d = a.directory;
        lemma_directory_joined(
            before,
            directory_head(),
            Item::CardBegin,
            value_pieces("Directory"@, d.url@),
            value_pieces("This node"@, d.self_url@),
            status_pieces(d.published),
            listing_pieces(d.published, a.act_id is Some),
        );
    }
}

// ── The whole page ───────────────────────────────────────────────────────────

/// What is shown to an operator who is logged in.
pub open spec fn dashboard_pieces(a: AdminApp) -> AdminPieces {
    tabs_pieces(a) + flash_pieces(a) + seq![Item::Space(12)] + (match a.tab {
        AdminTab::Apps => apps_pieces(a),
        AdminTab::Peers => peers_pieces(a),
        AdminTab::Directory => directory_pieces(a),
    })
}

/// The page.
pub open spec fn admin_pieces(a: AdminApp) -> AdminPieces {
    match a.stage {
        Stage::Loading => seq![Item::Label("Checking server…"@)],
        Stage::Setup => password_pieces(true, a.pass_error@, a.auth_id is Some),
        Stage::Login => password_pieces(false, a.pass_error@, a.auth_id is Some),
        Stage::Dashboard => title_pieces() + dashboard_pieces(a),
    }
}

proof fn lemma_dashboard_joined(
    z: AdminPieces,
    a: AdminPieces,
    b: AdminPieces,
    x: AdminPiece,
    c: AdminPieces,
)
    ensures
        (z + a + b).push(x) + c == z + (a + b + seq![x] + c),
{
    assert((z + a + b).push(x) + c =~= z + (a + b + seq![x] + c));
}

fn add_dashboard(page: &mut AdminPage, a: &AdminApp)
    ensures
        pieces(final(page)@) == pieces(old(page)@) + dashboard_pieces(*a),
{
    let ghost before = pieces(page@);
    add_tabs(page, a);
    add_flash(page, a);
    put(page, Item::Space(12));
    match a.tab {
        AdminTab::Apps => add_apps(page, a),
        AdminTab::Peers => add_peers(page, a),
        AdminTab::Directory => add_directory(page, a),
    }
    proof {
        let body = match a.tab {
            AdminTab::Apps => apps_pieces(*a),
            AdminTab::Peers => peers_pieces(*a),
            AdminTab::Directory => directory_pieces(*a),
        };
        lemma_dashboard_joined(before, tabs_pieces(*a), flash_pieces(*a), Item::Space(12), body);
    }
}

/// Returns the page of the app.
pub fn admin_page(a: &AdminApp) -> (page: AdminPage)
    ensures
        pieces(page@) == admin_pieces(*a),
{
    match a.stage {
        Stage::Loading => {
            let mut page: AdminPage = Vec::new();
            put_label(&mut page, "Checking server…");
            assert(pieces(page@) =~= seq![Item::Label("Checking server…"@)]);
            page
        },
        Stage::Setup => password_form(true, a.pass_error.as_str(), a.auth_id.is_some()),
        Stage::Login => password_form(false, a.pass_error.as_str(), a.auth_id.is_some()),
        Stage::Dashboard => {
            let mut page: AdminPage = Vec::new();
            add_title(&mut page);
            assert(pieces(page@) =~= title_pieces());
            add_dashboard(&mut page, a);
            page
        },
    }
}

// ── What holds of every page ─────────────────────────────────────────────────

proof fn lemma_tabs_closes(a: AdminApp)
    ensures
        depth(tabs_pieces(a)) == 0,
{
    broadcast use lemma_depth_of_join;

    reveal_with_fuel(depth_at, 8);
}

proof fn lemma_password_closes(setup: bool, error: Seq<char>, busy: bool)
    ensures
        depth(password_pieces(setup, error, busy)) == 0,
{
    broadcast use lemma_depth_of_join;

    reveal_with_fuel(depth_at, 9);
}

proof fn lemma_app_closes(name: Seq<char>, url: Seq<char>, author: Seq<char>, owned: bool, busy: bool)
    ensures
        depth(app_pieces(name, url, author, owned, busy)) == 0,
{
    broadcast use lemma_depth_of_join;

    reveal_with_fuel(depth_at, 8);
}

proof fn lemma_app_rows_close(a: AdminApp, n: int)
    ensures
        depth(app_rows(a, n)) == 0,
    decreases n,
{
    broadcast use lemma_depth_of_join;

    if n > 0 {
        let r = a.apps@[n - 1];
        lemma_app_rows_close(a, n - 1);
        lemma_app_closes(
            r.name@,
            r.url@,
            r.author@,
            texts(a.mine@).contains(r.url@),
            a.act_id is Some,
        );
    }
}

proof fn lemma_apps_closes(a: AdminApp)
    ensures
        depth(apps_pieces(a)) == 0,
{
    broadcast use lemma_depth_of_join;

    reveal_with_fuel(depth_at, 9);
    lemma_app_rows_close(a, a.apps@.len() as int);
}

proof fn lemma_peer_closes(peer: Seq<char>, live: bool, busy: bool)
    ensures
        depth(peer_pieces(peer, live, busy)) == 0,
{
    broadcast use lemma_depth_of_join;

    reveal_with_fuel(depth_at, 8);
}

proof fn lemma_peer_rows_close(a: AdminApp, n: int)
    ensures
        depth(peer_rows(a, n)) == 0,
    decreases n,
{
    broadcast use lemma_depth_of_join;

    if n > 0 {
        let p = a.peers@[n - 1]@;
        lemma_peer_rows_close(a, n - 1);
        lemma_peer_closes(p, texts(a.active@).contains(p), a.act_id is Some);
    }
}

proof fn lemma_peers_closes(a: AdminApp)
    ensures
        depth(peers_pieces(a)) == 0,
{
    broadcast use lemma_depth_of_join;

    reveal_with_fuel(depth_at, 16);
    lemma_peer_rows_close(a, a.peers@.len() as int);
}

proof fn lemma_listing_closes(published: bool, busy: bool)
    ensures
        depth(listing_pieces(published, busy)) == 0,
{
    broadcast use lemma_depth_of_join;

    reveal_with_fuel(depth_at, 8);
}

proof fn lemma_directory_closes(a: AdminApp)
    ensures
        depth(directory_pieces(a)) == 0,
{
    broadcast use lemma_depth_of_join;

    reveal_with_fuel(depth_at, 8);
    lemma_listing_closes(a.directory.published, a.act_id is Some);
}

proof fn lemma_head_closes(a: AdminApp)
    ensures
        depth(title_pieces()) == 0,
        depth(flash_pieces(a)) == 0,
{
    reveal_with_fuel(depth_at, 9);
}

proof fn lemma_dashboard_closes(a: AdminApp)
    ensures
        depth(dashboard_pieces(a)) == 0,
{
    broadcast use lemma_depth_of_join;

    reveal_with_fuel(depth_at, 2);
    lemma_head_closes(a);
    lemma_tabs_closes(a);
    lemma_apps_closes(a);
    lemma_peers_closes(a);
    lemma_directory_closes(a);
}

/// Every container that the page opens it closes, whatever it shows.
pub proof fn lemma_page_closes_its_containers(a: AdminApp)
    ensures
        depth(admin_pieces(a)) == 0,
{
    broadcast use lemma_depth_of_join;

    reveal_with_fuel(depth_at, 2);
    lemma_head_closes(a);
    lemma_password_closes(true, a.pass_error@, a.auth_id is Some);
    lemma_password_closes(false, a.pass_error@, a.auth_id is Some);
    lemma_dashboard_closes(a);
}

/// Whether an operator may do something now. Without a session there is only the
/// password, once at a time; with one, an app can be deleted only where it was published, and nothing
/// that changes the node is offered while it is busy, but for adding a peer and the
/// switch of search by meaning.
pub open spec fn allowed(a: AdminApp, act: AdminAct<Seq<char>>) -> bool {
    let in_session = a.stage == Stage::Dashboard;
    let idle = a.act_id is None;
    match act {
        AdminAct::Enter => (a.stage == Stage::Setup || a.stage == Stage::Login) && a.auth_id is None,
        AdminAct::Delete(u) => in_session && idle && texts(a.mine@).contains(u),
        AdminAct::Remove(p) => in_session && idle && texts(a.peers@).contains(p),
        AdminAct::Publish => in_session && idle && a.directory.loaded && !a.directory.published,
        AdminAct::Unpublish => in_session && idle && a.directory.loaded && a.directory.published,
        AdminAct::FindPeers => in_session && idle && a.directory.loaded,
        AdminAct::ToggleAi => in_session && a.ai_on is Some,
        _ => in_session,
    }
}

/// Whether a piece offers only what is allowed.
pub open spec fn fits(a: AdminApp, p: AdminPiece) -> bool {
    p matches Item::Button(_, _, act) ==> allowed(a, act)
}

/// Whether the first pieces offer only what is allowed.
pub open spec fn all_fit_at(a: AdminApp, s: AdminPieces, n: int) -> bool
    decreases n,
{
    n <= 0 || (all_fit_at(a, s, n - 1) && fits(a, s[n - 1]))
}

/// Whether pieces offer only what is allowed.
pub open spec fn all_fit(a: AdminApp, s: AdminPieces) -> bool {
    all_fit_at(a, s, s.len() as int)
}

proof fn lemma_fit_within_join(a: AdminApp, s: AdminPieces, t: AdminPieces, n: int)
    requires
        all_fit(a, s),
        all_fit(a, t),
        0 <= n <= s.len() + t.len(),
    ensures
        all_fit_at(a, s + t, n),
    decreases n,
{
    if n > 0 {
        lemma_fit_within_join(a, s, t, n - 1);
        if n <= s.len() {
            lemma_fits_at(a, s, s.len() as int, n - 1);
        } else {
            lemma_fits_at(a, t, t.len() as int, n - 1 - s.len());
        }
    }
}

proof fn lemma_fits_at(a: AdminApp, s: AdminPieces, n: int, i: int)
    requires
        all_fit_at(a, s, n),
        0 <= i < n,
    ensures
        fits(a, s[i]),
    decreases n,
{
    if i < n - 1 {
        lemma_fits_at(a, s, n - 1, i);
    }
}

broadcast proof fn lemma_fit_of_join(a: AdminApp, s: AdminPieces, t: AdminPieces)
    requires
        all_fit(a, s),
        all_fit(a, t),
    ensures
        #[trigger] all_fit(a, s + t),
{
    lemma_fit_within_join(a, s, t, (s + t).len() as int);
}

proof fn lemma_app_rows_fit(a: AdminApp, n: int)
    requires
        a.stage == Stage::Dashboard,
        n <= a.apps@.len(),
    ensures
        all_fit(a, app_rows(a, n)),
    decreases n,
{
    broadcast use lemma_fit_of_join;

    reveal_with_fuel(all_fit_at, 8);
    if n > 0 {
        lemma_app_rows_fit(a, n - 1);
    }
}

proof fn lemma_apps_fit(a: AdminApp)
    requires
        a.stage == Stage::Dashboard,
    ensures
        all_fit(a, apps_pieces(a)),
{
    broadcast use lemma_fit_of_join;

    reveal_with_fuel(all_fit_at, 9);
    lemma_app_rows_fit(a, a.apps@.len() as int);
}

proof fn lemma_peer_rows_fit(a: AdminApp, n: int)
    requires
        a.stage == Stage::Dashboard,
        n <= a.peers@.len(),
    ensures
        all_fit(a, peer_rows(a, n)),
    decreases n,
{
    broadcast use lemma_fit_of_join;

    reveal_with_fuel(all_fit_at, 8);
    if n > 0 {
        lemma_peer_rows_fit(a, n - 1);
        assert(texts(a.peers@)[n - 1] == a.peers@[n - 1]@);
    }
}

proof fn lemma_peers_fit(a: AdminApp)
    requires
        a.stage == Stage::Dashboard,
    ensures
        all_fit(a, peers_pieces(a)),
{
    broadcast use lemma_fit_of_join;

    reveal_with_fuel(all_fit_at, 16);
    lemma_peer_rows_fit(a, a.peers@.len() as int);
}

proof fn lemma_directory_fits(a: AdminApp)
    requires
        a.stage == Stage::Dashboard,
    ensures
        all_fit(a, directory_pieces(a)),
{
    broadcast use lemma_fit_of_join;

    reveal_with_fuel(all_fit_at, 8);
}

proof fn lemma_head_fits(a: AdminApp)
    requires
        a.stage == Stage::Dashboard,
    ensures
        all_fit(a, title_pieces()),
        all_fit(a, flash_pieces(a)),
{
    reveal_with_fuel(all_fit_at, 9);
}

proof fn lemma_tabs_fit(a: AdminApp)
    requires
        a.stage == Stage::Dashboard,
    ensures
        all_fit(a, tabs_pieces(a)),
{
    broadcast use lemma_fit_of_join;

    reveal_with_fuel(all_fit_at, 8);
}

proof fn lemma_password_fits(a: AdminApp, setup: bool)
    requires
        a.stage == Stage::Setup || a.stage == Stage::Login,
    ensures
        all_fit(a, password_pieces(setup, a.pass_error@, a.auth_id is Some)),
{
    broadcast use lemma_fit_of_join;

    reveal_with_fuel(all_fit_at, 9);
}

proof fn lemma_dashboard_fits(a: AdminApp)
    requires
        a.stage == Stage::Dashboard,
    ensures
        all_fit(a, dashboard_pieces(a)),
{
    broadcast use lemma_fit_of_join;

    reveal_with_fuel(all_fit_at, 2);
    lemma_head_fits(a);
    lemma_tabs_fit(a);
    match a.tab {
        AdminTab::Apps => lemma_apps_fit(a),
        AdminTab::Peers => lemma_peers_fit(a),
        AdminTab::Directory => lemma_directory_fits(a),
    }
}

/// Every button of the page does what the operator may do now.
pub proof fn lemma_page_offers_what_is_allowed(a: AdminApp, i: int)
    requires
        0 <= i < admin_pieces(a).len(),
    ensures
        admin_pieces(a)[i] matches Item::Button(_, _, act) ==> allowed(a, act),
{
    broadcast use lemma_fit_of_join;

    reveal_with_fuel(all_fit_at, 2);
    match a.stage {
        Stage::Loading => {},
        Stage::Setup => lemma_password_fits(a, true),
        Stage::Login => lemma_password_fits(a, false),
        Stage::Dashboard => {
            lemma_head_fits(a);
            lemma_dashboard_fits(a);
        },
    }
    assert(all_fit(a, admin_pieces(a)));
    lemma_fits_at(a, admin_pieces(a), admin_pieces(a).len() as int, i);
}

} // verus!

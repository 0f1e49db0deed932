use annessaia::admin_app::{AdminApp, AdminTab};
use annessaia::admin_page::{admin_page, AdminAct};
use annessaia::calculator::{Calc, Number};
use annessaia::calculator_page::{calculator_page, Press};
use annessaia::color::Color;
use annessaia::gallery::Gallery;
use annessaia::gallery_page::{gallery_page, GalleryAct, VOLUME_SLIDER};
use annessaia::page::{Item, Look};
use annessaia::requests::Ended;
use annessaia::search_app::SearchApp;
use annessaia::search_page::{search_page, Act, Liked};
use annessaia::vectors::{embed_document, embed_query};

/// The labels of the buttons.
fn buttons<A>(page: &[Item<String, A>]) -> Vec<String> {
    let mut out = Vec::new();
    for p in page {
        if let Item::Button(s, _, _) = p {
            out.push(s.trim().to_string());
        }
    }
    out
}

/// The texts that are shown, in order.
fn texts<A>(page: &[Item<String, A>]) -> Vec<String> {
    let mut out = Vec::new();
    for p in page {
        match p {
            Item::Heading(s) | Item::Label(s) | Item::Small(s) | Item::Code(s) => out.push(s.clone()),
            Item::Colored(s, _) | Item::Text(s, _, _) | Item::Badge(s, _) => out.push(s.clone()),
            _ => {}
        }
    }
    out
}

fn has<A>(page: &[Item<String, A>], s: &str) -> bool {
    texts(page).iter().any(|t| t == s)
}

/// How many containers are left open; none may close before it is opened.
fn depth<A>(page: &[Item<String, A>]) -> i32 {
    let mut n = 0;
    for p in page {
        match p {
            Item::RowBegin | Item::CardBegin | Item::TintedCard(_) | Item::ColumnsBegin(_) => n += 1,
            Item::RowEnd | Item::CardEnd | Item::ColumnsEnd => n -= 1,
            _ => {}
        }
        assert!(n >= 0);
    }
    n
}

fn done(s: &str) -> Ended {
    Ended::Done(s.to_string())
}

#[test]
fn the_search_page_starts_at_home() {
    let a = SearchApp::new("http://n".to_string(), false);
    let page = search_page(&a, &Vec::new(), "", "");
    assert_eq!(depth(&page), 0);
    assert_eq!(
        buttons(&page),
        ["Search", "+ Submit App", "AI search: ON", "Search", "Browse all", "Debug", "game", "tool", "art", "demo"]
    );
    assert_eq!(texts(&page)[..3], ["annessaia", "search", "Discover and share WASM apps."]);
    assert!(page.iter().any(|p| matches!(p, Item::Button(_, Look::Faint, Act::SearchFor(s)) if s == "art")));
    assert!(page.iter().any(|p| matches!(p, Item::Field(0, hint) if hint == "Search by name, tag, or description…")));
}

#[test]
fn the_search_page_shows_cards() {
    let mut a = SearchApp::new("http://n".to_string(), false);
    let mut out = Vec::new();
    a.fetch_all(&mut out);
    a.search_done("Paint\tdraw things\thttp://p\tann\tart,tools\tsnip\n");
    a.stats_done("http://p\t4.5\t2\t9\n");
    let liked = vec![Liked { filled: 4, average: "4.5".to_string() }];
    let page = search_page(&a, &liked, "", "");
    assert_eq!(depth(&page), 0);
    for s in ["Paint", "art", "tools", "draw things", "snip"] {
        assert!(has(&page, s), "{s}");
    }
    assert!(page.iter().any(|p| matches!(p, Item::Button(_, _, Act::Open(u)) if u == "http://p")));
    assert!(page.iter().any(|p| matches!(p, Item::Button(_, _, Act::ToggleReviews(u)) if u == "http://p")));
    assert!(!page.iter().any(|p| matches!(p, Item::Button(_, _, Act::Rate(_, _)))));
    a.toggle_rating("http://p");
    a.toggle_reviews("http://p", &mut out);
    a.reviews_done("3\t10\tfine\n");
    let page = search_page(&a, &liked, "", "");
    assert_eq!(depth(&page), 0);
    assert!(has(&page, "fine"));
    let mut stars = Vec::new();
    for p in &page {
        if let Item::Button(_, _, Act::Rate(u, n)) = p {
            assert_eq!(u, "http://p");
            stars.push(*n);
        }
    }
    assert_eq!(stars, [1, 2, 3, 4, 5]);
}

#[test]
fn a_read_only_index_takes_no_submissions() {
    let a = SearchApp::new("http://n".to_string(), true);
    let page = search_page(&a, &Vec::new(), "", "");
    assert_eq!(depth(&page), 0);
    assert!(!buttons(&page).contains(&"+ Submit App".to_string()));
    assert!(has(&page, "Want to publish an app?"));
}

#[test]
fn the_admin_page_offers_what_is_allowed() {
    let mut out = Vec::new();
    let mut a = AdminApp::new("http://n".to_string(), &mut out);
    assert!(has(&admin_page(&a), "Checking server…"));
    assert!(buttons(&admin_page(&a)).is_empty());
    a.status_done(done("0"));
    assert_eq!(buttons(&admin_page(&a)), ["Create password"]);
    a.status_done(done("1"));
    assert_eq!(buttons(&admin_page(&a)), ["Log in"]);
    assert!(has(&admin_page(&a), "Admin login"));
    a.enter("longenough", None, &mut out);
    assert!(buttons(&admin_page(&a)).is_empty() && has(&admin_page(&a), "WORKING…"));
    a.auth_done(done("ok\tabc"), &mut out);
    a.apps_done(done("P\td\thttp://p\tann\tt\t\nQ\td\thttp://q\tann\tt\t\n"));
    a.mine_done(done("http://p\n"));
    assert!(!buttons(&admin_page(&a)).contains(&"AI on server: ON".to_string()));
    a.ai_done(done("1"));
    let page = admin_page(&a);
    assert!(buttons(&page).contains(&"AI on server: ON".to_string()));
    assert!(has(&page, "AI on server applies to every user of this node, not just to you."));
    assert_eq!(depth(&page), 0);
    assert!(has(&page, "1 yours"));
    let deletes = |page: &[Item<String, AdminAct<String>>]| {
        let mut urls = Vec::new();
        for p in page {
            if let Item::Button(_, _, AdminAct::Delete(u)) = p {
                urls.push(u.clone());
            }
        }
        urls
    };
    assert_eq!(deletes(&page), ["http://p"]);
    a.delete("http://p", &mut out);
    assert!(deletes(&admin_page(&a)).is_empty());
    a.action_done(done("ok\tdeleted"), &mut out);
    a.peers_done(done("http://r\n"));
    a.show_tab(AdminTab::Peers);
    let page = admin_page(&a);
    assert_eq!(depth(&page), 0);
    assert!(page.iter().any(|p| matches!(p, Item::Button(_, _, AdminAct::Remove(u)) if u == "http://r")));
    a.show_tab(AdminTab::Directory);
    a.directory_done(done("https://d\ttrue\thttp://n"));
    let page = admin_page(&a);
    assert_eq!(depth(&page), 0);
    assert!(page.iter().any(|p| matches!(p, Item::Button(_, _, AdminAct::Unpublish))));
    assert!(!page.iter().any(|p| matches!(p, Item::Button(_, _, AdminAct::Publish))));
}

#[test]
fn the_calculator_shows_its_keys() {
    let mut c = Calc::new(Number(0));
    let page = calculator_page(&c);
    assert_eq!(depth(&page), 0);
    assert_eq!(texts(&page)[..3], ["Calculator", " ", "0"]);
    let mut marks = String::new();
    for p in &page {
        if let Item::Button(_, _, Press(m)) = p {
            marks.push(*m);
        }
    }
    assert_eq!(marks.chars().filter(|m| m.is_ascii_digit()).count(), 10);
    assert_eq!(marks.chars().last(), Some('='));
    for d in "123456789".chars() {
        c.digit(d);
    }
    assert!(calculator_page(&c).iter().any(|p| matches!(p, Item::Text(s, 32, _) if s == "123456789")));
}

#[test]
fn the_gallery_shows_every_widget() {
    let mut g = Gallery::new(&mut Vec::new());
    let page = gallery_page(&g);
    assert_eq!(depth(&page), 0);
    let entries = page.iter().filter(|p| matches!(p, Item::Text(_, 15, _))).count();
    assert_eq!(entries, 22);
    let mut sections = Vec::new();
    for p in &page {
        if let Item::Text(s, 20, c) = p {
            if *c == Color::white() {
                sections.push(s.as_str());
            }
        }
    }
    assert_eq!(
        sections,
        ["Text", "Buttons", "Input", "Layout", "Containers", "Sound", "Putting it together"]
    );
    assert!(has(&page, "    sound::play(CLICK);") && has(&page, "STOPPED") && has(&page, "0"));
    assert!(page.iter().any(|p| matches!(p, Item::Button(_, Look::Success, GalleryAct::StartLoop))));
    assert!(!page.iter().any(|p| matches!(p, Item::Slider(VOLUME_SLIDER, ..))));
    g.loop_started(3);
    g.count(false);
    g.count(false);
    let page = gallery_page(&g);
    assert_eq!(depth(&page), 0);
    assert!(has(&page, "LOOPING") && !has(&page, "STOPPED"));
    assert!(page.iter().any(|p| matches!(p, Item::Slider(VOLUME_SLIDER, s, 0, 2, 1) if s == "Volume")));
    assert!(page.iter().any(|p| matches!(p, Item::Badge(s, c) if s == "-2" && *c == Color::red())));
    g.counter = i32::MIN;
    assert!(has(&gallery_page(&g), "-2147483648"));
}

#[test]
fn texts_to_embed_are_marked_and_cut() {
    assert_eq!(embed_document("a chart"), "title: none | text: a chart");
    assert_eq!(embed_document(&"x".repeat(2000)).chars().count(), 1000);
    assert!(embed_query("a chart").ends_with("a chart"));
    assert_ne!(embed_query("a chart"), embed_document("a chart"));
}

#[test]
fn rules_and_gaps_are_drawn_in_order() {
    let mut ui = annessaia::widget::new_ui();
    annessaia::widget::separator(&mut ui);
    annessaia::widget::space(&mut ui, annessaia::widget::Float(8.0f32.to_bits()));
    assert_eq!(ui.widgets.len(), 2);
    assert!(matches!(ui.widgets[0], annessaia::widget::WidgetCmd::Separator));
    assert!(matches!(&ui.widgets[1], annessaia::widget::WidgetCmd::Space(px) if px.0 == 8.0f32.to_bits()));
}

use annessaia::admin_app::{parse_rows, AdminApp, AdminTab, Stage};
use annessaia::requests::{first_line, read_verdict, Ended, Request, Verdict};
use annessaia::search_app::{
    parse, parse_reviews, parse_stats, Form, Hosting, Meant, Progress, SearchApp, Tab,
};
use annessaia::search_view::{
    count_text, page_text, size_text, stars_text, window, window_text, Body, FormEnd, ReviewPanel,
};
use annessaia::urls::{encode, plus_for_blanks, url_encode_vec};

const NODE: &str = "http://n";

fn url_of(r: &Request) -> &str {
    match r {
        Request::Get { url, .. } | Request::Post { url, .. } | Request::PostBytes { url, .. } => url,
        Request::Navigate { url } => url,
        _ => "",
    }
}

fn done(s: &str) -> Ended {
    Ended::Done(s.to_string())
}

#[test]
fn queries_are_escaped() {
    assert_eq!(encode("a b/ü~"), "a%20b%2F%C3%BC~");
    assert_eq!(url_encode_vec("a+/=b"), "a%2B%2F%3Db");
    assert_eq!(plus_for_blanks("a b c"), "a+b+c");
}

#[test]
fn replies_of_a_node() {
    assert!(matches!(read_verdict("ok\tdone\nmore"), Verdict::Yes(ref m) if m == "done"));
    assert!(matches!(read_verdict("err\twhy"), Verdict::No(ref m) if m == "why"));
    assert!(matches!(read_verdict("what"), Verdict::Unclear(ref m) if m == "what"));
    assert_eq!(first_line("a\r\nb"), "a");
    assert_eq!(first_line(""), "");
}

#[test]
fn a_search_asks_by_keyword_and_then_by_meaning() {
    let mut a = SearchApp::new(NODE.to_string(), false);
    let mut out = Vec::new();
    a.run_search("red paint", &mut out);
    assert_eq!(url_of(&out[0]), "http://n/api/search?q=red+paint");
    assert_eq!(url_of(&out[1]), "http://n/api/stats");
    assert!(matches!(out[2], Request::Embed { ref text, .. } if text == "red paint"));
    assert_eq!(a.meant, Meant::Computing);
    a.search_done("Paint\tdraw\thttp://p\tann\tart,tools\tsnip\n\n");
    assert_eq!(a.results.len(), 1);
    assert_eq!(a.results[0].tags, "art,tools");
    out.clear();
    a.embed_done(done("AA+="), &mut out);
    assert_eq!(url_of(&out[0]), "http://n/api/search?q=red+paint&vec=AA%2B%3D");
    assert_eq!(a.meant, Meant::Idle);
    a.run_search("x", &mut out);
    a.embed_done(Ended::Failed, &mut out);
    assert_eq!(a.meant, Meant::Unavailable);
    assert_eq!(a.notice(), Meant::Unavailable);
}

#[test]
fn a_search_without_meaning_embeds_nothing() {
    let mut a = SearchApp::new(NODE.to_string(), false);
    let mut out = Vec::new();
    a.toggle_ai("", &mut out);
    out.clear();
    a.run_search("x", &mut out);
    assert_eq!(out.len(), 2);
}

#[test]
fn cards_show_what_is_known() {
    let mut a = SearchApp::new(NODE.to_string(), false);
    let mut out = Vec::new();
    assert_eq!(a.body(), Body::Home);
    a.fetch_all(&mut out);
    a.search_done("Paint\tdraw\thttp://p\tann\tart, tools,,\tsnip\n");
    a.stats_done("http://p\t4.5\t2\t9\nbroken\n");
    let c = a.card(0);
    assert_eq!(c.tags, vec!["art".to_string(), "tools".to_string()]);
    assert_eq!((c.avg.as_str(), c.votes, c.opens), ("4.5", 2, 9));
    assert!(matches!(a.body(), Body::Results(_)));
    a.search_done("");
    assert_eq!(a.body(), Body::Empty);
    assert_eq!(parse("a\tb\n").len(), 1);
    assert_eq!(parse_stats("u\t1.0\tx\t3\n")[0].votes, 0);
    assert!(parse_stats("u\t1.0\t2\n").is_empty());
    let r = parse_reviews("5\t10\tgreat\n4\t11\n");
    assert_eq!(r.len(), 1);
    assert_eq!((r[0].stars, r[0].text.as_str()), (5, "great"));
}

#[test]
fn reviews_and_ratings() {
    let mut a = SearchApp::new(NODE.to_string(), false);
    let mut out = Vec::new();
    a.toggle_reviews("http://p/x", &mut out);
    assert_eq!(url_of(&out[0]), "http://n/api/reviews?url=http%3A%2F%2Fp%2Fx");
    assert!(matches!(a.review_panel(), ReviewPanel::Loading));
    a.reviews_done("3\t10\tfine\n");
    match a.review_panel() {
        ReviewPanel::Reviews(r) => assert_eq!(r, vec![("★★★☆☆".to_string(), "fine".to_string())]),
        _ => panic!(),
    }
    a.toggle_reviews("http://p/x", &mut out);
    assert_eq!(a.reviews_for, "");
    a.toggle_rating("http://p/x");
    assert_eq!(a.rating_for, "http://p/x");
    out.clear();
    a.rate("http://p/x", 4, "ok", &mut out);
    match &out[0] {
        Request::Post { url, body, .. } => {
            assert_eq!(url, "http://n/api/rate");
            assert_eq!(body, "http://p/x\t4\tok");
        }
        _ => panic!(),
    }
}

#[test]
fn opening_counts_and_goes_there() {
    let mut a = SearchApp::new(NODE.to_string(), false);
    let mut out = Vec::new();
    a.open("http://p", &mut out);
    assert!(out.iter().any(|r| matches!(r, Request::Navigate { url } if url == "http://p")));
    assert!(out.iter().any(|r| matches!(r, Request::Post { url, body, .. } if url == "http://n/api/open" && body == "http://p")));
}

#[test]
fn a_submission_uploads_first_where_the_node_hosts() {
    let mut a = SearchApp::new(NODE.to_string(), false);
    let mut out = Vec::new();
    a.show_tab(Tab::Submit);
    assert_eq!(a.current_tab(), Tab::Submit);
    let form = || Form {
        name: "My App".to_string(),
        desc: "d".to_string(),
        author: "me".to_string(),
        tags: "t".to_string(),
    };
    a.set_hosting(Hosting::Here);
    assert!(!a.ready("My App", ""));
    a.picked_file("app.wasm".to_string(), vec![0; 2048]);
    assert!(a.ready("My App", ""));
    assert_eq!(size_text(2048), a.picked_text().unwrap().1);
    a.submit(form(), "", &mut out);
    assert!(matches!(out[0], Request::PostBytes { ref bytes, .. } if bytes.len() == 2048));
    assert!(url_of(&out[0]).starts_with("http://n/api/upload?name="));
    assert_eq!(a.progress, Progress::Pending);
    a.upload_done(done("ok\thttp://n/apps/my-app.wasm"), &mut out);
    match &out[1] {
        Request::Post { url, body, .. } => {
            assert_eq!(url, "http://n/api/submit");
            assert_eq!(body, "My App\td\thttp://n/apps/my-app.wasm\tme\tt");
        }
        _ => panic!(),
    }
    a.submit_done(&mut out);
    assert_eq!(a.progress, Progress::Done);
    assert!(matches!(a.form_end("My App", ""), FormEnd::Submitted(_)));
    a.submit_another();
    assert_eq!(a.progress, Progress::Idle);
    a.set_hosting(Hosting::Elsewhere);
    out.clear();
    a.submit(form(), "http://else", &mut out);
    assert!(matches!(out[0], Request::Post { ref body, .. } if body == "My App\td\thttp://else\tme\tt"));
    a.cancel();
    assert_eq!(a.progress, Progress::Idle);
}

#[test]
fn a_refused_upload_says_why() {
    let mut a = SearchApp::new(NODE.to_string(), false);
    let mut out = Vec::new();
    a.set_hosting(Hosting::Here);
    a.picked_file("app.wasm".to_string(), vec![0; 4]);
    let form = Form { name: "N".to_string(), desc: String::new(), author: String::new(), tags: String::new() };
    a.submit(form, "", &mut out);
    a.upload_done(done("err\tname is too long"), &mut out);
    assert_eq!(a.progress, Progress::Failed);
    match a.form_end("N", "") {
        FormEnd::Failed(why, _) => assert!(why.contains("name is too long")),
        _ => panic!(),
    }
    a.try_again();
    assert_eq!(a.progress, Progress::Idle);
}

#[test]
fn pages_cover_all_results() {
    for total in [1usize, 7, 8, 9, 24, 25] {
        let pages = window(total, 0).pages;
        assert_eq!(pages, (total + 7) / 8);
        let mut next = 0;
        for p in 0..pages {
            let w = window(total, p);
            assert_eq!(w.start, next);
            next = w.end;
        }
        assert_eq!(next, total);
        assert_eq!(window(total, 99).page, pages - 1);
    }
    let w = window(20, 1);
    assert_eq!((w.start, w.end), (8, 16));
    assert_eq!(window_text(&w), "showing 9–16 · page 2 of 3");
    assert_eq!(page_text(&w), "page 2 of 3");
    assert_eq!((count_text(1, "vote"), count_text(2, "vote")), ("1 vote".to_string(), "2 votes".to_string()));
    assert_eq!(stars_text(4), "★★★★☆");
}

#[test]
fn the_admin_page_asks_for_a_password_first() {
    let mut out = Vec::new();
    let mut a = AdminApp::new(NODE.to_string(), &mut out);
    assert_eq!(url_of(&out[0]), "http://n/api/admin/status");
    a.status_done(done("0"));
    assert_eq!(a.stage, Stage::Setup);
    a.enter("short", None, &mut out);
    assert_eq!(a.pass_error, "Password must be at least 8 characters.");
    a.enter("éééé", None, &mut out);
    assert_eq!(a.pass_error, "Password must be at least 8 characters.");
    a.enter("longenough", Some("different!"), &mut out);
    assert_eq!(a.pass_error, "Passwords don't match.");
    assert_eq!(out.len(), 1);
    a.enter("longenough", Some("longenough"), &mut out);
    assert_eq!(url_of(&out[1]), "http://n/api/admin/setup");
    out.clear();
    a.auth_done(done("ok\tabc"), &mut out);
    assert_eq!(a.stage, Stage::Dashboard);
    assert_eq!(out.len(), 6);
    assert!(out.iter().all(|r| url_of(r).ends_with("?token=abc")));
}

#[test]
fn a_lost_session_leads_back_to_the_login() {
    let mut out = Vec::new();
    let mut a = AdminApp::new(NODE.to_string(), &mut out);
    a.status_done(done("1"));
    assert_eq!(a.stage, Stage::Login);
    a.enter("longenough", None, &mut out);
    assert_eq!(url_of(&out[1]), "http://n/api/admin/login");
    a.auth_done(done("err\twrong password"), &mut out);
    assert_eq!(a.stage, Stage::Login);
    assert!(a.pass_error.contains("wrong password"));
    a.auth_done(done("ok\tabc"), &mut out);
    a.apps_done(done("P\td\thttp://p\tann\tt\t\n"));
    a.mine_done(done("http://p\n"));
    a.peers_done(done("http://q\nhttp://r\n"));
    a.active_done(done("http://q\n"));
    assert!(a.owns("http://p") && !a.owns("http://x"));
    assert!(a.is_live("http://q") && !a.is_live("http://r"));
    a.directory_done(done("https://d\ttrue\thttp://n"));
    assert!(a.directory.published && a.directory.loaded);
    a.ai_done(done("1"));
    assert_eq!(a.ai_on, Some(true));
    out.clear();
    a.delete("http://p", &mut out);
    assert!(matches!(out[0], Request::Post { ref url, ref body, .. } if url == "http://n/api/revoke?token=abc" && body == "http://p"));
    assert!(a.busy());
    a.action_done(done("ok\tdeleted"), &mut out);
    assert!(!a.busy());
    a.clear_flash();
    a.show_tab(AdminTab::Peers);
    a.toggle_ai(&mut out);
    assert!(matches!(out.last(), Some(Request::Post { url, body, .. }) if url.starts_with("http://n/api/admin/ai") && body == "0"));
    a.peers_done(done("unauthorized"));
    assert_eq!(a.stage, Stage::Login);
    assert_eq!(a.session, "");
    assert_eq!(parse_rows("P\td\thttp://p\tann\tt\t\n")[0].author, "ann");
}

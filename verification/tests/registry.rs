use annessaia::entry::App;
use annessaia::gossip::{greeting, read_message, Message, Node};
use annessaia::node::node_id;
use annessaia::peers::{
    bootstrap, default_directory, directory_answer, directory_body, directory_endpoint, listed_peers,
    next_wait, supervise, to_ws_url, Asked, FIRST_WAIT, LONGEST_WAIT,
};
use annessaia::ratings::{
    checked_open_count, merge_opens, merge_rating, open_count, opens_file, opens_from, rating_from,
    ratings_file, read_opens, read_ratings, score, written_reviews, Rating,
};
use annessaia::ledger::Ledger;
use annessaia::registry::{
    announce, entries_file, hosted_file, keep_review, read_entries, revoke_line, revoke_reply, submit,
    Files, Registry, Revocation, Signal,
};
use annessaia::reports::Closeness;

fn files() -> Files {
    Files {
        approved: String::new(),
        peers: String::new(),
        mine: None,
        ratings: String::new(),
        opens: String::new(),
        published: false,
    }
}

fn registry() -> Registry {
    Registry::load(&files(), "secret".to_string(), "http://me:1/".to_string())
}

fn node() -> Node {
    Node { registry: registry(), active: Vec::new() }
}

fn bytes(s: &str) -> Vec<u8> {
    s.as_bytes().to_vec()
}

fn app(line: &str) -> App {
    submit(&bytes(line)).unwrap()
}

#[test]
fn submissions_are_read_and_checked() {
    let a = app(" Paint \tdraw things\thttp://x/p.wasm\tann\tart, tools\tpixel art");
    assert_eq!(a.name, "Paint");
    assert_eq!(a.desc, "draw things");
    assert_eq!(a.url, "http://x/p.wasm");
    assert_eq!(a.author, "ann");
    assert_eq!(a.tags, "art, tools");
    assert_eq!(a.doc_snippet, "pixel art");
    assert_eq!(a.vec, "");
    assert_eq!(a.doc_vec, "");
    assert_eq!(submit(&bytes("Paint\tx\t\t")).unwrap_err(), "name and url are required");
    assert_eq!(submit(&bytes("\tx\thttp://a")).unwrap_err(), "name and url are required");
    assert_eq!(submit(&bytes("Paint\tx\tftp://a")).unwrap_err(), "url must start with http");
    // A content vector that is not one of the model in use is dropped.
    assert_eq!(app("P\td\thttp://a\tn\tt\tdoc\tAAEC").doc_vec, "");
}

#[test]
fn rows_come_back_as_they_were() {
    let a = App {
        name: "N".to_string(),
        desc: "D d".to_string(),
        url: "http://u".to_string(),
        author: "A".to_string(),
        tags: "t".to_string(),
        doc_snippet: "s".to_string(),
        vec: "dmVj".to_string(),
        doc_vec: "ZG9j".to_string(),
    };
    assert_eq!(a.to_tsv(), "N\tD d\thttp://u\tA\tt\ts");
    assert_eq!(a.to_wire(), "N\tD d\thttp://u\tA\tt\ts\tdmVj\tZG9j");
    assert_eq!(App::from_wire(&a.to_wire()).unwrap().to_wire(), a.to_wire());
    assert_eq!(App::from_tsv(&a.to_tsv()).unwrap().to_tsv(), a.to_tsv());
    assert!(App::from_tsv("no url\t\t").is_none());
    assert_eq!(announce(&a), "ANNOUNCE N\tD d\thttp://u\tA\tt\ts\tdmVj\tZG9j");
    match read_message(&announce(&a)) {
        Message::Announce(b) => assert_eq!(b.to_wire(), a.to_wire()),
        _ => panic!(),
    }
    let all = vec![a];
    let back = read_entries(&entries_file(&all));
    assert_eq!(back.len(), 1);
    assert_eq!(back[0].to_wire(), all[0].to_wire());
}

#[test]
fn publishing_adds_then_keeps_then_replaces() {
    let mut r = registry();
    let o = r.publish(&app("P\td\thttp://a\tn\tt\t"));
    assert_eq!(o.reply, "ok\tpublished");
    assert_eq!(o.broadcast.unwrap(), "ANNOUNCE P\td\thttp://a\tn\tt\t\t\t");
    assert!(o.dirty.approved && o.dirty.mine && !o.dirty.peers);
    let o = r.publish(&app("P\td\thttp://a\tn\tt\t"));
    assert_eq!(o.reply, "ok\tno changes");
    assert!(o.broadcast.is_none());
    let o = r.publish(&app("P2\td\thttp://a\tn\tt\t"));
    assert_eq!(o.reply, "ok\tpublished");
    assert_eq!(r.approved.len(), 1);
    assert_eq!(r.approved[0].name, "P2");
    assert_eq!(r.mine, vec!["http://a".to_string()]);
    assert_eq!(r.index(), "P2\td\thttp://a\tn\tt\t");
}

#[test]
fn delisting_is_for_those_who_published() {
    let mut r = registry();
    r.publish(&app("P\td\thttp://me:1/apps/p.wasm\tn\tt\t"));
    assert!(r.receive(&app("Q\td\thttp://b\tn\tt\t")));
    match r.api_revoke(&bytes("http://nowhere")) {
        Revocation::Refused(m) => assert_eq!(m, "err\tnot in this registry"),
        _ => panic!(),
    }
    match r.api_revoke(&bytes("http://b")) {
        Revocation::Refused(m) => {
            assert_eq!(m, "err\tyou can only delete apps published from this node")
        }
        _ => panic!(),
    }
    match r.api_revoke(&bytes(" http://me:1/apps/p.wasm\n")) {
        Revocation::Removed(u, f) => {
            assert_eq!(u, "http://me:1/apps/p.wasm");
            assert_eq!(f.unwrap(), "p.wasm");
        }
        _ => panic!(),
    }
    assert!(!r.has_approved("http://me:1/apps/p.wasm"));
    assert!(r.has_approved("http://b"));
    assert!(r.mine.is_empty());
    assert_eq!(revoke_line("http://a"), "REVOKE http://a");
    assert!(revoke_reply(true).starts_with("ok\t"));
    assert!(hosted_file("http://me:1", "http://me:1/apps/../x").is_none());
    assert!(hosted_file("http://me:1", "http://me:1/apps/a/b").is_none());
    assert!(hosted_file("http://me:1", "http://other/apps/a").is_none());
}

#[test]
fn ratings_are_checked_and_the_newer_wins() {
    let mut r = registry();
    r.publish(&app("P\td\thttp://a\tn\tt\t"));
    let refused = [
        ("http://a", "err\turl and stars are required"),
        ("http://a\tfive", "err\tstars must be a number"),
        ("http://a\t300", "err\tstars must be a number"),
        ("http://a\t6", "err\tstars must be between 1 and 5"),
        ("http://a\t0", "err\tstars must be between 1 and 5"),
        ("http://zzz\t5", "err\tthat app is not in this registry"),
    ];
    for (body, reply) in refused {
        let o = r.api_rate(&bytes(body), 10);
        assert_eq!(o.reply, reply);
        assert!(o.broadcast.is_none() && !o.dirty.ratings);
    }
    let o = r.api_rate(&bytes("http://a\t4\tnice\tone"), 10);
    assert_eq!(o.reply, "ok\trated");
    let me = node_id("secret");
    assert_eq!(o.broadcast.unwrap(), format!("RATE http://a\t{me}\t4\t10\tnice one"));
    assert_eq!(r.api_rate(&bytes("http://a\t1"), 10).reply, "ok\tunchanged");
    assert_eq!(score(&r.ratings, "http://a"), (4, 1));
    assert_eq!(r.api_rate(&bytes("http://a\t1"), 11).reply, "ok\trated");
    assert_eq!(score(&r.ratings, "http://a"), (1, 1));
    assert_eq!(keep_review(&"x\ty\n".repeat(300)).chars().count(), 500);
}

#[test]
fn opens_are_counted() {
    let mut r = registry();
    r.publish(&app("P\td\thttp://a\tn\tt\t"));
    let me = node_id("secret");
    let o = r.api_open(&bytes(" http://a\n")).unwrap();
    assert_eq!(o.reply, "ok\tcounted");
    assert_eq!(o.broadcast.unwrap(), format!("OPENS http://a\t{me}\t1"));
    let o = r.api_open(&bytes("http://a")).unwrap();
    assert_eq!(o.broadcast.unwrap(), format!("OPENS http://a\t{me}\t2"));
    assert_eq!(r.api_open(&bytes("http://b")).unwrap().reply, "err\tunknown app");
    assert_eq!(r.opened_here("http://a"), 2);
    assert_eq!(open_count(&r.opens, "http://a"), 2);
    assert_eq!(r.stats(&vec!["0.0".to_string()]).unwrap(), "http://a\t0.0\t0\t2");
}

#[test]
fn nodes_that_hear_the_same_agree() {
    let votes = [("v1", 3u8, 5u64), ("v2", 5, 6), ("v1", 1, 9), ("v3", 9, 9)];
    let mut one: Ledger<Rating> = Ledger::new();
    let mut other: Ledger<Rating> = Ledger::new();
    for (v, stars, ts) in votes {
        merge_rating(&mut one, "u", v, Rating { stars, ts, text: String::new() });
    }
    for (v, stars, ts) in votes.into_iter().rev() {
        merge_rating(&mut other, "u", v, Rating { stars, ts, text: String::new() });
    }
    assert_eq!(score(&one, "u"), (6, 2));
    assert_eq!(score(&other, "u"), (6, 2));
    let mut o: Ledger<u64> = Ledger::new();
    assert!(merge_opens(&mut o, "u", "n1", 4));
    assert!(!merge_opens(&mut o, "u", "n1", 4));
    assert!(!merge_opens(&mut o, "u", "n1", 2));
    assert!(merge_opens(&mut o, "u", "n2", 3));
    assert_eq!(checked_open_count(&o, "u"), Some(7));
    assert!(merge_opens(&mut o, "u", "n3", u64::MAX));
    assert_eq!(checked_open_count(&o, "u"), None);
}

#[test]
fn ratings_of_one_instant_agree_in_any_order() {
    let votes = [(4u8, "b"), (5, "a"), (5, "ab"), (5, ""), (3, "z")];
    for turn in 0..votes.len() {
        let mut l: Ledger<Rating> = Ledger::new();
        for k in 0..votes.len() {
            let (stars, text) = votes[(k + turn) % votes.len()];
            merge_rating(&mut l, "u", "v", Rating { stars, ts: 7, text: text.to_string() });
        }
        assert_eq!(score(&l, "u"), (5, 1));
        assert_eq!(written_reviews(&l, "u"), "5\t7\tab");
        assert!(!merge_rating(&mut l, "u", "v", Rating { stars: 5, ts: 7, text: "ab".to_string() }));
        assert!(merge_rating(&mut l, "u", "v", Rating { stars: 1, ts: 8, text: String::new() }));
    }
}

#[test]
fn a_vector_of_another_model_is_news_once() {
    let mut r = registry();
    let mut a = app("Q\td\thttp://b\tn\tt\t");
    assert!(r.receive(&a));
    a.vec = "AAEC".to_string();
    assert!(r.receive(&a));
    assert!(!r.receive(&a));
    assert_eq!(r.approved[0].vec, "AAEC");
}

#[test]
fn files_come_back_as_they_were() {
    let ratings = "u\tv1\t3\t5\tgood\nu\tv2\t5\t6\t\n";
    let back = read_ratings(ratings);
    assert_eq!(score(&back, "u"), (8, 2));
    assert_eq!(read_ratings(&ratings_file(&back)).rows.len(), 2);
    assert_eq!(written_reviews(&back, "u"), "3\t5\tgood");
    let opens = read_opens("u\tn\t7\nbroken\nu\tm\tx\n");
    assert_eq!(opens.rows.len(), 1);
    assert_eq!(open_count(&read_opens(&opens_file(&opens)), "u"), 7);
    assert!(rating_from("u\tv\t3").is_none());
    assert!(opens_from("u\tv").is_none());
}

#[test]
fn reviews_come_newest_first() {
    let r = read_ratings("u\ta\t3\t5\told\nu\tb\t4\t9\tnew\nu\tc\t1\t7\t\nw\td\t1\t8\tother\n");
    assert_eq!(written_reviews(&r, "u"), "4\t9\tnew\n3\t5\told");
}

#[test]
fn searching_admits_and_orders() {
    let mut r = registry();
    for l in ["Zed\tpaint tool\thttp://z\tn\tt\t", "Abe\tmusic\thttp://a\tn\tt\t", "Kim\tpaints\thttp://k\tn\tt\t"] {
        r.publish(&app(l));
    }
    let plain = |key: u64| Signal { key, close: false };
    let found = r.search("paints", &vec![plain(1), plain(9), plain(1)]);
    assert_eq!(found, "Kim\tpaints\thttp://k\tn\tt\t\nZed\tpaint tool\thttp://z\tn\tt\t");
    let found = r.search("paints", &vec![plain(2), Signal { key: 5, close: true }, plain(1)]);
    assert!(found.starts_with("Abe"));
    assert_eq!(found.lines().count(), 3);
    assert_eq!(r.search("nothing", &vec![plain(1), plain(1), plain(1)]), "");
    let c = |key: u64| Closeness { key, described: "0.5".to_string(), documented: "-".to_string() };
    let report = r.search_report("music", "head", &vec![c(1), c(2), c(3)]);
    assert_eq!(report, "head\nKim\t-\t0.5\t-\nAbe\tkeyword\t0.5\t-\nZed\t-\t0.5\t-");
}

#[test]
fn a_peer_that_says_hello_hears_everything() {
    let mut n = node();
    n.registry.publish(&app("P\td\thttp://a\tn\tt\t"));
    assert_eq!(greeting("http://me:1"), "HELLO http://me:1");
    let r = n.hear("HELLO http://p1\n");
    assert_eq!(r.joined.unwrap(), "http://p1");
    assert_eq!(r.replies, vec!["ANNOUNCE P\td\thttp://a\tn\tt\t\t\t".to_string()]);
    let r = n.hear("HELLO http://p2");
    assert_eq!(r.replies[1], "DISCOVER http://p1");
    assert_eq!(n.recipients(&Some("http://p1".to_string())), vec!["http://p2".to_string()]);
    n.left("http://p2");
    assert_eq!(n.recipients(&None), vec!["http://p1".to_string()]);
}

#[test]
fn gossip_passes_news_on_once() {
    let mut n = node();
    let line = "ANNOUNCE Q\td\thttp://q\tn\tt\t\t\t";
    assert_eq!(n.hear(line).broadcast.unwrap(), line);
    assert!(n.hear(line).broadcast.is_none());
    let line = "RATE http://q\tv\t4\t7\tok";
    assert_eq!(n.hear(line).broadcast.unwrap(), line);
    assert!(n.hear(line).broadcast.is_none());
    let line = "OPENS http://q\tv\t4";
    assert_eq!(n.hear(line).broadcast.unwrap(), line);
    assert!(n.hear(line).broadcast.is_none());
    let r = n.hear("DISCOVER http://p9");
    assert_eq!(r.connect.unwrap(), "http://p9");
    assert!(n.hear("DISCOVER http://p9").connect.is_none());
    assert!(n.hear("DISCOVER http://me:1/").connect.is_none());
    assert!(n.hear("what?").broadcast.is_none());
    // An app is dropped only where its address no longer answers.
    assert_eq!(n.hear("REVOKE http://q").probe.unwrap(), "http://q");
    n.probed("http://q", true);
    assert!(n.registry.has_approved("http://q"));
    n.probed("http://q", false);
    assert!(!n.registry.has_approved("http://q"));
    assert!(n.hear("REVOKE http://q").probe.is_none());
}

#[test]
fn peers_are_taken_up_and_dropped() {
    let mut n = node();
    assert_eq!(n.peer_connect(&bytes("p1")).reply, "err\turl must start with http");
    let d = n.peer_connect(&bytes(" http://p1 "));
    assert_eq!(d.reply, "ok\tconnecting to http://p1");
    assert_eq!(d.connect.unwrap(), "http://p1");
    n.hear("HELLO http://p1");
    assert_eq!(n.peer_connect(&bytes("http://p1")).reply, "err\talready connected to that peer");
    assert!(!n.may_dial("http://p1"));
    assert_eq!(n.api_peers(), "http://p1");
    assert_eq!(n.api_active_peers(), "http://p1");
    let r = n.refresh(&vec!["http://p1".to_string(), "http://p2".to_string(), "http://p2".to_string()]);
    assert_eq!(r.reply, "ok\tconnecting to 2 new node(s)");
    assert_eq!(r.connect, vec!["http://p2".to_string(), "http://p2".to_string()]);
    assert_eq!(n.api_peers(), "http://p1\nhttp://p2");
    assert_eq!(n.peer_remove(&bytes("http://p1")), "ok\tpeer removed");
    assert!(!n.still_wanted("http://p1"));
    assert_eq!(n.api_active_peers(), "");
}

#[test]
fn addresses_of_peers_and_of_the_directory() {
    assert_eq!(to_ws_url("http://a:1"), "ws://a:1/ws");
    assert_eq!(to_ws_url("https://a/"), "wss://a/ws");
    assert_eq!(directory_body("http://me", "tok"), "http://me\ntok");
    assert_eq!(listed_peers(" http://a \n\nhttp://b\n"), vec!["http://a".to_string(), "http://b".to_string()]);
    assert!(default_directory().starts_with("https://"));
    assert!(directory_endpoint("https://d/", "publish").ends_with("/publish"));
    let first = bootstrap(
        "http://a, http://me",
        &vec!["http://b".to_string(), "http://a".to_string()],
        &vec!["http://c".to_string()],
        "http://me",
    );
    assert_eq!(first, vec!["http://a".to_string(), "http://b".to_string(), "http://c".to_string()]);
    let mut s = Vec::new();
    assert!(supervise(&mut s, "http://a".to_string()));
    assert!(!supervise(&mut s, "http://a".to_string()));
}

#[test]
fn waits_double_up_to_a_minute() {
    let mut w = FIRST_WAIT;
    let mut seen = vec![w];
    for _ in 0..6 {
        w = next_wait(w);
        seen.push(w);
    }
    assert_eq!(seen, vec![2, 4, 8, 16, 32, 60, 60]);
    assert_eq!(LONGEST_WAIT, 60);
}

#[test]
fn the_directory_switch_follows_the_answers() {
    let mut r = registry();
    assert!(r.heartbeat().is_none());
    let no = directory_answer(false, "full".to_string());
    assert!(matches!(no, Asked::Failed(_)));
    assert!(r.directory_published(no).starts_with("err\t"));
    assert!(!r.published);
    assert!(r.directory_published(directory_answer(true, String::new())).starts_with("ok\t"));
    assert!(r.published);
    assert!(r.heartbeat().is_some());
    assert_eq!(r.directory_status("https://d"), "https://d\ttrue\thttp://me:1/");
    assert!(r.directory_unpublished(directory_answer(true, String::new())).starts_with("ok\t"));
    assert!(!r.published);
}

#[test]
fn a_node_without_a_list_of_its_own_claims_what_it_hosts() {
    let mut f = files();
    f.approved = "P\td\thttp://me:1/apps/p.wasm\tn\tt\t\t\t\nQ\td\thttp://b\tn\tt\t\t\t\n".to_string();
    let r = Registry::load(&f, "secret".to_string(), "http://me:1".to_string());
    assert_eq!(r.approved.len(), 2);
    assert_eq!(r.mine, vec!["http://me:1/apps/p.wasm".to_string()]);
    f.mine = Some("http://b\nhttp://b\n".to_string());
    let r = Registry::load(&f, "secret".to_string(), "http://me:1".to_string());
    assert_eq!(r.mine, vec!["http://b".to_string()]);
    assert_eq!(r.mine_file(), "http://b");
}

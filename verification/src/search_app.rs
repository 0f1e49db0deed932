//! The app that searches an index and submits to it: what it keeps, what it asks of the
//! node, and what it makes of the answers.
use vstd::prelude::*;
use vstd::string::StringExecFns;
use vstd::utf8::encode_utf8;
use crate::entry::Entry;
use crate::ledger::Row;
use crate::numerals::{decimal, format_u64, is_digit, number, parse_u32, parse_u64, parse_u8};
use crate::numerals::{lemma_decimal_digits, lemma_decimal_round_trip};
use crate::ratings::{
    lemma_review_row_pieces, open_total, review_row, vote_total, Rating, Vote,
};
use crate::registry::{lemma_row_shows_the_entry, lemma_submission_is_read, shown, submission};
use crate::reports::stats_line;
use crate::requests::{
    ask, ask_get, ask_post, asks, meaning, read_verdict, Ask, Ended, Meaning, Request, Verdict,
};
use crate::search::best_chunk_of;
use crate::text::{is_trimmed, lines, lines_of, splitn, split_str_n, texts, trim, trimmed};
use crate::text::{lemma_filled_parts, lemma_splitn_none, lemma_splitn_push, lemma_splitn_rest};
use crate::urls::{all_escaped, encode, plus_for_blanks, plus_text, url_encode_vec, vec_text};

verus! {

// ── State ────────────────────────────────────────────────────────────────────

/// Results shown at a time.
pub const PER_PAGE: usize = 8;

#[derive(Clone, Copy, Debug, PartialEq, Eq, Structural)]
pub enum Tab {
    Search,
    Submit,
}

/// How far a submission has come.
#[derive(Clone, Copy, Debug, PartialEq, Eq, Structural)]
pub enum Progress {
    Idle,
    Pending,
    Done,
    Failed,
}

/// How far the embedding of a query has come.
#[derive(Clone, Copy, Debug, PartialEq, Eq, Structural)]
pub enum Meant {
    Idle,
    Computing,
    Unavailable,
}

/// Where a submitted app is served from.
#[derive(Clone, Copy, Debug, PartialEq, Eq, Structural)]
pub enum Hosting {
    /// This node.
    Here,
    /// An address of the user's own.
    Elsewhere,
}

/// An app of the index, as the index lists it.
pub struct Listing {
    pub name: String,
    pub desc: String,
    pub url: String,
    pub author: String,
    pub tags: String,
    pub doc_snippet: String,
}

/// How an app is liked: its average as text, and the counts.
pub struct Stat {
    pub url: String,
    pub avg: String,
    pub votes: u32,
    pub opens: u64,
}

/// A written review.
pub struct Review {
    pub stars: u8,
    pub text: String,
}

/// A module that the user chose.
pub struct Picked {
    pub name: String,
    pub bytes: Vec<u8>,
}

/// What was filled in when a submission was sent.
pub struct Form {
    pub name: String,
    pub desc: String,
    pub author: String,
    pub tags: String,
}

/// What the app keeps.
pub struct SearchApp {
    /// The node it talks to.
    pub server: String,
    /// Whether nothing can be submitted or rated.
    pub read_only: bool,
    pub next_id: i32,
    pub search_id: Option<i32>,
    pub submit_id: Option<i32>,
    pub upload_id: Option<i32>,
    pub embed_id: Option<i32>,
    pub debug_id: Option<i32>,
    pub stats_id: Option<i32>,
    pub rate_id: Option<i32>,
    pub open_id: Option<i32>,
    pub reviews_id: Option<i32>,
    pub tab: Tab,
    pub progress: Progress,
    pub hosting: Hosting,
    pub page: usize,
    /// The query that the pending embedding belongs to.
    pub pending_query: String,
    pub meant: Meant,
    pub ai_enabled: bool,
    pub debug_mode: bool,
    pub debug_text: String,
    /// Whether anything was asked for yet.
    pub browsed: bool,
    pub stats: Vec<Stat>,
    /// The app that is being rated.
    pub rating_for: String,
    /// The app whose reviews are shown.
    pub reviews_for: String,
    pub reviews: Vec<Review>,
    pub results: Vec<Listing>,
    pub picked: Option<Picked>,
    pub hosted_url: String,
    pub error: String,
    pub pending: Option<Form>,
}

impl SearchApp {
    /// The app when it is opened: nothing is listed until it is asked for.
    pub fn new(server: String, read_only: bool) -> (a: SearchApp)
        ensures
            a.server == server && a.read_only == read_only && a.next_id == 1,
            a.search_id is None && a.submit_id is None && a.upload_id is None && a.embed_id is None
                && a.debug_id is None && a.stats_id is None && a.rate_id is None && a.open_id is None
                && a.reviews_id is None,
            a.tab == Tab::Search && a.progress == Progress::Idle && a.hosting == Hosting::Here,
            a.page == 0 && a.meant == Meant::Idle && a.ai_enabled && !a.debug_mode && !a.browsed,
            a.pending_query@.len() == 0 && a.debug_text@.len() == 0 && a.rating_for@.len() == 0
                && a.reviews_for@.len() == 0 && a.hosted_url@.len() == 0 && a.error@.len() == 0,
            a.stats@.len() == 0 && a.reviews@.len() == 0 && a.results@.len() == 0,
            a.picked is None && a.pending is None,
    {
        SearchApp {
            server,
            read_only,
            next_id: 1,
            search_id: None,
            submit_id: None,
            upload_id: None,
            embed_id: None,
            debug_id: None,
            stats_id: None,
            rate_id: None,
            open_id: None,
            reviews_id: None,
            tab: Tab::Search,
            progress: Progress::Idle,
            hosting: Hosting::Here,
            page: 0,
            pending_query: String::new(),
            meant: Meant::Idle,
            ai_enabled: true,
            debug_mode: false,
            debug_text: String::new(),
            browsed: false,
            stats: Vec::new(),
            rating_for: String::new(),
            reviews_for: String::new(),
            reviews: Vec::new(),
            results: Vec::new(),
            picked: None,
            hosted_url: String::new(),
            error: String::new(),
            pending: None,
        }
    }

    /// Whether there are numbers left for that many requests.
    pub open spec fn has_ids(self, n: int) -> bool {
        self.next_id + n <= i32::MAX
    }

    fn at(&self, path: &str) -> (r: String)
        ensures
            r@ == self.server@ + path@,
    {
        let mut r = self.server.clone();
        r.append(path);
        r
    }

    fn take_id(&mut self) -> (id: i32)
        requires
            old(self).has_ids(1),
        ensures
            id == old(self).next_id,
            *final(self) == (SearchApp { next_id: (old(self).next_id + 1) as i32, ..*old(self) }),
    {
        let id: i32 = self.next_id;
        self.next_id = id + 1;
        id
    }
}

// ── Asking ───────────────────────────────────────────────────────────────────

/// The app after it asked how the apps are liked.
pub open spec fn stats_asked(a: SearchApp) -> SearchApp {
    SearchApp { next_id: (a.next_id + 1) as i32, stats_id: Some(a.next_id), ..a }
}

/// The app after it asked for search results, and how the apps are liked.
pub open spec fn search_asked(a: SearchApp) -> SearchApp {
    stats_asked(SearchApp { next_id: (a.next_id + 1) as i32, search_id: Some(a.next_id), ..a })
}

/// The address of a search.
pub open spec fn search_url(server: Seq<char>, query: Seq<char>, vec: Option<Seq<char>>) -> Seq<
    char,
> {
    let base = server + "/api/search?q="@ + plus_text(query);
    match vec {
        Some(v) => base + "&vec="@ + vec_text(v),
        None => base,
    }
}

/// What is asked for with a search at `url`.
pub open spec fn search_asks(a: SearchApp, url: Seq<char>) -> Seq<Ask> {
    seq![
        Ask::Get(a.next_id, url),
        Ask::Get((a.next_id + 1) as i32, a.server@ + "/api/stats"@),
    ]
}

impl SearchApp {
    /// Asks how the apps are liked.
    pub fn fetch_stats(&mut self, out: &mut Vec<Request>)
        requires
            old(self).has_ids(1),
        ensures
            *final(self) == stats_asked(*old(self)),
            asks(final(out)@) == asks(old(out)@).push(
                Ask::Get(old(self).next_id, old(self).server@ + "/api/stats"@),
            ),
    {
        let id: i32 = self.take_id();
        self.stats_id = Some(id);
        let url = self.at("/api/stats");
        ask_get(out, id, url);
    }

    /// Asks for the results of a query, with its vector if there is one.
    pub fn fire_search(&mut self, query: &str, vec: Option<&str>, out: &mut Vec<Request>)
        requires
            old(self).has_ids(2),
        ensures
            *final(self) == search_asked(*old(self)),
            asks(final(out)@) == asks(old(out)@) + search_asks(
                *old(self),
                search_url(
                    old(self).server@,
                    query@,
                    match vec {
                        Some(v) => Some(v@),
                        None => None,
                    },
                ),
            ),
    {
        let ghost before = asks(out@);
        let id: i32 = self.take_id();
        self.search_id = Some(id);
        let mut url = self.at("/api/search?q=");
        url.append(plus_for_blanks(query).as_str());
        match vec {
            Some(v) => {
                url.append("&vec=");
                url.append(url_encode_vec(v).as_str());
            },
            None => {},
        }
        let ghost u = url@;
        ask_get(out, id, url);
        self.fetch_stats(out);
        assert(asks(out@) =~= before + search_asks(*old(self), u));
    }

    /// Asks for everything, the most popular first.
    pub fn fetch_all(&mut self, out: &mut Vec<Request>)
        requires
            old(self).has_ids(2),
        ensures
            *final(self) == (SearchApp {
                browsed: true,
                page: 0,
                ..search_asked(*old(self))
            }),
            asks(final(out)@) == asks(old(out)@) + search_asks(
                *old(self),
                old(self).server@ + "/api/search?q="@,
            ),
    {
        let ghost before = asks(out@);
        self.browsed = true;
        self.page = 0;
        let id: i32 = self.take_id();
        self.search_id = Some(id);
        let url = self.at("/api/search?q=");
        ask_get(out, id, url);
        self.fetch_stats(out);
        assert(asks(out@) =~= before + search_asks(
            *old(self),
            old(self).server@ + "/api/search?q="@,
        ));
    }

    /// Searches. The results by keyword are asked for right away; those by meaning follow
    /// once the query is embedded, unless that is switched off.
    pub fn run_search(&mut self, query: &str, out: &mut Vec<Request>)
        requires
            old(self).has_ids(3),
        ensures
            ({
                let a = *old(self);
                let b = SearchApp { browsed: true, page: 0, ..search_asked(a) };
                let first = asks(old(out)@) + search_asks(
                    a,
                    search_url(a.server@, query@, None),
                );
                if a.ai_enabled {
                    &&& *final(self) == (SearchApp {
                        pending_query: final(self).pending_query,
                        next_id: (a.next_id + 3) as i32,
                        embed_id: Some((a.next_id + 2) as i32),
                        meant: Meant::Computing,
                        ..b
                    })
                    &&& final(self).pending_query@ == query@
                    &&& asks(final(out)@) == first.push(Ask::Embed((a.next_id + 2) as i32, query@))
                } else {
                    *final(self) == b && asks(final(out)@) == first
                }
            }),
    {
        self.browsed = true;
        self.page = 0;
        self.fire_search(query, None, out);
        if self.ai_enabled {
            self.pending_query = query.to_owned();
            let id: i32 = self.take_id();
            self.embed_id = Some(id);
            self.meant = Meant::Computing;
            ask(out, Request::Embed { id, text: query.to_owned() });
        }
    }

    /// Asks for the written reviews of an app.
    pub fn load_reviews(&mut self, url: &str, out: &mut Vec<Request>)
        requires
            old(self).has_ids(1),
        ensures
            *final(self) == (SearchApp {
                reviews_for: final(self).reviews_for,
                reviews: final(self).reviews,
                next_id: (old(self).next_id + 1) as i32,
                reviews_id: Some(old(self).next_id),
                ..*old(self)
            }),
            final(self).reviews_for@ == url@,
            final(self).reviews@.len() == 0,
            asks(final(out)@) == asks(old(out)@).push(reviews_ask(*old(self), url@)),
    {
        self.reviews_for = url.to_owned();
        self.reviews = Vec::new();
        let id: i32 = self.take_id();
        self.reviews_id = Some(id);
        let mut u = self.at("/api/reviews?url=");
        u.append(encode(url).as_str());
        ask_get(out, id, u);
    }

    /// Sends the submission that was filled in, for an app at `url`.
    pub fn send_submission(&mut self, url: &str, out: &mut Vec<Request>)
        requires
            old(self).has_ids(1),
        ensures
            match old(self).pending {
                None => *final(self) == *old(self) && asks(final(out)@) == asks(old(out)@),
                Some(f) => *final(self) == submission_sent(*old(self)) && asks(final(out)@) == asks(
                    old(out)@,
                ).push(submission_ask(*old(self), f, url@)),
            },
    {
        match &self.pending {
            None => {
                return;
            },
            Some(f) => {
                let mut body = f.name.clone();
                body.append("\t");
                body.append(f.desc.as_str());
                body.append("\t");
                body.append(url);
                body.append("\t");
                body.append(f.author.as_str());
                body.append("\t");
                body.append(f.tags.as_str());
                let id: i32 = self.take_id();
                self.submit_id = Some(id);
                self.progress = Progress::Pending;
                let u = self.at("/api/submit");
                ask_post(out, id, u, body);
            },
        }
    }
}

/// The request for the reviews of an app.
pub open spec fn reviews_ask(a: SearchApp, url: Seq<char>) -> Ask {
    Ask::Get(a.next_id, a.server@ + "/api/reviews?url="@ + all_escaped(encode_utf8(url)))
}

/// The app after it sent a submission.
pub open spec fn submission_sent(a: SearchApp) -> SearchApp {
    SearchApp {
        next_id: (a.next_id + 1) as i32,
        submit_id: Some(a.next_id),
        progress: Progress::Pending,
        ..a
    }
}

/// A submission.
pub open spec fn submission_ask(a: SearchApp, f: Form, url: Seq<char>) -> Ask {
    Ask::Post(
        a.next_id,
        a.server@ + "/api/submit"@,
        f.name@ + "\t"@ + f.desc@ + "\t"@ + url + "\t"@ + f.author@ + "\t"@ + f.tags@,
    )
}

// ── Reading ──────────────────────────────────────────────────────────────────

/// A field of a line; an empty one where it is missing.
pub open spec fn field(p: Seq<Seq<char>>, i: int) -> Seq<char> {
    if i < p.len() {
        p[i]
    } else {
        Seq::empty()
    }
}

fn field_at(p: &Vec<String>, i: usize) -> (r: String)
    ensures
        r@ == field(texts(p@), i as int),
{
    if i < p.len() {
        assert(texts(p@)[i as int] == p@[i as int]@);
        p[i].clone()
    } else {
        String::new()
    }
}

/// Whether a listing is what a line of the index says.
pub open spec fn is_listing(l: Listing, line: Seq<char>) -> bool {
    let p = splitn(line, '\t', 6);
    &&& l.name@ == field(p, 0)
    &&& l.desc@ == field(p, 1)
    &&& l.url@ == field(p, 2)
    &&& l.author@ == field(p, 3)
    &&& l.tags@ == field(p, 4)
    &&& l.doc_snippet@ == field(p, 5)
}

/// The lines that are not empty.
pub open spec fn entry_lines(ls: Seq<Seq<char>>) -> Seq<Seq<char>> {
    crate::text::filled(ls)
}

/// Reads the lines of an index.
pub fn parse(body: &str) -> (r: Vec<Listing>)
    ensures
        r@.len() == entry_lines(lines(body@)).len(),
        forall|i: int|
            0 <= i < r@.len() ==> is_listing(#[trigger] r@[i], entry_lines(lines(body@))[i]),
{
    let ls = crate::text::filled_parts(&lines_of(body));
    let mut out: Vec<Listing> = Vec::new();
    let mut i: usize = 0;
    let ghost all = texts(ls@);
    while i < ls.len()
        invariant
            i <= ls@.len(),
            all == texts(ls@),
            out@.len() == i,
            forall|k: int| 0 <= k < i ==> is_listing(#[trigger] out@[k], all[k]),
        decreases ls.len() - i,
    {
        let p = split_str_n(ls[i].as_str(), '\t', 6);
        assert(all[i as int] == ls@[i as int]@);
        out.push(
            Listing {
                name: field_at(&p, 0),
                desc: field_at(&p, 1),
                url: field_at(&p, 2),
                author: field_at(&p, 3),
                tags: field_at(&p, 4),
                doc_snippet: field_at(&p, 5),
            },
        );
        i += 1;
    }
    out
}

/// A number as it is read; zero for what is none, or too large.
pub open spec fn number_or_zero(s: Seq<char>, max: int) -> int {
    match number(s) {
        Some(n) => if n <= max {
            n as int
        } else {
            0
        },
        None => 0,
    }
}

/// The lines that are not blank and have `n` fields.
pub open spec fn full_lines(ls: Seq<Seq<char>>, n: int) -> Seq<Seq<char>>
    decreases ls.len(),
{
    if ls.len() == 0 {
        Seq::empty()
    } else {
        let rest = full_lines(ls.drop_last(), n);
        if trimmed(ls.last()).len() > 0 && splitn(ls.last(), '\t', n).len() >= n {
            rest.push(ls.last())
        } else {
            rest
        }
    }
}

fn full_lines_of(body: &str, n: usize) -> (r: Vec<Vec<String>>)
    requires
        n >= 1,
    ensures
        r@.len() == full_lines(lines(body@), n as int).len(),
        forall|i: int|
            0 <= i < r@.len() ==> texts((#[trigger] r@[i])@) == splitn(
                full_lines(lines(body@), n as int)[i],
                '\t',
                n as int,
            ) && r@[i]@.len() >= n,
{
    let ls = lines_of(body);
    let mut out: Vec<Vec<String>> = Vec::new();
    let mut i: usize = 0;
    let ghost all = texts(ls@);
    while i < ls.len()
        invariant
            n >= 1,
            i <= ls@.len(),
            all == texts(ls@),
            out@.len() == full_lines(all.take(i as int), n as int).len(),
            forall|k: int|
                0 <= k < out@.len() ==> texts((#[trigger] out@[k])@) == splitn(
                    full_lines(all.take(i as int), n as int)[k],
                    '\t',
                    n as int,
                ) && out@[k]@.len() >= n,
        decreases ls.len() - i,
    {
        assert(all.take(i + 1).drop_last() =~= all.take(i as int));
        assert(all.take(i + 1).last() == ls@[i as int]@);
        let p = split_str_n(ls[i].as_str(), '\t', n);
        assert(texts(p@).len() == p@.len());
        let ghost before = out@;
        if !trim(ls[i].as_str()).as_str().is_empty() && p.len() >= n {
            out.push(p);
            assert(forall|k: int| 0 <= k < before.len() ==> out@[k] == #[trigger] before[k]);
        }
        i += 1;
    }
    assert(all.take(i as int) =~= all);
    out
}

/// Whether a record is what a line about how an app is liked says.
pub open spec fn is_stat(s: Stat, line: Seq<char>) -> bool {
    let p = splitn(line, '\t', 4);
    &&& s.url@ == p[0]
    &&& s.avg@ == p[1]
    &&& s.votes == number_or_zero(p[2], u32::MAX as int)
    &&& s.opens == number_or_zero(p[3], u64::MAX as int)
}

/// Reads how the apps are liked.
pub fn parse_stats(body: &str) -> (r: Vec<Stat>)
    ensures
        r@.len() == full_lines(lines(body@), 4).len(),
        forall|i: int|
            0 <= i < r@.len() ==> is_stat(#[trigger] r@[i], full_lines(lines(body@), 4)[i]),
{
    let rows = full_lines_of(body, 4);
    let mut out: Vec<Stat> = Vec::new();
    let mut i: usize = 0;
    let ghost all = full_lines(lines(body@), 4);
    while i < rows.len()
        invariant
            i <= rows@.len() == all.len(),
            forall|k: int|
                0 <= k < rows@.len() ==> texts((#[trigger] rows@[k])@) == splitn(all[k], '\t', 4)
                    && rows@[k]@.len() >= 4,
            out@.len() == i,
            forall|k: int| 0 <= k < i ==> is_stat(#[trigger] out@[k], all[k]),
        decreases rows.len() - i,
    {
        let p = &rows[i];
        let ghost t = texts(p@);
        assert(t[0] == p@[0]@ && t[1] == p@[1]@ && t[2] == p@[2]@ && t[3] == p@[3]@);
        let votes: u32 = match parse_u32(p[2].as_str()) {
            Some(n) => n,
            None => 0,
        };
        let opens: u64 = match parse_u64(p[3].as_str()) {
            Some(n) => n,
            None => 0,
        };
        out.push(Stat { url: p[0].clone(), avg: p[1].clone(), votes, opens });
        i += 1;
    }
    out
}

/// Whether a record is what a line about a review says.
pub open spec fn is_review(r: Review, line: Seq<char>) -> bool {
    let p = splitn(line, '\t', 3);
    r.stars == number_or_zero(p[0], u8::MAX as int) && r.text@ == p[2]
}

/// Reads written reviews.
pub fn parse_reviews(body: &str) -> (r: Vec<Review>)
    ensures
        r@.len() == full_lines(lines(body@), 3).len(),
        forall|i: int|
            0 <= i < r@.len() ==> is_review(#[trigger] r@[i], full_lines(lines(body@), 3)[i]),
{
    let rows = full_lines_of(body, 3);
    let mut out: Vec<Review> = Vec::new();
    let mut i: usize = 0;
    let ghost all = full_lines(lines(body@), 3);
    while i < rows.len()
        invariant
            i <= rows@.len() == all.len(),
            forall|k: int|
                0 <= k < rows@.len() ==> texts((#[trigger] rows@[k])@) == splitn(all[k], '\t', 3)
                    && rows@[k]@.len() >= 3,
            out@.len() == i,
            forall|k: int| 0 <= k < i ==> is_review(#[trigger] out@[k], all[k]),
        decreases rows.len() - i,
    {
        let p = &rows[i];
        let ghost t = texts(p@);
        assert(t[0] == p@[0]@ && t[2] == p@[2]@);
        let stars: u8 = match parse_u8(p[0].as_str()) {
            Some(n) => n,
            None => 0,
        };
        out.push(Review { stars, text: p[2].clone() });
        i += 1;
    }
    out
}

// ── Answers ──────────────────────────────────────────────────────────────────

impl SearchApp {
    /// Search results came.
    pub fn search_done(&mut self, body: &str)
        ensures
            *final(self) == (SearchApp {
                results: final(self).results,
                search_id: None,
                ..*old(self)
            }),
            final(self).results@.len() == entry_lines(lines(body@)).len(),
            forall|i: int|
                0 <= i < final(self).results@.len() ==> is_listing(
                    #[trigger] final(self).results@[i],
                    entry_lines(lines(body@))[i],
                ),
    {
        self.results = parse(body);
        self.search_id = None;
    }

    /// The upload ended. The node answers with the address from which it serves the app,
    /// and that is what is submitted.
    pub fn upload_done(&mut self, ended: Ended, out: &mut Vec<Request>)
        requires
            old(self).has_ids(1),
        ensures
            ({
                let a = *old(self);
                let b = *final(self);
                match ended {
                    Ended::Failed => upload_failed(
                        a,
                        b,
                        "Upload failed — is the node still running?"@,
                    ) && asks(final(out)@) == asks(old(out)@),
                    Ended::Done(body) => match meaning(body@) {
                        Meaning::Yes(url) => {
                            let c = SearchApp { upload_id: None, hosted_url: b.hosted_url, ..a };
                            &&& b.hosted_url@ == url
                            &&& match a.pending {
                                Some(f) => b == submission_sent(c) && asks(final(out)@) == asks(
                                    old(out)@,
                                ).push(submission_ask(a, f, url)),
                                None => b == c && asks(final(out)@) == asks(old(out)@),
                            }
                        },
                        Meaning::No(msg) => upload_failed(a, b, msg) && asks(final(out)@) == asks(
                            old(out)@,
                        ),
                        Meaning::Unclear(_) => upload_failed(
                            a,
                            b,
                            "Unexpected reply from the node."@,
                        ) && asks(final(out)@) == asks(old(out)@),
                    },
                }
            }),
    {
        self.upload_id = None;
        match ended {
            Ended::Failed => {
                self.progress = Progress::Failed;
                self.error = "Upload failed — is the node still running?".to_owned();
            },
            Ended::Done(body) => match read_verdict(body.as_str()) {
                Verdict::Yes(url) => {
                    self.hosted_url = url.clone();
                    self.send_submission(url.as_str(), out);
                },
                Verdict::No(msg) => {
                    self.progress = Progress::Failed;
                    self.error = msg;
                },
                Verdict::Unclear(_) => {
                    self.progress = Progress::Failed;
                    self.error = "Unexpected reply from the node.".to_owned();
                },
            },
        }
    }

    /// The embedding of a query ended. With the vector the search is run again.
    pub fn embed_done(&mut self, ended: Ended, out: &mut Vec<Request>)
        requires
            old(self).has_ids(3),
        ensures
            ({
                let a = *old(self);
                let q = a.pending_query@;
                match ended {
                    Ended::Failed => *final(self) == (SearchApp {
                        embed_id: None,
                        meant: Meant::Unavailable,
                        ..a
                    }) && asks(final(out)@) == asks(old(out)@),
                    Ended::Done(vec) => {
                        let b = SearchApp { embed_id: None, meant: Meant::Idle, ..a };
                        let first = asks(old(out)@) + search_asks(
                            a,
                            search_url(a.server@, q, Some(vec@)),
                        );
                        if q.len() == 0 {
                            *final(self) == b && asks(final(out)@) == asks(old(out)@)
                        } else if !a.debug_mode {
                            *final(self) == search_asked(b) && asks(final(out)@) == first
                        } else {
                            &&& *final(self) == (SearchApp {
                                next_id: (a.next_id + 3) as i32,
                                debug_id: Some((a.next_id + 2) as i32),
                                ..search_asked(b)
                            })
                            &&& asks(final(out)@) == first.push(
                                Ask::Get(
                                    (a.next_id + 2) as i32,
                                    a.server@ + "/api/search/debug?q="@ + plus_text(q) + "&vec="@
                                        + vec_text(vec@),
                                ),
                            )
                        }
                    },
                }
            }),
    {
        self.embed_id = None;
        match ended {
            Ended::Failed => {
                self.meant = Meant::Unavailable;
            },
            Ended::Done(vec) => {
                self.meant = Meant::Idle;
                let q = self.pending_query.clone();
                if !q.as_str().is_empty() {
                    self.fire_search(q.as_str(), Some(vec.as_str()), out);
                    if self.debug_mode {
                        let id: i32 = self.take_id();
                        self.debug_id = Some(id);
                        let mut u = self.at("/api/search/debug?q=");
                        u.append(plus_for_blanks(q.as_str()).as_str());
                        u.append("&vec=");
                        u.append(url_encode_vec(vec.as_str()).as_str());
                        ask_get(out, id, u);
                    }
                }
            },
        }
    }

    /// The raw scores came.
    pub fn debug_done(&mut self, body: String)
        ensures
            *final(self) == (SearchApp { debug_id: None, debug_text: body, ..*old(self) }),
    {
        self.debug_id = None;
        self.debug_text = body;
    }

    /// How the apps are liked came.
    pub fn stats_done(&mut self, body: &str)
        ensures
            *final(self) == (SearchApp {
                stats: final(self).stats,
                stats_id: None,
                ..*old(self)
            }),
            final(self).stats@.len() == full_lines(lines(body@), 4).len(),
            forall|i: int|
                0 <= i < final(self).stats@.len() ==> is_stat(
                    #[trigger] final(self).stats@[i],
                    full_lines(lines(body@), 4)[i],
                ),
    {
        self.stats_id = None;
        self.stats = parse_stats(body);
    }

    /// Written reviews came.
    pub fn reviews_done(&mut self, body: &str)
        ensures
            *final(self) == (SearchApp {
                reviews: final(self).reviews,
                reviews_id: None,
                ..*old(self)
            }),
            final(self).reviews@.len() == full_lines(lines(body@), 3).len(),
            forall|i: int|
                0 <= i < final(self).reviews@.len() ==> is_review(
                    #[trigger] final(self).reviews@[i],
                    full_lines(lines(body@), 3)[i],
                ),
    {
        self.reviews_id = None;
        self.reviews = parse_reviews(body);
    }

    /// Asks again for what a rating or an opened app changes: how the apps are liked, and
    /// the reviews that are shown.
    fn recount(&mut self, out: &mut Vec<Request>)
        requires
            old(self).has_ids(2),
        ensures
            recounted(*old(self), *final(self)),
            asks(final(out)@) == asks(old(out)@) + recount_asks(*old(self)),
    {
        let ghost before = asks(out@);
        self.fetch_stats(out);
        let shown = self.reviews_for.clone();
        if !shown.as_str().is_empty() {
            self.load_reviews(shown.as_str(), out);
        }
        assert(asks(out@) =~= before + recount_asks(*old(self)));
    }

    /// A rating was counted.
    pub fn rate_done(&mut self, out: &mut Vec<Request>)
        requires
            old(self).has_ids(2),
        ensures
            recounted(SearchApp { rate_id: None, ..*old(self) }, *final(self)),
            asks(final(out)@) == asks(old(out)@) + recount_asks(*old(self)),
    {
        self.rate_id = None;
        self.recount(out);
    }

    /// An opened app was counted.
    pub fn open_done(&mut self, out: &mut Vec<Request>)
        requires
            old(self).has_ids(2),
        ensures
            recounted(SearchApp { open_id: None, ..*old(self) }, *final(self)),
            asks(final(out)@) == asks(old(out)@) + recount_asks(*old(self)),
    {
        self.open_id = None;
        self.recount(out);
    }

    /// A submission arrived: the index is asked for again.
    pub fn submit_done(&mut self, out: &mut Vec<Request>)
        requires
            old(self).has_ids(2),
        ensures
            *final(self) == (SearchApp {
                browsed: true,
                page: 0,
                progress: Progress::Done,
                submit_id: None,
                ..search_asked(*old(self))
            }),
            asks(final(out)@) == asks(old(out)@) + search_asks(
                *old(self),
                old(self).server@ + "/api/search?q="@,
            ),
    {
        self.progress = Progress::Done;
        self.submit_id = None;
        self.fetch_all(out);
    }
}

/// Whether an upload failed with a message, and nothing else changed.
pub open spec fn upload_failed(a: SearchApp, b: SearchApp, msg: Seq<char>) -> bool {
    &&& b == (SearchApp { upload_id: None, progress: Progress::Failed, error: b.error, ..a })
    &&& b.error@ == msg
}

/// Whether the app asked again for what a rating or an opened app changes.
pub open spec fn recounted(a: SearchApp, b: SearchApp) -> bool {
    if a.reviews_for@.len() == 0 {
        b == stats_asked(a)
    } else {
        &&& b == (SearchApp {
            reviews_for: b.reviews_for,
            reviews: b.reviews,
            next_id: (a.next_id + 2) as i32,
            reviews_id: Some((a.next_id + 1) as i32),
            ..stats_asked(a)
        })
        &&& b.reviews_for@ == a.reviews_for@
        &&& b.reviews@.len() == 0
    }
}

/// What is asked for after a rating or an opened app.
pub open spec fn recount_asks(a: SearchApp) -> Seq<Ask> {
    let first = seq![Ask::Get(a.next_id, a.server@ + "/api/stats"@)];
    if a.reviews_for@.len() == 0 {
        first
    } else {
        first.push(reviews_ask(stats_asked(a), a.reviews_for@))
    }
}

// ── Acting ───────────────────────────────────────────────────────────────────

impl SearchApp {
    /// Shows a tab. A read-only app has only the first.
    pub fn show_tab(&mut self, t: Tab)
        ensures
            *final(self) == (SearchApp { tab: t, ..*old(self) }),
    {
        self.tab = t;
    }

    /// The tab that is shown.
    pub open spec fn shown_tab(self) -> Tab {
        if self.read_only {
            Tab::Search
        } else {
            self.tab
        }
    }

    /// Returns the tab that is shown.
    pub fn current_tab(&self) -> (t: Tab)
        ensures
            t == self.shown_tab(),
    {
        if self.read_only {
            Tab::Search
        } else {
            self.tab
        }
    }

    /// Switches search by meaning on or off. Switched on, a search that was made is run
    /// again.
    pub fn toggle_ai(&mut self, query: &str, out: &mut Vec<Request>)
        requires
            old(self).has_ids(3),
        ensures
            old(self).ai_enabled ==> *final(self) == (SearchApp { ai_enabled: false, ..*old(self) })
                && asks(final(out)@) == asks(old(out)@),
            !old(self).ai_enabled && !old(self).browsed ==> *final(self) == (SearchApp {
                ai_enabled: true,
                ..*old(self)
            }) && asks(final(out)@) == asks(old(out)@),
            !old(self).ai_enabled && old(self).browsed ==> ({
                let a = SearchApp { ai_enabled: true, ..*old(self) };
                &&& *final(self) == (SearchApp {
                    pending_query: final(self).pending_query,
                    page: 0,
                    next_id: (a.next_id + 3) as i32,
                    embed_id: Some((a.next_id + 2) as i32),
                    meant: Meant::Computing,
                    ..search_asked(a)
                })
                &&& final(self).pending_query@ == query@
                &&& asks(final(out)@) == (asks(old(out)@) + search_asks(
                    a,
                    search_url(a.server@, query@, None),
                )).push(Ask::Embed((a.next_id + 2) as i32, query@))
            }),
    {
        if self.ai_enabled {
            self.ai_enabled = false;
        } else {
            self.ai_enabled = true;
            if self.browsed {
                self.run_search(query, out);
            }
        }
    }

    /// Switches the raw scores on or off.
    pub fn toggle_debug(&mut self)
        ensures
            old(self).debug_mode ==> *final(self) == (SearchApp {
                debug_mode: false,
                debug_text: final(self).debug_text,
                ..*old(self)
            }) && final(self).debug_text@.len() == 0,
            !old(self).debug_mode ==> *final(self) == (SearchApp { debug_mode: true, ..*old(self) }),
    {
        if self.debug_mode {
            self.debug_mode = false;
            self.debug_text = String::new();
        } else {
            self.debug_mode = true;
        }
    }

    /// Opens an app, once the node was told.
    pub fn open(&mut self, url: &str, out: &mut Vec<Request>)
        requires
            old(self).has_ids(1),
        ensures
            *final(self) == (SearchApp {
                next_id: (old(self).next_id + 1) as i32,
                open_id: Some(old(self).next_id),
                ..*old(self)
            }),
            asks(final(out)@) == asks(old(out)@).push(
                Ask::Post(old(self).next_id, old(self).server@ + "/api/open"@, url@),
            ).push(Ask::Navigate(url@)),
    {
        let id: i32 = self.take_id();
        self.open_id = Some(id);
        let u = self.at("/api/open");
        ask_post(out, id, u, url.to_owned());
        ask(out, Request::Navigate { url: url.to_owned() });
    }

    /// Shows or hides the reviews of an app.
    pub fn toggle_reviews(&mut self, url: &str, out: &mut Vec<Request>)
        requires
            old(self).has_ids(1),
        ensures
            old(self).reviews_for@ == url@ ==> *final(self) == (SearchApp {
                reviews_for: final(self).reviews_for,
                ..*old(self)
            }) && final(self).reviews_for@.len() == 0 && asks(final(out)@) == asks(old(out)@),
            old(self).reviews_for@ != url@ ==> *final(self) == (SearchApp {
                reviews_for: final(self).reviews_for,
                reviews: final(self).reviews,
                next_id: (old(self).next_id + 1) as i32,
                reviews_id: Some(old(self).next_id),
                ..*old(self)
            }) && final(self).reviews_for@ == url@ && final(self).reviews@.len() == 0 && asks(
                final(out)@,
            ) == asks(old(out)@).push(reviews_ask(*old(self), url@)),
    {
        if crate::text::same(self.reviews_for.as_str(), url) {
            self.reviews_for = String::new();
        } else {
            self.load_reviews(url, out);
        }
    }

    /// Shows or hides the stars with which to rate an app.
    pub fn toggle_rating(&mut self, url: &str)
        ensures
            *final(self) == (SearchApp { rating_for: final(self).rating_for, ..*old(self) }),
            final(self).rating_for@ == if old(self).rating_for@ == url@ {
                Seq::empty()
            } else {
                url@
            },
    {
        if crate::text::same(self.rating_for.as_str(), url) {
            self.rating_for = String::new();
        } else {
            self.rating_for = url.to_owned();
        }
    }

    /// Rates an app.
    pub fn rate(&mut self, url: &str, stars: u8, review: &str, out: &mut Vec<Request>)
        requires
            old(self).has_ids(1),
        ensures
            *final(self) == (SearchApp {
                rating_for: final(self).rating_for,
                next_id: (old(self).next_id + 1) as i32,
                rate_id: Some(old(self).next_id),
                ..*old(self)
            }),
            final(self).rating_for@.len() == 0,
            asks(final(out)@) == asks(old(out)@).push(
                Ask::Post(
                    old(self).next_id,
                    old(self).server@ + "/api/rate"@,
                    url@ + "\t"@ + crate::numerals::decimal(stars as nat) + "\t"@ + review@,
                ),
            ),
    {
        let id: i32 = self.take_id();
        self.rate_id = Some(id);
        let u = self.at("/api/rate");
        let mut body = url.to_owned();
        body.append("\t");
        body.append(format_u64(stars as u64).as_str());
        body.append("\t");
        body.append(review);
        ask_post(out, id, u, body);
        self.rating_for = String::new();
    }

    /// Takes a module that the user chose.
    pub fn picked_file(&mut self, name: String, bytes: Vec<u8>)
        ensures
            *final(self) == (SearchApp {
                picked: Some(Picked { name, bytes }),
                hosted_url: final(self).hosted_url,
                error: final(self).error,
                ..*old(self)
            }),
            final(self).hosted_url@.len() == 0,
            final(self).error@.len() == 0,
    {
        self.picked = Some(Picked { name, bytes });
        self.hosted_url = String::new();
        self.error = String::new();
    }

    /// Chooses where the app is served from.
    pub fn set_hosting(&mut self, h: Hosting)
        ensures
            *final(self) == (SearchApp { hosting: h, ..*old(self) }),
    {
        self.hosting = h;
    }

    /// Whether everything that a submission needs is there.
    pub open spec fn is_ready(self, name: Seq<char>, url: Seq<char>) -> bool {
        name.len() > 0 && match self.hosting {
            Hosting::Here => self.picked is Some,
            Hosting::Elsewhere => url.len() > 0,
        }
    }

    /// Whether everything that a submission needs is there.
    pub fn ready(&self, name: &str, url: &str) -> (r: bool)
        ensures
            r == self.is_ready(name@, url@),
    {
        !name.is_empty() && match self.hosting {
            Hosting::Here => self.picked.is_some(),
            Hosting::Elsewhere => !url.is_empty(),
        }
    }

    /// Submits an app: a chosen module is uploaded first.
    pub fn submit(&mut self, form: Form, url: &str, out: &mut Vec<Request>)
        requires
            old(self).has_ids(1),
        ensures
            ({
                let a = *old(self);
                let b = *final(self);
                if !a.is_ready(form.name@, url@) {
                    b == a && asks(final(out)@) == asks(old(out)@)
                } else {
                    let c = SearchApp {
                        pending: Some(form),
                        progress: Progress::Pending,
                        error: b.error,
                        ..a
                    };
                    &&& b.error@.len() == 0
                    &&& match a.hosting {
                        Hosting::Here => b == (SearchApp {
                            next_id: (a.next_id + 1) as i32,
                            upload_id: Some(a.next_id),
                            ..c
                        }) && asks(final(out)@) == asks(old(out)@).push(
                            Ask::PostBytes(
                                a.next_id,
                                a.server@ + "/api/upload?name="@ + all_escaped(
                                    encode_utf8(form.name@),
                                ),
                                a.picked->0.bytes@,
                            ),
                        ),
                        Hosting::Elsewhere => b == submission_sent(c) && asks(final(out)@) == asks(
                            old(out)@,
                        ).push(submission_ask(a, form, url@)),
                    }
                }
            }),
    {
        if !self.ready(form.name.as_str(), url) {
            return;
        }
        let ghost f = form;
        let name = form.name.clone();
        self.pending = Some(form);
        self.progress = Progress::Pending;
        self.error = String::new();
        match self.hosting {
            Hosting::Here => {
                let bytes: Vec<u8> = match &self.picked {
                    Some(p) => p.bytes.clone(),
                    None => Vec::new(),
                };
                let id: i32 = self.take_id();
                self.upload_id = Some(id);
                let mut u = self.at("/api/upload?name=");
                u.append(encode(name.as_str()).as_str());
                ask(out, Request::PostBytes { id, url: u, bytes });
            },
            Hosting::Elsewhere => {
                assert(self.pending == Some(f));
                self.send_submission(url, out);
            },
        }
    }

    /// Stops waiting for a submission.
    pub fn cancel(&mut self)
        ensures
            *final(self) == (SearchApp {
                progress: Progress::Idle,
                submit_id: None,
                ..*old(self)
            }),
    {
        self.progress = Progress::Idle;
        self.submit_id = None;
    }

    /// Starts over after a submission arrived.
    pub fn submit_another(&mut self)
        ensures
            *final(self) == (SearchApp {
                progress: Progress::Idle,
                picked: None,
                hosted_url: final(self).hosted_url,
                ..*old(self)
            }),
            final(self).hosted_url@.len() == 0,
    {
        self.progress = Progress::Idle;
        self.picked = None;
        self.hosted_url = String::new();
    }

    /// Goes back to the form after a submission failed.
    pub fn try_again(&mut self)
        ensures
            *final(self) == (SearchApp { progress: Progress::Idle, ..*old(self) }),
    {
        self.progress = Progress::Idle;
    }
}

// ── What comes of the node's answers ─────────────────────────────────────────

/// What a node shows of an entry is what the app lists of it: its name, description,
/// address, author, tags and the chunk that answers best.
pub proof fn lemma_shown_entry_is_listed(e: Entry, q: Seq<char>, l: Listing)
    requires
        !e.name.contains('\t') && !e.desc.contains('\t') && !e.url.contains('\t'),
        !e.author.contains('\t') && !e.tags.contains('\t'),
        is_listing(l, shown(e, q)),
    ensures
        l.name@ == e.name && l.desc@ == e.desc && l.url@ == e.url && l.author@ == e.author && l.tags@
            == e.tags && l.doc_snippet@ == best_chunk_of(e.doc_snippet, q),
{
    lemma_row_shows_the_entry(e, q);
}

/// A form that the app submits is read by the node as it was filled in.
pub proof fn lemma_submitted_form_is_read(app: SearchApp, f: Form, url: Seq<char>)
    requires
        f.name@.len() > 0 && url.len() > 0,
        is_trimmed(f.name@) && is_trimmed(f.desc@) && is_trimmed(url) && is_trimmed(f.author@)
            && is_trimmed(f.tags@),
        !f.name@.contains('\t') && !f.desc@.contains('\t') && !url.contains('\t'),
        !f.author@.contains('\t') && !f.tags@.contains('\t'),
    ensures
        submission_ask(app, f, url) matches Ask::Post(id, to, body) && id == app.next_id && to
            == app.server@ + "/api/submit"@ && (submission(body).0 matches Some(e) && e.name
            == f.name@ && e.desc == f.desc@ && e.url == url && e.author == f.author@ && e.tags
            == f.tags@),
{
    let none = Seq::<char>::empty();
    let a = Entry {
        name: f.name@,
        desc: f.desc@,
        url,
        author: f.author@,
        tags: f.tags@,
        doc_snippet: none,
        vec: none,
        doc_vec: none,
    };
    lemma_submission_is_read(a, none);
}

/// What a node tells of how an app is liked is what the app shows: its average, how many
/// rated it and how often it was opened.
pub proof fn lemma_told_stat_is_shown(
    e: Entry,
    average: Seq<char>,
    votes: Seq<Row<Rating>>,
    opens: Seq<Row<u64>>,
    s: Stat,
)
    requires
        !e.url.contains('\t') && !average.contains('\t'),
        vote_total(votes, e.url) <= u32::MAX,
        open_total(opens, e.url) <= u64::MAX,
        is_stat(s, stats_line(e, average, votes, opens)),
    ensures
        s.url@ == e.url && s.avg@ == average && s.votes == vote_total(votes, e.url) && s.opens
            == open_total(opens, e.url),
{
    reveal_strlit("\t");
    assert("\t"@ =~= seq!['\t']);
    let v = decimal(vote_total(votes, e.url));
    let o = decimal(open_total(opens, e.url));
    lemma_decimal_round_trip(vote_total(votes, e.url));
    lemma_decimal_round_trip(open_total(opens, e.url));
    lemma_decimal_digits(vote_total(votes, e.url));
    assert(!v.contains('\t')) by {
        if v.contains('\t') {
            let i = choose|i: int| 0 <= i < v.len() && v[i] == '\t';
            assert(is_digit(v[i]));
        }
    }
    lemma_splitn_none(e.url, '\t', 4);
    lemma_splitn_push(e.url, '\t', 4, average);
    lemma_splitn_push(e.url + "\t"@ + average, '\t', 4, v);
    lemma_splitn_rest(e.url + "\t"@ + average + "\t"@ + v, '\t', 4, o);
}

/// A review that a node tells of is shown with its stars and its words.
pub proof fn lemma_told_review_is_shown(v: Vote, r: Review)
    requires
        is_review(r, review_row(v)),
    ensures
        r.stars == v.stars && r.text@ == v.text,
{
    lemma_review_row_pieces(v);
    lemma_decimal_round_trip(v.stars as nat);
}

/// The lines that are read are those that are not blank and have enough fields, in their
/// order.
pub proof fn lemma_full_lines(a: Seq<Seq<char>>, b: Seq<Seq<char>>, line: Seq<char>, n: int)
    ensures
        full_lines(a + b, n) == full_lines(a, n) + full_lines(b, n),
        full_lines(seq![line], n) == if trimmed(line).len() > 0 && splitn(line, '\t', n).len() >= n {
            seq![line]
        } else {
            Seq::empty()
        },
    decreases b.len(),
{
    assert(seq![line].drop_last() =~= Seq::<Seq<char>>::empty());
    assert(full_lines(Seq::<Seq<char>>::empty(), n) =~= Seq::empty());
    assert(Seq::<Seq<char>>::empty().push(line) =~= seq![line]);
    if b.len() == 0 {
        assert(a + b =~= a);
        assert(full_lines(a, n) + full_lines(b, n) =~= full_lines(a, n));
    } else {
        assert((a + b).drop_last() =~= a + b.drop_last());
        lemma_full_lines(a, b.drop_last(), line, n);
        assert(full_lines(a + b, n) =~= full_lines(a, n) + full_lines(b, n));
    }
}

/// What a search asks for has numbers of its own, and the app waits for the answers under
/// these numbers.
pub proof fn lemma_search_waits_for_its_answers(a: SearchApp, url: Seq<char>)
    requires
        a.has_ids(2),
    ensures
        ({
            let b = search_asked(a);
            let asked = search_asks(a, url);
            &&& asked.len() == 2
            &&& asked[0] matches Ask::Get(id, u) && b.search_id == Some(id) && u == url
            &&& asked[1] matches Ask::Get(id, u) && b.stats_id == Some(id) && u == a.server@
                + "/api/stats"@
            &&& b.search_id != b.stats_id
            &&& b.next_id > b.search_id->0 && b.next_id > b.stats_id->0
        }),
{
}

/// A search is asked of the node with the query, each blank a plus sign, and with the query's
/// vector where there is one, so written that it comes through.
pub proof fn lemma_search_carries_the_query(server: Seq<char>, q: Seq<char>, v: Seq<char>)
    ensures
        ({
            let front = server + "/api/search?q="@;
            let plain = search_url(server, q, None);
            let near = search_url(server, q, Some(v));
            &&& plain.take(front.len() as int) == front
            &&& plain.skip(front.len() as int) == plus_text(q)
            &&& near == plain + "&vec="@ + vec_text(v)
        }),
{
    let front = server + "/api/search?q="@;
    let plain = search_url(server, q, None);
    assert(plain.take(front.len() as int) =~= front);
    assert(plain.skip(front.len() as int) =~= plus_text(q));
}

/// A submission, a failed upload and a recount touch what they are about and nothing else:
/// what was found, what is typed and what is shown stay.
pub proof fn lemma_deeds_leave_the_rest(a: SearchApp, b: SearchApp, c: SearchApp, msg: Seq<char>)
    requires
        a.has_ids(2),
        upload_failed(a, b, msg),
        recounted(a, c),
    ensures
        ({
            let s = submission_sent(a);
            &&& s.submit_id == Some(a.next_id) && s.next_id == a.next_id + 1
            &&& s.progress == Progress::Pending && s.results == a.results && s.tab == a.tab
                && s.search_id == a.search_id
        }),
        b.upload_id is None && b.progress == Progress::Failed && b.error@ == msg,
        b.results == a.results && b.pending == a.pending && b.picked == a.picked && b.tab == a.tab,
        c.stats_id == Some(a.next_id) && c.next_id > a.next_id,
        c.results == a.results && c.stats == a.stats && c.tab == a.tab && c.reviews_for@
            == a.reviews_for@,
        a.reviews_for@.len() > 0 ==> c.reviews_id == Some((a.next_id + 1) as i32) && c.reviews@.len()
            == 0,
        a.reviews_for@.len() == 0 ==> c.reviews_id == a.reviews_id && c.reviews == a.reviews,
{
}

/// After a rating or an open the app asks again how apps are liked, and where reviews are
/// shown also for those, by the address of their app.
pub proof fn lemma_recount_asks_again(a: SearchApp)
    requires
        a.has_ids(2),
    ensures
        recount_asks(a)[0] == Ask::Get(a.next_id, a.server@ + "/api/stats"@),
        recount_asks(a).len() == if a.reviews_for@.len() > 0 {
            2nat
        } else {
            1
        },
        a.reviews_for@.len() > 0 ==> recount_asks(a)[1] == Ask::Get(
            (a.next_id + 1) as i32,
            a.server@ + "/api/reviews?url="@ + all_escaped(encode_utf8(a.reviews_for@)),
        ),
{
}

/// The lines of an answer that are not empty are entries, in their order.
pub proof fn lemma_entry_lines(a: Seq<Seq<char>>, b: Seq<Seq<char>>, line: Seq<char>)
    ensures
        entry_lines(a + b) == entry_lines(a) + entry_lines(b),
        entry_lines(seq![line]) == if line.len() > 0 {
            seq![line]
        } else {
            Seq::empty()
        },
{
    lemma_filled_parts(a, b, line);
}

} // verus!

//! The directory of apps that a node keeps: what it heard, what was published here,
//! and how its endpoints change and show it.
use vstd::prelude::*;
use vstd::string::StringExecFns;
use crate::entry::{entries, parse_tsv, parse_wire, same_entry_content, tsv, wire, App, Entry};
use crate::entry::{is_clean, lemma_tsv_fields, lemma_tsv_round_trip, lemma_wire_round_trip, maybe_entry};
use crate::ledger::{rows_map, Ledger, Row};
use crate::names::{add_name, distinct, has_name, remove_name, with_name, without_name};
use crate::names::{lemma_with_name, lemma_without_name};
use crate::node::{node_id, node_name};
use crate::numerals::{decimal, is_digit, number, parse_u8};
use crate::numerals::{lemma_decimal_digits, lemma_decimal_round_trip};
use crate::order::{goes_before, is_ordering, lemma_text_before_total, ordering, text_before};
use crate::ratings::{
    merge_opens, merge_rating, opens_line, opens_row, opens_rows, opens_storable, rating_line,
    rating_row, rating_rows, vote_is_news, vote_merged, votes_storable, OpenMap, Rating, Vote,
    VoteMap,
};
use crate::ratings::{lemma_opens_file_round_trip, lemma_ratings_file_round_trip};
use crate::replies::{err, err_reply, ok, ok_reply};
use crate::search::{
    best_chunk, best_chunk_of, finds, haystack, is_content_word, lowercases_by_parts,
    sanitize_doc_snippet, sanitized,
};
use crate::search::lemma_found_by_any_text;
use crate::text::{
    begins_with, contains, from_utf8_lossy, has_substring, is_line, is_trimmed, join, joined, lines,
    lines_of, lowercase, prefix, chars_of, same, split_str_n, splitn, starts_with, strip_prefix,
    texts, trim, trim_trailing, trimmed, utf8_lossy, without_trailing, words,
};
use crate::text::{is_space, rows_text, split};
use crate::text::lemma_read_lines_round_trip;
use crate::text::{lemma_absent_in_sum, lemma_joined_rows_round_trip, lemma_split_join};
use crate::text::{lemma_splitn_none, lemma_splitn_push, lemma_splitn_rest, lemma_trim_fixed};
use crate::vectors::{lacks_vector, needs_embedding};

verus! {

/// What a node keeps.
pub struct Registry {
    pub approved: Vec<App>,
    /// The addresses that were published here.
    pub mine: Vec<String>,
    pub ratings: Ledger<Rating>,
    pub opens: Ledger<u64>,
    /// The peers that are known.
    pub peers: Vec<String>,
    /// The secret of this node.
    pub token: String,
    /// Whether the node is listed in the public directory.
    pub published: bool,
    pub self_url: String,
}

/// The content of a [`Registry`].
#[verifier::ext_equal]
pub struct State {
    pub approved: Seq<Entry>,
    pub mine: Seq<Seq<char>>,
    pub ratings: VoteMap,
    pub opens: OpenMap,
    pub peers: Seq<Seq<char>>,
    pub token: Seq<char>,
    pub published: bool,
    pub self_url: Seq<char>,
}

impl View for Registry {
    type V = State;

    open spec fn view(&self) -> State {
        State {
            approved: entries(self.approved@),
            mine: texts(self.mine@),
            ratings: self.ratings@,
            opens: self.opens@,
            peers: texts(self.peers@),
            token: self.token@,
            published: self.published,
            self_url: self.self_url@,
        }
    }
}

impl Registry {
    /// Whether nothing is kept twice.
    pub open spec fn wf(self) -> bool {
        &&& self.ratings.wf()
        &&& self.opens.wf()
        &&& distinct(texts(self.mine@))
        &&& distinct(texts(self.peers@))
    }
}

/// Which files a change has made out of date.
#[derive(Clone, Copy, Debug, PartialEq, Eq, Structural)]
pub struct Dirty {
    pub approved: bool,
    pub mine: bool,
    pub peers: bool,
    pub ratings: bool,
    pub opens: bool,
}

/// What an endpoint answers, what it tells every peer, and what has to be stored.
pub struct Outcome {
    pub reply: String,
    pub broadcast: Option<String>,
    pub dirty: Dirty,
}

/// No file is out of date.
pub open spec fn clean_files() -> Dirty {
    Dirty { approved: false, mine: false, peers: false, ratings: false, opens: false }
}

fn nothing_dirty() -> (d: Dirty)
    ensures
        d == clean_files(),
{
    Dirty { approved: false, mine: false, peers: false, ratings: false, opens: false }
}

/// Whether an outcome is a refusal with a message and nothing else.
pub open spec fn refused(o: Outcome, msg: Seq<char>) -> bool {
    o.reply@ == err_reply(msg) && o.broadcast is None && o.dirty == clean_files()
}

fn refuse(msg: &str) -> (o: Outcome)
    ensures
        refused(o, msg@),
{
    Outcome { reply: err(msg), broadcast: None, dirty: nothing_dirty() }
}

// ── Entries by address ───────────────────────────────────────────────────────

/// The position of the first entry with an address.
pub open spec fn url_index(apps: Seq<Entry>, url: Seq<char>) -> Option<int>
    decreases apps.len(),
{
    if apps.len() == 0 {
        None
    } else {
        match url_index(apps.drop_last(), url) {
            Some(i) => Some(i),
            None => if apps.last().url == url {
                Some(apps.len() - 1)
            } else {
                None
            },
        }
    }
}

/// Whether there is an entry with an address.
pub open spec fn has_url(apps: Seq<Entry>, url: Seq<char>) -> bool {
    url_index(apps, url) is Some
}

/// Whether no two entries share an address.
pub open spec fn urls_distinct(apps: Seq<Entry>) -> bool {
    forall|i: int, j: int|
        0 <= i < j < apps.len() ==> (#[trigger] apps[i]).url != (#[trigger] apps[j]).url
}

/// The position that `url_index` gives is the first one with that address.
pub proof fn lemma_url_index(apps: Seq<Entry>, url: Seq<char>)
    ensures
        match url_index(apps, url) {
            Some(i) => 0 <= i < apps.len() && apps[i].url == url && forall|j: int|
                0 <= j < i ==> (#[trigger] apps[j]).url != url,
            None => forall|j: int| 0 <= j < apps.len() ==> (#[trigger] apps[j]).url != url,
        },
    decreases apps.len(),
{
    if apps.len() > 0 {
        let d = apps.drop_last();
        lemma_url_index(d, url);
        match url_index(d, url) {
            Some(i) => {
                assert forall|j: int| 0 <= j < i implies (#[trigger] apps[j]).url != url by {
                    assert(d[j].url != url);
                }
                assert(d[i] == apps[i]);
            },
            None => {
                assert forall|j: int| 0 <= j < apps.len() - 1 implies (#[trigger] apps[j]).url
                    != url by {
                    assert(d[j].url != url);
                }
                if apps.last().url != url {
                    assert forall|j: int| 0 <= j < apps.len() implies (#[trigger] apps[j]).url
                        != url by {
                        if j == apps.len() - 1 {
                            assert(apps[j] == apps.last());
                        }
                    }
                }
            },
        }
    }
}

/// The entries with other addresses, in their order.
pub open spec fn without_url(apps: Seq<Entry>, url: Seq<char>) -> Seq<Entry>
    decreases apps.len(),
{
    if apps.len() == 0 {
        apps
    } else if apps.last().url == url {
        without_url(apps.drop_last(), url)
    } else {
        without_url(apps.drop_last(), url).push(apps.last())
    }
}

/// Removing an address removes every entry with it, and no other.
pub proof fn lemma_without_url(apps: Seq<Entry>, url: Seq<char>)
    ensures
        !has_url(without_url(apps, url), url),
        forall|e: Entry|
            e.url != url ==> #[trigger] without_url(apps, url).contains(e) == apps.contains(e),
    decreases apps.len(),
{
    let w = without_url(apps, url);
    if apps.len() > 0 {
        let d = apps.drop_last();
        lemma_without_url(d, url);
        let wd = without_url(d, url);
        assert(apps[apps.len() - 1] == apps.last());
        assert forall|e: Entry| e.url != url implies #[trigger] w.contains(e) == apps.contains(e) by {
            assert(wd.contains(e) == d.contains(e));
            if apps.contains(e) {
                let i = choose|i: int| 0 <= i < apps.len() && apps[i] == e;
                if i < d.len() {
                    assert(d[i] == e);
                }
            }
            if d.contains(e) {
                let i = choose|i: int| 0 <= i < d.len() && d[i] == e;
                assert(apps[i] == e);
            }
            if apps.last().url != url {
                if w.contains(e) {
                    let i = choose|i: int| 0 <= i < w.len() && w[i] == e;
                    if i < wd.len() {
                        assert(wd[i] == e);
                    }
                }
                if wd.contains(e) {
                    let i = choose|i: int| 0 <= i < wd.len() && wd[i] == e;
                    assert(w[i] == e);
                }
                assert(w[w.len() - 1] == apps.last());
            }
        }
        if apps.last().url != url {
            assert(w.drop_last() =~= wd);
        }
    }
}

/// Returns the position of the first entry with an address.
pub fn find_url(apps: &Vec<App>, url: &str) -> (r: Option<usize>)
    ensures
        match r {
            Some(i) => url_index(entries(apps@), url@) == Some(i as int) && i < apps@.len()
                && apps@[i as int].url@ == url@,
            None => url_index(entries(apps@), url@) is None,
        },
{
    let mut i: usize = 0;
    let ghost all = entries(apps@);
    while i < apps.len()
        invariant
            i <= apps@.len(),
            all == entries(apps@),
            forall|j: int| 0 <= j < i ==> (#[trigger] all[j]).url != url@,
        decreases apps.len() - i,
    {
        assert(all[i as int].url == apps@[i as int].url@);
        if same(apps[i].url.as_str(), url) {
            proof {
                lemma_url_index(all, url@);
            }
            return Some(i);
        }
        i += 1;
    }
    proof {
        lemma_url_index(all, url@);
    }
    None
}

fn drop_url(apps: &mut Vec<App>, url: &str)
    ensures
        entries(final(apps)@) == without_url(entries(old(apps)@), url@),
{
    let mut out: Vec<App> = Vec::new();
    let mut i: usize = 0;
    let ghost all = entries(apps@);
    assert(entries(out@) =~= all.take(0));
    while i < apps.len()
        invariant
            i <= apps@.len(),
            all == entries(apps@),
            entries(out@) == without_url(all.take(i as int), url@),
        decreases apps.len() - i,
    {
        assert(all.take(i + 1).drop_last() =~= all.take(i as int));
        assert(all.take(i + 1).last() == apps@[i as int]@);
        if !same(apps[i].url.as_str(), url) {
            let ghost before = entries(out@);
            let a = apps[i].copy();
            out.push(a);
            assert(entries(out@) =~= before.push(a@));
        }
        i += 1;
    }
    assert(all.take(i as int) =~= all);
    *apps = out;
}

// ── Hearing of an app ────────────────────────────────────────────────────────

/// A known entry after hearing of it again, given whether it lacks a vector: a vector
/// fills the gap, and a new preview or content vector takes the place of the old.
pub open spec fn enriched(e: Entry, heard: Entry, lacking: bool) -> Entry {
    Entry {
        vec: if lacking && heard.vec.len() > 0 {
            heard.vec
        } else {
            e.vec
        },
        doc_vec: if heard.doc_vec.len() > 0 {
            heard.doc_vec
        } else {
            e.doc_vec
        },
        doc_snippet: if heard.doc_snippet.len() > 0 {
            heard.doc_snippet
        } else {
            e.doc_snippet
        },
        ..e
    }
}

/// Whether hearing of a known entry again is worth passing on.
pub open spec fn enriches(e: Entry, heard: Entry, lacking: bool) -> bool {
    ||| lacking && heard.vec.len() > 0 && heard.vec != e.vec
    ||| heard.doc_vec.len() > 0 && heard.doc_vec != e.doc_vec
    ||| heard.doc_snippet.len() > 0 && heard.doc_snippet != e.doc_snippet
}

/// The entries after hearing of an app.
pub open spec fn received(apps: Seq<Entry>, heard: Entry) -> Seq<Entry> {
    match url_index(apps, heard.url) {
        None => apps.push(heard),
        Some(i) => apps.update(i, enriched(apps[i], heard, lacks_vector(apps[i].vec))),
    }
}

/// Whether hearing of an app is worth passing on: it was new, or it gained something.
pub open spec fn is_news(apps: Seq<Entry>, heard: Entry) -> bool {
    match url_index(apps, heard.url) {
        None => true,
        Some(i) => enriches(apps[i], heard, lacks_vector(apps[i].vec)),
    }
}

/// Adds to a known entry what hearing of it again brings.
pub fn enrich(e: &mut App, heard: &App, lacking: bool) -> (news: bool)
    ensures
        final(e)@ == enriched(old(e)@, heard@, lacking),
        news == enriches(old(e)@, heard@, lacking),
{
    let mut news = false;
    if lacking && !heard.vec.as_str().is_empty() && heard.vec != e.vec {
        e.vec = heard.vec.clone();
        news = true;
    }
    if !heard.doc_vec.as_str().is_empty() && heard.doc_vec != e.doc_vec {
        e.doc_vec = heard.doc_vec.clone();
        news = true;
    }
    if !heard.doc_snippet.as_str().is_empty() && heard.doc_snippet != e.doc_snippet {
        e.doc_snippet = heard.doc_snippet.clone();
        news = true;
    }
    news
}

impl Registry {
    /// Whether there is an entry with an address.
    pub fn has_approved(&self, url: &str) -> (r: bool)
        ensures
            r == has_url(self@.approved, url@),
    {
        find_url(&self.approved, url).is_some()
    }

    /// Takes note of an app. Returns whether to pass it on.
    pub fn receive(&mut self, app: &App) -> (news: bool)
        requires
            old(self).wf(),
        ensures
            final(self).wf(),
            final(self)@ == (State { approved: received(old(self)@.approved, app@), ..old(self)@ }),
            news == is_news(old(self)@.approved, app@),
    {
        let ghost before = self@;
        match find_url(&self.approved, app.url.as_str()) {
            None => {
                let a = app.copy();
                self.approved.push(a);
                assert(self@.approved =~= before.approved.push(a@));
                assert(self@ =~= State { approved: received(before.approved, app@), ..before });
                true
            },
            Some(i) => {
                let mut e = self.approved[i].copy();
                assert(before.approved[i as int] == e@);
                let lacking = needs_embedding(e.vec.as_str());
                let news = enrich(&mut e, app, lacking);
                self.approved.set(i, e);
                assert(self@.approved =~= before.approved.update(i as int, e@));
                assert(self@ =~= State { approved: received(before.approved, app@), ..before });
                news
            },
        }
    }
}

/// Hearing of apps keeps addresses apart.
pub proof fn lemma_receive_keeps_urls_distinct(apps: Seq<Entry>, heard: Entry)
    requires
        urls_distinct(apps),
    ensures
        urls_distinct(received(apps, heard)),
        has_url(received(apps, heard), heard.url),
{
    lemma_url_index(apps, heard.url);
    let r = received(apps, heard);
    lemma_url_index(r, heard.url);
    match url_index(apps, heard.url) {
        None => {
            assert(r[apps.len() as int].url == heard.url);
        },
        Some(i) => {
            assert(r[i].url == heard.url);
            assert forall|a: int, b: int| 0 <= a < b < r.len() implies (#[trigger] r[a]).url != (
            #[trigger] r[b]).url by {
                assert(r[a].url == apps[a].url && r[b].url == apps[b].url);
            }
        },
    }
}

/// Hearing of an app a second time is no news, so gossip settles.
pub proof fn lemma_receive_settles(apps: Seq<Entry>, heard: Entry)
    ensures
        !is_news(received(apps, heard), heard),
        received(received(apps, heard), heard) == received(apps, heard),
{
    lemma_url_index(apps, heard.url);
    let r = received(apps, heard);
    lemma_url_index(r, heard.url);
    match url_index(apps, heard.url) {
        None => {
            assert(r[apps.len() as int] == heard);
            assert forall|j: int| 0 <= j < apps.len() implies (#[trigger] r[j]).url != heard.url by {
                assert(r[j] == apps[j]);
            }
            assert(url_index(r, heard.url) == Some(apps.len() as int));
            assert(received(r, heard) =~= r);
        },
        Some(i) => {
            assert forall|j: int| 0 <= j < i implies (#[trigger] r[j]).url != heard.url by {
                assert(r[j] == apps[j]);
            }
            assert(r[i].url == heard.url);
            assert(url_index(r, heard.url) == Some(i));
            assert(received(r, heard) =~= r);
        },
    }
}

/// Hearing of an app never removes an entry, nor changes its name, description,
/// author or tags.
pub proof fn lemma_receive_keeps_entries(apps: Seq<Entry>, heard: Entry, i: int)
    requires
        0 <= i < apps.len(),
    ensures
        received(apps, heard).len() >= apps.len(),
        ({
            let e = received(apps, heard)[i];
            e.url == apps[i].url && e.name == apps[i].name && e.desc == apps[i].desc && e.author
                == apps[i].author && e.tags == apps[i].tags
        }),
{
    lemma_url_index(apps, heard.url);
}

/// After hearing of an app, the entry with its address has the preview and the content
/// vector that were announced, if any were, and the vector if it had none of the model in
/// use. What was not announced it keeps, and an app that was not known is taken as it is.
pub proof fn lemma_receive_takes_what_was_told(apps: Seq<Entry>, heard: Entry, i: int)
    requires
        urls_distinct(apps),
        0 <= i < received(apps, heard).len(),
        received(apps, heard)[i].url == heard.url,
    ensures
        ({
            let now = received(apps, heard)[i];
            &&& heard.doc_snippet.len() > 0 ==> now.doc_snippet == heard.doc_snippet
            &&& heard.doc_vec.len() > 0 ==> now.doc_vec == heard.doc_vec
            &&& !has_url(apps, heard.url) ==> i == apps.len() && now == heard
            &&& has_url(apps, heard.url) ==> i < apps.len() && apps[i].url == heard.url && (
            heard.doc_snippet.len() == 0 ==> now.doc_snippet == apps[i].doc_snippet) && (
            heard.doc_vec.len() == 0 ==> now.doc_vec == apps[i].doc_vec) && (heard.vec.len() > 0
                && lacks_vector(apps[i].vec) ==> now.vec == heard.vec) && (heard.vec.len() == 0
                || !lacks_vector(apps[i].vec) ==> now.vec == apps[i].vec)
        }),
{
    lemma_url_index(apps, heard.url);
    match url_index(apps, heard.url) {
        None => {
            if i < apps.len() {
                assert(apps[i].url == heard.url);
            }
        },
        Some(k) => {
            if i != k {
                assert(apps[i].url == heard.url && apps[k].url == heard.url);
            }
        },
    }
}

/// Hearing of an app changes no other entry, and is passed on exactly if it changed
/// something.
pub proof fn lemma_receive_is_news_if_it_changes(apps: Seq<Entry>, heard: Entry)
    ensures
        is_news(apps, heard) <==> received(apps, heard) != apps,
        forall|j: int|
            0 <= j < apps.len() && apps[j].url != heard.url ==> #[trigger] received(apps, heard)[j]
                == apps[j],
        received(apps, heard).len() == apps.len() + if has_url(apps, heard.url) {
            0int
        } else {
            1int
        },
{
    lemma_url_index(apps, heard.url);
    let r = received(apps, heard);
    match url_index(apps, heard.url) {
        None => {
            assert(r.len() == apps.len() + 1);
        },
        Some(k) => {
            let e = apps[k];
            assert(r[k] == enriched(e, heard, lacks_vector(e.vec)));
            if !is_news(apps, heard) {
                assert(r[k] =~= e);
                assert(r =~= apps);
            } else {
                assert(r[k] != e);
            }
        },
    }
}

// ── Publishing ───────────────────────────────────────────────────────────────

/// What a line of a submission says: the entry without vectors, and the content
/// vector that came as the seventh field.
pub open spec fn submission(line: Seq<char>) -> (Option<Entry>, Seq<char>) {
    let p = splitn(line, '\t', 7);
    if p.len() == 7 {
        (parse_tsv(joined(p.drop_last(), "\t"@)), trimmed(p.last()))
    } else {
        (parse_tsv(joined(p, "\t"@)), Seq::empty())
    }
}

/// The entry to publish, given whether the content vector that came is one of the
/// model in use; or why there is none.
pub open spec fn submitted(line: Seq<char>, foreign: bool) -> Result<Entry, Seq<char>> {
    let s = submission(line);
    match s.0 {
        None => Err("name and url are required"@),
        Some(e) => if !begins_with(e.url, "http"@) {
            Err("url must start with http"@)
        } else {
            Ok(
                Entry {
                    doc_snippet: sanitized(e.doc_snippet),
                    doc_vec: if foreign {
                        e.doc_vec
                    } else {
                        s.1
                    },
                    ..e
                },
            )
        },
    }
}

proof fn lemma_joined_push(p: Seq<Seq<char>>, x: Seq<char>, sep: Seq<char>)
    requires
        p.len() > 0,
    ensures
        joined(p.push(x), sep) == joined(p, sep) + sep + x,
{
    assert(p.push(x).drop_last() =~= p);
}

/// The five fields of a form, divided by tabs, are read as the name, the description, the
/// address, the author and the tags of an entry, and the two that may follow as its preview
/// and the vector of its content.
pub proof fn lemma_submission_is_read(a: Entry, vec: Seq<char>)
    requires
        is_clean(a),
        !a.doc_snippet.contains('\t'),
        is_trimmed(vec) && !vec.contains('\t'),
    ensures
        ({
            let form = a.name + "\t"@ + a.desc + "\t"@ + a.url + "\t"@ + a.author + "\t"@ + a.tags;
            let none = Seq::<char>::empty();
            &&& submission(form) == (
                Some((Entry { doc_snippet: none, vec: none, doc_vec: none, ..a })),
                none,
            )
            &&& submission(form + "\t"@ + a.doc_snippet) == (
                Some((Entry { vec: none, doc_vec: none, ..a })),
                none,
            )
            &&& submission(form + "\t"@ + a.doc_snippet + "\t"@ + vec) == (
                Some((Entry { vec: none, doc_vec: none, ..a })),
                vec,
            )
        }),
{
    reveal_strlit("\t");
    let tab = "\t"@;
    assert(tab =~= seq!['\t']);
    let none = Seq::<char>::empty();
    let s1 = a.name + tab + a.desc;
    let s2 = s1 + tab + a.url;
    let s3 = s2 + tab + a.author;
    let s4 = s3 + tab + a.tags;
    let s5 = s4 + tab + a.doc_snippet;
    let s6 = s5 + tab + vec;
    let p0 = seq![a.name];
    let p1 = p0.push(a.desc);
    let p2 = p1.push(a.url);
    let p3 = p2.push(a.author);
    let p4 = p3.push(a.tags);
    let p5 = p4.push(a.doc_snippet);
    let p6 = p5.push(vec);
    lemma_splitn_none(a.name, '\t', 7);
    lemma_splitn_push(a.name, '\t', 7, a.desc);
    lemma_splitn_push(s1, '\t', 7, a.url);
    lemma_splitn_push(s2, '\t', 7, a.author);
    lemma_splitn_push(s3, '\t', 7, a.tags);
    lemma_splitn_push(s4, '\t', 7, a.doc_snippet);
    lemma_splitn_push(s5, '\t', 7, vec);
    assert(joined(p0, tab) == a.name);
    lemma_joined_push(p0, a.desc, tab);
    lemma_joined_push(p1, a.url, tab);
    lemma_joined_push(p2, a.author, tab);
    lemma_joined_push(p3, a.tags, tab);
    lemma_joined_push(p4, a.doc_snippet, tab);
    lemma_trim_fixed(vec);
    lemma_tsv_round_trip(a);
    assert(p6.drop_last() =~= p5);
    assert(submission(s6) == (parse_tsv(s5), vec));
    assert(submission(s5) == (parse_tsv(s5), none));
    assert(submission(s4) == (parse_tsv(s4), none));
    lemma_splitn_none(a.name, '\t', 6);
    lemma_splitn_push(a.name, '\t', 6, a.desc);
    lemma_splitn_push(s1, '\t', 6, a.url);
    lemma_splitn_push(s2, '\t', 6, a.author);
    lemma_splitn_push(s3, '\t', 6, a.tags);
    assert(splitn(s4, '\t', 6) == p4);
    lemma_trim_fixed(a.name);
    lemma_trim_fixed(a.desc);
    lemma_trim_fixed(a.url);
    lemma_trim_fixed(a.author);
    lemma_trim_fixed(a.tags);
}

/// What is published of a form is what was filled in, with the preview and, where it is of
/// the model in use, the vector that came; nothing without a web address.
pub proof fn lemma_submitted_is_what_was_filled_in(a: Entry, vec: Seq<char>, foreign: bool)
    requires
        is_clean(a),
        !a.doc_snippet.contains('\t'),
        is_trimmed(vec) && !vec.contains('\t'),
    ensures
        ({
            let form = a.name + "\t"@ + a.desc + "\t"@ + a.url + "\t"@ + a.author + "\t"@ + a.tags
                + "\t"@ + a.doc_snippet + "\t"@ + vec;
            &&& submitted(form, foreign) is Ok <==> begins_with(a.url, "http"@)
            &&& submitted(form, foreign) matches Ok(e) ==> e.name == a.name && e.desc == a.desc
                && e.url == a.url && e.author == a.author && e.tags == a.tags && e.doc_snippet
                == sanitized(a.doc_snippet) && e.vec.len() == 0 && e.doc_vec == (if foreign {
                Seq::empty()
            } else {
                vec
            })
        }),
{
    lemma_submission_is_read(a, vec);
}

/// A submission in its parts.
pub struct Submission {
    pub app: Option<App>,
    pub doc_vec: String,
}

/// Reads a line of a submission.
pub fn read_submission(line: &str) -> (r: Submission)
    ensures
        (maybe_entry(r.app), r.doc_vec@) == submission(line@),
{
    let mut p = split_str_n(line, '\t', 7);
    let ghost all = texts(p@);
    let mut doc_vec: String = String::new();
    if p.len() == 7 {
        let last = p.pop().unwrap();
        assert(texts(p@) =~= all.drop_last());
        assert(all.last() == last@);
        doc_vec = trim(last.as_str());
    }
    assert(doc_vec@ =~= if all.len() == 7 { trimmed(all.last()) } else { Seq::<char>::empty() });
    let base = join(&p, "\t");
    Submission { app: App::from_tsv(base.as_str()), doc_vec }
}

/// Accepts or refuses a submission, given whether its content vector is not one of the
/// model in use. An unfit vector is dropped, not refused.
pub fn accept(s: Submission, foreign: bool) -> (r: Result<App, String>)
    ensures
        match r {
            Ok(a) => s.app is Some && begins_with(s.app->0@.url, "http"@) && a@ == (Entry {
                doc_snippet: sanitized(s.app->0@.doc_snippet),
                doc_vec: if foreign {
                    s.app->0@.doc_vec
                } else {
                    s.doc_vec@
                },
                ..s.app->0@
            }),
            Err(m) => (s.app is None && m@ == "name and url are required"@) || (s.app is Some
                && !begins_with(s.app->0@.url, "http"@) && m@ == "url must start with http"@),
        },
{
    match s.app {
        None => Err("name and url are required".to_owned()),
        Some(a) => {
            let mut app = a;
            if !starts_with(app.url.as_str(), "http") {
                return Err("url must start with http".to_owned());
            }
            app.doc_snippet = sanitize_doc_snippet(app.doc_snippet.as_str());
            if !foreign {
                app.doc_vec = s.doc_vec;
            }
            Ok(app)
        },
    }
}

/// Reads the body of a submission and accepts or refuses it.
pub fn submit(body: &Vec<u8>) -> (r: Result<App, String>)
    ensures
        match r {
            Ok(a) => submitted(
                utf8_lossy(body@),
                lacks_vector(submission(utf8_lossy(body@)).1),
            ) == Ok::<Entry, Seq<char>>(a@),
            Err(m) => submitted(
                utf8_lossy(body@),
                lacks_vector(submission(utf8_lossy(body@)).1),
            ) == Err::<Entry, Seq<char>>(m@),
        },
{
    let line = from_utf8_lossy(body);
    let s = read_submission(line.as_str());
    let foreign = needs_embedding(s.doc_vec.as_str());
    accept(s, foreign)
}

/// An entry whose content is the same as that of the known one brings a vector that
/// was missing, or another content vector.
pub open spec fn refreshes(e: Entry, app: Entry, lacking: bool) -> bool {
    lacking && app.vec.len() > 0 || app.doc_vec.len() > 0 && app.doc_vec != e.doc_vec
}

/// The known entry with the vectors that a submission of the same content brings.
pub open spec fn refreshed(e: Entry, app: Entry, lacking: bool) -> Entry {
    Entry {
        vec: if lacking && app.vec.len() > 0 {
            app.vec
        } else {
            e.vec
        },
        doc_vec: if app.doc_vec.len() > 0 {
            app.doc_vec
        } else {
            e.doc_vec
        },
        ..e
    }
}

/// The entry that takes the place of the known one: vectors that it lacks are kept.
pub open spec fn replaced(e: Entry, app: Entry) -> Entry {
    Entry {
        vec: if app.vec.len() == 0 {
            e.vec
        } else {
            app.vec
        },
        doc_vec: if app.doc_vec.len() == 0 {
            e.doc_vec
        } else {
            app.doc_vec
        },
        ..app
    }
}

/// What publishing comes to.
#[verifier::ext_equal]
pub struct Publication {
    pub state: State,
    pub reply: Seq<char>,
    /// The entry to announce, if anything changed.
    pub announced: Option<Entry>,
}

/// What publishing an entry comes to: a new address is added; the same content brings
/// at most vectors; other content takes the place of the known entry.
pub open spec fn published(s: State, app: Entry) -> Publication {
    let mine = with_name(s.mine, app.url);
    match url_index(s.approved, app.url) {
        None => Publication {
            state: State { approved: s.approved.push(app), mine, ..s },
            reply: ok_reply("published"@),
            announced: Some(app),
        },
        Some(i) => {
            let e = s.approved[i];
            let lacking = lacks_vector(e.vec);
            if !same_entry_content(e, app) {
                Publication {
                    state: State { approved: s.approved.update(i, replaced(e, app)), mine, ..s },
                    reply: ok_reply("published"@),
                    announced: Some(replaced(e, app)),
                }
            } else if refreshes(e, app, lacking) {
                Publication {
                    state: State {
                        approved: s.approved.update(i, refreshed(e, app, lacking)),
                        mine,
                        ..s
                    },
                    reply: ok_reply("vector added, peers notified"@),
                    announced: Some(app),
                }
            } else {
                Publication { state: s, reply: ok_reply("no changes"@), announced: None }
            }
        },
    }
}

/// The message that tells peers of an app.
pub open spec fn announcement(e: Entry) -> Seq<char> {
    "ANNOUNCE "@ + wire(e)
}

/// Returns the message that tells peers of an app.
pub fn announce(app: &App) -> (r: String)
    ensures
        r@ == announcement(app@),
{
    let mut s = "ANNOUNCE ".to_owned();
    s.append(app.to_wire().as_str());
    s
}

/// Whether an outcome is what a publication comes to.
pub open spec fn is_publication(o: Outcome, p: Publication) -> bool {
    &&& o.reply@ == p.reply
    &&& match (o.broadcast, p.announced) {
        (Some(m), Some(e)) => m@ == announcement(e) && o.dirty == (Dirty {
            approved: true,
            mine: true,
            ..clean_files()
        }),
        (None, None) => o.dirty == clean_files(),
        _ => false,
    }
}

/// How a submission meets the entry that is known.
fn renew(e: &App, app: &App, lacking: bool) -> (r: Option<(App, App, bool)>)
    ensures
        match r {
            None => same_entry_content(e@, app@) && !refreshes(e@, app@, lacking),
            Some(t) => if same_entry_content(e@, app@) {
                refreshes(e@, app@, lacking) && t.0@ == refreshed(e@, app@, lacking) && t.1@ == app@
                    && t.2
            } else {
                t.0@ == replaced(e@, app@) && t.1@ == replaced(e@, app@) && !t.2
            },
        },
{
    let mut told = app.copy();
    if e.same_content(app) {
        let fills = lacking && !app.vec.as_str().is_empty();
        let changes = !app.doc_vec.as_str().is_empty() && app.doc_vec != e.doc_vec;
        if !fills && !changes {
            return None;
        }
        let mut kept = e.copy();
        if fills {
            kept.vec = app.vec.clone();
        }
        if changes {
            kept.doc_vec = app.doc_vec.clone();
        }
        return Some((kept, told, true));
    }
    if app.vec.as_str().is_empty() {
        told.vec = e.vec.clone();
    }
    if app.doc_vec.as_str().is_empty() {
        told.doc_vec = e.doc_vec.clone();
    }
    let kept = told.copy();
    Some((kept, told, false))
}

impl Registry {
    /// Publishes an entry on this node.
    pub fn publish(&mut self, app: &App) -> (o: Outcome)
        requires
            old(self).wf(),
        ensures
            final(self).wf(),
            final(self)@ == published(old(self)@, app@).state,
            is_publication(o, published(old(self)@, app@)),
    {
        let ghost before = self@;
        let ghost p = published(before, app@);
        let mut told = app.copy();
        let mut refresh = false;
        match find_url(&self.approved, app.url.as_str()) {
            None => {
                let a = app.copy();
                self.approved.push(a);
                assert(entries(self.approved@) =~= before.approved.push(a@));
            },
            Some(i) => {
                let lacking = needs_embedding(self.approved[i].vec.as_str());
                assert(before.approved[i as int] == self.approved@[i as int]@);
                match renew(&self.approved[i], app, lacking) {
                    None => {
                        return Outcome {
                            reply: ok("no changes"),
                            broadcast: None,
                            dirty: nothing_dirty(),
                        };
                    },
                    Some(t) => {
                        self.approved.set(i, t.0);
                        assert(entries(self.approved@) =~= before.approved.update(i as int, t.0@));
                        told = t.1;
                        refresh = t.2;
                    },
                }
            },
        }
        proof {
            lemma_with_name(texts(self.mine@), app.url@);
        }
        let _ = add_name(&mut self.mine, app.url.clone());
        assert(self@ =~= p.state);
        let reply = if refresh { ok("vector added, peers notified") } else { ok("published") };
        Outcome {
            reply,
            broadcast: Some(announce(&told)),
            dirty: Dirty { approved: true, mine: true, peers: false, ratings: false, opens: false },
        }
    }
}

/// After publishing there is an entry with that address, and addresses stay apart.
pub proof fn lemma_publish_keeps_urls_distinct(s: State, app: Entry)
    requires
        urls_distinct(s.approved),
    ensures
        urls_distinct(published(s, app).state.approved),
        has_url(published(s, app).state.approved, app.url),
        published(s, app).announced is Some ==> published(s, app).state.mine.contains(app.url),
{
    lemma_url_index(s.approved, app.url);
    let r = published(s, app).state.approved;
    lemma_url_index(r, app.url);
    if s.mine.contains(app.url) {
    } else {
        assert(s.mine.push(app.url)[s.mine.len() as int] == app.url);
    }
    match url_index(s.approved, app.url) {
        None => {
            assert(r[s.approved.len() as int].url == app.url);
        },
        Some(i) => {
            assert(r[i].url == app.url);
            assert forall|a: int, b: int| 0 <= a < b < r.len() implies (#[trigger] r[a]).url != (
            #[trigger] r[b]).url by {
                assert(r[a].url == s.approved[a].url && r[b].url == s.approved[b].url);
            }
        },
    }
}

/// Publishing without vectors never loses the vectors that an entry has.
pub proof fn lemma_publish_keeps_vectors(s: State, app: Entry, i: int)
    requires
        url_index(s.approved, app.url) == Some(i),
        app.vec.len() == 0,
        app.doc_vec.len() == 0,
    ensures
        published(s, app).state.approved[i].vec == s.approved[i].vec,
        published(s, app).state.approved[i].doc_vec == s.approved[i].doc_vec,
{
    lemma_url_index(s.approved, app.url);
}

/// After publishing, the entry that is listed under the address is the one that was
/// submitted, but for vectors; and so is the one that peers are told of.
pub proof fn lemma_published_entry_is_listed(s: State, app: Entry, i: int)
    requires
        urls_distinct(s.approved),
        0 <= i < published(s, app).state.approved.len(),
        published(s, app).state.approved[i].url == app.url,
    ensures
        ({
            let now = published(s, app).state.approved[i];
            &&& now.name == app.name
            &&& now.desc == app.desc
            &&& now.author == app.author
            &&& now.tags == app.tags
            &&& now.doc_snippet == app.doc_snippet
            &&& app.doc_vec.len() > 0 ==> now.doc_vec == app.doc_vec
            &&& !has_url(s.approved, app.url) ==> now == app
        }),
        published(s, app).announced matches Some(told) ==> told.url == app.url && told.name
            == app.name && told.desc == app.desc && told.author == app.author && told.tags
            == app.tags && told.doc_snippet == app.doc_snippet && (app.vec.len() > 0 ==> told.vec
            == app.vec) && (app.doc_vec.len() > 0 ==> told.doc_vec == app.doc_vec),
{
    lemma_url_index(s.approved, app.url);
    match url_index(s.approved, app.url) {
        None => {
            if i < s.approved.len() {
                assert(s.approved[i].url == app.url);
            }
        },
        Some(k) => {
            if i != k {
                assert(s.approved[i].url == app.url && s.approved[k].url == app.url);
            }
        },
    }
}

/// Publishing changes no entry under another address, and the peers are told exactly if
/// the listing changed.
pub proof fn lemma_publish_tells_of_changes(s: State, app: Entry)
    ensures
        published(s, app).announced is None ==> published(s, app).state == s,
        published(s, app).state.approved != s.approved ==> published(s, app).announced is Some,
        forall|j: int|
            0 <= j < s.approved.len() && s.approved[j].url != app.url ==> #[trigger] published(
                s,
                app,
            ).state.approved[j] == s.approved[j],
        published(s, app).state.approved.len() == s.approved.len() + if has_url(
            s.approved,
            app.url,
        ) {
            0int
        } else {
            1int
        },
        published(s, app).state.ratings == s.ratings && published(s, app).state.opens == s.opens
            && published(s, app).state.peers == s.peers,
{
    lemma_url_index(s.approved, app.url);
}

/// What comes of publishing is told to the peers exactly where there is something to tell, as
/// an announcement of that entry, and is then stored.
pub proof fn lemma_publication_is_announced(o: Outcome, s: State, app: Entry)
    requires
        is_publication(o, published(s, app)),
    ensures
        o.broadcast is Some <==> published(s, app).announced is Some,
        o.broadcast matches Some(m) ==> m@ == "ANNOUNCE "@ + wire(published(s, app).announced->0),
        o.broadcast is Some ==> o.dirty.approved && o.dirty.mine,
        o.broadcast is None ==> !o.dirty.approved && !o.dirty.mine,
        !o.dirty.ratings && !o.dirty.opens && !o.dirty.peers,
        o.reply@ == published(s, app).reply,
{
}

// ── Rating and opening ───────────────────────────────────────────────────────

/// The most characters that a review keeps.
pub const MAX_REVIEW_CHARS: usize = 500;

/// A text with a space in place of each tab, newline and carriage return.
pub open spec fn spaced(s: Seq<char>) -> Seq<char> {
    Seq::new(
        s.len(),
        |i: int|
            if s[i] == '\t' || s[i] == '\n' || s[i] == '\r' {
                ' '
            } else {
                s[i]
            },
    )
}

/// A review as it is kept.
pub open spec fn kept_review(s: Seq<char>) -> Seq<char> {
    prefix(spaced(s), MAX_REVIEW_CHARS as int)
}

/// Returns a review as it is kept.
pub fn keep_review(s: &str) -> (r: String)
    ensures
        r@ == kept_review(s@),
{
    let v = chars_of(s);
    let end: usize = if v.len() <= MAX_REVIEW_CHARS { v.len() } else { MAX_REVIEW_CHARS };
    let mut out: String = String::new();
    let mut i: usize = 0;
    while i < end
        invariant
            i <= end <= v@.len(),
            v@ == s@,
            out@ == spaced(s@).take(i as int),
        decreases end - i,
    {
        let c: char = v[i];
        if c == '\t' || c == '\n' || c == '\r' {
            out.push(' ');
        } else {
            out.push(c);
        }
        i += 1;
        assert(out@ =~= spaced(s@).take(i as int));
    }
    assert(out@ =~= kept_review(s@));
    out
}

/// A rating that a request asks for: the app, the stars and the review.
pub struct RateRequest {
    pub url: String,
    pub stars: u8,
    pub text: String,
}

/// What the body of a rating request says, or why it is refused.
pub open spec fn rate_request(raw: Seq<char>) -> Result<(Seq<char>, u8, Seq<char>), Seq<char>> {
    let p = splitn(raw, '\t', 3);
    if p.len() < 2 {
        Err("url and stars are required"@)
    } else {
        let n = number(trimmed(p[1]));
        if n is None || n->0 > u8::MAX {
            Err("stars must be a number"@)
        } else if !(1 <= n->0 <= 5) {
            Err("stars must be between 1 and 5"@)
        } else {
            Ok(
                (
                    trimmed(p[0]),
                    n->0 as u8,
                    kept_review(
                        if p.len() > 2 {
                            p[2]
                        } else {
                            Seq::empty()
                        },
                    ),
                ),
            )
        }
    }
}

/// Reads the body of a rating request.
pub fn read_rate_request(raw: &str) -> (r: Result<RateRequest, String>)
    ensures
        match r {
            Ok(q) => rate_request(raw@) == Ok::<(Seq<char>, u8, Seq<char>), Seq<char>>(
                (q.url@, q.stars, q.text@),
            ) && 1 <= q.stars <= 5,
            Err(m) => rate_request(raw@) == Err::<(Seq<char>, u8, Seq<char>), Seq<char>>(m@),
        },
{
    let p = split_str_n(raw, '\t', 3);
    let ghost t = texts(p@);
    if p.len() < 2 {
        return Err("url and stars are required".to_owned());
    }
    assert(t[0] == p@[0]@ && t[1] == p@[1]@);
    let review = if p.len() > 2 {
        assert(t[2] == p@[2]@);
        p[2].clone()
    } else {
        String::new()
    };
    assert(review@ =~= if t.len() > 2 { t[2] } else { Seq::<char>::empty() });
    let text = keep_review(review.as_str());
    match parse_u8(trim(p[1].as_str()).as_str()) {
        None => Err("stars must be a number".to_owned()),
        Some(stars) => {
            if stars < 1 || stars > 5 {
                return Err("stars must be between 1 and 5".to_owned());
            }
            Ok(RateRequest { url: trim(p[0].as_str()), stars, text })
        },
    }
}

/// The message that tells peers of a rating.
pub open spec fn rate_message(k: (Seq<char>, Seq<char>), v: Vote) -> Seq<char> {
    "RATE "@ + rating_row(k, v)
}

/// The message that tells peers of an open count.
pub open spec fn opens_message(k: (Seq<char>, Seq<char>), n: u64) -> Seq<char> {
    "OPENS "@ + opens_row(k, n)
}

/// How often this node saw an app opened.
pub open spec fn opens_here(s: State, url: Seq<char>) -> u64 {
    let k = (url, node_name(s.token));
    if s.opens.contains_key(k) {
        s.opens[k]
    } else {
        0
    }
}

impl Registry {
    /// Rates an app on behalf of this node at a given time. A rating that is not newer
    /// than the last one changes nothing.
    pub fn rate(&mut self, raw: &str, now: u64) -> (o: Outcome)
        requires
            old(self).wf(),
        ensures
            final(self).wf(),
            rated(old(self)@, final(self)@, o, raw@, now),
    {
        let ghost before = self@;
        let q = match read_rate_request(raw) {
            Ok(q) => q,
            Err(m) => {
                return refuse(m.as_str());
            },
        };
        if !self.has_approved(q.url.as_str()) {
            return refuse("that app is not in this registry");
        }
        let voter = node_id(self.token.as_str());
        let rating = Rating { stars: q.stars, ts: now, text: q.text };
        let mut msg = "RATE ".to_owned();
        msg.append(rating_line(q.url.as_str(), voter.as_str(), &rating).as_str());
        let news = merge_rating(&mut self.ratings, q.url.as_str(), voter.as_str(), rating);
        assert(self@ =~= State { ratings: self.ratings@, ..before });
        if !news {
            return Outcome { reply: ok("unchanged"), broadcast: None, dirty: nothing_dirty() };
        }
        Outcome {
            reply: ok("rated"),
            broadcast: Some(msg),
            dirty: Dirty { approved: false, mine: false, peers: false, ratings: true, opens: false },
        }
    }

    /// How often this node saw an app opened.
    pub fn opened_here(&self, url: &str) -> (n: u64)
        requires
            self.wf(),
        ensures
            n == opens_here(self@, url@),
    {
        let me = node_id(self.token.as_str());
        match self.opens.find(url, me.as_str()) {
            Some(i) => self.opens.rows[i].value,
            None => 0,
        }
    }

    /// Counts that an app was opened here. A count at the largest number cannot grow.
    pub fn open(&mut self, raw: &str) -> (o: Outcome)
        requires
            old(self).wf(),
            opens_here(old(self)@, trimmed(raw@)) < u64::MAX,
        ensures
            final(self).wf(),
            opened(old(self)@, final(self)@, o, trimmed(raw@)),
    {
        let ghost before = self@;
        let url = trim(raw);
        if !self.has_approved(url.as_str()) {
            return refuse("unknown app");
        }
        let next: u64 = self.opened_here(url.as_str()) + 1;
        let me = node_id(self.token.as_str());
        let _ = merge_opens(&mut self.opens, url.as_str(), me.as_str(), next);
        assert(self@ =~= State { opens: self.opens@, ..before });
        let mut msg = "OPENS ".to_owned();
        msg.append(opens_line(url.as_str(), me.as_str(), next).as_str());
        Outcome {
            reply: ok("counted"),
            broadcast: Some(msg),
            dirty: Dirty { approved: false, mine: false, peers: false, ratings: false, opens: true },
        }
    }

    /// Rates an app as a request body asks for.
    pub fn api_rate(&mut self, body: &Vec<u8>, now: u64) -> (o: Outcome)
        requires
            old(self).wf(),
        ensures
            final(self).wf(),
            rated(old(self)@, final(self)@, o, utf8_lossy(body@), now),
    {
        let raw = from_utf8_lossy(body);
        self.rate(raw.as_str(), now)
    }

    /// Counts an open as a request body asks for; nothing where the count is at the
    /// largest number.
    pub fn api_open(&mut self, body: &Vec<u8>) -> (r: Option<Outcome>)
        requires
            old(self).wf(),
        ensures
            final(self).wf(),
            match r {
                Some(o) => opened(old(self)@, final(self)@, o, trimmed(utf8_lossy(body@))),
                None => opens_here(old(self)@, trimmed(utf8_lossy(body@))) == u64::MAX
                    && final(self)@ == old(self)@,
            },
    {
        let raw = from_utf8_lossy(body);
        if self.opened_here(trim(raw.as_str()).as_str()) == u64::MAX {
            return None;
        }
        Some(self.open(raw.as_str()))
    }
}

/// Whether an outcome and a change are what a request to rate comes to.
pub open spec fn rated(before: State, after: State, o: Outcome, raw: Seq<char>, now: u64) -> bool {
    match rate_request(raw) {
        Err(m) => refused(o, m) && after == before,
        Ok(q) => if !has_url(before.approved, q.0) {
            refused(o, "that app is not in this registry"@) && after == before
        } else {
            let k = (q.0, node_name(before.token));
            let v = Vote { stars: q.1, ts: now, text: q.2 };
            &&& after == (State { ratings: vote_merged(before.ratings, k, v), ..before })
            &&& if vote_is_news(before.ratings, k, v) {
                o.reply@ == ok_reply("rated"@) && o.broadcast is Some && o.broadcast->0@
                    == rate_message(k, v) && o.dirty == (Dirty { ratings: true, ..clean_files() })
            } else {
                o.reply@ == ok_reply("unchanged"@) && o.broadcast is None && o.dirty
                    == clean_files()
            }
        },
    }
}

/// Whether an outcome and a change are what counting an open comes to.
pub open spec fn opened(before: State, after: State, o: Outcome, url: Seq<char>) -> bool {
    if !has_url(before.approved, url) {
        refused(o, "unknown app"@) && after == before
    } else {
        let k = (url, node_name(before.token));
        let n = (opens_here(before, url) + 1) as u64;
        &&& after == (State { opens: before.opens.insert(k, n), ..before })
        &&& o.reply@ == ok_reply("counted"@)
        &&& o.broadcast is Some && o.broadcast->0@ == opens_message(k, n)
        &&& o.dirty == (Dirty { opens: true, ..clean_files() })
    }
}

/// A review keeps its text, but for the characters that would break its row and those past
/// the most that are kept.
pub proof fn lemma_review_keeps_its_text(t: Seq<char>)
    ensures
        kept_review(t).len() == if t.len() <= 500 {
            t.len()
        } else {
            500
        },
        forall|i: int|
            0 <= i < kept_review(t).len() ==> #[trigger] kept_review(t)[i] == if t[i] == '\t' || t[i]
                == '\n' || t[i] == '\r' {
                ' '
            } else {
                t[i]
            },
        !kept_review(t).contains('\t') && !kept_review(t).contains('\n')
            && !kept_review(t).contains('\r'),
{
}

proof fn lemma_star_digit(stars: u8)
    requires
        1 <= stars <= 5,
    ensures
        trimmed(decimal(stars as nat)) == decimal(stars as nat),
        !decimal(stars as nat).contains('\t'),
{
    let d = decimal(stars as nat);
    assert(d.len() == 1);
    assert(!is_space(d[0]));
    lemma_trim_fixed(d);
}

/// What a request to rate says is an address, stars and a review, behind one another.
pub proof fn lemma_rate_request_is_read(url: Seq<char>, stars: u8, text: Seq<char>)
    requires
        is_trimmed(url) && !url.contains('\t'),
        1 <= stars <= 5,
    ensures
        rate_request(url + "\t"@ + decimal(stars as nat)) == Ok::<
            (Seq<char>, u8, Seq<char>),
            Seq<char>,
        >((url, stars, Seq::empty())),
        rate_request(url + "\t"@ + decimal(stars as nat) + "\t"@ + text) == Ok::<
            (Seq<char>, u8, Seq<char>),
            Seq<char>,
        >((url, stars, kept_review(text))),
{
    let n = decimal(stars as nat);
    reveal_strlit("\t");
    assert("\t"@ =~= seq!['\t']);
    lemma_star_digit(stars);
    lemma_decimal_round_trip(stars as nat);
    lemma_trim_fixed(url);
    lemma_splitn_none(url, '\t', 3);
    lemma_splitn_push(url, '\t', 3, n);
    lemma_splitn_rest(url + "\t"@ + n, '\t', 3, text);
    assert(kept_review(Seq::empty()) =~= Seq::<char>::empty());
}

/// A rating of a listed app that is newer than what this node said of it before is kept
/// under the app and this node, with its stars, its time and its review, and is told to
/// the peers; no other rating and nothing else changes.
pub proof fn lemma_rating_is_kept(
    before: State,
    after: State,
    o: Outcome,
    url: Seq<char>,
    stars: u8,
    text: Seq<char>,
    now: u64,
)
    requires
        is_trimmed(url) && !url.contains('\t'),
        1 <= stars <= 5,
        rated(before, after, o, url + "\t"@ + decimal(stars as nat) + "\t"@ + text, now),
        exists|i: int| 0 <= i < before.approved.len() && #[trigger] before.approved[i].url == url,
        before.ratings.contains_key((url, node_name(before.token))) ==> before.ratings[(
            url,
            node_name(before.token),
        )].ts < now,
    ensures
        ({
            let k = (url, node_name(before.token));
            &&& after.ratings.contains_key(k)
            &&& after.ratings[k].stars == stars && after.ratings[k].ts == now
                && after.ratings[k].text == kept_review(text)
            &&& forall|j: (Seq<char>, Seq<char>)|
                j != k ==> (#[trigger] after.ratings.contains_key(j) == before.ratings.contains_key(
                    j,
                ) && (before.ratings.contains_key(j) ==> after.ratings[j] == before.ratings[j]))
            &&& o.broadcast is Some && o.dirty.ratings
            &&& after.approved == before.approved && after.mine == before.mine && after.opens
                == before.opens && after.peers == before.peers
        }),
{
    lemma_rate_request_is_read(url, stars, text);
    lemma_url_index(before.approved, url);
}

/// Stars beyond five, or none, change nothing, and neither does a rating of an app that is
/// not listed.
pub proof fn lemma_invalid_rating_changes_nothing(
    before: State,
    after: State,
    o: Outcome,
    url: Seq<char>,
    n: nat,
    now: u64,
)
    requires
        is_trimmed(url) && !url.contains('\t'),
        n == 0 || n > 5 || !(exists|i: int|
            0 <= i < before.approved.len() && #[trigger] before.approved[i].url == url),
        rated(before, after, o, url + "\t"@ + decimal(n), now),
    ensures
        after == before,
        o.broadcast is None,
        o.dirty == clean_files(),
{
    let d = decimal(n);
    reveal_strlit("\t");
    assert("\t"@ =~= seq!['\t']);
    lemma_decimal_round_trip(n);
    lemma_decimal_digits(n);
    assert(!d.contains('\t')) by {
        if d.contains('\t') {
            let i = choose|i: int| 0 <= i < d.len() && d[i] == '\t';
            assert(is_digit(d[i]));
        }
    }
    assert(is_digit(d[0]) && is_digit(d[d.len() - 1]));
    assert(!is_space(d[0]) && !is_space(d.last()));
    lemma_trim_fixed(d);
    lemma_trim_fixed(url);
    lemma_splitn_none(url, '\t', 3);
    lemma_splitn_push(url, '\t', 3, d);
    lemma_url_index(before.approved, url);
}

/// Every open of a listed app counts one more, under the app and this node; no other count
/// and nothing else changes.
pub proof fn lemma_open_counts_one(before: State, after: State, o: Outcome, url: Seq<char>)
    requires
        opened(before, after, o, url),
        opens_here(before, url) < u64::MAX,
        exists|i: int| 0 <= i < before.approved.len() && #[trigger] before.approved[i].url == url,
    ensures
        ({
            let k = (url, node_name(before.token));
            &&& after.opens.contains_key(k)
            &&& after.opens[k] == 1 + if before.opens.contains_key(k) {
                before.opens[k] as int
            } else {
                0
            }
            &&& forall|j: (Seq<char>, Seq<char>)|
                j != k ==> (#[trigger] after.opens.contains_key(j) == before.opens.contains_key(j)
                    && (before.opens.contains_key(j) ==> after.opens[j] == before.opens[j]))
            &&& o.broadcast is Some && o.dirty.opens
            &&& after.approved == before.approved && after.mine == before.mine && after.ratings
                == before.ratings && after.peers == before.peers
        }),
{
    lemma_url_index(before.approved, url);
}

// ── Delisting ────────────────────────────────────────────────────────────────

/// Where the files that this node hosts are found.
pub open spec fn hosted_prefix(self_url: Seq<char>) -> Seq<char> {
    without_trailing(self_url, '/') + "/apps/"@
}

/// The name of the file behind an address that this node hosts, if the name is one
/// file and not a path.
pub open spec fn hosted_name(self_url: Seq<char>, url: Seq<char>) -> Option<Seq<char>> {
    let p = hosted_prefix(self_url);
    if begins_with(url, p) && !url.skip(p.len() as int).contains('/') && !has_substring(
        url.skip(p.len() as int),
        ".."@,
    ) {
        Some(url.skip(p.len() as int))
    } else {
        None
    }
}

fn prefix_of_hosted(self_url: &str) -> (r: String)
    ensures
        r@ == hosted_prefix(self_url@),
{
    let mut p = trim_trailing(self_url, '/');
    p.append("/apps/");
    p
}

fn has_char(s: &str, c: char) -> (r: bool)
    ensures
        r == s@.contains(c),
{
    let v = chars_of(s);
    let mut i: usize = 0;
    while i < v.len()
        invariant
            i <= v@.len(),
            v@ == s@,
            forall|j: int| 0 <= j < i ==> v@[j] != c,
        decreases v.len() - i,
    {
        if v[i] == c {
            return true;
        }
        i += 1;
    }
    false
}

/// Returns the name of the file behind an address that this node hosts.
pub fn hosted_file(self_url: &str, url: &str) -> (r: Option<String>)
    ensures
        match r {
            Some(n) => hosted_name(self_url@, url@) == Some(n@),
            None => hosted_name(self_url@, url@) is None,
        },
{
    let p = prefix_of_hosted(self_url);
    match strip_prefix(url, p.as_str()) {
        Some(name) => {
            if !has_char(name.as_str(), '/') && !contains(name.as_str(), "..") {
                Some(name)
            } else {
                None
            }
        },
        None => None,
    }
}

/// What comes of a request to delist an app.
pub enum Revocation {
    /// It is refused, with this reply.
    Refused(String),
    /// The entry is gone; the file with this name, if any, is to be deleted.
    Removed(String, Option<String>),
}

/// Whether an answer and a change are what a request to delist an app comes to.
pub open spec fn revoked(before: State, after: State, r: Revocation, url: Seq<char>) -> bool {
    if !has_url(before.approved, url) {
        r matches Revocation::Refused(m) && m@ == err_reply("not in this registry"@) && after
            == before
    } else if !before.mine.contains(url) {
        r matches Revocation::Refused(m) && m@ == err_reply(
            "you can only delete apps published from this node"@,
        ) && after == before
    } else {
        &&& r matches Revocation::Removed(u, f)
        &&& u@ == url
        &&& match f {
            Some(n) => hosted_name(before.self_url, url) == Some(n@),
            None => hosted_name(before.self_url, url) is None,
        }
        &&& after == (State {
            approved: without_url(before.approved, url),
            mine: without_name(before.mine, url),
            ..before
        })
    }
}

/// The message that tells peers that an app is gone.
pub open spec fn revoke_message(url: Seq<char>) -> Seq<char> {
    "REVOKE "@ + url
}

/// Returns the message that tells peers that an app is gone.
pub fn revoke_line(url: &str) -> (r: String)
    ensures
        r@ == revoke_message(url@),
{
    let mut s = "REVOKE ".to_owned();
    s.append(url);
    s
}

impl Registry {
    /// Delists an app as a request body asks for.
    pub fn api_revoke(&mut self, body: &Vec<u8>) -> (r: Revocation)
        requires
            old(self).wf(),
        ensures
            final(self).wf(),
            revoked(old(self)@, final(self)@, r, trimmed(utf8_lossy(body@))),
    {
        let raw = from_utf8_lossy(body);
        self.revoke(raw.as_str())
    }

    /// Delists an app that was published here. Others are not ours to remove.
    pub fn revoke(&mut self, raw: &str) -> (r: Revocation)
        requires
            old(self).wf(),
        ensures
            final(self).wf(),
            revoked(old(self)@, final(self)@, r, trimmed(raw@)),
    {
        let ghost before = self@;
        let url = trim(raw);
        if !self.has_approved(url.as_str()) {
            return Revocation::Refused(err("not in this registry"));
        }
        if !has_name(&self.mine, url.as_str()) {
            return Revocation::Refused(err("you can only delete apps published from this node"));
        }
        drop_url(&mut self.approved, url.as_str());
        proof {
            lemma_without_name(texts(self.mine@), url@);
        }
        remove_name(&mut self.mine, url.as_str());
        assert(self@ =~= State {
            approved: without_url(before.approved, url@),
            mine: without_name(before.mine, url@),
            ..before
        });
        let file = hosted_file(self.self_url.as_str(), url.as_str());
        Revocation::Removed(url, file)
    }

    /// Removes an app that a peer says is gone, once it was found to be gone.
    pub fn forget(&mut self, url: &str)
        requires
            old(self).wf(),
        ensures
            final(self).wf(),
            final(self)@ == (State {
                approved: without_url(old(self)@.approved, url@),
                ..old(self)@
            }),
    {
        let ghost before = self@;
        drop_url(&mut self.approved, url);
        assert(self@ =~= State { approved: without_url(before.approved, url@), ..before });
    }
}

/// Delisting removes what was published here, and nothing else: the entry and its mark are
/// gone, every other entry, mark, rating and count stays, and what was published elsewhere
/// stays altogether.
pub proof fn lemma_only_own_apps_are_delisted(
    before: State,
    after: State,
    r: Revocation,
    url: Seq<char>,
)
    requires
        revoked(before, after, r, url),
    ensures
        ({
            let listed = exists|i: int|
                0 <= i < before.approved.len() && #[trigger] before.approved[i].url == url;
            let ours = listed && before.mine.contains(url);
            &&& r is Removed <==> ours
            &&& !ours ==> after == before
            &&& ours ==> !after.mine.contains(url) && forall|i: int|
                0 <= i < after.approved.len() ==> (#[trigger] after.approved[i]).url != url
            &&& forall|e: Entry|
                e.url != url ==> #[trigger] after.approved.contains(e) == before.approved.contains(
                    e,
                )
            &&& forall|n: Seq<char>|
                n != url ==> #[trigger] after.mine.contains(n) == before.mine.contains(n)
            &&& after.ratings == before.ratings && after.opens == before.opens && after.peers
                == before.peers && after.token == before.token
        }),
{
    lemma_url_index(before.approved, url);
    lemma_without_url(before.approved, url);
    lemma_without_name(before.mine, url);
    lemma_url_index(after.approved, url);
}

/// A file that is deleted with its entry lies directly where this node keeps its files, and
/// its name with that place makes the address.
pub proof fn lemma_deleted_file_is_hosted_here(self_url: Seq<char>, url: Seq<char>)
    ensures
        hosted_name(self_url, url) matches Some(n) ==> !n.contains('/') && !has_substring(n, ".."@)
            && url == without_trailing(self_url, '/') + "/apps/"@ + n,
        forall|n: Seq<char>|
            !n.contains('/') && !has_substring(n, ".."@) ==> #[trigger] hosted_name(
                self_url,
                without_trailing(self_url, '/') + "/apps/"@ + n,
            ) == Some(n),
{
    let p = hosted_prefix(self_url);
    if let Some(n) = hosted_name(self_url, url) {
        assert(p + n =~= url);
    }
    assert forall|n: Seq<char>| !n.contains('/') && !has_substring(n, ".."@) implies #[trigger] hosted_name(
        self_url,
        without_trailing(self_url, '/') + "/apps/"@ + n,
    ) == Some(n) by {
        let u = without_trailing(self_url, '/') + "/apps/"@ + n;
        assert(u == p + n);
        assert(u.skip(p.len() as int) =~= n);
        assert(u.take(p.len() as int) =~= p);
    }
}

/// The reply to a request to delist an app, given whether its file was deleted.
pub fn revoke_reply(deleted: bool) -> (r: String)
    ensures
        r@ == ok_reply(
            if deleted {
                "removed, file deleted, peers notified"@
            } else {
                "removed, peers notified"@
            },
        ),
{
    if deleted {
        ok("removed, file deleted, peers notified")
    } else {
        ok("removed, peers notified")
    }
}

/// An app that was published here and then delisted is gone, no other entry with it.
pub proof fn lemma_publish_then_revoke(s: State, app: Entry)
    ensures
        ({
            let p = published(s, app).state;
            &&& !has_url(without_url(p.approved, app.url), app.url)
            &&& forall|e: Entry|
                e.url != app.url ==> #[trigger] without_url(p.approved, app.url).contains(e)
                    == p.approved.contains(e)
        }),
{
    lemma_without_url(published(s, app).state.approved, app.url);
}

// ── Showing ──────────────────────────────────────────────────────────────────

/// An entry as it is shown for a query: the public form, with the chunk that answers
/// best as its preview.
pub open spec fn shown(e: Entry, q: Seq<char>) -> Seq<char> {
    tsv(Entry { doc_snippet: best_chunk_of(e.doc_snippet, q), ..e })
}

fn show(app: &App, q: &str) -> (r: String)
    ensures
        r@ == shown(app@, q@),
{
    let mut a = app.copy();
    a.doc_snippet = best_chunk(app.doc_snippet.as_str(), q);
    a.to_tsv()
}

/// All entries as they are shown without a query.
pub open spec fn index_text(apps: Seq<Entry>) -> Seq<char> {
    joined(Seq::new(apps.len(), |i: int| shown(apps[i], ""@)), "\n"@)
}

/// A row shows an entry's name, description, address, author and tags as they are, and one
/// chunk of its preview, in this order and divided by tabs.
pub proof fn lemma_row_shows_the_entry(e: Entry, q: Seq<char>)
    requires
        !e.name.contains('\t') && !e.desc.contains('\t') && !e.url.contains('\t'),
        !e.author.contains('\t') && !e.tags.contains('\t'),
    ensures
        splitn(shown(e, q), '\t', 6) == seq![
            e.name,
            e.desc,
            e.url,
            e.author,
            e.tags,
            best_chunk_of(e.doc_snippet, q),
        ],
{
    lemma_tsv_fields(Entry { doc_snippet: best_chunk_of(e.doc_snippet, q), ..e });
}

/// The index has one row for each entry, in their order.
pub proof fn lemma_index_has_a_row_each(apps: Seq<Entry>)
    requires
        apps.len() > 0,
        forall|i: int| 0 <= i < apps.len() ==> !(#[trigger] shown(apps[i], ""@)).contains('\n'),
    ensures
        split(index_text(apps), '\n').len() == apps.len(),
        forall|i: int|
            0 <= i < apps.len() ==> #[trigger] split(index_text(apps), '\n')[i] == shown(
                apps[i],
                ""@,
            ),
{
    let rows = Seq::new(apps.len(), |i: int| shown(apps[i], ""@));
    reveal_strlit("\n");
    assert("\n"@ =~= seq!['\n']);
    assert forall|i: int| 0 <= i < rows.len() implies !(#[trigger] rows[i]).contains('\n') by {
        assert(rows[i] == shown(apps[i], ""@));
    }
    lemma_split_join(rows, '\n');
}

/// Whether keyword search admits an entry: everything for an empty query, what the
/// query finds, and what is close enough in meaning.
pub open spec fn admitted(e: Entry, q: Seq<char>, close: bool) -> bool {
    q.len() == 0 || finds(lowercase(haystack(e)), lowercase(q)) || close
}

/// What is known of an entry besides its text: the number to order it by, the greater
/// first, and whether it is close to the query in meaning.
pub struct Signal {
    pub key: u64,
    pub close: bool,
}

/// The positions of the admitted entries, in their order.
pub open spec fn admitted_of(apps: Seq<Entry>, q: Seq<char>, signals: Seq<Signal>) -> Seq<int>
    decreases apps.len(),
{
    if apps.len() == 0 {
        Seq::empty()
    } else {
        let rest = admitted_of(apps.drop_last(), q, signals);
        if admitted(apps.last(), q, signals[apps.len() - 1].close) {
            rest.push(apps.len() - 1)
        } else {
            rest
        }
    }
}

/// Whether a text is the answer to a search: the admitted entries by their keys, then
/// by name, as they are shown for the query.
pub open spec fn is_search_answer(
    apps: Seq<Entry>,
    q: Seq<char>,
    signals: Seq<Signal>,
    r: Seq<char>,
) -> bool {
    let found = admitted_of(apps, q, signals);
    let keys = Seq::new(found.len(), |i: int| signals[found[i]].key);
    let names = Seq::new(found.len(), |i: int| apps[found[i]].name);
    exists|p: Seq<usize>|
        #![trigger is_ordering(keys, names, p, found.len() as int)]
        is_ordering(keys, names, p, found.len() as int) && r == joined(
            Seq::new(p.len(), |i: int| shown(apps[found[p[i] as int]], q)),
            "\n"@,
        )
}

proof fn lemma_admitted_bounds(apps: Seq<Entry>, q: Seq<char>, signals: Seq<Signal>)
    ensures
        forall|i: int|
            0 <= i < admitted_of(apps, q, signals).len() ==> 0 <= #[trigger] admitted_of(
                apps,
                q,
                signals,
            )[i] < apps.len(),
    decreases apps.len(),
{
    if apps.len() > 0 {
        lemma_admitted_bounds(apps.drop_last(), q, signals);
        let rest = admitted_of(apps.drop_last(), q, signals);
        let all = admitted_of(apps, q, signals);
        assert forall|i: int| 0 <= i < all.len() implies 0 <= #[trigger] all[i] < apps.len() by {
            if i < rest.len() {
                assert(all[i] == rest[i]);
            }
        }
    }
}

proof fn lemma_admitted_of(apps: Seq<Entry>, q: Seq<char>, signals: Seq<Signal>)
    ensures
        forall|i: int| #[trigger]
            admitted_of(apps, q, signals).contains(i) <==> 0 <= i < apps.len() && admitted(
                apps[i],
                q,
                signals[i].close,
            ),
        forall|a: int, b: int|
            0 <= a < b < admitted_of(apps, q, signals).len() ==> #[trigger] admitted_of(
                apps,
                q,
                signals,
            )[a] < #[trigger] admitted_of(apps, q, signals)[b],
    decreases apps.len(),
{
    let all = admitted_of(apps, q, signals);
    if apps.len() > 0 {
        let d = apps.drop_last();
        let rest = admitted_of(d, q, signals);
        lemma_admitted_of(d, q, signals);
        lemma_admitted_bounds(d, q, signals);
        let last = apps.len() - 1;
        let takes = admitted(apps.last(), q, signals[last].close);
        assert forall|i: int| #[trigger] all.contains(i) <==> 0 <= i < apps.len() && admitted(
            apps[i],
            q,
            signals[i].close,
        ) by {
            if takes {
                assert(all[rest.len() as int] == last);
            }
            if rest.contains(i) {
                let k = choose|k: int| 0 <= k < rest.len() && rest[k] == i;
                assert(all[k] == i);
                assert(d[i] == apps[i]);
            }
            if 0 <= i < last {
                assert(d[i] == apps[i]);
            }
            if all.contains(i) {
                let k = choose|k: int| 0 <= k < all.len() && all[k] == i;
                if k < rest.len() {
                    assert(rest[k] == i);
                    assert(rest.contains(i));
                }
            }
        }
        assert forall|a: int, b: int| 0 <= a < b < all.len() implies #[trigger] all[a]
            < #[trigger] all[b] by {
            if b < rest.len() {
                assert(all[a] == rest[a] && all[b] == rest[b]);
            } else {
                assert(all[a] == rest[a]);
            }
        }
    }
}

/// Whether a text lists entries by their positions, one row each.
pub open spec fn lists(apps: Seq<Entry>, q: Seq<char>, rows: Seq<int>, r: Seq<char>) -> bool {
    r == joined(Seq::new(rows.len(), |i: int| shown(apps[rows[i]], q)), "\n"@)
}

/// A search lists an entry exactly if the query is empty, finds it, or is close to it in
/// meaning; each once, the greater key first, and the names of equal keys in dictionary
/// order.
pub proof fn lemma_search_lists_what_answers(
    apps: Seq<Entry>,
    q: Seq<char>,
    signals: Seq<Signal>,
    r: Seq<char>,
)
    requires
        signals.len() == apps.len() <= usize::MAX,
        is_search_answer(apps, q, signals, r),
    ensures
        exists|rows: Seq<int>| #[trigger]
            lists(apps, q, rows, r) && (forall|i: int| #[trigger]
                rows.contains(i) <==> 0 <= i < apps.len() && (q.len() == 0 || signals[i].close
                    || finds(lowercase(haystack(apps[i])), lowercase(q)))) && (forall|a: int, b: int|
                0 <= a < b < rows.len() ==> #[trigger] rows[a] != #[trigger] rows[b] && signals[rows[a]].key
                    >= signals[rows[b]].key && (signals[rows[a]].key == signals[rows[b]].key
                    ==> !text_before(apps[rows[b]].name, apps[rows[a]].name))),
{
    let found = admitted_of(apps, q, signals);
    let keys = Seq::new(found.len(), |i: int| signals[found[i]].key);
    let names = Seq::new(found.len(), |i: int| apps[found[i]].name);
    let n = found.len() as int;
    let p = choose|p: Seq<usize>|
        #![trigger is_ordering(keys, names, p, n)]
        is_ordering(keys, names, p, n) && r == joined(
            Seq::new(p.len(), |i: int| shown(apps[found[p[i] as int]], q)),
            "\n"@,
        );
    let rows = Seq::new(p.len(), |i: int| found[p[i] as int]);
    lemma_admitted_of(apps, q, signals);
    assert(Seq::new(rows.len(), |i: int| shown(apps[rows[i]], q)) =~= Seq::new(
        p.len(),
        |i: int| shown(apps[found[p[i] as int]], q),
    ));
    assert(lists(apps, q, rows, r));
    assert forall|i: int| #[trigger] rows.contains(i) <==> 0 <= i < apps.len() && (q.len() == 0
        || signals[i].close || finds(lowercase(haystack(apps[i])), lowercase(q))) by {
        if rows.contains(i) {
            let a = choose|a: int| 0 <= a < rows.len() && rows[a] == i;
            assert(found[p[a] as int] == i);
            assert(found.contains(i));
        }
        if found.contains(i) {
            let k = choose|k: int| 0 <= k < found.len() && found[k] == i;
            lemma_found_fits(apps, q, signals);
            assert(p.contains(k as usize));
            let a = choose|a: int| 0 <= a < p.len() && p[a] == k as usize;
            assert(rows[a] == i);
        }
    }
    assert forall|a: int, b: int| 0 <= a < b < rows.len() implies #[trigger] rows[a]
        != #[trigger] rows[b] && signals[rows[a]].key >= signals[rows[b]].key && (
    signals[rows[a]].key == signals[rows[b]].key ==> !text_before(
        apps[rows[b]].name,
        apps[rows[a]].name,
    )) by {
        let x = p[a] as int;
        let y = p[b] as int;
        assert(goes_before(keys, names, x, y));
        lemma_text_before_total(apps[rows[a]].name, apps[rows[b]].name);
        lemma_text_before_total(apps[rows[a]].name, apps[rows[a]].name);
        if x < y {
            assert(found[x] < found[y]);
        } else if y < x {
            assert(found[y] < found[x]);
        }
    }
}

proof fn lemma_found_fits(apps: Seq<Entry>, q: Seq<char>, signals: Seq<Signal>)
    ensures
        admitted_of(apps, q, signals).len() <= apps.len(),
    decreases apps.len(),
{
    if apps.len() > 0 {
        lemma_found_fits(apps.drop_last(), q, signals);
    }
}

/// Whatever its description, tags, author or preview, an entry that holds a word of the
/// query worth looking for in any of its texts is in the answer to a search.
pub proof fn lemma_search_lists_by_any_text(
    apps: Seq<Entry>,
    q: Seq<char>,
    signals: Seq<Signal>,
    r: Seq<char>,
    i: int,
    w: Seq<char>,
)
    requires
        signals.len() == apps.len() <= usize::MAX,
        is_search_answer(apps, q, signals, r),
        0 <= i < apps.len(),
        lowercases_by_parts(),
        words(lowercase(q)).contains(w),
        is_content_word(w),
        has_substring(lowercase(apps[i].name), w) || has_substring(lowercase(apps[i].desc), w)
            || has_substring(lowercase(apps[i].tags), w) || has_substring(
            lowercase(apps[i].author),
            w,
        ) || has_substring(lowercase(apps[i].doc_snippet), w),
    ensures
        exists|rows: Seq<int>| #[trigger] lists(apps, q, rows, r) && rows.contains(i),
{
    lemma_found_by_any_text(apps[i], q, w);
    lemma_search_lists_what_answers(apps, q, signals, r);
    let rows = choose|rows: Seq<int>| #[trigger]
        lists(apps, q, rows, r) && (forall|i: int| #[trigger]
            rows.contains(i) <==> 0 <= i < apps.len() && (q.len() == 0 || signals[i].close || finds(
                lowercase(haystack(apps[i])),
                lowercase(q),
            )));
    assert(lists(apps, q, rows, r) && rows.contains(i));
}

impl Registry {
    /// All entries as they are shown without a query.
    pub fn index(&self) -> (r: String)
        ensures
            r@ == index_text(self@.approved),
    {
        let mut rows: Vec<String> = Vec::new();
        let mut i: usize = 0;
        while i < self.approved.len()
            invariant
                i <= self.approved@.len(),
                rows@.len() == i,
                forall|j: int|
                    0 <= j < i ==> (#[trigger] rows@[j])@ == shown(self.approved@[j]@, ""@),
            decreases self.approved.len() - i,
        {
            rows.push(show(&self.approved[i], ""));
            i += 1;
        }
        assert(texts(rows@) =~= Seq::new(
            self@.approved.len(),
            |j: int| shown(self@.approved[j], ""@),
        ));
        join(&rows, "\n")
    }

    /// Answers a search for a lowercase query without outer white space.
    pub fn search(&self, q: &str, signals: &Vec<Signal>) -> (r: String)
        requires
            signals@.len() == self.approved@.len(),
        ensures
            is_search_answer(self@.approved, q@, signals@, r@),
    {
        let ghost apps = self@.approved;
        let mut found: Vec<usize> = Vec::new();
        let mut keys: Vec<u64> = Vec::new();
        let mut names: Vec<String> = Vec::new();
        let mut i: usize = 0;
        while i < self.approved.len()
            invariant
                i <= self.approved@.len() == signals@.len(),
                apps == self@.approved,
                found@.len() == keys@.len() == names@.len(),
                found@.len() == admitted_of(apps.take(i as int), q@, signals@).len(),
                forall|j: int|
                    0 <= j < found@.len() ==> #[trigger] found@[j] < i && found@[j] == admitted_of(
                        apps.take(i as int),
                        q@,
                        signals@,
                    )[j],
                forall|j: int|
                    0 <= j < keys@.len() ==> #[trigger] keys@[j] == signals@[found@[j] as int].key,
                forall|j: int|
                    0 <= j < names@.len() ==> (#[trigger] names@[j])@ == apps[found@[j] as int].name,
            decreases self.approved.len() - i,
        {
            assert(apps.take(i + 1).drop_last() =~= apps.take(i as int));
            assert(apps.take(i + 1).last() == self.approved@[i as int]@);
            if q.is_empty() || self.approved[i].matches(q) || signals[i].close {
                found.push(i);
                keys.push(signals[i].key);
                names.push(self.approved[i].name.clone());
            }
            i += 1;
        }
        assert(apps.take(i as int) =~= apps);
        let ghost all = admitted_of(apps, q@, signals@);
        let ghost ks = Seq::new(all.len(), |j: int| signals@[all[j]].key);
        let ghost ns = Seq::new(all.len(), |j: int| apps[all[j]].name);
        let p = ordering(&keys, &names);
        assert(keys@ =~= ks);
        assert(texts(names@) =~= ns);
        let mut rows: Vec<String> = Vec::new();
        let mut k: usize = 0;
        while k < p.len()
            invariant
                k <= p@.len(),
                apps == self@.approved,
                is_ordering(ks, ns, p@, all.len() as int),
                found@.len() == all.len(),
                forall|j: int|
                    0 <= j < found@.len() ==> #[trigger] found@[j] < self.approved@.len()
                        && found@[j] == all[j],
                rows@.len() == k,
                forall|j: int|
                    0 <= j < k ==> (#[trigger] rows@[j])@ == shown(apps[all[p@[j] as int]], q@),
            decreases p.len() - k,
        {
            let at: usize = found[p[k]];
            assert(apps[at as int] == self.approved@[at as int]@);
            rows.push(show(&self.approved[at], q));
            k += 1;
        }
        assert(texts(rows@) =~= Seq::new(p@.len(), |j: int| shown(apps[all[p@[j] as int]], q@)));
        assert(is_ordering(ks, ns, p@, all.len() as int));
        join(&rows, "\n")
    }
}

/// Every entry answers the empty query.
pub proof fn lemma_empty_query_admits_all(apps: Seq<Entry>, signals: Seq<Signal>)
    ensures
        admitted_of(apps, Seq::empty(), signals) == Seq::new(apps.len(), |i: int| i),
    decreases apps.len(),
{
    if apps.len() > 0 {
        lemma_empty_query_admits_all(apps.drop_last(), signals);
    }
    assert(admitted_of(apps, Seq::empty(), signals) =~= Seq::new(apps.len(), |i: int| i));
}

// ── Files ────────────────────────────────────────────────────────────────────

/// The rows of the file that holds the entries.
pub open spec fn wire_rows(apps: Seq<Entry>) -> Seq<Seq<char>> {
    Seq::new(apps.len(), |i: int| wire(apps[i]))
}

/// Returns the file that holds some entries.
pub fn entries_file(apps: &Vec<App>) -> (r: String)
    ensures
        r@ == joined(wire_rows(entries(apps@)), "\n"@),
{
    let mut rows: Vec<String> = Vec::new();
    let mut i: usize = 0;
    while i < apps.len()
        invariant
            i <= apps@.len(),
            rows@.len() == i,
            forall|j: int| 0 <= j < i ==> (#[trigger] rows@[j])@ == wire(apps@[j]@),
        decreases apps.len() - i,
    {
        rows.push(apps[i].to_wire());
        i += 1;
    }
    assert(texts(rows@) =~= wire_rows(entries(apps@)));
    join(&rows, "\n")
}

/// The entries in some lines; lines that hold none are left out.
pub open spec fn entries_in(ls: Seq<Seq<char>>) -> Seq<Entry>
    decreases ls.len(),
{
    if ls.len() == 0 {
        Seq::empty()
    } else {
        match parse_wire(ls.last()) {
            Some(e) => entries_in(ls.drop_last()).push(e),
            None => entries_in(ls.drop_last()),
        }
    }
}

/// Reads the file that holds the entries.
pub fn read_entries(file: &str) -> (r: Vec<App>)
    ensures
        entries(r@) == entries_in(lines(file@)),
{
    let ls = lines_of(file);
    let mut out: Vec<App> = Vec::new();
    let mut i: usize = 0;
    let ghost all = texts(ls@);
    assert(entries(out@) =~= entries_in(all.take(0)));
    while i < ls.len()
        invariant
            i <= ls@.len(),
            all == texts(ls@),
            entries(out@) == entries_in(all.take(i as int)),
        decreases ls.len() - i,
    {
        assert(all.take(i + 1).drop_last() =~= all.take(i as int));
        assert(all.take(i + 1).last() == ls@[i as int]@);
        match App::from_wire(ls[i].as_str()) {
            Some(a) => {
                let ghost before = entries(out@);
                out.push(a);
                assert(entries(out@) =~= before.push(a@));
            },
            None => {},
        }
        i += 1;
    }
    assert(all.take(i as int) =~= all);
    out
}

/// Whether an entry can stand in the file and be read back as it is.
pub open spec fn is_storable(e: Entry) -> bool {
    &&& is_clean(e)
    &&& !e.doc_snippet.contains('\t') && !e.vec.contains('\t') && !e.doc_vec.contains('\t')
    &&& is_trimmed(e.vec) && is_trimmed(e.doc_vec)
    &&& !e.name.contains('\n') && !e.desc.contains('\n') && !e.url.contains('\n')
    &&& !e.author.contains('\n') && !e.tags.contains('\n') && !e.doc_snippet.contains('\n')
    &&& !e.vec.contains('\n') && !e.doc_vec.contains('\n')
}

proof fn lemma_wire_is_line(e: Entry)
    requires
        is_storable(e),
    ensures
        is_line(wire(e)),
        wire(e).len() > 0,
{
    reveal_strlit("\t");
    let t = "\t"@;
    assert(t =~= seq!['\t']);
    assert(!t.contains('\n'));
    let s1 = e.name + t;
    let s2 = s1 + e.desc + t;
    let s3 = s2 + e.url + t;
    let s4 = s3 + e.author + t;
    let s5 = s4 + e.tags + t;
    let s6 = s5 + e.doc_snippet;
    lemma_absent_in_sum(e.name, t, '\n');
    lemma_absent_in_sum(s1, e.desc, '\n');
    lemma_absent_in_sum(s1 + e.desc, t, '\n');
    lemma_absent_in_sum(s2, e.url, '\n');
    lemma_absent_in_sum(s2 + e.url, t, '\n');
    lemma_absent_in_sum(s3, e.author, '\n');
    lemma_absent_in_sum(s3 + e.author, t, '\n');
    lemma_absent_in_sum(s4, e.tags, '\n');
    lemma_absent_in_sum(s4 + e.tags, t, '\n');
    lemma_absent_in_sum(s5, e.doc_snippet, '\n');
    lemma_absent_in_sum(s6, t, '\n');
    lemma_absent_in_sum(s6 + t, e.vec, '\n');
    lemma_absent_in_sum(s6 + t + e.vec, t, '\n');
    lemma_absent_in_sum(s6 + t + e.vec + t, e.doc_vec, '\n');
    assert(wire(e) == s6 + t + e.vec + t + e.doc_vec);
    if e.doc_vec.len() > 0 {
        assert(wire(e).last() == e.doc_vec.last());
    } else {
        assert(wire(e).last() == '\t');
    }
}

proof fn lemma_entries_in(apps: Seq<Entry>)
    requires
        forall|i: int| 0 <= i < apps.len() ==> is_storable(#[trigger] apps[i]),
    ensures
        entries_in(wire_rows(apps)) == apps,
    decreases apps.len(),
{
    if apps.len() > 0 {
        let d = apps.drop_last();
        assert forall|i: int| 0 <= i < d.len() implies is_storable(#[trigger] d[i]) by {
            assert(d[i] == apps[i]);
        }
        lemma_entries_in(d);
        assert(wire_rows(apps).drop_last() =~= wire_rows(d));
        assert(is_storable(apps[apps.len() - 1]));
        lemma_wire_round_trip(apps.last());
        assert(d.push(apps.last()) =~= apps);
    } else {
        assert(entries_in(wire_rows(apps)) =~= apps);
    }
}

/// Entries that are written to their file are read back as they were.
pub proof fn lemma_entries_file_round_trip(apps: Seq<Entry>)
    requires
        forall|i: int| 0 <= i < apps.len() ==> is_storable(#[trigger] apps[i]),
    ensures
        entries_in(lines(joined(wire_rows(apps), "\n"@))) == apps,
{
    let rows = wire_rows(apps);
    assert forall|i: int| 0 <= i < rows.len() implies is_line(#[trigger] rows[i]) && rows[i].len()
        > 0 by {
        assert(is_storable(apps[i]));
        lemma_wire_is_line(apps[i]);
    }
    lemma_joined_rows_round_trip(rows);
    lemma_entries_in(apps);
}

/// The addresses of the entries that this node hosts itself, each once.
pub open spec fn claimed(apps: Seq<Entry>, self_url: Seq<char>) -> Seq<Seq<char>>
    decreases apps.len(),
{
    if apps.len() == 0 {
        Seq::empty()
    } else if begins_with(apps.last().url, hosted_prefix(self_url)) {
        with_name(claimed(apps.drop_last(), self_url), apps.last().url)
    } else {
        claimed(apps.drop_last(), self_url)
    }
}

/// Returns the addresses of the entries that this node hosts itself: what it counts as
/// published here when no list says so.
pub fn claim_hosted(apps: &Vec<App>, self_url: &str) -> (r: Vec<String>)
    ensures
        texts(r@) == claimed(entries(apps@), self_url@),
        distinct(texts(r@)),
{
    let p = prefix_of_hosted(self_url);
    let mut out: Vec<String> = Vec::new();
    let mut i: usize = 0;
    let ghost all = entries(apps@);
    assert(texts(out@) =~= claimed(all.take(0), self_url@));
    while i < apps.len()
        invariant
            i <= apps@.len(),
            all == entries(apps@),
            p@ == hosted_prefix(self_url@),
            texts(out@) == claimed(all.take(i as int), self_url@),
            distinct(texts(out@)),
        decreases apps.len() - i,
    {
        assert(all.take(i + 1).drop_last() =~= all.take(i as int));
        assert(all.take(i + 1).last() == apps@[i as int]@);
        if starts_with(apps[i].url.as_str(), p.as_str()) {
            proof {
                lemma_with_name(texts(out@), apps@[i as int].url@);
            }
            let _ = add_name(&mut out, apps[i].url.clone());
        }
        i += 1;
    }
    assert(all.take(i as int) =~= all);
    out
}

/// The names of a list, each once, in the order in which they first came.
pub open spec fn each_once(s: Seq<Seq<char>>) -> Seq<Seq<char>>
    decreases s.len(),
{
    if s.len() == 0 {
        s
    } else {
        with_name(each_once(s.drop_last()), s.last())
    }
}

/// Returns the names of a list, each once.
pub fn once_each(v: &Vec<String>) -> (r: Vec<String>)
    ensures
        texts(r@) == each_once(texts(v@)),
        distinct(texts(r@)),
{
    let mut out: Vec<String> = Vec::new();
    let mut i: usize = 0;
    let ghost all = texts(v@);
    assert(texts(out@) =~= each_once(all.take(0)));
    while i < v.len()
        invariant
            i <= v@.len(),
            all == texts(v@),
            texts(out@) == each_once(all.take(i as int)),
            distinct(texts(out@)),
        decreases v.len() - i,
    {
        assert(all.take(i + 1).drop_last() =~= all.take(i as int));
        assert(all.take(i + 1).last() == v@[i as int]@);
        proof {
            lemma_with_name(texts(out@), v@[i as int]@);
        }
        let _ = add_name(&mut out, v[i].clone());
        i += 1;
    }
    assert(all.take(i as int) =~= all);
    out
}

/// What a node finds in its files when it starts.
pub struct Files {
    pub approved: String,
    pub peers: String,
    /// Nothing where the file does not exist.
    pub mine: Option<String>,
    pub ratings: String,
    pub opens: String,
    pub published: bool,
}

/// What a node keeps when it starts with these files.
pub open spec fn loaded(f: Files, token: Seq<char>, self_url: Seq<char>) -> State {
    let approved = entries_in(lines(f.approved@));
    State {
        approved,
        mine: match f.mine {
            Some(m) => each_once(crate::text::filled_lines(lines(m@))),
            None => claimed(approved, self_url),
        },
        ratings: crate::ratings::read_votes(lines(f.ratings@)),
        opens: crate::ratings::read_open_counts(lines(f.opens@)),
        peers: each_once(crate::text::filled_lines(lines(f.peers@))),
        token,
        published: f.published,
        self_url,
    }
}

impl Registry {
    /// Starts from the files of a node.
    pub fn load(files: &Files, token: String, self_url: String) -> (r: Registry)
        ensures
            r.wf(),
            r@ == loaded(*files, token@, self_url@),
    {
        let approved = read_entries(files.approved.as_str());
        let mine = match &files.mine {
            Some(m) => once_each(&crate::text::read_lines(m.as_str())),
            None => claim_hosted(&approved, self_url.as_str()),
        };
        let peers = once_each(&crate::text::read_lines(files.peers.as_str()));
        let ratings = crate::ratings::read_ratings(files.ratings.as_str());
        let opens = crate::ratings::read_opens(files.opens.as_str());
        Registry {
            approved,
            mine,
            ratings,
            opens,
            peers,
            token,
            published: files.published,
            self_url,
        }
    }

    /// Gives an entry its vector when the node starts.
    pub fn backfill(&mut self, i: usize, vec: String)
        requires
            old(self).wf(),
            i < old(self).approved@.len(),
        ensures
            final(self).wf(),
            final(self)@ == (State {
                approved: old(self)@.approved.update(
                    i as int,
                    Entry { vec: vec@, ..old(self)@.approved[i as int] },
                ),
                ..old(self)@
            }),
    {
        let ghost before = self@;
        let mut e = self.approved[i].copy();
        assert(before.approved[i as int] == e@);
        e.vec = vec;
        self.approved.set(i, e);
        assert(self@.approved =~= before.approved.update(i as int, e@));
        assert(self@ =~= State { approved: before.approved.update(i as int, e@), ..before });
    }

    /// The file that lists the addresses published here.
    pub fn mine_file(&self) -> (r: String)
        ensures
            r@ == joined(self@.mine, "\n"@),
    {
        join(&self.mine, "\n")
    }

    /// The file that lists the known peers.
    pub fn peers_file(&self) -> (r: String)
        ensures
            r@ == joined(self@.peers, "\n"@),
    {
        join(&self.peers, "\n")
    }

    /// Takes note whether the node is listed in the public directory.
    pub fn set_published(&mut self, on: bool)
        requires
            old(self).wf(),
        ensures
            final(self).wf(),
            final(self)@ == (State { published: on, ..old(self)@ }),
    {
        self.published = on;
    }
}

proof fn lemma_distinct_stay(s: Seq<Seq<char>>)
    requires
        distinct(s),
    ensures
        each_once(s) == s,
    decreases s.len(),
{
    if s.len() > 0 {
        let d = s.drop_last();
        assert(distinct(d)) by {
            assert forall|i: int, j: int| 0 <= i < j < d.len() implies d[i] != d[j] by {
                assert(d[i] == s[i] && d[j] == s[j]);
            }
        }
        lemma_distinct_stay(d);
        assert(!d.contains(s.last())) by {
            if d.contains(s.last()) {
                let i = choose|i: int| 0 <= i < d.len() && d[i] == s.last();
                assert(s[i] == s[s.len() - 1]);
            }
        }
        assert(d.push(s.last()) =~= s);
    }
}

/// A node that is stopped and started again keeps what it had: the entries, what was
/// published here, the peers, the ratings and the open counts are read back as they were
/// written.
pub proof fn lemma_restart_keeps_everything(
    s: State,
    f: Files,
    votes: Seq<Row<Rating>>,
    opens: Seq<Row<u64>>,
)
    requires
        forall|i: int| 0 <= i < s.approved.len() ==> is_storable(#[trigger] s.approved[i]),
        forall|i: int|
            0 <= i < s.mine.len() ==> (#[trigger] s.mine[i]).len() > 0 && is_trimmed(s.mine[i])
                && !s.mine[i].contains('\n'),
        forall|i: int|
            0 <= i < s.peers.len() ==> (#[trigger] s.peers[i]).len() > 0 && is_trimmed(s.peers[i])
                && !s.peers[i].contains('\n'),
        distinct(s.mine) && distinct(s.peers),
        votes_storable(votes) && rows_map(votes) == s.ratings,
        opens_storable(opens) && rows_map(opens) == s.opens,
        f.approved@ == joined(wire_rows(s.approved), "\n"@),
        f.mine matches Some(m) && m@ == joined(s.mine, "\n"@),
        f.peers@ == joined(s.peers, "\n"@),
        f.ratings@ == rows_text(rating_rows(votes)),
        f.opens@ == rows_text(opens_rows(opens)),
        f.published == s.published,
    ensures
        loaded(f, s.token, s.self_url) == s,
{
    lemma_entries_file_round_trip(s.approved);
    lemma_read_lines_round_trip(s.mine);
    lemma_read_lines_round_trip(s.peers);
    lemma_distinct_stay(s.mine);
    lemma_distinct_stay(s.peers);
    lemma_ratings_file_round_trip(votes);
    lemma_opens_file_round_trip(opens);
    assert(loaded(f, s.token, s.self_url) =~= s);
}

/// What is taken for published here, where nothing says what was, are the addresses of the
/// entries whose files this node keeps.
pub proof fn lemma_claimed(apps: Seq<Entry>, self_url: Seq<char>, u: Seq<char>)
    ensures
        claimed(apps, self_url).contains(u) <==> begins_with(
            u,
            without_trailing(self_url, '/') + "/apps/"@,
        ) && exists|i: int| 0 <= i < apps.len() && (#[trigger] apps[i]).url == u,
    decreases apps.len(),
{
    if apps.len() > 0 {
        let d = apps.drop_last();
        lemma_claimed(d, self_url, u);
        let c = claimed(d, self_url);
        let r = claimed(apps, self_url);
        let last = apps.last();
        assert(apps[apps.len() - 1] == last);
        if exists|i: int| 0 <= i < d.len() && (#[trigger] d[i]).url == u {
            let i = choose|i: int| 0 <= i < d.len() && (#[trigger] d[i]).url == u;
            assert(apps[i].url == u);
        }
        if exists|i: int| 0 <= i < apps.len() && (#[trigger] apps[i]).url == u {
            let i = choose|i: int| 0 <= i < apps.len() && (#[trigger] apps[i]).url == u;
            if i < d.len() {
                assert(d[i].url == u);
            }
        }
        if c.contains(u) {
            let i = choose|i: int| 0 <= i < c.len() && c[i] == u;
            assert(r[i] == u);
        }
        if r.contains(u) && !c.contains(u) {
            let i = choose|i: int| 0 <= i < r.len() && r[i] == u;
            if i < c.len() {
                assert(c[i] == u);
            }
        }
        if begins_with(last.url, hosted_prefix(self_url)) && !c.contains(last.url) {
            assert(r[r.len() - 1] == last.url);
        }
    }
}

} // verus!

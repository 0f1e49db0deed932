//! What the search app shows.
use vstd::prelude::*;
use vstd::string::StringExecFns;
use crate::numerals::{decimal, format_u64};
use crate::search_app::{Hosting, Meant, Progress, SearchApp, Stat, PER_PAGE};
use crate::text::{comma_list, filled_lines, lines, lines_of, same, split, texts};

verus! {

// ── Pages ────────────────────────────────────────────────────────────────────

/// Which results are shown.
#[derive(Clone, Copy, Debug, PartialEq, Eq, Structural)]
pub struct Window {
    pub total: usize,
    pub pages: usize,
    /// The page that is shown, from zero.
    pub page: usize,
    pub start: usize,
    pub end: usize,
}

/// How many pages so many results take.
pub open spec fn pages_for(total: int) -> int {
    (total + PER_PAGE - 1) / PER_PAGE as int
}

/// The first result of a page.
pub open spec fn page_start(page: int) -> int {
    page * PER_PAGE
}

/// One past the last result of a page.
pub open spec fn page_end(total: int, page: int) -> int {
    if page_start(page) + PER_PAGE <= total {
        page_start(page) + PER_PAGE
    } else {
        total
    }
}

/// Returns which results are shown when a page is asked for: the last page where it is
/// past the end.
pub fn window(total: usize, asked: usize) -> (w: Window)
    requires
        total > 0,
        total + PER_PAGE <= usize::MAX,
    ensures
        w.total == total,
        w.pages == pages_for(total as int),
        w.page == if asked < w.pages {
            asked as int
        } else {
            w.pages - 1
        },
        w.start == page_start(w.page as int),
        w.end == page_end(total as int, w.page as int),
        w.start < w.end <= total,
{
    let pages: usize = (total + PER_PAGE - 1) / PER_PAGE;
    let page: usize = if asked < pages {
        asked
    } else {
        pages - 1
    };
    let start: usize = page * PER_PAGE;
    let end: usize = if start + PER_PAGE <= total {
        start + PER_PAGE
    } else {
        total
    };
    Window { total, pages, page, start, end }
}

/// Every result is on exactly one page.
pub proof fn lemma_pages_cover_all(total: int, i: int)
    requires
        0 <= i < total,
    ensures
        ({
            let p = i / PER_PAGE as int;
            &&& 0 <= p < pages_for(total)
            &&& page_start(p) <= i < page_end(total, p)
            &&& forall|q: int|
                0 <= q < pages_for(total) && page_start(q) <= i < #[trigger] page_end(total, q)
                    ==> q == p
        }),
{
}

// ── Texts ────────────────────────────────────────────────────────────────────

/// A count and a word, with an `s` unless there is one.
pub open spec fn counted(n: nat, word: Seq<char>) -> Seq<char> {
    decimal(n) + " "@ + word + if n == 1 {
        ""@
    } else {
        "s"@
    }
}

/// Returns a count and a word.
pub fn count_text(n: u64, word: &str) -> (r: String)
    ensures
        r@ == counted(n as nat, word@),
{
    let mut r = format_u64(n);
    r.append(" ");
    r.append(word);
    r.append(
        if n == 1 {
            ""
        } else {
            "s"
        },
    );
    r
}

/// Which results are shown, in words.
pub open spec fn window_words(w: Window) -> Seq<char> {
    "showing "@ + decimal((w.start + 1) as nat) + "–"@ + decimal(w.end as nat) + " · page "@
        + decimal((w.page + 1) as nat) + " of "@ + decimal(w.pages as nat)
}

/// The page that is shown, in words.
pub open spec fn page_words(w: Window) -> Seq<char> {
    "page "@ + decimal((w.page + 1) as nat) + " of "@ + decimal(w.pages as nat)
}

/// Returns which results are shown, in words.
pub fn window_text(w: &Window) -> (r: String)
    requires
        w.start < usize::MAX,
        w.page < usize::MAX,
    ensures
        r@ == window_words(*w),
{
    let mut r = "showing ".to_owned();
    r.append(format_u64((w.start + 1) as u64).as_str());
    r.append("–");
    r.append(format_u64(w.end as u64).as_str());
    r.append(" · page ");
    r.append(format_u64((w.page + 1) as u64).as_str());
    r.append(" of ");
    r.append(format_u64(w.pages as u64).as_str());
    r
}

/// Returns the page that is shown, in words.
pub fn page_text(w: &Window) -> (r: String)
    requires
        w.page < usize::MAX,
    ensures
        r@ == page_words(*w),
{
    let mut r = "page ".to_owned();
    r.append(format_u64((w.page + 1) as u64).as_str());
    r.append(" of ");
    r.append(format_u64(w.pages as u64).as_str());
    r
}

/// Five stars, the first so many of them filled.
pub open spec fn star_row(filled: int) -> Seq<char> {
    Seq::new(
        5,
        |i: int|
            if i < filled {
                '★'
            } else {
                '☆'
            },
    )
}

/// Returns five stars, the first so many of them filled.
pub fn stars_text(filled: u8) -> (r: String)
    ensures
        r@ == star_row(filled as int),
{
    let mut r = String::new();
    let mut i: u8 = 0;
    assert(r@ =~= star_row(filled as int).take(0));
    while i < 5
        invariant
            i <= 5,
            r@ == star_row(filled as int).take(i as int),
        decreases 5 - i,
    {
        r.push(
            if i < filled {
                '★'
            } else {
                '☆'
            },
        );
        i += 1;
        assert(r@ =~= star_row(filled as int).take(i as int));
    }
    assert(r@ =~= star_row(filled as int));
    r
}

/// Returns how an app is rated, in words; `average` is its average as text.
pub fn rating_text(average: &str, votes: u32) -> (r: String)
    ensures
        r@ == average@ + " · "@ + counted(votes as nat, "rating"@),
{
    let mut r = average.to_owned();
    r.append(" · ");
    r.append(count_text(votes as u64, "rating").as_str());
    r
}

/// Returns the author's line.
pub fn author_text(author: &str) -> (r: String)
    ensures
        r@ == "by "@ + author@,
{
    let mut r = "by ".to_owned();
    r.append(author);
    r
}

/// Returns the size of a module, in words.
pub fn size_text(bytes: usize) -> (r: String)
    ensures
        r@ == decimal((bytes / 1024) as nat) + " KB"@,
{
    let mut r = format_u64((bytes / 1024) as u64);
    r.append(" KB");
    r
}

// ── Results ──────────────────────────────────────────────────────────────────

/// How an app is liked: what was last heard, or nothing.
pub open spec fn stat_index(stats: Seq<Stat>, url: Seq<char>) -> Option<int>
    decreases stats.len(),
{
    if stats.len() == 0 {
        None
    } else {
        match stat_index(stats.drop_last(), url) {
            Some(i) => Some(i),
            None => if stats.last().url@ == url {
                Some(stats.len() - 1)
            } else {
                None
            },
        }
    }
}

/// Returns where an app stands among those whose popularity is known: at the first place.
pub fn stat_for(stats: &Vec<Stat>, url: &str) -> (r: Option<usize>)
    ensures
        match r {
            Some(i) => i < stats@.len() && stat_index(stats@, url@) == Some(i as int),
            None => stat_index(stats@, url@) is None,
        },
{
    let mut i: usize = 0;
    assert(stats@.take(0) =~= Seq::empty());
    while i < stats.len()
        invariant
            i <= stats@.len(),
            stat_index(stats@.take(i as int), url@) is None,
        decreases stats.len() - i,
    {
        assert(stats@.take(i + 1).drop_last() =~= stats@.take(i as int));
        if same(stats[i].url.as_str(), url) {
            proof {
                lemma_first_stat(stats@, url@, i + 1);
            }
            return Some(i);
        }
        i += 1;
    }
    assert(stats@.take(i as int) =~= stats@);
    None
}

proof fn lemma_first_stat(stats: Seq<Stat>, url: Seq<char>, n: int)
    requires
        0 <= n <= stats.len(),
        stat_index(stats.take(n), url) is Some,
    ensures
        stat_index(stats, url) == stat_index(stats.take(n), url),
    decreases stats.len() - n,
{
    if n == stats.len() {
        assert(stats.take(n) =~= stats);
    } else {
        assert(stats.take(n + 1).drop_last() =~= stats.take(n));
        lemma_first_stat(stats, url, n + 1);
    }
}

/// What the part below the search bar shows.
#[derive(Clone, Copy, Debug, PartialEq, Eq, Structural)]
pub enum Body {
    /// An answer is being waited for.
    Searching,
    /// Nothing was asked for yet.
    Home,
    /// Nothing was found.
    Empty,
    Results(Window),
}

/// A result as it is shown.
pub struct Card {
    pub name: String,
    pub tags: Vec<String>,
    pub desc: String,
    pub snippet: String,
    pub url: String,
    pub author: String,
    /// The average as text; empty where nothing is known.
    pub avg: String,
    pub votes: u32,
    pub opens: u64,
    /// Whether its reviews are shown.
    pub reviews_shown: bool,
    /// Whether the stars with which to rate it are shown.
    pub rating_shown: bool,
    /// Whether it can be rated at all.
    pub can_rate: bool,
}

impl SearchApp {
    /// Returns what the part below the search bar shows.
    pub fn body(&self) -> (b: Body)
        requires
            self.results@.len() + PER_PAGE <= usize::MAX,
        ensures
            match b {
                Body::Searching => self.search_id is Some,
                Body::Home => self.search_id is None && !self.browsed,
                Body::Empty => self.search_id is None && self.browsed && self.results@.len() == 0,
                Body::Results(w) => self.search_id is None && self.browsed && self.results@.len() > 0
                    && w.total == self.results@.len() && w.pages == pages_for(w.total as int)
                    && w.page == (if self.page < w.pages {
                    self.page as int
                } else {
                    w.pages - 1
                }) && w.start == page_start(w.page as int) && w.end == page_end(
                    w.total as int,
                    w.page as int,
                ),
            },
    {
        if self.search_id.is_some() {
            Body::Searching
        } else if !self.browsed {
            Body::Home
        } else if self.results.len() == 0 {
            Body::Empty
        } else {
            Body::Results(window(self.results.len(), self.page))
        }
    }

    /// Whether a notice says that results by meaning are on their way, or cannot be had.
    pub fn notice(&self) -> (m: Meant)
        ensures
            m == self.meant,
    {
        self.meant
    }

    /// Whether a card shows a result.
    pub open spec fn is_card(self, c: Card, i: int) -> bool {
        let e = self.results[i];
        let s = stat_index(self.stats@, e.url@);
        &&& c.name@ == e.name@
        &&& texts(c.tags@) == filled_lines(split(e.tags@, ','))
        &&& c.desc@ == e.desc@
        &&& c.snippet@ == e.doc_snippet@
        &&& c.url@ == e.url@
        &&& c.author@ == e.author@
        &&& match s {
            Some(k) => c.avg@ == self.stats[k].avg@ && c.votes == self.stats[k].votes && c.opens
                == self.stats[k].opens,
            None => c.avg@.len() == 0 && c.votes == 0 && c.opens == 0,
        }
        &&& c.reviews_shown == (self.reviews_for@ == e.url@)
        &&& c.can_rate == !self.read_only
        &&& c.rating_shown == (!self.read_only && self.rating_for@ == e.url@)
    }

    /// Returns a result as it is shown.
    pub fn card(&self, i: usize) -> (c: Card)
        requires
            i < self.results@.len(),
        ensures
            self.is_card(c, i as int),
    {
        let e = &self.results[i];
        let (avg, votes, opens) = match stat_for(&self.stats, e.url.as_str()) {
            Some(k) => (self.stats[k].avg.clone(), self.stats[k].votes, self.stats[k].opens),
            None => (String::new(), 0u32, 0u64),
        };
        Card {
            name: e.name.clone(),
            tags: comma_list(e.tags.as_str()),
            desc: e.desc.clone(),
            snippet: e.doc_snippet.clone(),
            url: e.url.clone(),
            author: e.author.clone(),
            avg,
            votes,
            opens,
            reviews_shown: same(self.reviews_for.as_str(), e.url.as_str()),
            rating_shown: !self.read_only && same(self.rating_for.as_str(), e.url.as_str()),
            can_rate: !self.read_only,
        }
    }

    /// Goes a page on.
    pub fn next_page(&mut self, w: &Window)
        requires
            w.page < usize::MAX,
        ensures
            *final(self) == (SearchApp {
                page: if w.page + 1 < w.pages {
                    (w.page + 1) as usize
                } else {
                    old(self).page
                },
                ..*old(self)
            }),
    {
        if w.page + 1 < w.pages {
            self.page = w.page + 1;
        }
    }

    /// Goes a page back.
    pub fn previous_page(&mut self, w: &Window)
        ensures
            *final(self) == (SearchApp {
                page: if w.page > 0 {
                    (w.page - 1) as usize
                } else {
                    old(self).page
                },
                ..*old(self)
            }),
    {
        if w.page > 0 {
            self.page = w.page - 1;
        }
    }
}

/// What the panel with the reviews of an app shows.
pub enum ReviewPanel {
    Loading,
    /// There are only ratings without words.
    NoWords,
    /// A row of stars and a text for each.
    Reviews(Vec<(String, String)>),
}

impl SearchApp {
    /// Returns what the panel with reviews shows.
    pub fn review_panel(&self) -> (p: ReviewPanel)
        ensures
            match p {
                ReviewPanel::Loading => self.reviews_id is Some,
                ReviewPanel::NoWords => self.reviews_id is None && self.reviews@.len() == 0,
                ReviewPanel::Reviews(v) => self.reviews_id is None && self.reviews@.len() > 0
                    && v@.len() == self.reviews@.len() && forall|i: int|
                    0 <= i < v@.len() ==> (#[trigger] v@[i]).0@ == star_row(
                        self.reviews@[i].stars as int,
                    ) && v@[i].1@ == self.reviews@[i].text@,
            },
    {
        if self.reviews_id.is_some() {
            return ReviewPanel::Loading;
        }
        if self.reviews.len() == 0 {
            return ReviewPanel::NoWords;
        }
        let mut v: Vec<(String, String)> = Vec::new();
        let mut i: usize = 0;
        while i < self.reviews.len()
            invariant
                i <= self.reviews@.len(),
                v@.len() == i,
                forall|k: int|
                    0 <= k < i ==> (#[trigger] v@[k]).0@ == star_row(self.reviews@[k].stars as int)
                        && v@[k].1@ == self.reviews@[k].text@,
            decreases self.reviews.len() - i,
        {
            let s = stars_text(self.reviews[i].stars);
            let t = self.reviews[i].text.clone();
            v.push((s, t));
            i += 1;
        }
        ReviewPanel::Reviews(v)
    }

    /// Returns the rows of the panel with raw scores; nothing where it is not shown.
    pub fn debug_rows(&self) -> (r: Option<Vec<String>>)
        ensures
            match r {
                Some(v) => self.debug_mode && texts(v@) == lines(self.debug_text@),
                None => !self.debug_mode,
            },
    {
        if self.debug_mode {
            Some(lines_of(self.debug_text.as_str()))
        } else {
            None
        }
    }
}

// ── Submitting ───────────────────────────────────────────────────────────────

/// What the end of the form shows.
pub enum FormEnd {
    /// The submission is on its way.
    Submitting,
    /// The button, and what is missing if something is.
    Button(Option<String>),
    /// The submission arrived; the address if this node serves the app.
    Submitted(String),
    /// What went wrong, and the button again with what is missing.
    Failed(String, Option<String>),
}

/// What is missing for a submission, in words.
pub open spec fn missing(a: SearchApp, name: Seq<char>, url: Seq<char>) -> Option<Seq<char>> {
    if a.is_ready(name, url) {
        None
    } else {
        Some(
            match a.hosting {
                Hosting::Here => "* name and a chosen file are required"@,
                Hosting::Elsewhere => "* name and URL are required"@,
            },
        )
    }
}

/// What is said about a submission that failed.
pub open spec fn failure_text(a: SearchApp) -> Seq<char> {
    if a.error@.len() == 0 {
        "Submission failed. Check the details and try again."@
    } else {
        a.error@
    }
}

impl SearchApp {
    fn missing_text(&self, name: &str, url: &str) -> (r: Option<String>)
        ensures
            match r {
                Some(s) => missing(*self, name@, url@) == Some(s@),
                None => missing(*self, name@, url@) is None,
            },
    {
        if self.ready(name, url) {
            None
        } else {
            Some(
                match self.hosting {
                    Hosting::Here => "* name and a chosen file are required".to_owned(),
                    Hosting::Elsewhere => "* name and URL are required".to_owned(),
                },
            )
        }
    }

    /// Returns what the end of the form shows.
    pub fn form_end(&self, name: &str, url: &str) -> (f: FormEnd)
        ensures
            match f {
                FormEnd::Submitting => self.progress == Progress::Pending,
                FormEnd::Button(m) => self.progress == Progress::Idle && crate::gossip::seen(m)
                    == missing(*self, name@, url@),
                FormEnd::Submitted(s) => self.progress == Progress::Done && s@ == self.hosted_url@,
                FormEnd::Failed(s, m) => self.progress == Progress::Failed && s@ == failure_text(
                    *self,
                ) && crate::gossip::seen(m) == missing(*self, name@, url@),
            },
    {
        match self.progress {
            Progress::Pending => FormEnd::Submitting,
            Progress::Idle => FormEnd::Button(self.missing_text(name, url)),
            Progress::Done => FormEnd::Submitted(self.hosted_url.clone()),
            Progress::Failed => {
                let s = if self.error.as_str().is_empty() {
                    "Submission failed. Check the details and try again.".to_owned()
                } else {
                    self.error.clone()
                };
                FormEnd::Failed(s, self.missing_text(name, url))
            },
        }
    }

    /// Returns the name and the size of the chosen module, in words; nothing where none
    /// is.
    pub fn picked_text(&self) -> (r: Option<(String, String)>)
        ensures
            match r {
                Some(p) => self.picked is Some && p.0@ == self.picked->0.name@ && p.1@ == decimal(
                    (self.picked->0.bytes@.len() / 1024) as nat,
                ) + " KB"@,
                None => self.picked is None,
            },
    {
        match &self.picked {
            Some(p) => Some((p.name.clone(), size_text(p.bytes.len()))),
            None => None,
        }
    }

    /// Returns where this node serves the app from, in words; nothing where it does not.
    pub fn hosted_text(&self, word: &str) -> (r: Option<String>)
        ensures
            match r {
                Some(s) => self.hosted_url@.len() > 0 && s@ == word@ + self.hosted_url@,
                None => self.hosted_url@.len() == 0,
            },
    {
        if self.hosted_url.as_str().is_empty() {
            None
        } else {
            let mut s = word.to_owned();
            s.append(self.hosted_url.as_str());
            Some(s)
        }
    }
}

/// One more star fills the next of the five, and no other.
pub proof fn lemma_each_star_fills_one(n: int, i: int)
    requires
        0 <= n < 5,
        0 <= i < 5,
    ensures
        star_row(n).len() == 5,
        star_row(0)[i] == '☆' && star_row(5)[i] == '★',
        star_row(n)[n] == '☆' && star_row(n + 1)[n] == '★',
        i != n ==> star_row(n + 1)[i] == star_row(n)[i],
{
}

/// What is known of an app is found by its address, the first where there are several.
pub proof fn lemma_stat_is_found_by_address(stats: Seq<Stat>, url: Seq<char>)
    ensures
        match stat_index(stats, url) {
            Some(k) => 0 <= k < stats.len() && stats[k].url@ == url && forall|j: int|
                0 <= j < k ==> (#[trigger] stats[j]).url@ != url,
            None => forall|j: int| 0 <= j < stats.len() ==> (#[trigger] stats[j]).url@ != url,
        },
    decreases stats.len(),
{
    if stats.len() > 0 {
        let d = stats.drop_last();
        lemma_stat_is_found_by_address(d, url);
        match stat_index(d, url) {
            Some(k) => {
                assert(d[k] == stats[k]);
                assert forall|j: int| 0 <= j < k implies (#[trigger] stats[j]).url@ != url by {
                    assert(d[j] == stats[j]);
                }
            },
            None => {
                assert forall|j: int| 0 <= j < d.len() implies (#[trigger] stats[j]).url@ != url by {
                    assert(d[j] == stats[j]);
                }
            },
        }
    }
}

/// One thing is counted in the singular, every other number in the plural.
pub proof fn lemma_counted(n: nat, word: Seq<char>)
    ensures
        counted(1, word) == decimal(1) + " "@ + word,
        n != 1 ==> counted(n, word) == decimal(n) + " "@ + word + "s"@,
{
    reveal_strlit("");
    assert(counted(1, word) =~= decimal(1) + " "@ + word);
}

} // verus!

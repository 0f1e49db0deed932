//! What a node tells about its apps besides listing them: how they are liked, and how
//! they score.
use vstd::prelude::*;
use vstd::string::StringExecFns;
use crate::entry::{App, Entry};
use crate::ledger::Row;
use crate::numerals::{decimal, format_u64, is_digit, lemma_decimal_digits};
use crate::order::{goes_before, is_ordering, ordering};
use crate::ratings::{Rating, checked_open_count, open_total, score, vote_total};
use crate::registry::Registry;
use crate::search::{finds, haystack};
use crate::text::{join, joined, lowercase, split, texts};
use crate::text::{lemma_split_none, lemma_split_push};

verus! {

// ── How apps are liked ───────────────────────────────────────────────────────

/// The line about an app: its address, its average as text, the number of votes and of
/// opens.
pub open spec fn stats_line(
    e: Entry,
    average: Seq<char>,
    votes: Seq<Row<Rating>>,
    opens: Seq<Row<u64>>,
) -> Seq<char> {
    e.url + "\t"@ + average + "\t"@ + decimal(vote_total(votes, e.url)) + "\t"@ + decimal(
        open_total(opens, e.url),
    )
}

impl Registry {
    /// One line about each app. `averages` are the apps' average stars as text. Nothing
    /// where some app was opened more often than can be counted.
    pub fn stats(&self, averages: &Vec<String>) -> (r: Option<String>)
        requires
            averages@.len() == self.approved@.len(),
            self.ratings.rows@.len() <= u32::MAX,
        ensures
            match r {
                Some(t) => t@ == joined(
                    Seq::new(
                        self@.approved.len(),
                        |i: int|
                            stats_line(
                                self@.approved[i],
                                averages@[i]@,
                                self.ratings.rows@,
                                self.opens.rows@,
                            ),
                    ),
                    "\n"@,
                ),
                None => exists|i: int|
                    0 <= i < self@.approved.len() && open_total(
                        self.opens.rows@,
                        (#[trigger] self@.approved[i]).url,
                    ) > u64::MAX,
            },
    {
        let mut rows: Vec<String> = Vec::new();
        let mut i: usize = 0;
        while i < self.approved.len()
            invariant
                i <= self.approved@.len() == averages@.len(),
                self.ratings.rows@.len() <= u32::MAX,
                rows@.len() == i,
                forall|j: int|
                    0 <= j < i ==> (#[trigger] rows@[j])@ == stats_line(
                        self.approved@[j]@,
                        averages@[j]@,
                        self.ratings.rows@,
                        self.opens.rows@,
                    ),
            decreases self.approved.len() - i,
        {
            let a = &self.approved[i];
            assert(self@.approved[i as int] == a@);
            let (_, votes) = score(&self.ratings, a.url.as_str());
            let opens: u64 = match checked_open_count(&self.opens, a.url.as_str()) {
                Some(n) => n,
                None => {
                    return None;
                },
            };
            let mut l = a.url.clone();
            l.append("\t");
            l.append(averages[i].as_str());
            l.append("\t");
            l.append(format_u64(votes as u64).as_str());
            l.append("\t");
            l.append(format_u64(opens).as_str());
            rows.push(l);
            i += 1;
        }
        assert(texts(rows@) =~= Seq::new(
            self@.approved.len(),
            |i: int|
                stats_line(self@.approved[i], averages@[i]@, self.ratings.rows@, self.opens.rows@),
        ));
        Some(join(&rows, "\n"))
    }
}

// ── How apps score ───────────────────────────────────────────────────────────

/// How close an app is to a query in meaning, as text, and the number to order it by,
/// the greater first.
pub struct Closeness {
    pub key: u64,
    pub described: String,
    pub documented: String,
}

/// The line about how an app scores for a query.
pub open spec fn score_line(e: Entry, q: Seq<char>, c: Closeness) -> Seq<char> {
    e.name + "\t"@ + (if q.len() == 0 || finds(lowercase(haystack(e)), lowercase(q)) {
        "keyword"@
    } else {
        "-"@
    }) + "\t"@ + c.described@ + "\t"@ + c.documented@
}

/// Whether a text reports how every app scores: the header, then the apps by their
/// keys, those with one key in their order.
pub open spec fn is_report(
    apps: Seq<Entry>,
    q: Seq<char>,
    header: Seq<char>,
    scores: Seq<Closeness>,
    r: Seq<char>,
) -> bool {
    let keys = Seq::new(apps.len(), |i: int| scores[i].key);
    let alike = Seq::new(apps.len(), |i: int| Seq::<char>::empty());
    exists|p: Seq<usize>|
        #![trigger is_ordering(keys, alike, p, apps.len() as int)]
        is_ordering(keys, alike, p, apps.len() as int) && r == header + "\n"@ + joined(
            Seq::new(p.len(), |i: int| score_line(apps[p[i] as int], q, scores[p[i] as int])),
            "\n"@,
        )
}

fn score_row(app: &App, q: &str, c: &Closeness) -> (r: String)
    ensures
        r@ == score_line(app@, q@, *c),
{
    let mut l = app.name.clone();
    l.append("\t");
    l.append(
        if q.is_empty() || app.matches(q) {
            "keyword"
        } else {
            "-"
        },
    );
    l.append("\t");
    l.append(c.described.as_str());
    l.append("\t");
    l.append(c.documented.as_str());
    l
}

impl Registry {
    /// Reports how every app scores for a lowercase query without outer white space.
    pub fn search_report(&self, q: &str, header: &str, scores: &Vec<Closeness>) -> (r: String)
        requires
            scores@.len() == self.approved@.len(),
        ensures
            is_report(self@.approved, q@, header@, scores@, r@),
    {
        let ghost apps = self@.approved;
        let mut keys: Vec<u64> = Vec::new();
        let mut alike: Vec<String> = Vec::new();
        let mut i: usize = 0;
        while i < scores.len()
            invariant
                i <= scores@.len(),
                keys@.len() == i,
                alike@.len() == i,
                forall|j: int| 0 <= j < i ==> #[trigger] keys@[j] == scores@[j].key,
                forall|j: int| 0 <= j < i ==> (#[trigger] alike@[j])@ == Seq::<char>::empty(),
            decreases scores.len() - i,
        {
            keys.push(scores[i].key);
            alike.push(String::new());
            i += 1;
        }
        let ghost ks = Seq::new(apps.len(), |j: int| scores@[j].key);
        let ghost ns = Seq::new(apps.len(), |j: int| Seq::<char>::empty());
        let p = ordering(&keys, &alike);
        assert(keys@ =~= ks);
        assert(texts(alike@) =~= ns);
        let mut rows: Vec<String> = Vec::new();
        let mut k: usize = 0;
        while k < p.len()
            invariant
                k <= p@.len(),
                apps == self@.approved,
                scores@.len() == apps.len(),
                is_ordering(ks, ns, p@, apps.len() as int),
                rows@.len() == k,
                forall|j: int|
                    0 <= j < k ==> (#[trigger] rows@[j])@ == score_line(
                        apps[p@[j] as int],
                        q@,
                        scores@[p@[j] as int],
                    ),
            decreases p.len() - k,
        {
            let at: usize = p[k];
            assert(apps[at as int] == self.approved@[at as int]@);
            rows.push(score_row(&self.approved[at], q, &scores[at]));
            k += 1;
        }
        assert(texts(rows@) =~= Seq::new(
            p@.len(),
            |j: int| score_line(apps[p@[j] as int], q@, scores@[p@[j] as int]),
        ));
        assert(is_ordering(ks, ns, p@, apps.len() as int));
        let mut r = header.to_owned();
        r.append("\n");
        r.append(join(&rows, "\n").as_str());
        r
    }
}

/// The line about an app is its address, its average, its votes and its opens, in this
/// order and divided by tabs.
pub proof fn lemma_stats_line_pieces(
    e: Entry,
    average: Seq<char>,
    votes: Seq<Row<Rating>>,
    opens: Seq<Row<u64>>,
)
    requires
        !e.url.contains('\t') && !average.contains('\t'),
    ensures
        split(stats_line(e, average, votes, opens), '\t') == seq![
            e.url,
            average,
            decimal(vote_total(votes, e.url)),
            decimal(open_total(opens, e.url)),
        ],
{
    reveal_strlit("\t");
    assert("\t"@ =~= seq!['\t']);
    let v = decimal(vote_total(votes, e.url));
    let o = decimal(open_total(opens, e.url));
    lemma_no_tab(vote_total(votes, e.url));
    lemma_no_tab(open_total(opens, e.url));
    lemma_split_none(e.url, '\t');
    lemma_split_push(e.url, '\t', average);
    lemma_split_push(e.url + "\t"@ + average, '\t', v);
    lemma_split_push(e.url + "\t"@ + average + "\t"@ + v, '\t', o);
    assert(split(stats_line(e, average, votes, opens), '\t') =~= seq![e.url, average, v, o]);
}

proof fn lemma_no_tab(n: nat)
    ensures
        !decimal(n).contains('\t'),
{
    let d = decimal(n);
    lemma_decimal_digits(n);
    if d.contains('\t') {
        let i = choose|i: int| 0 <= i < d.len() && d[i] == '\t';
        assert(is_digit(d[i]));
    }
}

/// The line of a report is an entry's name, whether keywords find it, and how close its
/// description and its content are, in this order and divided by tabs.
pub proof fn lemma_score_line_pieces(e: Entry, q: Seq<char>, c: Closeness)
    requires
        !e.name.contains('\t') && !c.described@.contains('\t') && !c.documented@.contains('\t'),
    ensures
        ({
            let p = split(score_line(e, q, c), '\t');
            &&& p.len() == 4
            &&& p[0] == e.name && p[2] == c.described@ && p[3] == c.documented@
            &&& p[1] == "keyword"@ <==> q.len() == 0 || finds(lowercase(haystack(e)), lowercase(q))
        }),
{
    reveal_strlit("\t");
    reveal_strlit("keyword");
    reveal_strlit("-");
    assert("\t"@ =~= seq!['\t']);
    let k = if q.len() == 0 || finds(lowercase(haystack(e)), lowercase(q)) {
        "keyword"@
    } else {
        "-"@
    };
    lemma_split_none(e.name, '\t');
    lemma_split_push(e.name, '\t', k);
    lemma_split_push(e.name + "\t"@ + k, '\t', c.described@);
    lemma_split_push(e.name + "\t"@ + k + "\t"@ + c.described@, '\t', c.documented@);
}

/// Whether a text is a header and a line for each entry by its position.
pub open spec fn reports_rows(
    apps: Seq<Entry>,
    q: Seq<char>,
    header: Seq<char>,
    scores: Seq<Closeness>,
    order: Seq<usize>,
    r: Seq<char>,
) -> bool {
    r == header + "\n"@ + joined(
        Seq::new(order.len(), |i: int| score_line(apps[order[i] as int], q, scores[order[i] as int])),
        "\n"@,
    )
}

/// A report tells of every entry once, the closest first.
pub proof fn lemma_report_tells_of_every_entry(
    apps: Seq<Entry>,
    q: Seq<char>,
    header: Seq<char>,
    scores: Seq<Closeness>,
    r: Seq<char>,
)
    requires
        scores.len() == apps.len() <= usize::MAX,
        is_report(apps, q, header, scores, r),
    ensures
        exists|order: Seq<usize>| #[trigger]
            reports_rows(apps, q, header, scores, order, r) && order.len() == apps.len() && (forall|
                i: usize,
            |
                i < apps.len() ==> #[trigger] order.contains(i)) && (forall|a: int, b: int|
                0 <= a < b < order.len() ==> #[trigger] order[a] != #[trigger] order[b]
                    && scores[order[a] as int].key >= scores[order[b] as int].key),
{
    let keys = Seq::new(apps.len(), |i: int| scores[i].key);
    let alike = Seq::new(apps.len(), |i: int| Seq::<char>::empty());
    let n = apps.len() as int;
    let p = choose|p: Seq<usize>|
        #![trigger is_ordering(keys, alike, p, n)]
        is_ordering(keys, alike, p, n) && r == header + "\n"@ + joined(
            Seq::new(p.len(), |i: int| score_line(apps[p[i] as int], q, scores[p[i] as int])),
            "\n"@,
        );
    assert(reports_rows(apps, q, header, scores, p, r));
    assert forall|a: int, b: int| 0 <= a < b < p.len() implies #[trigger] p[a] != #[trigger] p[b]
        && scores[p[a] as int].key >= scores[p[b] as int].key by {
        assert(goes_before(keys, alike, p[a] as int, p[b] as int));
        assert(alike[p[a] as int] =~= alike[p[b] as int]);
        assert(keys[p[a] as int] == scores[p[a] as int].key);
        assert(keys[p[b] as int] == scores[p[b] as int].key);
    }
}

} // verus!

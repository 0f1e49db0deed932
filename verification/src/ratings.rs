//! Ratings and open counts, kept for each app and node so that they merge across
//! the network without being counted twice.
use vstd::prelude::*;
use vstd::string::StringExecFns;
use crate::ledger::{row_key, rows_map, Ledger, Row};
use crate::numerals::{decimal, format_u64, number, parse_u64, parse_u8};
use crate::numerals::{lemma_decimal_digits, lemma_decimal_round_trip};
use crate::order::{
    comes_before, goes_before, is_ordering, lemma_text_before_total, lemma_text_before_transitive, ordering,
    text_before,
};
use crate::text::{is_line, join, joined, lines, lines_of, rows_text, rows_to_text, same, split_str_n, splitn, texts};
use crate::text::{
    lemma_absent_in_sum, lemma_rows_round_trip, lemma_splitn_none, lemma_splitn_push,
    lemma_splitn_rest,
};

verus! {

/// One node's rating of one app.
#[derive(Debug)]
pub struct Rating {
    /// One to five.
    pub stars: u8,
    /// When it was given, in milliseconds; the higher wins for the same voter. Of two
    /// ratings of one instant the one with more stars wins, then the one whose review
    /// comes later in a dictionary.
    pub ts: u64,
    /// The review; may be empty.
    pub text: String,
}

/// The content of a [`Rating`].
#[verifier::ext_equal]
pub struct Vote {
    pub stars: u8,
    pub ts: u64,
    pub text: Seq<char>,
}

impl View for Rating {
    type V = Vote;

    open spec fn view(&self) -> Vote {
        Vote { stars: self.stars, ts: self.ts, text: self.text@ }
    }
}

/// The ratings by app and voter.
pub type VoteMap = Map<(Seq<char>, Seq<char>), Vote>;

/// The open counts by app and node.
pub type OpenMap = Map<(Seq<char>, Seq<char>), u64>;

// ── Merging ──────────────────────────────────────────────────────────────────

/// Whether one rating takes the place of another by the same voter: it is newer or, of
/// the same instant, has more stars or, with as many, a review that comes later in a
/// dictionary.
pub open spec fn supersedes(a: Vote, b: Vote) -> bool {
    if a.ts != b.ts {
        a.ts > b.ts
    } else if a.stars != b.stars {
        a.stars > b.stars
    } else {
        text_before(b.text, a.text)
    }
}

/// Whether a rating is news: its stars are valid, and it takes the place of what the
/// voter said before.
pub open spec fn vote_is_news(m: VoteMap, k: (Seq<char>, Seq<char>), v: Vote) -> bool {
    1 <= v.stars <= 5 && (m.contains_key(k) ==> supersedes(v, m[k]))
}

/// The ratings after hearing one more.
pub open spec fn vote_merged(m: VoteMap, k: (Seq<char>, Seq<char>), v: Vote) -> VoteMap {
    if vote_is_news(m, k, v) {
        m.insert(k, v)
    } else {
        m
    }
}

/// Whether an open count is news: there was none, or a smaller one.
pub open spec fn opens_are_news(m: OpenMap, k: (Seq<char>, Seq<char>), n: u64) -> bool {
    m.contains_key(k) ==> m[k] < n
}

/// The open counts after hearing one more.
pub open spec fn opens_merged(m: OpenMap, k: (Seq<char>, Seq<char>), n: u64) -> OpenMap {
    if opens_are_news(m, k, n) {
        m.insert(k, n)
    } else {
        m
    }
}

/// Of two different ratings one takes the place of the other, and of several ratings one
/// takes the place of all others.
pub proof fn lemma_supersedes(a: Vote, b: Vote, c: Vote)
    ensures
        !supersedes(a, a),
        !(supersedes(a, b) && supersedes(b, a)),
        a != b ==> supersedes(a, b) || supersedes(b, a),
        supersedes(a, b) && supersedes(b, c) ==> supersedes(a, c),
{
    lemma_text_before_total(a.text, a.text);
    lemma_text_before_total(a.text, b.text);
    if a.ts == b.ts && a.stars == b.stars && a.text == b.text {
        assert(a =~= b);
    }
    if text_before(c.text, b.text) && text_before(b.text, a.text) {
        lemma_text_before_transitive(c.text, b.text, a.text);
    }
}

fn takes_place(a: &Rating, b: &Rating) -> (r: bool)
    ensures
        r == supersedes(a@, b@),
{
    if a.ts != b.ts {
        a.ts > b.ts
    } else if a.stars != b.stars {
        a.stars > b.stars
    } else {
        comes_before(b.text.as_str(), a.text.as_str())
    }
}

/// Merges one rating. Returns whether it changed anything, which decides whether
/// to pass it on.
pub fn merge_rating(ratings: &mut Ledger<Rating>, url: &str, voter: &str, r: Rating) -> (news: bool)
    requires
        old(ratings).wf(),
    ensures
        final(ratings).wf(),
        final(ratings)@ == vote_merged(old(ratings)@, (url@, voter@), r@),
        news == vote_is_news(old(ratings)@, (url@, voter@), r@),
        !news ==> final(ratings).rows@ == old(ratings).rows@,
{
    if r.stars < 1 || r.stars > 5 {
        return false;
    }
    match ratings.find(url, voter) {
        Some(i) => {
            if !takes_place(&r, &ratings.rows[i].value) {
                return false;
            }
        },
        None => {},
    }
    ratings.set(url.to_owned(), voter.to_owned(), r);
    true
}

/// Merges one open count. Returns whether it changed anything.
pub fn merge_opens(opens: &mut Ledger<u64>, url: &str, node: &str, count: u64) -> (news: bool)
    requires
        old(opens).wf(),
    ensures
        final(opens).wf(),
        final(opens)@ == opens_merged(old(opens)@, (url@, node@), count),
        news == opens_are_news(old(opens)@, (url@, node@), count),
        !news ==> final(opens).rows@ == old(opens).rows@,
{
    match opens.find(url, node) {
        Some(i) => {
            if opens.rows[i].value >= count {
                return false;
            }
        },
        None => {},
    }
    opens.set(url.to_owned(), node.to_owned(), count);
    true
}

/// A rating heard a second time is no news, so gossip settles.
pub proof fn lemma_vote_merge_settles(m: VoteMap, k: (Seq<char>, Seq<char>), v: Vote)
    ensures
        !vote_is_news(vote_merged(m, k, v), k, v),
        vote_merged(vote_merged(m, k, v), k, v) == vote_merged(m, k, v),
{
    lemma_supersedes(v, v, v);
}

/// It does not matter in which order two ratings are heard.
pub proof fn lemma_votes_commute(
    m: VoteMap,
    j: (Seq<char>, Seq<char>),
    a: Vote,
    k: (Seq<char>, Seq<char>),
    b: Vote,
)
    ensures
        vote_merged(vote_merged(m, j, a), k, b) == vote_merged(vote_merged(m, k, b), j, a),
{
    if j == k {
        let o = m[k];
        lemma_supersedes(a, b, o);
        lemma_supersedes(b, a, o);
        lemma_supersedes(a, o, b);
        lemma_supersedes(b, o, a);
        lemma_supersedes(o, a, b);
        lemma_supersedes(o, b, a);
    }
    assert(vote_merged(vote_merged(m, j, a), k, b) =~= vote_merged(vote_merged(m, k, b), j, a));
}

/// It does not matter in which order two open counts are heard.
pub proof fn lemma_opens_commute(
    m: OpenMap,
    j: (Seq<char>, Seq<char>),
    a: u64,
    k: (Seq<char>, Seq<char>),
    b: u64,
)
    ensures
        opens_merged(opens_merged(m, j, a), k, b) == opens_merged(opens_merged(m, k, b), j, a),
{
    assert(opens_merged(opens_merged(m, j, a), k, b) =~= opens_merged(
        opens_merged(m, k, b),
        j,
        a,
    ));
}

/// An open count heard a second time is no news.
pub proof fn lemma_opens_merge_settles(m: OpenMap, k: (Seq<char>, Seq<char>), n: u64)
    ensures
        !opens_are_news(opens_merged(m, k, n), k, n),
        opens_merged(opens_merged(m, k, n), k, n) == opens_merged(m, k, n),
{
}

/// Open counts only ever grow.
pub proof fn lemma_opens_only_grow(
    m: OpenMap,
    k: (Seq<char>, Seq<char>),
    n: u64,
    j: (Seq<char>, Seq<char>),
)
    requires
        m.contains_key(j),
    ensures
        opens_merged(m, k, n).contains_key(j),
        opens_merged(m, k, n)[j] >= m[j],
{
}

/// A rating on its way: for which app, by whom, and what it says.
pub struct VoteMessage {
    pub key: (Seq<char>, Seq<char>),
    pub vote: Vote,
}

/// An open count on its way.
pub struct OpensMessage {
    pub key: (Seq<char>, Seq<char>),
    pub count: u64,
}

/// What a node that starts with nothing holds after hearing these ratings.
pub open spec fn votes_heard(ms: Seq<VoteMessage>) -> VoteMap
    decreases ms.len(),
{
    if ms.len() == 0 {
        Map::empty()
    } else {
        vote_merged(votes_heard(ms.drop_last()), ms.last().key, ms.last().vote)
    }
}

/// What a node that starts with nothing holds after hearing these open counts.
pub open spec fn opens_heard(ms: Seq<OpensMessage>) -> OpenMap
    decreases ms.len(),
{
    if ms.len() == 0 {
        Map::empty()
    } else {
        opens_merged(opens_heard(ms.drop_last()), ms.last().key, ms.last().count)
    }
}

proof fn lemma_votes_heard(ms: Seq<VoteMessage>, k: (Seq<char>, Seq<char>))
    ensures
        votes_heard(ms).contains_key(k) ==> exists|i: int|
            0 <= i < ms.len() && (#[trigger] ms[i]).key == k && ms[i].vote == votes_heard(ms)[k] && 1
                <= ms[i].vote.stars <= 5,
        forall|i: int|
            0 <= i < ms.len() && (#[trigger] ms[i]).key == k && 1 <= ms[i].vote.stars <= 5
                ==> votes_heard(ms).contains_key(k) && !supersedes(ms[i].vote, votes_heard(ms)[k]),
    decreases ms.len(),
{
    if ms.len() > 0 {
        let d = ms.drop_last();
        lemma_votes_heard(d, k);
        let h = votes_heard(ms);
        assert(ms[ms.len() - 1] == ms.last());
        if h.contains_key(k) {
            if votes_heard(d).contains_key(k) && h[k] == votes_heard(d)[k] {
                let i = choose|i: int|
                    0 <= i < d.len() && (#[trigger] d[i]).key == k && d[i].vote == votes_heard(d)[k]
                        && 1 <= d[i].vote.stars <= 5;
                assert(ms[i] == d[i]);
            } else {
                assert(ms[ms.len() - 1].key == k);
            }
        }
        assert forall|i: int|
            0 <= i < ms.len() && (#[trigger] ms[i]).key == k && 1 <= ms[i].vote.stars
                <= 5 implies h.contains_key(k) && !supersedes(ms[i].vote, h[k]) by {
            let x = ms[i].vote;
            lemma_supersedes(x, x, x);
            if i < d.len() {
                assert(d[i] == ms[i]);
                let o = votes_heard(d)[k];
                lemma_supersedes(x, h[k], o);
                lemma_supersedes(h[k], o, x);
                lemma_supersedes(o, x, h[k]);
            }
        }
    }
}

proof fn lemma_opens_heard(ms: Seq<OpensMessage>, k: (Seq<char>, Seq<char>))
    ensures
        opens_heard(ms).contains_key(k) ==> exists|i: int|
            0 <= i < ms.len() && (#[trigger] ms[i]).key == k && ms[i].count == opens_heard(ms)[k],
        forall|i: int|
            0 <= i < ms.len() && (#[trigger] ms[i]).key == k ==> opens_heard(ms).contains_key(k)
                && opens_heard(ms)[k] >= ms[i].count,
    decreases ms.len(),
{
    if ms.len() > 0 {
        let d = ms.drop_last();
        lemma_opens_heard(d, k);
        let h = opens_heard(ms);
        assert(ms[ms.len() - 1] == ms.last());
        if h.contains_key(k) {
            if opens_heard(d).contains_key(k) && h[k] == opens_heard(d)[k] {
                let i = choose|i: int|
                    0 <= i < d.len() && (#[trigger] d[i]).key == k && d[i].count == opens_heard(
                        d,
                    )[k];
                assert(ms[i] == d[i]);
            } else {
                assert(ms[ms.len() - 1].key == k);
            }
        }
        assert forall|i: int| 0 <= i < ms.len() && (#[trigger] ms[i]).key == k implies h.contains_key(
            k,
        ) && h[k] >= ms[i].count by {
            if i < d.len() {
                assert(d[i] == ms[i]);
            }
        }
    }
}

/// Two nodes that have heard the same ratings agree, whatever the order and
/// however often they heard each.
pub proof fn lemma_nodes_agree_on_votes(a: Seq<VoteMessage>, b: Seq<VoteMessage>)
    requires
        a.to_set() == b.to_set(),
    ensures
        votes_heard(a) == votes_heard(b),
{
    let ha = votes_heard(a);
    let hb = votes_heard(b);
    assert forall|k: (Seq<char>, Seq<char>)|
        #![trigger ha.dom().contains(k)]
        #![trigger hb.dom().contains(k)]
        #![trigger ha[k]]
        ha.dom().contains(k) == hb.dom().contains(k) && (ha.dom().contains(k) ==> ha[k]
            == hb[k]) by {
        lemma_votes_heard(a, k);
        lemma_votes_heard(b, k);
        if ha.contains_key(k) {
            let i = choose|i: int|
                0 <= i < a.len() && (#[trigger] a[i]).key == k && a[i].vote == ha[k] && 1
                    <= a[i].vote.stars <= 5;
            lemma_same_members(a, b, i);
        }
        if hb.contains_key(k) {
            let j = choose|j: int|
                0 <= j < b.len() && (#[trigger] b[j]).key == k && b[j].vote == hb[k] && 1
                    <= b[j].vote.stars <= 5;
            lemma_same_members(b, a, j);
            lemma_supersedes(ha[k], hb[k], ha[k]);
        }
    }
    assert(ha =~= hb);
}

/// Two nodes that have heard the same open counts agree, whatever the order and
/// however often they heard each.
pub proof fn lemma_nodes_agree_on_opens(a: Seq<OpensMessage>, b: Seq<OpensMessage>)
    requires
        a.to_set() == b.to_set(),
    ensures
        opens_heard(a) == opens_heard(b),
{
    let ha = opens_heard(a);
    let hb = opens_heard(b);
    assert forall|k: (Seq<char>, Seq<char>)|
        #![trigger ha.dom().contains(k)]
        #![trigger hb.dom().contains(k)]
        #![trigger ha[k]]
        ha.dom().contains(k) == hb.dom().contains(k) && (ha.dom().contains(k) ==> ha[k]
            == hb[k]) by {
        lemma_opens_heard(a, k);
        lemma_opens_heard(b, k);
        if ha.contains_key(k) {
            let i = choose|i: int|
                0 <= i < a.len() && (#[trigger] a[i]).key == k && a[i].count == ha[k];
            lemma_same_members(a, b, i);
        }
        if hb.contains_key(k) {
            let j = choose|j: int|
                0 <= j < b.len() && (#[trigger] b[j]).key == k && b[j].count == hb[k];
            lemma_same_members(b, a, j);
        }
    }
    assert(ha =~= hb);
}

proof fn lemma_same_members<T>(a: Seq<T>, b: Seq<T>, i: int)
    requires
        a.to_set() == b.to_set(),
        0 <= i < a.len(),
    ensures
        exists|j: int| 0 <= j < b.len() && #[trigger] b[j] == a[i],
{
    assert(a.to_set().contains(a[i]));
    assert(b.to_set().contains(a[i]));
}

// ── Totals ───────────────────────────────────────────────────────────────────

/// The sum of the stars given to an app.
pub open spec fn star_total(rows: Seq<Row<Rating>>, url: Seq<char>) -> nat
    decreases rows.len(),
{
    if rows.len() == 0 {
        0
    } else {
        star_total(rows.drop_last(), url) + if rows.last().app@ == url {
            rows.last().value.stars as nat
        } else {
            0
        }
    }
}

/// How many nodes rated an app.
pub open spec fn vote_total(rows: Seq<Row<Rating>>, url: Seq<char>) -> nat
    decreases rows.len(),
{
    if rows.len() == 0 {
        0
    } else {
        vote_total(rows.drop_last(), url) + if rows.last().app@ == url {
            1nat
        } else {
            0nat
        }
    }
}

/// How often an app was opened, over all nodes.
pub open spec fn open_total(rows: Seq<Row<u64>>, url: Seq<char>) -> nat
    decreases rows.len(),
{
    if rows.len() == 0 {
        0
    } else {
        open_total(rows.drop_last(), url) + if rows.last().app@ == url {
            rows.last().value as nat
        } else {
            0
        }
    }
}

/// The stars an app got in all, and how many nodes gave them.
pub fn score(ratings: &Ledger<Rating>, url: &str) -> (r: (u64, usize))
    requires
        ratings.rows@.len() <= u32::MAX,
    ensures
        r.0 == star_total(ratings.rows@, url@),
        r.1 == vote_total(ratings.rows@, url@),
{
    let mut sum: u64 = 0;
    let mut n: usize = 0;
    let mut i: usize = 0;
    while i < ratings.rows.len()
        invariant
            i <= ratings.rows@.len() <= u32::MAX,
            n <= i,
            sum <= 255 * i,
            sum == star_total(ratings.rows@.take(i as int), url@),
            n == vote_total(ratings.rows@.take(i as int), url@),
        decreases ratings.rows.len() - i,
    {
        assert(ratings.rows@.take(i + 1).drop_last() =~= ratings.rows@.take(i as int));
        if same(ratings.rows[i].app.as_str(), url) {
            sum = sum + ratings.rows[i].value.stars as u64;
            n += 1;
        }
        i += 1;
    }
    assert(ratings.rows@.take(i as int) =~= ratings.rows@);
    (sum, n)
}

/// How often an app was opened, over all nodes; nothing where the sum is too large
/// to count.
pub fn checked_open_count(opens: &Ledger<u64>, url: &str) -> (r: Option<u64>)
    ensures
        match r {
            Some(n) => n == open_total(opens.rows@, url@),
            None => open_total(opens.rows@, url@) > u64::MAX,
        },
{
    let mut sum: u64 = 0;
    let mut i: usize = 0;
    while i < opens.rows.len()
        invariant
            i <= opens.rows@.len(),
            sum == open_total(opens.rows@.take(i as int), url@),
        decreases opens.rows.len() - i,
    {
        assert(opens.rows@.take(i + 1).drop_last() =~= opens.rows@.take(i as int));
        if same(opens.rows[i].app.as_str(), url) {
            if opens.rows[i].value > u64::MAX - sum {
                proof {
                    lemma_open_total_grows(opens.rows@, url@, i + 1);
                }
                return None;
            }
            sum = sum + opens.rows[i].value;
        }
        i += 1;
    }
    assert(opens.rows@.take(i as int) =~= opens.rows@);
    Some(sum)
}

proof fn lemma_open_total_grows(rows: Seq<Row<u64>>, url: Seq<char>, i: int)
    requires
        0 <= i <= rows.len(),
    ensures
        open_total(rows.take(i), url) <= open_total(rows, url),
    decreases rows.len() - i,
{
    if i < rows.len() {
        lemma_open_total_grows(rows, url, i + 1);
        assert(rows.take(i + 1).drop_last() =~= rows.take(i));
    } else {
        assert(rows.take(i) =~= rows);
    }
}

/// How often an app was opened, over all nodes.
pub fn open_count(opens: &Ledger<u64>, url: &str) -> (n: u64)
    requires
        open_total(opens.rows@, url@) <= u64::MAX,
    ensures
        n == open_total(opens.rows@, url@),
{
    match checked_open_count(opens, url) {
        Some(n) => n,
        None => 0,
    }
}

// ── Reviews ──────────────────────────────────────────────────────────────────

/// The ratings of an app that come with a review, in the order of the rows.
pub open spec fn reviews(rows: Seq<Row<Rating>>, url: Seq<char>) -> Seq<Vote>
    decreases rows.len(),
{
    if rows.len() == 0 {
        Seq::empty()
    } else if rows.last().app@ == url && rows.last().value.text@.len() > 0 {
        reviews(rows.drop_last(), url).push(rows.last().value@)
    } else {
        reviews(rows.drop_last(), url)
    }
}

/// A review as a row: stars, time and text.
pub open spec fn review_row(v: Vote) -> Seq<char> {
    decimal(v.stars as nat) + "\t"@ + decimal(v.ts as nat) + "\t"@ + v.text
}

/// The times of some ratings.
pub open spec fn vote_times(vs: Seq<Vote>) -> Seq<u64> {
    Seq::new(vs.len(), |i: int| vs[i].ts)
}

/// As many empty names as there are ratings.
pub open spec fn no_names(n: nat) -> Seq<Seq<char>> {
    Seq::new(n, |i: int| Seq::<char>::empty())
}

/// The written reviews of an app, newest first.
pub open spec fn reviews_text(rows: Seq<Row<Rating>>, url: Seq<char>, r: Seq<char>) -> bool {
    let vs = reviews(rows, url);
    exists|p: Seq<usize>|
        #![trigger is_ordering(vote_times(vs), no_names(vs.len()), p, vs.len() as int)]
        is_ordering(vote_times(vs), no_names(vs.len()), p, vs.len() as int) && r == joined(
            Seq::new(p.len(), |i: int| review_row(vs[p[i] as int])),
            "\n"@,
        )
}

fn review_line(stars: u8, ts: u64, text: &str) -> (r: String)
    ensures
        r@ == review_row(Vote { stars, ts, text: text@ }),
{
    let mut s = format_u64(stars as u64);
    s.append("\t");
    s.append(format_u64(ts).as_str());
    s.append("\t");
    s.append(text);
    s
}

/// Returns the written reviews of an app, newest first.
pub fn written_reviews(ratings: &Ledger<Rating>, url: &str) -> (r: String)
    ensures
        reviews_text(ratings.rows@, url@, r@),
{
    let mut keys: Vec<u64> = Vec::new();
    let mut names: Vec<String> = Vec::new();
    let mut found: Vec<String> = Vec::new();
    let mut i: usize = 0;
    let ghost all = ratings.rows@;
    assert(keys@ =~= vote_times(reviews(all.take(0), url@)));
    assert(texts(names@) =~= no_names(0));
    while i < ratings.rows.len()
        invariant
            i <= all.len(),
            all == ratings.rows@,
            keys@ == vote_times(reviews(all.take(i as int), url@)),
            texts(names@) == no_names(keys@.len()),
            found@.len() == keys@.len() == names@.len(),
            forall|j: int|
                0 <= j < found@.len() ==> (#[trigger] found@[j])@ == review_row(
                    reviews(all.take(i as int), url@)[j],
                ),
        decreases ratings.rows.len() - i,
    {
        assert(all.take(i + 1).drop_last() =~= all.take(i as int));
        let ghost vs = reviews(all.take(i as int), url@);
        let row = &ratings.rows[i];
        if same(row.app.as_str(), url) && !row.value.text.as_str().is_empty() {
            let ghost ns = texts(names@);
            keys.push(row.value.ts);
            names.push(String::new());
            found.push(review_line(row.value.stars, row.value.ts, row.value.text.as_str()));
            assert(reviews(all.take(i + 1), url@) == vs.push(row.value@));
            assert(keys@ =~= vote_times(vs.push(row.value@)));
            assert(texts(names@) =~= ns.push(Seq::<char>::empty()));
            assert(ns.push(Seq::<char>::empty()) =~= no_names(keys@.len()));
        }
        i += 1;
    }
    assert(all.take(i as int) =~= all);
    let ghost vs = reviews(all, url@);
    let p = ordering(&keys, &names);
    let mut out: Vec<String> = Vec::new();
    let mut k: usize = 0;
    while k < p.len()
        invariant
            k <= p@.len(),
            is_ordering(keys@, texts(names@), p@, vs.len() as int),
            found@.len() == vs.len(),
            forall|j: int| 0 <= j < found@.len() ==> (#[trigger] found@[j])@ == review_row(vs[j]),
            out@.len() == k,
            forall|j: int| 0 <= j < k ==> (#[trigger] out@[j])@ == review_row(vs[p@[j] as int]),
        decreases p.len() - k,
    {
        out.push(found[p[k]].clone());
        k += 1;
    }
    assert(texts(out@) =~= Seq::new(p@.len(), |j: int| review_row(vs[p@[j] as int])));
    assert(is_ordering(vote_times(vs), no_names(vs.len()), p@, vs.len() as int));
    join(&out, "\n")
}

// ── Files ────────────────────────────────────────────────────────────────────

/// A rating as a row: app, voter, stars, time and text.
pub open spec fn rating_row(k: (Seq<char>, Seq<char>), v: Vote) -> Seq<char> {
    k.0 + "\t"@ + k.1 + "\t"@ + decimal(v.stars as nat) + "\t"@ + decimal(v.ts as nat) + "\t"@
        + v.text
}

/// An open count as a row: app, node and count.
pub open spec fn opens_row(k: (Seq<char>, Seq<char>), n: u64) -> Seq<char> {
    k.0 + "\t"@ + k.1 + "\t"@ + decimal(n as nat)
}

/// What a row says of a rating, if it has four fields, the third and fourth of them
/// numbers.
pub open spec fn parse_rating(line: Seq<char>) -> Option<((Seq<char>, Seq<char>), Vote)> {
    let p = splitn(line, '\t', 5);
    if p.len() < 4 || number(p[2]) is None || number(p[2])->0 > u8::MAX || number(p[3]) is None
        || number(p[3])->0 > u64::MAX {
        None
    } else {
        Some(
            (
                (p[0], p[1]),
                Vote {
                    stars: number(p[2])->0 as u8,
                    ts: number(p[3])->0 as u64,
                    text: if p.len() > 4 {
                        p[4]
                    } else {
                        Seq::empty()
                    },
                },
            ),
        )
    }
}

/// What a row says of an open count.
pub open spec fn parse_opens(line: Seq<char>) -> Option<((Seq<char>, Seq<char>), u64)> {
    let p = splitn(line, '\t', 3);
    if p.len() < 3 || number(p[2]) is None || number(p[2])->0 > u64::MAX {
        None
    } else {
        Some(((p[0], p[1]), number(p[2])->0 as u64))
    }
}

/// A rating that was read: app, voter and rating.
pub struct HeardRating {
    pub url: String,
    pub voter: String,
    pub rating: Rating,
}

/// An open count that was read: app, node and count.
pub struct HeardOpens {
    pub url: String,
    pub node: String,
    pub count: u64,
}

/// Reads a rating from a row.
pub fn rating_from(line: &str) -> (r: Option<HeardRating>)
    ensures
        match r {
            Some(h) => parse_rating(line@) == Some(((h.url@, h.voter@), h.rating@)),
            None => parse_rating(line@) is None,
        },
{
    let p = split_str_n(line, '\t', 5);
    let ghost t = texts(p@);
    if p.len() < 4 {
        return None;
    }
    assert(t[0] == p@[0]@ && t[1] == p@[1]@ && t[2] == p@[2]@ && t[3] == p@[3]@);
    let stars = match parse_u8(p[2].as_str()) {
        Some(n) => n,
        None => {
            return None;
        },
    };
    let ts = match parse_u64(p[3].as_str()) {
        Some(n) => n,
        None => {
            return None;
        },
    };
    let text = if p.len() > 4 {
        assert(t[4] == p@[4]@);
        p[4].clone()
    } else {
        String::new()
    };
    assert(text@ =~= if t.len() > 4 { t[4] } else { Seq::<char>::empty() });
    Some(HeardRating { url: p[0].clone(), voter: p[1].clone(), rating: Rating { stars, ts, text } })
}

/// Reads an open count from a row.
pub fn opens_from(line: &str) -> (r: Option<HeardOpens>)
    ensures
        match r {
            Some(h) => parse_opens(line@) == Some(((h.url@, h.node@), h.count)),
            None => parse_opens(line@) is None,
        },
{
    let p = split_str_n(line, '\t', 3);
    let ghost t = texts(p@);
    if p.len() < 3 {
        return None;
    }
    assert(t[0] == p@[0]@ && t[1] == p@[1]@ && t[2] == p@[2]@);
    match parse_u64(p[2].as_str()) {
        Some(count) => Some(HeardOpens { url: p[0].clone(), node: p[1].clone(), count }),
        None => None,
    }
}

/// Returns a rating as a row.
pub fn rating_line(url: &str, voter: &str, r: &Rating) -> (s: String)
    ensures
        s@ == rating_row((url@, voter@), r@),
{
    let mut s = url.to_owned();
    s.append("\t");
    s.append(voter);
    s.append("\t");
    s.append(format_u64(r.stars as u64).as_str());
    s.append("\t");
    s.append(format_u64(r.ts).as_str());
    s.append("\t");
    s.append(r.text.as_str());
    s
}

/// Returns an open count as a row.
pub fn opens_line(url: &str, node: &str, count: u64) -> (s: String)
    ensures
        s@ == opens_row((url@, node@), count),
{
    let mut s = url.to_owned();
    s.append("\t");
    s.append(node);
    s.append("\t");
    s.append(format_u64(count).as_str());
    s
}

/// The rows of all ratings.
pub open spec fn rating_rows(rows: Seq<Row<Rating>>) -> Seq<Seq<char>> {
    Seq::new(rows.len(), |i: int| rating_row(row_key(rows[i]), rows[i].value@))
}

/// The rows of all open counts.
pub open spec fn opens_rows(rows: Seq<Row<u64>>) -> Seq<Seq<char>> {
    Seq::new(rows.len(), |i: int| opens_row(row_key(rows[i]), rows[i].value))
}

/// Returns the file that holds all ratings.
pub fn ratings_file(ratings: &Ledger<Rating>) -> (r: String)
    ensures
        r@ == rows_text(rating_rows(ratings.rows@)),
{
    let mut out: Vec<String> = Vec::new();
    let mut i: usize = 0;
    while i < ratings.rows.len()
        invariant
            i <= ratings.rows@.len(),
            out@.len() == i,
            forall|j: int|
                0 <= j < i ==> (#[trigger] out@[j])@ == rating_rows(ratings.rows@)[j],
        decreases ratings.rows.len() - i,
    {
        let row = &ratings.rows[i];
        out.push(rating_line(row.app.as_str(), row.by.as_str(), &row.value));
        i += 1;
    }
    assert(texts(out@) =~= rating_rows(ratings.rows@));
    rows_to_text(&out)
}

/// Returns the file that holds all open counts.
pub fn opens_file(opens: &Ledger<u64>) -> (r: String)
    ensures
        r@ == rows_text(opens_rows(opens.rows@)),
{
    let mut out: Vec<String> = Vec::new();
    let mut i: usize = 0;
    while i < opens.rows.len()
        invariant
            i <= opens.rows@.len(),
            out@.len() == i,
            forall|j: int| 0 <= j < i ==> (#[trigger] out@[j])@ == opens_rows(opens.rows@)[j],
        decreases opens.rows.len() - i,
    {
        let row = &opens.rows[i];
        out.push(opens_line(row.app.as_str(), row.by.as_str(), row.value));
        i += 1;
    }
    assert(texts(out@) =~= opens_rows(opens.rows@));
    rows_to_text(&out)
}

/// What lines of a file say of ratings; the last one for a pair counts.
pub open spec fn read_votes(ls: Seq<Seq<char>>) -> VoteMap
    decreases ls.len(),
{
    if ls.len() == 0 {
        Map::empty()
    } else {
        match parse_rating(ls.last()) {
            Some(h) => read_votes(ls.drop_last()).insert(h.0, h.1),
            None => read_votes(ls.drop_last()),
        }
    }
}

/// What lines of a file say of open counts; the last one for a pair counts.
pub open spec fn read_open_counts(ls: Seq<Seq<char>>) -> OpenMap
    decreases ls.len(),
{
    if ls.len() == 0 {
        Map::empty()
    } else {
        match parse_opens(ls.last()) {
            Some(h) => read_open_counts(ls.drop_last()).insert(h.0, h.1),
            None => read_open_counts(ls.drop_last()),
        }
    }
}

/// Reads the file that holds all ratings.
pub fn read_ratings(file: &str) -> (r: Ledger<Rating>)
    ensures
        r.wf(),
        r@ == read_votes(lines(file@)),
{
    let ls = lines_of(file);
    let mut out: Ledger<Rating> = Ledger::new();
    let mut i: usize = 0;
    let ghost all = texts(ls@);
    assert(out@ =~= read_votes(all.take(0)));
    while i < ls.len()
        invariant
            i <= ls@.len(),
            all == texts(ls@),
            out.wf(),
            out@ == read_votes(all.take(i as int)),
        decreases ls.len() - i,
    {
        assert(all.take(i + 1).drop_last() =~= all.take(i as int));
        assert(all.take(i + 1).last() == ls@[i as int]@);
        match rating_from(ls[i].as_str()) {
            Some(h) => {
                out.set(h.url, h.voter, h.rating);
            },
            None => {},
        }
        i += 1;
    }
    assert(all.take(i as int) =~= all);
    out
}

/// Reads the file that holds all open counts.
pub fn read_opens(file: &str) -> (r: Ledger<u64>)
    ensures
        r.wf(),
        r@ == read_open_counts(lines(file@)),
{
    let ls = lines_of(file);
    let mut out: Ledger<u64> = Ledger::new();
    let mut i: usize = 0;
    let ghost all = texts(ls@);
    assert(out@ =~= read_open_counts(all.take(0)));
    while i < ls.len()
        invariant
            i <= ls@.len(),
            all == texts(ls@),
            out.wf(),
            out@ == read_open_counts(all.take(i as int)),
        decreases ls.len() - i,
    {
        assert(all.take(i + 1).drop_last() =~= all.take(i as int));
        assert(all.take(i + 1).last() == ls@[i as int]@);
        match opens_from(ls[i].as_str()) {
            Some(h) => {
                out.set(h.url, h.node, h.count);
            },
            None => {},
        }
        i += 1;
    }
    assert(all.take(i as int) =~= all);
    out
}

/// Whether a pair can stand in a row and be read back.
pub open spec fn is_clean_key(k: (Seq<char>, Seq<char>)) -> bool {
    !k.0.contains('\t') && !k.0.contains('\n') && !k.1.contains('\t') && !k.1.contains('\n')
}

proof fn lemma_decimal_is_field(n: nat)
    ensures
        !decimal(n).contains('\t'),
        !decimal(n).contains('\n'),
        decimal(n).len() > 0,
        decimal(n).last() != '\r',
{
    lemma_decimal_digits(n);
    let d = decimal(n);
    if d.contains('\t') {
        let i = choose|i: int| 0 <= i < d.len() && d[i] == '\t';
    }
    if d.contains('\n') {
        let i = choose|i: int| 0 <= i < d.len() && d[i] == '\n';
    }
    assert(d[d.len() - 1] != '\r');
}

/// The row of a rating is read back as that rating. The text may hold tabs.
pub proof fn lemma_rating_row_round_trip(k: (Seq<char>, Seq<char>), v: Vote)
    requires
        is_clean_key(k),
    ensures
        parse_rating(rating_row(k, v)) == Some((k, v)),
{
    reveal_strlit("\t");
    assert("\t"@ =~= seq!['\t']);
    let stars = decimal(v.stars as nat);
    let ts = decimal(v.ts as nat);
    lemma_decimal_is_field(v.stars as nat);
    lemma_decimal_is_field(v.ts as nat);
    lemma_decimal_round_trip(v.stars as nat);
    lemma_decimal_round_trip(v.ts as nat);
    lemma_splitn_none(k.0, '\t', 5);
    let s1 = k.0 + "\t"@ + k.1;
    lemma_splitn_push(k.0, '\t', 5, k.1);
    let s2 = s1 + "\t"@ + stars;
    lemma_splitn_push(s1, '\t', 5, stars);
    let s3 = s2 + "\t"@ + ts;
    lemma_splitn_push(s2, '\t', 5, ts);
    lemma_splitn_rest(s3, '\t', 5, v.text);
    assert(splitn(rating_row(k, v), '\t', 5) =~= seq![k.0, k.1, stars, ts, v.text]);
}

/// The row of a rating without a review is read back without its last tab, too.
pub proof fn lemma_rating_row_without_text(k: (Seq<char>, Seq<char>), v: Vote)
    requires
        is_clean_key(k),
        v.text.len() == 0,
    ensures
        parse_rating(
            k.0 + "\t"@ + k.1 + "\t"@ + decimal(v.stars as nat) + "\t"@ + decimal(v.ts as nat),
        ) == Some((k, v)),
{
    reveal_strlit("\t");
    assert("\t"@ =~= seq!['\t']);
    let stars = decimal(v.stars as nat);
    let ts = decimal(v.ts as nat);
    lemma_decimal_is_field(v.stars as nat);
    lemma_decimal_is_field(v.ts as nat);
    lemma_decimal_round_trip(v.stars as nat);
    lemma_decimal_round_trip(v.ts as nat);
    lemma_splitn_none(k.0, '\t', 5);
    let s1 = k.0 + "\t"@ + k.1;
    lemma_splitn_push(k.0, '\t', 5, k.1);
    let s2 = s1 + "\t"@ + stars;
    lemma_splitn_push(s1, '\t', 5, stars);
    lemma_splitn_push(s2, '\t', 5, ts);
    assert(splitn(s2 + "\t"@ + ts, '\t', 5) =~= seq![k.0, k.1, stars, ts]);
    assert(v.text =~= Seq::<char>::empty());
}

/// The pieces of the row of an open count.
pub proof fn lemma_opens_row_pieces(k: (Seq<char>, Seq<char>), n: u64)
    requires
        is_clean_key(k),
    ensures
        splitn(opens_row(k, n), '\t', 3) == seq![k.0, k.1, decimal(n as nat)],
{
    reveal_strlit("\t");
    assert("\t"@ =~= seq!['\t']);
    lemma_decimal_is_field(n as nat);
    lemma_splitn_none(k.0, '\t', 3);
    lemma_splitn_push(k.0, '\t', 3, k.1);
    lemma_splitn_push(k.0 + "\t"@ + k.1, '\t', 3, decimal(n as nat));
    assert(splitn(opens_row(k, n), '\t', 3) =~= seq![k.0, k.1, decimal(n as nat)]);
}

/// The row of an open count is read back as that count.
pub proof fn lemma_opens_row_round_trip(k: (Seq<char>, Seq<char>), n: u64)
    requires
        is_clean_key(k),
    ensures
        parse_opens(opens_row(k, n)) == Some((k, n)),
{
    reveal_strlit("\t");
    assert("\t"@ =~= seq!['\t']);
    let d = decimal(n as nat);
    lemma_decimal_is_field(n as nat);
    lemma_decimal_round_trip(n as nat);
    lemma_splitn_none(k.0, '\t', 3);
    lemma_splitn_push(k.0, '\t', 3, k.1);
    lemma_splitn_push(k.0 + "\t"@ + k.1, '\t', 3, d);
    assert(splitn(opens_row(k, n), '\t', 3) =~= seq![k.0, k.1, d]);
}

/// Whether every rating can stand in the file and be read back.
pub open spec fn votes_storable(rows: Seq<Row<Rating>>) -> bool {
    forall|i: int|
        0 <= i < rows.len() ==> is_clean_key(row_key(#[trigger] rows[i])) && is_line(
            rows[i].value.text@,
        )
}

/// Whether every open count can stand in the file and be read back.
pub open spec fn opens_storable(rows: Seq<Row<u64>>) -> bool {
    forall|i: int| 0 <= i < rows.len() ==> is_clean_key(row_key(#[trigger] rows[i]))
}

proof fn lemma_read_votes(rows: Seq<Row<Rating>>)
    requires
        votes_storable(rows),
    ensures
        read_votes(rating_rows(rows)) == rows_map(rows),
    decreases rows.len(),
{
    if rows.len() > 0 {
        let d = rows.drop_last();
        assert forall|i: int| 0 <= i < d.len() implies is_clean_key(row_key(#[trigger] d[i]))
            && is_line(d[i].value.text@) by {
            assert(d[i] == rows[i]);
        }
        lemma_read_votes(d);
        assert(rating_rows(rows).drop_last() =~= rating_rows(d));
        assert(is_clean_key(row_key(rows[rows.len() - 1])));
        lemma_rating_row_round_trip(row_key(rows.last()), rows.last().value@);
    } else {
        assert(read_votes(rating_rows(rows)) =~= rows_map(rows));
    }
}

proof fn lemma_read_open_counts(rows: Seq<Row<u64>>)
    requires
        opens_storable(rows),
    ensures
        read_open_counts(opens_rows(rows)) == rows_map(rows),
    decreases rows.len(),
{
    if rows.len() > 0 {
        let d = rows.drop_last();
        assert forall|i: int| 0 <= i < d.len() implies is_clean_key(row_key(#[trigger] d[i])) by {
            assert(d[i] == rows[i]);
        }
        lemma_read_open_counts(d);
        assert(opens_rows(rows).drop_last() =~= opens_rows(d));
        assert(is_clean_key(row_key(rows[rows.len() - 1])));
        lemma_opens_row_round_trip(row_key(rows.last()), rows.last().value);
    } else {
        assert(read_open_counts(opens_rows(rows)) =~= rows_map(rows));
    }
}

/// Ratings that are written to their file are read back as they were.
pub proof fn lemma_ratings_file_round_trip(rows: Seq<Row<Rating>>)
    requires
        votes_storable(rows),
    ensures
        read_votes(lines(rows_text(rating_rows(rows)))) == rows_map(rows),
{
    reveal_strlit("\t");
    assert forall|i: int| 0 <= i < rating_rows(rows).len() implies is_line(
        #[trigger] rating_rows(rows)[i],
    ) by {
        let k = row_key(rows[i]);
        let v = rows[i].value@;
        assert(is_clean_key(k) && is_line(v.text));
        let t = "\t"@;
        assert(t =~= seq!['\t']);
        assert(!t.contains('\n'));
        lemma_decimal_is_field(v.stars as nat);
        lemma_decimal_is_field(v.ts as nat);
        let stars = decimal(v.stars as nat);
        let ts = decimal(v.ts as nat);
        lemma_absent_in_sum(k.0, t, '\n');
        lemma_absent_in_sum(k.0 + t, k.1, '\n');
        lemma_absent_in_sum(k.0 + t + k.1, t, '\n');
        lemma_absent_in_sum(k.0 + t + k.1 + t, stars, '\n');
        lemma_absent_in_sum(k.0 + t + k.1 + t + stars, t, '\n');
        lemma_absent_in_sum(k.0 + t + k.1 + t + stars + t, ts, '\n');
        lemma_absent_in_sum(k.0 + t + k.1 + t + stars + t + ts, t, '\n');
        lemma_absent_in_sum(k.0 + t + k.1 + t + stars + t + ts + t, v.text, '\n');
        let row = rating_row(k, v);
        if v.text.len() > 0 {
            assert(row.last() == v.text.last());
        } else {
            assert(row.last() == '\t');
        }
    }
    lemma_rows_round_trip(rating_rows(rows));
    lemma_read_votes(rows);
}

/// Open counts that are written to their file are read back as they were.
pub proof fn lemma_opens_file_round_trip(rows: Seq<Row<u64>>)
    requires
        opens_storable(rows),
    ensures
        read_open_counts(lines(rows_text(opens_rows(rows)))) == rows_map(rows),
{
    reveal_strlit("\t");
    assert forall|i: int| 0 <= i < opens_rows(rows).len() implies is_line(
        #[trigger] opens_rows(rows)[i],
    ) by {
        let k = row_key(rows[i]);
        assert(is_clean_key(k));
        let t = "\t"@;
        assert(t =~= seq!['\t']);
        assert(!t.contains('\n'));
        let d = decimal(rows[i].value as nat);
        lemma_decimal_is_field(rows[i].value as nat);
        lemma_absent_in_sum(k.0, t, '\n');
        lemma_absent_in_sum(k.0 + t, k.1, '\n');
        lemma_absent_in_sum(k.0 + t + k.1, t, '\n');
        lemma_absent_in_sum(k.0 + t + k.1 + t, d, '\n');
        assert(opens_row(k, rows[i].value).last() == d.last());
    }
    lemma_rows_round_trip(opens_rows(rows));
    lemma_read_open_counts(rows);
}

// ── What totals and rows tell ────────────────────────────────────────────────

/// A row counts for the app that it names, and for no other: its stars, one vote, its opens
/// and, where it is written, its review.
pub proof fn lemma_row_counts_for_its_app(r: Row<Rating>, o: Row<u64>, url: Seq<char>)
    ensures
        star_total(seq![r], url) == if r.app@ == url {
            r.value.stars as nat
        } else {
            0
        },
        vote_total(seq![r], url) == if r.app@ == url {
            1nat
        } else {
            0
        },
        open_total(seq![o], url) == if o.app@ == url {
            o.value as nat
        } else {
            0
        },
        reviews(seq![r], url) == if r.app@ == url && r.value.text@.len() > 0 {
            seq![r.value@]
        } else {
            Seq::empty()
        },
{
    assert(seq![r].drop_last() =~= Seq::<Row<Rating>>::empty());
    assert(seq![o].drop_last() =~= Seq::<Row<u64>>::empty());
    assert(star_total(Seq::<Row<Rating>>::empty(), url) == 0);
    assert(vote_total(Seq::<Row<Rating>>::empty(), url) == 0);
    assert(open_total(Seq::<Row<u64>>::empty(), url) == 0);
    assert(reviews(Seq::<Row<Rating>>::empty(), url) =~= Seq::empty());
    assert(Seq::<Vote>::empty().push(r.value@) =~= seq![r.value@]);
}

/// The totals of two lists of ratings add up, and their reviews stand one after the other.
pub proof fn lemma_rating_totals_add(a: Seq<Row<Rating>>, b: Seq<Row<Rating>>, url: Seq<char>)
    ensures
        star_total(a + b, url) == star_total(a, url) + star_total(b, url),
        vote_total(a + b, url) == vote_total(a, url) + vote_total(b, url),
        reviews(a + b, url) == reviews(a, url) + reviews(b, url),
    decreases b.len(),
{
    if b.len() == 0 {
        assert(a + b =~= a);
        assert(reviews(a, url) + reviews(b, url) =~= reviews(a, url));
    } else {
        assert((a + b).drop_last() =~= a + b.drop_last());
        lemma_rating_totals_add(a, b.drop_last(), url);
        assert(reviews(a + b, url) =~= reviews(a, url) + reviews(b, url));
    }
}

/// The totals of two lists of open counts add up.
pub proof fn lemma_open_totals_add(a: Seq<Row<u64>>, b: Seq<Row<u64>>, url: Seq<char>)
    ensures
        open_total(a + b, url) == open_total(a, url) + open_total(b, url),
    decreases b.len(),
{
    if b.len() == 0 {
        assert(a + b =~= a);
    } else {
        assert((a + b).drop_last() =~= a + b.drop_last());
        lemma_open_totals_add(a, b.drop_last(), url);
    }
}

/// The average of valid stars lies between one and five.
pub proof fn lemma_average_is_in_range(rows: Seq<Row<Rating>>, url: Seq<char>)
    requires
        forall|i: int| 0 <= i < rows.len() ==> 1 <= (#[trigger] rows[i]).value.stars <= 5,
    ensures
        vote_total(rows, url) <= star_total(rows, url) <= 5 * vote_total(rows, url),
        vote_total(rows, url) <= rows.len(),
    decreases rows.len(),
{
    if rows.len() > 0 {
        let d = rows.drop_last();
        assert forall|i: int| 0 <= i < d.len() implies 1 <= (#[trigger] d[i]).value.stars <= 5 by {
            assert(d[i] == rows[i]);
        }
        lemma_average_is_in_range(d, url);
        assert(rows[rows.len() - 1] == rows.last());
    }
}

/// A later rating takes the place of an earlier one, and an earlier one does not come back;
/// of the same instant, more stars win. Stars that are none to five change nothing.
pub proof fn lemma_later_rating_wins(m: VoteMap, k: (Seq<char>, Seq<char>), v: Vote)
    ensures
        !(1 <= v.stars <= 5) ==> vote_merged(m, k, v) == m,
        1 <= v.stars <= 5 && !m.contains_key(k) ==> vote_merged(m, k, v) == m.insert(k, v),
        m.contains_key(k) && 1 <= v.stars <= 5 && (v.ts > m[k].ts || v.ts == m[k].ts && v.stars
            > m[k].stars) ==> vote_merged(m, k, v) == m.insert(k, v),
        m.contains_key(k) && (v.ts < m[k].ts || v.ts == m[k].ts && v.stars < m[k].stars)
            ==> vote_merged(m, k, v) == m,
        m.contains_key(k) && v == m[k] ==> vote_merged(m, k, v) == m,
        m.contains_key(k) && 1 <= v.stars <= 5 && v.ts == m[k].ts && v.stars == m[k].stars
            && text_before(m[k].text, v.text) ==> vote_merged(m, k, v) == m.insert(k, v),
{
    lemma_text_before_total(v.text, v.text);
}

/// The row of a rating is the app, the voter, the stars, the time and the review, in this
/// order and divided by tabs.
pub proof fn lemma_rating_row_pieces(k: (Seq<char>, Seq<char>), v: Vote)
    requires
        is_clean_key(k),
    ensures
        splitn(rating_row(k, v), '\t', 5) == seq![
            k.0,
            k.1,
            decimal(v.stars as nat),
            decimal(v.ts as nat),
            v.text,
        ],
{
    reveal_strlit("\t");
    assert("\t"@ =~= seq!['\t']);
    let s = decimal(v.stars as nat);
    let t = decimal(v.ts as nat);
    lemma_decimal_is_field(v.stars as nat);
    lemma_decimal_is_field(v.ts as nat);
    lemma_splitn_none(k.0, '\t', 5);
    lemma_splitn_push(k.0, '\t', 5, k.1);
    lemma_splitn_push(k.0 + "\t"@ + k.1, '\t', 5, s);
    lemma_splitn_push(k.0 + "\t"@ + k.1 + "\t"@ + s, '\t', 5, t);
    lemma_splitn_rest(k.0 + "\t"@ + k.1 + "\t"@ + s + "\t"@ + t, '\t', 5, v.text);
    assert(splitn(rating_row(k, v), '\t', 5) =~= seq![k.0, k.1, s, t, v.text]);
}

/// The row of a review is the stars, the time and the text, in this order and divided by
/// tabs.
pub proof fn lemma_review_row_pieces(v: Vote)
    ensures
        splitn(review_row(v), '\t', 3) == seq![
            decimal(v.stars as nat),
            decimal(v.ts as nat),
            v.text,
        ],
{
    reveal_strlit("\t");
    assert("\t"@ =~= seq!['\t']);
    let s = decimal(v.stars as nat);
    let t = decimal(v.ts as nat);
    lemma_decimal_is_field(v.stars as nat);
    lemma_decimal_is_field(v.ts as nat);
    lemma_splitn_none(s, '\t', 3);
    lemma_splitn_push(s, '\t', 3, t);
    lemma_splitn_rest(s + "\t"@ + t, '\t', 3, v.text);
    assert(splitn(review_row(v), '\t', 3) =~= seq![s, t, v.text]);
}

/// Whether a text lists votes by their positions, one row each.
pub open spec fn lists_reviews(vs: Seq<Vote>, order: Seq<usize>, r: Seq<char>) -> bool {
    r == joined(Seq::new(order.len(), |i: int| review_row(vs[order[i] as int])), "\n"@)
}

/// The written reviews of an app are listed once each, the newest first.
pub proof fn lemma_newest_review_comes_first(
    rows: Seq<Row<Rating>>,
    url: Seq<char>,
    r: Seq<char>,
)
    requires
        reviews_text(rows, url, r),
    ensures
        exists|order: Seq<usize>| #[trigger]
            lists_reviews(reviews(rows, url), order, r) && order.len() == reviews(rows, url).len()
                && (forall|a: int, b: int|
                0 <= a < b < order.len() ==> #[trigger] order[a] != #[trigger] order[b] && reviews(
                    rows,
                    url,
                )[order[a] as int].ts >= reviews(rows, url)[order[b] as int].ts),
{
    let vs = reviews(rows, url);
    let n = vs.len() as int;
    let p = choose|p: Seq<usize>|
        #![trigger is_ordering(vote_times(vs), no_names(vs.len()), p, n)]
        is_ordering(vote_times(vs), no_names(vs.len()), p, n) && r == joined(
            Seq::new(p.len(), |i: int| review_row(vs[p[i] as int])),
            "\n"@,
        );
    assert(lists_reviews(vs, p, r));
    assert forall|a: int, b: int| 0 <= a < b < p.len() implies #[trigger] p[a] != #[trigger] p[b]
        && vs[p[a] as int].ts >= vs[p[b] as int].ts by {
        assert(goes_before(vote_times(vs), no_names(vs.len()), p[a] as int, p[b] as int));
        assert(no_names(vs.len())[p[a] as int] =~= no_names(vs.len())[p[b] as int]);
        assert(vote_times(vs)[p[a] as int] == vs[p[a] as int].ts);
        assert(vote_times(vs)[p[b] as int] == vs[p[b] as int].ts);
    }
}

} // verus!

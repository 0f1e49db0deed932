//! What peers tell each other, and how a node reacts.
use vstd::prelude::*;
use vstd::string::StringExecFns;
use crate::entry::{entries, is_wire_clean, parse_wire, wire, App, Entry};
use crate::entry::{lemma_wire_round_trip, lemma_wire_without_trailing_space};
use crate::names::{add_name, distinct, has_name, names_without, remove_name, with_name, without_name};
use crate::names::{lemma_with_name, lemma_without_name};
use crate::numerals::{decimal, is_digit, number, parse_u64};
use crate::numerals::{lemma_decimal_digits, lemma_decimal_round_trip};
use crate::ratings::{
    is_clean_key, merge_opens, merge_rating, opens_are_news, opens_merged, opens_row, parse_rating,
    rating_from, rating_row, vote_is_news, vote_merged, HeardOpens, HeardRating, Vote,
};
use crate::ratings::{
    lemma_opens_merge_settles, lemma_opens_row_pieces, lemma_opens_row_round_trip,
    lemma_rating_row_round_trip, lemma_rating_row_without_text, lemma_vote_merge_settles,
};
use crate::registry::{
    announce, announcement, clean_files, has_url, is_news, opens_message, published, rate_message,
    received, revoke_line, revoke_message, url_index, urls_distinct,
    without_url, Dirty, Registry, State,
};
use crate::registry::{
    lemma_published_entry_is_listed,
    lemma_receive_is_news_if_it_changes, lemma_receive_keeps_urls_distinct, lemma_receive_settles,
    lemma_receive_takes_what_was_told, lemma_url_index,
};
use crate::text::{
    begins_with, is_space, is_trimmed, same, split_str_n, splitn, strip_prefix, texts, trim, trim_end,
    trimmed,
};
use crate::text::{lemma_trim_end_behind, lemma_trim_end_leaves, lemma_trim_fixed};
use crate::vectors::lacks_vector;

verus! {

/// What a peer said.
pub enum Message {
    /// Its own address.
    Hello(String),
    /// An app.
    Announce(App),
    /// A rating.
    Rate(HeardRating),
    /// An open count.
    Opens(HeardOpens),
    /// That an app is gone.
    Revoke(String),
    /// The address of another peer.
    Discover(String),
    /// Nothing that is understood.
    Nothing,
}

/// The content of a [`Message`].
pub enum Said {
    Hello(Seq<char>),
    Announce(Entry),
    Rate((Seq<char>, Seq<char>), Vote),
    Opens((Seq<char>, Seq<char>), u64),
    Revoke(Seq<char>),
    Discover(Seq<char>),
    Nothing,
}

impl View for Message {
    type V = Said;

    open spec fn view(&self) -> Said {
        match self {
            Message::Hello(u) => Said::Hello(u@),
            Message::Announce(a) => Said::Announce(a@),
            Message::Rate(h) => Said::Rate((h.url@, h.voter@), h.rating@),
            Message::Opens(h) => Said::Opens((h.url@, h.node@), h.count),
            Message::Revoke(u) => Said::Revoke(u@),
            Message::Discover(u) => Said::Discover(u@),
            Message::Nothing => Said::Nothing,
        }
    }
}

/// What follows a word and a space.
pub open spec fn after(t: Seq<char>, word: Seq<char>) -> Seq<char> {
    t.skip(word.len() as int)
}

/// What a message says of an open count; white space round the count is allowed.
pub open spec fn said_opens(rest: Seq<char>) -> Said {
    let p = splitn(rest, '\t', 3);
    if p.len() < 3 {
        Said::Nothing
    } else {
        let n = number(trimmed(p[2]));
        if n is None || n->0 > u64::MAX {
            Said::Nothing
        } else {
            Said::Opens((p[0], p[1]), n->0 as u64)
        }
    }
}

/// What a message without outer white space says.
pub open spec fn said(t: Seq<char>) -> Said {
    if begins_with(t, "HELLO "@) {
        let u = trimmed(after(t, "HELLO "@));
        if u.len() == 0 {
            Said::Nothing
        } else {
            Said::Hello(u)
        }
    } else if begins_with(t, "ANNOUNCE "@) {
        match parse_wire(after(t, "ANNOUNCE "@)) {
            Some(e) => Said::Announce(e),
            None => Said::Nothing,
        }
    } else if begins_with(t, "RATE "@) {
        match parse_rating(after(t, "RATE "@)) {
            Some(h) => Said::Rate(h.0, h.1),
            None => Said::Nothing,
        }
    } else if begins_with(t, "OPENS "@) {
        said_opens(after(t, "OPENS "@))
    } else if begins_with(t, "REVOKE "@) {
        Said::Revoke(trimmed(after(t, "REVOKE "@)))
    } else if begins_with(t, "DISCOVER "@) {
        let u = trimmed(after(t, "DISCOVER "@));
        if u.len() == 0 {
            Said::Nothing
        } else {
            Said::Discover(u)
        }
    } else {
        Said::Nothing
    }
}

fn read_opens_message(rest: &str) -> (m: Message)
    ensures
        m@ == said_opens(rest@),
{
    let p = split_str_n(rest, '\t', 3);
    let ghost t = texts(p@);
    if p.len() < 3 {
        return Message::Nothing;
    }
    assert(t[0] == p@[0]@ && t[1] == p@[1]@ && t[2] == p@[2]@);
    match parse_u64(trim(p[2].as_str()).as_str()) {
        Some(count) => Message::Opens(
            HeardOpens { url: p[0].clone(), node: p[1].clone(), count },
        ),
        None => Message::Nothing,
    }
}

/// Reads a message without outer white space.
pub fn read_message(t: &str) -> (m: Message)
    ensures
        m@ == said(t@),
{
    if let Some(rest) = strip_prefix(t, "HELLO ") {
        let u = trim(rest.as_str());
        if u.as_str().is_empty() {
            return Message::Nothing;
        }
        return Message::Hello(u);
    }
    if let Some(rest) = strip_prefix(t, "ANNOUNCE ") {
        return match App::from_wire(rest.as_str()) {
            Some(a) => Message::Announce(a),
            None => Message::Nothing,
        };
    }
    if let Some(rest) = strip_prefix(t, "RATE ") {
        return match rating_from(rest.as_str()) {
            Some(h) => Message::Rate(h),
            None => Message::Nothing,
        };
    }
    if let Some(rest) = strip_prefix(t, "OPENS ") {
        return read_opens_message(rest.as_str());
    }
    if let Some(rest) = strip_prefix(t, "REVOKE ") {
        return Message::Revoke(trim(rest.as_str()));
    }
    if let Some(rest) = strip_prefix(t, "DISCOVER ") {
        let u = trim(rest.as_str());
        if u.as_str().is_empty() {
            return Message::Nothing;
        }
        return Message::Discover(u);
    }
    Message::Nothing
}

/// A node: what it keeps, and the peers it is connected to.
pub struct Node {
    pub registry: Registry,
    pub active: Vec<String>,
}

/// The content of a [`Node`].
#[verifier::ext_equal]
pub struct NodeState {
    pub registry: State,
    pub active: Seq<Seq<char>>,
}

impl View for Node {
    type V = NodeState;

    open spec fn view(&self) -> NodeState {
        NodeState { registry: self.registry@, active: texts(self.active@) }
    }
}

impl Node {
    /// Whether nothing is kept twice.
    pub open spec fn wf(self) -> bool {
        self.registry.wf() && distinct(texts(self.active@))
    }
}

/// What a node does about a message.
pub struct Reaction {
    /// The name under which this connection is now known.
    pub joined: Option<String>,
    /// What to answer on this connection.
    pub replies: Vec<String>,
    /// What to tell every other peer.
    pub broadcast: Option<String>,
    /// A peer to connect to.
    pub connect: Option<String>,
    /// An address to look at: whether it still answers.
    pub probe: Option<String>,
    pub dirty: Dirty,
}

/// The content of a [`Reaction`].
#[verifier::ext_equal]
pub struct Effect {
    pub joined: Option<Seq<char>>,
    pub replies: Seq<Seq<char>>,
    pub broadcast: Option<Seq<char>>,
    pub connect: Option<Seq<char>>,
    pub probe: Option<Seq<char>>,
    pub dirty: Dirty,
}

/// The view of an optional string.
pub open spec fn seen(s: Option<String>) -> Option<Seq<char>> {
    match s {
        Some(s) => Some(s@),
        None => None,
    }
}

impl View for Reaction {
    type V = Effect;

    open spec fn view(&self) -> Effect {
        Effect {
            joined: seen(self.joined),
            replies: texts(self.replies@),
            broadcast: seen(self.broadcast),
            connect: seen(self.connect),
            probe: seen(self.probe),
            dirty: self.dirty,
        }
    }
}

/// Nothing is done.
pub open spec fn no_effect() -> Effect {
    Effect {
        joined: None,
        replies: Seq::empty(),
        broadcast: None,
        connect: None,
        probe: None,
        dirty: clean_files(),
    }
}

fn no_reaction() -> (r: Reaction)
    ensures
        r@ == no_effect(),
{
    let r = Reaction {
        joined: None,
        replies: Vec::new(),
        broadcast: None,
        connect: None,
        probe: None,
        dirty: Dirty { approved: false, mine: false, peers: false, ratings: false, opens: false },
    };
    assert(r@ =~= no_effect());
    r
}

/// The message that tells a peer of another one.
pub open spec fn discovery(url: Seq<char>) -> Seq<char> {
    "DISCOVER "@ + url
}

/// What a peer is told when it says hello: every app, and every other peer.
pub open spec fn sync_messages(apps: Seq<Entry>, others: Seq<Seq<char>>) -> Seq<Seq<char>> {
    Seq::new(apps.len(), |i: int| announcement(apps[i])) + Seq::new(
        others.len(),
        |i: int| discovery(others[i]),
    )
}

/// What a node keeps after a message, and what it does. `t` is the message as it came.
pub open spec fn reacted(n: NodeState, m: Said, t: Seq<char>) -> (NodeState, Effect) {
    let s = n.registry;
    match m {
        Said::Hello(u) => {
            let peers = with_name(s.peers, u);
            (
                NodeState { registry: State { peers, ..s }, active: with_name(n.active, u) },
                Effect {
                    joined: Some(u),
                    replies: sync_messages(s.approved, without_name(peers, u)),
                    dirty: Dirty { peers: true, ..clean_files() },
                    ..no_effect()
                },
            )
        },
        Said::Announce(e) => {
            let after = NodeState {
                registry: State { approved: received(s.approved, e), ..s },
                ..n
            };
            if is_news(s.approved, e) {
                (
                    after,
                    Effect {
                        broadcast: Some(announcement(e)),
                        dirty: Dirty { approved: true, ..clean_files() },
                        ..no_effect()
                    },
                )
            } else {
                (after, no_effect())
            }
        },
        Said::Rate(k, v) => {
            let after = NodeState {
                registry: State { ratings: vote_merged(s.ratings, k, v), ..s },
                ..n
            };
            if vote_is_news(s.ratings, k, v) {
                (
                    after,
                    Effect {
                        broadcast: Some(t),
                        dirty: Dirty { ratings: true, ..clean_files() },
                        ..no_effect()
                    },
                )
            } else {
                (after, no_effect())
            }
        },
        Said::Opens(k, c) => {
            let after = NodeState {
                registry: State { opens: opens_merged(s.opens, k, c), ..s },
                ..n
            };
            if opens_are_news(s.opens, k, c) {
                (
                    after,
                    Effect {
                        broadcast: Some(t),
                        dirty: Dirty { opens: true, ..clean_files() },
                        ..no_effect()
                    },
                )
            } else {
                (after, no_effect())
            }
        },
        Said::Revoke(u) => if has_url(s.approved, u) {
            (n, Effect { probe: Some(u), ..no_effect() })
        } else {
            (n, no_effect())
        },
        Said::Discover(u) => if s.peers.contains(u) || n.active.contains(u) || u == s.self_url {
            (n, no_effect())
        } else {
            (
                NodeState { registry: State { peers: s.peers.push(u), ..s }, ..n },
                Effect {
                    connect: Some(u),
                    dirty: Dirty { peers: true, ..clean_files() },
                    ..no_effect()
                },
            )
        },
        Said::Nothing => (n, no_effect()),
    }
}

/// The first thing said on a connection.
pub fn greeting(self_url: &str) -> (r: String)
    ensures
        r@ == "HELLO "@ + self_url@,
{
    let mut s = "HELLO ".to_owned();
    s.append(self_url);
    s
}

fn sync_list(apps: &Vec<App>, others: &Vec<String>) -> (r: Vec<String>)
    ensures
        texts(r@) == sync_messages(entries(apps@), texts(others@)),
{
    let ghost all = sync_messages(entries(apps@), texts(others@));
    let mut out: Vec<String> = Vec::new();
    let mut i: usize = 0;
    assert(texts(out@) =~= all.take(0));
    while i < apps.len()
        invariant
            i <= apps@.len(),
            all == sync_messages(entries(apps@), texts(others@)),
            texts(out@) == all.take(i as int),
        decreases apps.len() - i,
    {
        let ghost before = texts(out@);
        let m = announce(&apps[i]);
        out.push(m);
        assert(texts(out@) =~= before.push(m@));
        i += 1;
        assert(texts(out@) =~= all.take(i as int));
    }
    let mut k: usize = 0;
    while k < others.len()
        invariant
            k <= others@.len(),
            all == sync_messages(entries(apps@), texts(others@)),
            texts(out@) == all.take(apps@.len() + k),
        decreases others.len() - k,
    {
        let ghost before = texts(out@);
        let mut m = "DISCOVER ".to_owned();
        m.append(others[k].as_str());
        out.push(m);
        assert(texts(out@) =~= before.push(m@));
        assert(m@ == discovery(texts(others@)[k as int]));
        k += 1;
        assert(texts(out@) =~= all.take(apps@.len() + k));
    }
    assert(texts(out@) =~= all);
    out
}

impl Node {
    /// Reacts to what a peer said. The message comes without outer white space.
    pub fn react(&mut self, m: Message, t: &str) -> (r: Reaction)
        requires
            old(self).wf(),
        ensures
            final(self).wf(),
            (final(self)@, r@) == reacted(old(self)@, m@, t@),
    {
        let ghost before = self@;
        let ghost want = reacted(before, m@, t@);
        let mut r = no_reaction();
        match m {
            Message::Hello(u) => {
                proof {
                    lemma_with_name(texts(self.active@), u@);
                    lemma_with_name(texts(self.registry.peers@), u@);
                }
                let _ = add_name(&mut self.active, u.clone());
                let _ = add_name(&mut self.registry.peers, u.clone());
                let others = names_without(&self.registry.peers, u.as_str());
                r.replies = sync_list(&self.registry.approved, &others);
                r.joined = Some(u);
                r.dirty.peers = true;
                assert(self@ =~= want.0);
                assert(r@ =~= want.1);
            },
            Message::Announce(a) => {
                if self.registry.receive(&a) {
                    r.broadcast = Some(announce(&a));
                    r.dirty.approved = true;
                }
                assert(self@ =~= want.0);
                assert(r@ =~= want.1);
            },
            Message::Rate(h) => {
                if merge_rating(
                    &mut self.registry.ratings,
                    h.url.as_str(),
                    h.voter.as_str(),
                    h.rating,
                ) {
                    r.broadcast = Some(t.to_owned());
                    r.dirty.ratings = true;
                }
                assert(self@ =~= want.0);
                assert(r@ =~= want.1);
            },
            Message::Opens(h) => {
                if merge_opens(
                    &mut self.registry.opens,
                    h.url.as_str(),
                    h.node.as_str(),
                    h.count,
                ) {
                    r.broadcast = Some(t.to_owned());
                    r.dirty.opens = true;
                }
                assert(self@ =~= want.0);
                assert(r@ =~= want.1);
            },
            Message::Revoke(u) => {
                if self.registry.has_approved(u.as_str()) {
                    r.probe = Some(u);
                }
                assert(r@ =~= want.1);
            },
            Message::Discover(u) => {
                if !has_name(&self.registry.peers, u.as_str()) && !has_name(
                    &self.active,
                    u.as_str(),
                ) && !same(u.as_str(), self.registry.self_url.as_str()) {
                    proof {
                        lemma_with_name(texts(self.registry.peers@), u@);
                    }
                    let _ = add_name(&mut self.registry.peers, u.clone());
                    r.connect = Some(u);
                    r.dirty.peers = true;
                }
                assert(self@ =~= want.0);
                assert(r@ =~= want.1);
            },
            Message::Nothing => {},
        }
        r
    }

    /// Reacts to a message as it came.
    pub fn hear(&mut self, text: &str) -> (r: Reaction)
        requires
            old(self).wf(),
        ensures
            final(self).wf(),
            (final(self)@, r@) == reacted(old(self)@, said(trimmed(text@)), trimmed(text@)),
    {
        let t = trim(text);
        let m = read_message(t.as_str());
        self.react(m, t.as_str())
    }

    /// Goes on with a request to remove an app, once it is known whether its address
    /// still answers. Only an app that does not answer is removed, and only then are
    /// others told.
    pub fn probed(&mut self, url: &str, alive: bool) -> (r: Reaction)
        requires
            old(self).wf(),
        ensures
            final(self).wf(),
            alive ==> final(self)@ == old(self)@ && r@ == no_effect(),
            !alive ==> final(self)@ == (NodeState {
                registry: State {
                    approved: without_url(old(self)@.registry.approved, url@),
                    ..old(self)@.registry
                },
                ..old(self)@
            }) && r@ == (Effect {
                broadcast: Some(revoke_message(url@)),
                dirty: Dirty { approved: true, ..clean_files() },
                ..no_effect()
            }),
    {
        let ghost before = self@;
        let mut r = no_reaction();
        if alive {
            return r;
        }
        self.registry.forget(url);
        r.broadcast = Some(revoke_line(url));
        r.dirty.approved = true;
        assert(self@ =~= NodeState {
            registry: State { approved: without_url(before.registry.approved, url@), ..before.registry },
            ..before
        });
        assert(r@ =~= Effect {
            broadcast: Some(revoke_message(url@)),
            dirty: Dirty { approved: true, ..clean_files() },
            ..no_effect()
        });
        r
    }

    /// Takes note that a connection ended.
    pub fn left(&mut self, url: &str)
        requires
            old(self).wf(),
        ensures
            final(self).wf(),
            final(self)@ == (NodeState {
                active: without_name(old(self)@.active, url@),
                ..old(self)@
            }),
    {
        let ghost before = self@;
        proof {
            lemma_without_name(texts(self.active@), url@);
        }
        remove_name(&mut self.active, url);
        assert(self@ =~= NodeState { active: without_name(before.active, url@), ..before });
    }

    /// The peers that hear a broadcast: all that are connected, but for the one it
    /// came from.
    pub fn recipients(&self, skip: &Option<String>) -> (r: Vec<String>)
        ensures
            texts(r@) == match skip {
                Some(s) => without_name(self@.active, s@),
                None => self@.active,
            },
    {
        match skip {
            Some(s) => names_without(&self.active, s.as_str()),
            None => {
                let mut out: Vec<String> = Vec::new();
                let mut i: usize = 0;
                while i < self.active.len()
                    invariant
                        i <= self.active@.len(),
                        texts(out@) == texts(self.active@).take(i as int),
                    decreases self.active.len() - i,
                {
                    let ghost before = texts(out@);
                    let s = self.active[i].clone();
                    out.push(s);
                    assert(texts(out@) =~= before.push(s@));
                    i += 1;
                    assert(texts(out@) =~= texts(self.active@).take(i as int));
                }
                assert(texts(out@) =~= texts(self.active@));
                out
            },
        }
    }
}

// ── What is sent is what is understood ───────────────────────────────────────

proof fn lemma_word_then_rest(word: Seq<char>, rest: Seq<char>)
    requires
        word.len() > 0,
        !is_space(word[0]),
        trim_end(rest).len() > 0,
    ensures
        trimmed(word + rest) == word + trim_end(rest),
        begins_with(trimmed(word + rest), word),
        after(trimmed(word + rest), word) == trim_end(rest),
{
    lemma_trim_end_behind(word, rest);
    let t = word + trim_end(rest);
    assert(t[0] == word[0]);
    assert(trimmed(word + rest) == t);
    assert(t.take(word.len() as int) =~= word);
    assert(t.skip(word.len() as int) =~= trim_end(rest));
}

/// A peer understands the announcement of an app as that app, with its vectors.
pub proof fn lemma_announcement_is_understood(e: Entry)
    requires
        is_wire_clean(e),
    ensures
        said(trimmed(announcement(e))) == Said::Announce(e),
{
    reveal_strlit("ANNOUNCE ");
    reveal_strlit("HELLO ");
    let w = wire(e);
    assert(w[0] == e.name[0]);
    lemma_trim_end_leaves(w, 0);
    lemma_word_then_rest("ANNOUNCE "@, w);
    let t = trimmed(announcement(e));
    assert(t[0] == 'A');
    lemma_wire_without_trailing_space(w);
    lemma_wire_round_trip(e);
}

/// An app that one node publishes is known to every node that hears of it.
pub proof fn lemma_published_app_reaches_a_peer(s: State, app: Entry, n: NodeState)
    requires
        published(s, app).announced is Some,
        is_wire_clean(published(s, app).announced->0),
    ensures
        ({
            let t = trimmed(announcement(published(s, app).announced->0));
            has_url(reacted(n, said(t), t).0.registry.approved, app.url)
        }),
{
    let e = published(s, app).announced->0;
    lemma_announcement_is_understood(e);
    lemma_url_index(s.approved, app.url);
    lemma_url_index(n.registry.approved, e.url);
    lemma_url_index(received(n.registry.approved, e), e.url);
    let apps = n.registry.approved;
    let after = received(apps, e);
    match url_index(apps, e.url) {
        Some(i) => {
            assert(after[i].url == e.url);
        },
        None => {
            assert(after[apps.len() as int].url == e.url);
        },
    }
}

/// A node that hears the announcement of an app takes up what is new in it: afterwards it
/// lists the app with the announced preview and content vector, if any came, and it tells
/// its other peers exactly if its listing changed.
pub proof fn lemma_announced_app_is_taken_up(n: NodeState, e: Entry, i: int)
    requires
        is_wire_clean(e),
        urls_distinct(n.registry.approved),
        ({
            let t = trimmed(announcement(e));
            let after = reacted(n, said(t), t).0.registry.approved;
            0 <= i < after.len() && after[i].url == e.url
        }),
    ensures
        ({
            let t = trimmed(announcement(e));
            let before = n.registry.approved;
            let after = reacted(n, said(t), t).0.registry.approved;
            let does = reacted(n, said(t), t).1;
            &&& e.doc_snippet.len() > 0 ==> after[i].doc_snippet == e.doc_snippet
            &&& e.doc_vec.len() > 0 ==> after[i].doc_vec == e.doc_vec
            &&& !has_url(before, e.url) ==> after[i] == e
            &&& has_url(before, e.url) && e.vec.len() > 0 && lacks_vector(before[i].vec)
                ==> after[i].vec == e.vec
            &&& after != before ==> does.broadcast == Some(announcement(e)) && does.dirty.approved
            &&& after == before ==> does.broadcast is None && !does.dirty.approved
            &&& e.doc_snippet.len() > 0 && (has_url(before, e.url) ==> before[i].doc_snippet
                != e.doc_snippet) ==> does.broadcast == Some(announcement(e))
            &&& e.doc_vec.len() > 0 && (has_url(before, e.url) ==> before[i].doc_vec != e.doc_vec)
                ==> does.broadcast == Some(announcement(e))
        }),
{
    lemma_announcement_is_understood(e);
    let apps = n.registry.approved;
    lemma_receive_takes_what_was_told(apps, e, i);
    lemma_receive_is_news_if_it_changes(apps, e);
}

/// A node that hears an announcement lists the app.
pub proof fn lemma_announced_app_is_listed(n: NodeState, e: Entry)
    requires
        is_wire_clean(e),
        urls_distinct(n.registry.approved),
    ensures
        ({
            let t = trimmed(announcement(e));
            let after = reacted(n, said(t), t).0.registry.approved;
            has_url(after, e.url) && urls_distinct(after)
        }),
{
    lemma_announcement_is_understood(e);
    lemma_receive_keeps_urls_distinct(n.registry.approved, e);
}

/// What a node publishes, its peers list with the name, description, author, tags and
/// preview that were submitted, if they did not know the app before.
pub proof fn lemma_peers_list_what_was_submitted(s: State, app: Entry, n: NodeState, k: int, i: int)
    requires
        urls_distinct(s.approved),
        published(s, app).announced is Some,
        is_wire_clean(published(s, app).announced->0),
        0 <= k < published(s, app).state.approved.len(),
        published(s, app).state.approved[k].url == app.url,
        urls_distinct(n.registry.approved),
        !has_url(n.registry.approved, app.url),
        ({
            let t = trimmed(announcement(published(s, app).announced->0));
            let after = reacted(n, said(t), t).0.registry.approved;
            0 <= i < after.len() && after[i].url == app.url
        }),
    ensures
        ({
            let t = trimmed(announcement(published(s, app).announced->0));
            let e = reacted(n, said(t), t).0.registry.approved[i];
            e.name == app.name && e.desc == app.desc && e.author == app.author && e.tags
                == app.tags && e.doc_snippet == app.doc_snippet
        }),
{
    let e = published(s, app).announced->0;
    lemma_published_entry_is_listed(s, app, k);
    lemma_announced_app_is_taken_up(n, e, i);
}

/// A peer understands the message about a rating as that rating, unless the review ends in
/// white space, which it loses.
#[verifier::spinoff_prover]
#[verifier::rlimit(40)]
pub proof fn lemma_rate_message_is_understood(k: (Seq<char>, Seq<char>), v: Vote)
    requires
        is_clean_key(k),
        v.text.len() > 0 ==> !is_space(v.text.last()),
    ensures
        said(trimmed(rate_message(k, v))) == Said::Rate(k, v),
{
    reveal_strlit("RATE ");
    reveal_strlit("HELLO ");
    reveal_strlit("ANNOUNCE ");
    reveal_strlit("\t");
    let row = rating_row(k, v);
    let ts = decimal(v.ts as nat);
    lemma_decimal_digits(v.ts as nat);
    let head = k.0 + "\t"@ + k.1 + "\t"@ + decimal(v.stars as nat) + "\t"@ + ts;
    assert(head.last() == ts.last());
    assert(is_digit(ts[ts.len() - 1]));
    assert(row =~= head + "\t"@ + v.text);
    lemma_rating_row_round_trip(k, v);
    if v.text.len() > 0 {
        assert(row.last() == v.text.last());
        assert(trim_end(row) == row);
    } else {
        assert(row.drop_last() =~= head);
        assert(row.last() == '\t');
        assert(trim_end(head) == head);
        assert(trim_end(row) == head);
        lemma_rating_row_without_text(k, v);
    }
    lemma_word_then_rest("RATE "@, row);
    let t = trimmed(rate_message(k, v));
    assert(t[0] == 'R');
}

/// A peer understands the message about an open count as that count.
pub proof fn lemma_opens_message_is_understood(k: (Seq<char>, Seq<char>), n: u64)
    requires
        is_clean_key(k),
    ensures
        said(trimmed(opens_message(k, n))) == Said::Opens(k, n),
{
    reveal_strlit("OPENS ");
    reveal_strlit("RATE ");
    reveal_strlit("HELLO ");
    reveal_strlit("ANNOUNCE ");
    reveal_strlit("\t");
    assert("\t"@ =~= seq!['\t']);
    let row = opens_row(k, n);
    let d = decimal(n as nat);
    lemma_decimal_digits(n as nat);
    assert(row.last() == d.last());
    assert(is_digit(d[d.len() - 1]) && is_digit(d[0]));
    assert(trim_end(row) == row);
    lemma_word_then_rest("OPENS "@, row);
    let t = trimmed(opens_message(k, n));
    assert(t[0] == 'O');
    lemma_opens_row_round_trip(k, n);
    lemma_opens_row_pieces(k, n);
    lemma_trim_fixed(d);
    lemma_decimal_round_trip(n as nat);
}

/// A peer understands a greeting, the mention of another peer and the message that an app is
/// gone.
pub proof fn lemma_addresses_are_understood(u: Seq<char>)
    requires
        u.len() > 0,
        is_trimmed(u),
    ensures
        said(trimmed("HELLO "@ + u)) == Said::Hello(u),
        said(trimmed(discovery(u))) == Said::Discover(u),
        said(trimmed(revoke_message(u))) == Said::Revoke(u),
{
    reveal_strlit("HELLO ");
    reveal_strlit("ANNOUNCE ");
    reveal_strlit("RATE ");
    reveal_strlit("OPENS ");
    reveal_strlit("REVOKE ");
    reveal_strlit("DISCOVER ");
    lemma_trim_fixed(u);
    assert(trim_end(u) == u);
    lemma_word_then_rest("HELLO "@, u);
    lemma_word_then_rest("DISCOVER "@, u);
    lemma_word_then_rest("REVOKE "@, u);
    assert(trimmed("HELLO "@ + u)[0] == 'H');
    assert(trimmed(discovery(u))[0] == 'D');
    assert(trimmed(revoke_message(u))[0] == 'R');
    assert(trimmed(revoke_message(u))[1] == 'E');
    assert("RATE "@[1] == 'A');
}

/// What is said twice is passed on once: a node that hears the same rating, open count
/// or app again tells nobody.
pub proof fn lemma_gossip_settles(n: NodeState, m: Said, t: Seq<char>)
    requires
        m is Rate || m is Opens || m is Announce,
    ensures
        reacted(reacted(n, m, t).0, m, t).1.broadcast is None,
        reacted(reacted(n, m, t).0, m, t).0 == reacted(n, m, t).0,
{
    let s = n.registry;
    let once = reacted(n, m, t).0;
    match m {
        Said::Rate(k, v) => {
            lemma_vote_merge_settles(s.ratings, k, v);
            assert(reacted(once, m, t).0 =~= once);
        },
        Said::Opens(k, c) => {
            lemma_opens_merge_settles(s.opens, k, c);
            assert(reacted(once, m, t).0 =~= once);
        },
        Said::Announce(e) => {
            lemma_receive_settles(s.approved, e);
            assert(reacted(once, m, t).0 =~= once);
        },
        _ => {},
    }
}

/// A node that hears a newer rating of a voter, or the first one, keeps it in place of the
/// one it had and passes it on; an older one changes nothing and is not passed on.
pub proof fn lemma_newer_rating_is_kept(n: NodeState, k: (Seq<char>, Seq<char>), v: Vote)
    requires
        is_clean_key(k),
        1 <= v.stars <= 5,
        v.text.len() > 0 ==> !is_space(v.text.last()),
    ensures
        ({
            let t = trimmed(rate_message(k, v));
            let before = n.registry.ratings;
            let after = reacted(n, said(t), t).0.registry.ratings;
            let does = reacted(n, said(t), t).1;
            &&& !before.contains_key(k) || before[k].ts < v.ts ==> after.contains_key(k) && after[k]
                == v && does.broadcast == Some(t) && does.dirty.ratings
            &&& before.contains_key(k) && before[k].ts > v.ts ==> after == before
                && does.broadcast is None && !does.dirty.ratings
            &&& forall|j: (Seq<char>, Seq<char>)|
                j != k ==> (#[trigger] after.contains_key(j) <==> before.contains_key(j)) && (
                before.contains_key(j) ==> after[j] == before[j])
            &&& reacted(n, said(t), t).0.registry.approved == n.registry.approved
        }),
{
    lemma_rate_message_is_understood(k, v);
}

/// A node that hears a greater open count, or the first one, keeps it and passes it on; any
/// other changes nothing and is not passed on.
pub proof fn lemma_greater_open_count_is_kept(n: NodeState, k: (Seq<char>, Seq<char>), c: u64)
    requires
        is_clean_key(k),
    ensures
        ({
            let t = trimmed(opens_message(k, c));
            let before = n.registry.opens;
            let after = reacted(n, said(t), t).0.registry.opens;
            let does = reacted(n, said(t), t).1;
            &&& !before.contains_key(k) || before[k] < c ==> after.contains_key(k) && after[k] == c
                && does.broadcast == Some(t) && does.dirty.opens
            &&& before.contains_key(k) && before[k] >= c ==> after == before
                && does.broadcast is None && !does.dirty.opens
            &&& forall|j: (Seq<char>, Seq<char>)|
                j != k ==> (#[trigger] after.contains_key(j) <==> before.contains_key(j)) && (
                before.contains_key(j) ==> after[j] == before[j])
            &&& reacted(n, said(t), t).0.registry.approved == n.registry.approved
        }),
{
    lemma_opens_message_is_understood(k, c);
}

/// A node answers a greeting with every app that it lists and every other peer that it
/// knows, and then knows the peer and is connected to it.
pub proof fn lemma_greeting_is_answered(n: NodeState, u: Seq<char>)
    requires
        distinct(n.registry.peers),
        distinct(n.active),
        u.len() > 0,
        is_trimmed(u),
    ensures
        ({
            let t = trimmed("HELLO "@ + u);
            let after = reacted(n, said(t), t).0;
            let does = reacted(n, said(t), t).1;
            &&& does.joined == Some(u)
            &&& after.registry.peers.contains(u) && after.active.contains(u)
            &&& forall|i: int|
                0 <= i < n.registry.approved.len() ==> does.replies.contains(
                    announcement(#[trigger] n.registry.approved[i]),
                )
            &&& forall|i: int|
                0 <= i < n.registry.peers.len() && n.registry.peers[i] != u
                    ==> does.replies.contains(discovery(#[trigger] n.registry.peers[i]))
            &&& does.broadcast is None && after.registry.approved == n.registry.approved
        }),
{
    lemma_addresses_are_understood(u);
    let t = trimmed("HELLO "@ + u);
    let apps = n.registry.approved;
    let before = n.registry.peers;
    let after = reacted(n, said(t), t).0;
    let replies = reacted(n, said(t), t).1.replies;
    let peers = with_name(before, u);
    let others = without_name(peers, u);
    lemma_with_name(before, u);
    lemma_with_name(n.active, u);
    lemma_without_name(peers, u);
    assert(replies == sync_messages(apps, others));
    assert forall|i: int| 0 <= i < apps.len() implies replies.contains(
        announcement(#[trigger] apps[i]),
    ) by {
        assert(replies[i] == announcement(apps[i]));
    }
    assert forall|i: int| 0 <= i < before.len() && before[i] != u implies replies.contains(
        discovery(#[trigger] before[i]),
    ) by {
        let p = before[i];
        assert(peers[i] == p);
        assert(peers.contains(p));
        assert(others.contains(p));
        let j = choose|j: int| 0 <= j < others.len() && others[j] == p;
        assert(replies[apps.len() + j] == discovery(p));
    }
}

/// A message alone never removes an app.
pub proof fn lemma_messages_remove_nothing(n: NodeState, m: Said, t: Seq<char>, i: int)
    requires
        0 <= i < n.registry.approved.len(),
    ensures
        ({
            let after = reacted(n, m, t).0.registry.approved;
            after.len() >= n.registry.approved.len() && after[i].url == n.registry.approved[i].url
        }),
{
    match m {
        Said::Announce(e) => {
            crate::registry::lemma_receive_keeps_entries(n.registry.approved, e, i);
        },
        _ => {},
    }
}

/// A node never connects to itself, to a peer it knows, or to one it is connected to,
/// because of what a peer says.
pub proof fn lemma_discovery_is_new(n: NodeState, m: Said, t: Seq<char>)
    requires
        reacted(n, m, t).1.connect is Some,
    ensures
        ({
            let u = reacted(n, m, t).1.connect->0;
            u != n.registry.self_url && !n.registry.peers.contains(u) && !n.active.contains(u)
                && reacted(n, m, t).0.registry.peers.contains(u)
        }),
{
    let u = reacted(n, m, t).1.connect->0;
    assert(n.registry.peers.push(u)[n.registry.peers.len() as int] == u);
}

/// That an app is gone is not taken on trust: its address is looked at, if it is listed at
/// all, and nothing changes before.
pub proof fn lemma_removal_is_looked_into(n: NodeState, u: Seq<char>, t: Seq<char>)
    ensures
        ({
            let r = reacted(n, Said::Revoke(u), t);
            let listed = exists|i: int|
                0 <= i < n.registry.approved.len() && #[trigger] n.registry.approved[i].url == u;
            &&& r.0 == n
            &&& r.1.probe == if listed {
                Some(u)
            } else {
                None
            }
            &&& r.1.broadcast is None && r.1.connect is None && r.1.joined is None
                && r.1.replies.len() == 0
        }),
{
    lemma_url_index(n.registry.approved, u);
}

/// A peer that another tells of is kept and connected to, unless it is known, connected or
/// this node itself.
pub proof fn lemma_unknown_peer_is_met(n: NodeState, u: Seq<char>, t: Seq<char>)
    ensures
        ({
            let r = reacted(n, Said::Discover(u), t);
            let unknown = !n.registry.peers.contains(u) && !n.active.contains(u) && u
                != n.registry.self_url;
            &&& unknown ==> r.1.connect == Some(u) && r.0.registry.peers == n.registry.peers.push(u)
                && r.1.dirty.peers
            &&& !unknown ==> r.0 == n && r.1.connect is None
            &&& r.0.registry.approved == n.registry.approved && r.0.registry.ratings
                == n.registry.ratings && r.0.registry.opens == n.registry.opens && r.0.active
                == n.active
            &&& r.1.broadcast is None && r.1.probe is None
        }),
{
}

} // verus!

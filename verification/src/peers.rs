//! Finding peers, staying connected to them, and the public directory.
use vstd::prelude::*;
use vstd::string::StringExecFns;
use crate::gossip::{Node, NodeState};
use crate::names::{add_name, distinct, has_name, remove_name, with_name, without_name};
use crate::names::{lemma_with_name, lemma_without_name};
use crate::numerals::{decimal, format_u64};
use crate::registry::{Registry, State};
use crate::registry::{each_once, once_each};
use crate::replies::{err, err_reply, ok, ok_reply};
use crate::text::{
    begins_with, comma_list, exchanged_once, filled_lines, first_at, from_utf8_lossy, join, joined, lines,
    read_lines, replace_once, same, split, stands_at, starts_with, texts, trim, trim_trailing, trimmed,
    utf8_lossy, without_trailing,
};

verus! {

// ── Addresses ────────────────────────────────────────────────────────────────

/// The address at which a node takes connections.
pub open spec fn ws_address(http_url: Seq<char>) -> Seq<char> {
    let base = if begins_with(http_url, "https://"@) {
        exchanged_once(http_url, "https://"@, "wss://"@)
    } else {
        exchanged_once(http_url, "http://"@, "ws://"@)
    };
    without_trailing(base, '/') + "/ws"@
}

/// Returns the address at which a node takes connections.
pub fn to_ws_url(http_url: &str) -> (r: String)
    ensures
        r@ == ws_address(http_url@),
{
    let base = if starts_with(http_url, "https://") {
        replace_once(http_url, "https://", "wss://")
    } else {
        replace_once(http_url, "http://", "ws://")
    };
    let mut r = trim_trailing(base.as_str(), '/');
    r.append("/ws");
    r
}

/// Where the public directory is, unless the operator says otherwise.
pub fn default_directory() -> (r: String)
    ensures
        r@ == "https://bootstrap.annessaia.workers.dev"@,
{
    "https://bootstrap.annessaia.workers.dev".to_owned()
}

/// Returns the address of an endpoint of the public directory.
pub fn directory_endpoint(directory: &str, path: &str) -> (r: String)
    ensures
        r@ == without_trailing(directory@, '/') + "/"@ + path@,
{
    let mut r = trim_trailing(directory, '/');
    r.append("/");
    r.append(path);
    r
}

/// What a node tells the directory: its address and its secret.
pub fn directory_body(self_url: &str, token: &str) -> (r: String)
    ensures
        r@ == self_url@ + "\n"@ + token@,
{
    let mut r = self_url.to_owned();
    r.append("\n");
    r.append(token);
    r
}

/// Reads what the directory lists.
pub fn listed_peers(body: &str) -> (r: Vec<String>)
    ensures
        texts(r@) == filled_lines(lines(body@)),
{
    read_lines(body)
}

// ── Whom to connect to ───────────────────────────────────────────────────────

/// The nodes to connect to at the start: those the operator names, those that are known
/// and those that the directory lists, each once, this node itself left out.
pub open spec fn first_peers(
    named: Seq<char>,
    known: Seq<Seq<char>>,
    listed: Seq<Seq<char>>,
    self_url: Seq<char>,
) -> Seq<Seq<char>> {
    without_name(each_once(filled_lines(split(named, ',')) + known + listed), self_url)
}

fn append_all(out: &mut Vec<String>, more: &Vec<String>)
    ensures
        texts(final(out)@) == texts(old(out)@) + texts(more@),
{
    let ghost start = texts(out@);
    let mut i: usize = 0;
    assert(texts(out@) =~= start + texts(more@).take(0));
    while i < more.len()
        invariant
            i <= more@.len(),
            texts(out@) == start + texts(more@).take(i as int),
        decreases more.len() - i,
    {
        let ghost before = texts(out@);
        let s = more[i].clone();
        out.push(s);
        assert(texts(out@) =~= before.push(s@));
        i += 1;
        assert(texts(out@) =~= start + texts(more@).take(i as int));
    }
    assert(texts(out@) =~= start + texts(more@));
}

/// Returns the nodes to connect to at the start.
pub fn bootstrap(named: &str, known: &Vec<String>, listed: &Vec<String>, self_url: &str) -> (r: Vec<
    String,
>)
    ensures
        texts(r@) == first_peers(named@, texts(known@), texts(listed@), self_url@),
{
    let mut all = comma_list(named);
    append_all(&mut all, known);
    append_all(&mut all, listed);
    let mut r = once_each(&all);
    remove_name(&mut r, self_url);
    r
}

/// A name is among those taken once each exactly if it is in the list.
pub proof fn lemma_each_once(s: Seq<Seq<char>>)
    ensures
        distinct(each_once(s)),
        forall|x: Seq<char>| #[trigger] each_once(s).contains(x) == s.contains(x),
    decreases s.len(),
{
    if s.len() > 0 {
        let d = s.drop_last();
        lemma_each_once(d);
        lemma_with_name(each_once(d), s.last());
        assert forall|x: Seq<char>| #[trigger] each_once(s).contains(x) == s.contains(x) by {
            if s.contains(x) {
                let i = choose|i: int| 0 <= i < s.len() && s[i] == x;
                if i < d.len() {
                    assert(d[i] == x);
                    assert(d.contains(x));
                    assert(each_once(d).contains(x));
                }
            }
            if each_once(s).contains(x) && x != s.last() {
                assert(each_once(d).contains(x));
                let i = choose|i: int| 0 <= i < d.len() && d[i] == x;
                assert(s[i] == x);
            }
            assert(s[s.len() - 1] == s.last());
        }
    }
}

/// A node connects to every other node that it learns of, to each once, and never to
/// itself.
pub proof fn lemma_first_peers(
    named: Seq<char>,
    known: Seq<Seq<char>>,
    listed: Seq<Seq<char>>,
    self_url: Seq<char>,
    x: Seq<char>,
)
    ensures
        distinct(first_peers(named, known, listed, self_url)),
        !first_peers(named, known, listed, self_url).contains(self_url),
        x != self_url && (known.contains(x) || listed.contains(x) || filled_lines(
            split(named, ','),
        ).contains(x)) ==> first_peers(named, known, listed, self_url).contains(x),
{
    let a = filled_lines(split(named, ','));
    let all = a + known + listed;
    lemma_each_once(all);
    lemma_without_name(each_once(all), self_url);
    if a.contains(x) {
        let i = choose|i: int| 0 <= i < a.len() && a[i] == x;
        assert(all[i] == x);
    }
    if known.contains(x) {
        let i = choose|i: int| 0 <= i < known.len() && known[i] == x;
        assert(all[a.len() + i] == x);
    }
    if listed.contains(x) {
        let i = choose|i: int| 0 <= i < listed.len() && listed[i] == x;
        assert(all[a.len() + known.len() + i] == x);
    }
    if all.contains(x) {
        assert(each_once(all).contains(x));
    }
}

/// The listed nodes to connect to: neither this one nor one that is connected.
pub open spec fn new_peers(
    listed: Seq<Seq<char>>,
    self_url: Seq<char>,
    active: Seq<Seq<char>>,
) -> Seq<Seq<char>>
    decreases listed.len(),
{
    if listed.len() == 0 {
        Seq::empty()
    } else if listed.last() == self_url || active.contains(listed.last()) {
        new_peers(listed.drop_last(), self_url, active)
    } else {
        new_peers(listed.drop_last(), self_url, active).push(listed.last())
    }
}

/// Names added to others, one after another.
pub open spec fn with_names(s: Seq<Seq<char>>, more: Seq<Seq<char>>) -> Seq<Seq<char>>
    decreases more.len(),
{
    if more.len() == 0 {
        s
    } else {
        with_name(with_names(s, more.drop_last()), more.last())
    }
}

/// What asking the directory again comes to.
pub struct Refreshed {
    pub reply: String,
    /// The nodes to connect to.
    pub connect: Vec<String>,
}

/// What a request to connect to a peer comes to.
pub struct Dial {
    pub reply: String,
    /// The node to connect to.
    pub connect: Option<String>,
}

impl Node {
    /// The reply that lists the known peers.
    pub fn api_peers(&self) -> (r: String)
        ensures
            r@ == joined(self@.registry.peers, "\n"@),
    {
        self.registry.peers_file()
    }

    /// The reply that lists the peers that are connected.
    pub fn api_active_peers(&self) -> (r: String)
        ensures
            r@ == joined(self@.active, "\n"@),
    {
        join(&self.active, "\n")
    }

    /// Takes up what the directory lists.
    pub fn refresh(&mut self, listed: &Vec<String>) -> (r: Refreshed)
        requires
            old(self).wf(),
        ensures
            final(self).wf(),
            ({
                let fresh = new_peers(
                    texts(listed@),
                    old(self)@.registry.self_url,
                    old(self)@.active,
                );
                &&& texts(r.connect@) == fresh
                &&& final(self)@ == (NodeState {
                    registry: State {
                        peers: with_names(old(self)@.registry.peers, fresh),
                        ..old(self)@.registry
                    },
                    ..old(self)@
                })
                &&& r.reply@ == ok_reply(
                    "connecting to "@ + decimal(fresh.len()) + " new node(s)"@,
                )
            }),
    {
        let ghost before = self@;
        let ghost all = texts(listed@);
        let ghost me = self@.registry.self_url;
        let ghost act = self@.active;
        let mut connect: Vec<String> = Vec::new();
        let mut i: usize = 0;
        assert(texts(connect@) =~= new_peers(all.take(0), me, act));
        assert(self@ =~= NodeState {
            registry: State {
                peers: with_names(before.registry.peers, texts(connect@)),
                ..before.registry
            },
            ..before
        });
        while i < listed.len()
            invariant
                i <= listed@.len(),
                all == texts(listed@),
                self.wf(),
                me == before.registry.self_url,
                act == before.active,
                texts(connect@) == new_peers(all.take(i as int), me, act),
                self@ == (NodeState {
                    registry: State {
                        peers: with_names(before.registry.peers, texts(connect@)),
                        ..before.registry
                    },
                    ..before
                }),
            decreases listed.len() - i,
        {
            assert(all.take(i + 1).drop_last() =~= all.take(i as int));
            assert(all.take(i + 1).last() == listed@[i as int]@);
            if !same(listed[i].as_str(), self.registry.self_url.as_str()) && !has_name(
                &self.active,
                listed[i].as_str(),
            ) {
                let ghost was = texts(connect@);
                let ghost had = texts(self.registry.peers@);
                proof {
                    lemma_with_name(had, listed@[i as int]@);
                }
                let s = listed[i].clone();
                let c = listed[i].clone();
                let _ = add_name(&mut self.registry.peers, s);
                connect.push(c);
                assert(texts(connect@) =~= was.push(c@));
                assert(texts(connect@).drop_last() =~= was);
                assert(self@ =~= NodeState {
                    registry: State {
                        peers: with_names(before.registry.peers, texts(connect@)),
                        ..before.registry
                    },
                    ..before
                });
            }
            i += 1;
        }
        assert(all.take(i as int) =~= all);
        let mut m = "connecting to ".to_owned();
        m.append(format_u64(connect.len() as u64).as_str());
        m.append(" new node(s)");
        Refreshed { reply: ok(m.as_str()), connect }
    }

    /// Takes up a peer that the operator names.
    pub fn peer_connect(&mut self, body: &Vec<u8>) -> (r: Dial)
        requires
            old(self).wf(),
        ensures
            final(self).wf(),
            ({
                let url = trimmed(utf8_lossy(body@));
                if !begins_with(url, "http"@) {
                    final(self)@ == old(self)@ && r.connect is None && r.reply@ == err_reply(
                        "url must start with http"@,
                    )
                } else if old(self)@.active.contains(url) {
                    final(self)@ == old(self)@ && r.connect is None && r.reply@ == err_reply(
                        "already connected to that peer"@,
                    )
                } else {
                    final(self)@ == (NodeState {
                        registry: State {
                            peers: with_name(old(self)@.registry.peers, url),
                            ..old(self)@.registry
                        },
                        ..old(self)@
                    }) && r.connect is Some && r.connect->0@ == url && r.reply@ == ok_reply(
                        "connecting to "@ + url,
                    )
                }
            }),
    {
        let ghost before = self@;
        let raw = from_utf8_lossy(body);
        let url = trim(raw.as_str());
        if !starts_with(url.as_str(), "http") {
            return Dial { reply: err("url must start with http"), connect: None };
        }
        if has_name(&self.active, url.as_str()) {
            return Dial { reply: err("already connected to that peer"), connect: None };
        }
        proof {
            lemma_with_name(texts(self.registry.peers@), url@);
        }
        let _ = add_name(&mut self.registry.peers, url.clone());
        assert(self@ =~= NodeState {
            registry: State { peers: with_name(before.registry.peers, url@), ..before.registry },
            ..before
        });
        let mut m = "connecting to ".to_owned();
        m.append(url.as_str());
        Dial { reply: ok(m.as_str()), connect: Some(url) }
    }

    /// Drops a peer.
    pub fn peer_remove(&mut self, body: &Vec<u8>) -> (reply: String)
        requires
            old(self).wf(),
        ensures
            final(self).wf(),
            reply@ == ok_reply("peer removed"@),
            ({
                let url = trimmed(utf8_lossy(body@));
                final(self)@ == (NodeState {
                    registry: State {
                        peers: without_name(old(self)@.registry.peers, url),
                        ..old(self)@.registry
                    },
                    active: without_name(old(self)@.active, url),
                })
            }),
    {
        let ghost before = self@;
        let raw = from_utf8_lossy(body);
        let url = trim(raw.as_str());
        proof {
            lemma_without_name(texts(self.registry.peers@), url@);
            lemma_without_name(texts(self.active@), url@);
        }
        remove_name(&mut self.active, url.as_str());
        remove_name(&mut self.registry.peers, url.as_str());
        assert(self@ =~= NodeState {
            registry: State { peers: without_name(before.registry.peers, url@), ..before.registry },
            active: without_name(before.active, url@),
        });
        ok("peer removed")
    }

    /// Whether a connection to a peer is to be opened: there is none yet.
    pub fn may_dial(&self, url: &str) -> (r: bool)
        ensures
            r == !self@.active.contains(url@),
    {
        !has_name(&self.active, url)
    }

    /// Whether a lost connection to a peer is to be taken up again: the operator has
    /// not removed the peer, and it is not this node.
    pub fn still_wanted(&self, url: &str) -> (r: bool)
        ensures
            r == (self@.registry.peers.contains(url@) && self@.registry.self_url != url@),
    {
        has_name(&self.registry.peers, url) && !same(self.registry.self_url.as_str(), url)
    }
}

/// After a peer was removed it is not connected, and no lost connection to it is taken
/// up again; every other peer stays.
pub proof fn lemma_removed_peer_is_gone(peers: Seq<Seq<char>>, url: Seq<char>, other: Seq<char>)
    ensures
        !without_name(peers, url).contains(url),
        other != url ==> without_name(peers, url).contains(other) == peers.contains(other),
{
    lemma_without_name(peers, url);
}

// ── Staying connected ────────────────────────────────────────────────────────

/// How many seconds pass before the first new attempt.
pub const FIRST_WAIT: u64 = 2;

/// The most seconds between two attempts.
pub const LONGEST_WAIT: u64 = 60;

/// Takes up the supervision of a peer. Returns whether it was not supervised yet.
pub fn supervise(supervised: &mut Vec<String>, url: String) -> (new: bool)
    ensures
        texts(final(supervised)@) == with_name(texts(old(supervised)@), url@),
        new == !texts(old(supervised)@).contains(url@),
{
    add_name(supervised, url)
}

/// The seconds before the next attempt, given those before the last one.
pub open spec fn longer_wait(wait: int) -> int {
    if wait * 2 < LONGEST_WAIT {
        wait * 2
    } else {
        LONGEST_WAIT as int
    }
}

/// Returns the seconds before the next attempt, given those before the last one.
pub fn next_wait(wait: u64) -> (r: u64)
    requires
        wait * 2 <= u64::MAX,
    ensures
        r == longer_wait(wait as int),
{
    if wait * 2 < LONGEST_WAIT {
        wait * 2
    } else {
        LONGEST_WAIT
    }
}

/// The seconds before the attempt that follows `n` failed ones.
pub open spec fn wait_after(n: nat) -> int
    decreases n,
{
    if n == 0 {
        FIRST_WAIT as int
    } else {
        longer_wait(wait_after((n - 1) as nat))
    }
}

/// The waits never shrink, and from the sixth on each is the longest one.
pub proof fn lemma_waits_grow_to_the_longest(n: nat)
    ensures
        FIRST_WAIT <= wait_after(n) <= wait_after(n + 1) <= LONGEST_WAIT,
        n >= 5 ==> wait_after(n) == LONGEST_WAIT,
    decreases n,
{
    reveal_with_fuel(wait_after, 7);
    if n > 5 {
        lemma_waits_grow_to_the_longest((n - 1) as nat);
    }
}

// ── The public directory ─────────────────────────────────────────────────────

/// How many hours pass between two refreshes of the node's listing.
pub const HEARTBEAT_HOURS: u64 = 12;

/// What asking the directory to list or to drop this node came to.
pub enum Asked {
    Done,
    /// The directory's own words, or what kept it from being reached.
    Failed(String),
}

/// Returns what a reply of the directory came to.
pub fn directory_answer(success: bool, body: String) -> (r: Asked)
    ensures
        success ==> r is Done,
        !success ==> r == Asked::Failed(body),
{
    if success {
        Asked::Done
    } else {
        Asked::Failed(body)
    }
}

impl Registry {
    /// The reply that says where the directory is and whether this node is listed.
    pub fn directory_status(&self, directory: &str) -> (r: String)
        ensures
            r@ == directory@ + "\t"@ + (if self@.published {
                "true"@
            } else {
                "false"@
            }) + "\t"@ + self@.self_url,
    {
        let mut r = directory.to_owned();
        r.append("\t");
        r.append(
            if self.published {
                "true"
            } else {
                "false"
            },
        );
        r.append("\t");
        r.append(self.self_url.as_str());
        r
    }

    /// Takes note of what asking the directory to list this node came to.
    pub fn directory_published(&mut self, asked: Asked) -> (reply: String)
        requires
            old(self).wf(),
        ensures
            final(self).wf(),
            match asked {
                Asked::Done => final(self)@ == (State { published: true, ..old(self)@ })
                    && reply@ == ok_reply("published "@ + old(self)@.self_url),
                Asked::Failed(e) => final(self)@ == old(self)@ && reply@ == err_reply(e@),
            },
    {
        match asked {
            Asked::Done => {
                self.set_published(true);
                let mut m = "published ".to_owned();
                m.append(self.self_url.as_str());
                ok(m.as_str())
            },
            Asked::Failed(e) => err(e.as_str()),
        }
    }

    /// Takes note of what asking the directory to drop this node came to. The node no
    /// longer counts as listed either way.
    pub fn directory_unpublished(&mut self, asked: Asked) -> (reply: String)
        requires
            old(self).wf(),
        ensures
            final(self).wf(),
            final(self)@ == (State { published: false, ..old(self)@ }),
            reply@ == ok_reply(
                match asked {
                    Asked::Done => "no longer published"@,
                    Asked::Failed(e) => "stopped publishing locally, but directory said: "@ + e@,
                },
            ),
    {
        self.set_published(false);
        match asked {
            Asked::Done => ok("no longer published"),
            Asked::Failed(e) => {
                let mut m = "stopped publishing locally, but directory said: ".to_owned();
                m.append(e.as_str());
                ok(m.as_str())
            },
        }
    }

    /// What to tell the directory when the listing is due for a refresh: nothing unless
    /// the operator has opted in.
    pub fn heartbeat(&self) -> (r: Option<String>)
        ensures
            match r {
                Some(b) => self@.published && b@ == self@.self_url + "\n"@ + self@.token,
                None => !self@.published,
            },
    {
        if self.published {
            Some(directory_body(self.self_url.as_str(), self.token.as_str()))
        } else {
            None
        }
    }
}

/// A node's connections are taken at its own address, by the protocol that is as safe, and
/// whether or not the address ends in a slash.
pub proof fn lemma_connections_are_taken_there(rest: Seq<char>)
    requires
        rest.len() > 0 && rest.last() != '/',
    ensures
        ws_address("http://"@ + rest) == "ws://"@ + rest + "/ws"@,
        ws_address("https://"@ + rest) == "wss://"@ + rest + "/ws"@,
        ws_address("http://"@ + rest + "/"@) == ws_address("http://"@ + rest),
        ws_address("https://"@ + rest + "/"@) == ws_address("https://"@ + rest),
{
    reveal_strlit("http://");
    reveal_strlit("https://");
    reveal_strlit("ws://");
    reveal_strlit("wss://");
    reveal_strlit("/");
    lemma_exchanged_front("http://"@, rest, "ws://"@);
    lemma_exchanged_front("http://"@, rest + "/"@, "ws://"@);
    lemma_exchanged_front("https://"@, rest, "wss://"@);
    lemma_exchanged_front("https://"@, rest + "/"@, "wss://"@);
    assert("http://"@ + rest + "/"@ =~= "http://"@ + (rest + "/"@));
    assert("https://"@ + rest + "/"@ =~= "https://"@ + (rest + "/"@));
    assert(!begins_with("http://"@ + rest, "https://"@)) by {
        assert(("http://"@ + rest)[4] == ':');
        assert("https://"@[4] == 's');
        if begins_with("http://"@ + rest, "https://"@) {
            assert(("http://"@ + rest).subrange(0, 8)[4] == ':');
        }
    }
    assert(!begins_with("http://"@ + rest + "/"@, "https://"@)) by {
        assert(("http://"@ + rest + "/"@)[4] == ':');
        if begins_with("http://"@ + rest + "/"@, "https://"@) {
            assert(("http://"@ + rest + "/"@).subrange(0, 8)[4] == ':');
        }
    }
    let a = "ws://"@ + rest;
    let b = "wss://"@ + rest;
    assert(a.last() == rest.last() && b.last() == rest.last());
    assert("ws://"@ + (rest + "/"@) =~= a.push('/'));
    assert("wss://"@ + (rest + "/"@) =~= b.push('/'));
    assert(a.push('/').drop_last() =~= a);
    assert(b.push('/').drop_last() =~= b);
}

proof fn lemma_exchanged_front(front: Seq<char>, rest: Seq<char>, other: Seq<char>)
    ensures
        begins_with(front + rest, front),
        exchanged_once(front + rest, front, other) == other + rest,
{
    let s = front + rest;
    assert(s.subrange(0, front.len() as int) =~= front);
    assert(stands_at(s, front, 0));
    assert(first_at(s, front, 0) == 0);
    assert(s.take(0) + other + s.skip(front.len() as int) =~= other + rest);
}

/// What is connected to after asking the directory is what it lists, but for this node and
/// for those it is connected to.
pub proof fn lemma_new_peers(
    listed: Seq<Seq<char>>,
    self_url: Seq<char>,
    active: Seq<Seq<char>>,
    x: Seq<char>,
)
    ensures
        new_peers(listed, self_url, active).contains(x) <==> listed.contains(x) && x != self_url
            && !active.contains(x),
    decreases listed.len(),
{
    let r = new_peers(listed, self_url, active);
    if listed.len() > 0 {
        let d = listed.drop_last();
        lemma_new_peers(d, self_url, active, x);
        let q = new_peers(d, self_url, active);
        assert(listed[listed.len() - 1] == listed.last());
        if d.contains(x) {
            let i = choose|i: int| 0 <= i < d.len() && d[i] == x;
            assert(listed[i] == x);
        }
        if listed.contains(x) && !d.contains(x) {
            let i = choose|i: int| 0 <= i < listed.len() && listed[i] == x;
            assert(i == listed.len() - 1) by {
                if i < d.len() {
                    assert(d[i] == x);
                }
            }
        }
        if q.contains(x) {
            let i = choose|i: int| 0 <= i < q.len() && q[i] == x;
            assert(r[i] == x);
        }
        if r.contains(x) && !q.contains(x) {
            let i = choose|i: int| 0 <= i < r.len() && r[i] == x;
            assert(i == r.len() - 1) by {
                if i < q.len() {
                    assert(q[i] == x);
                }
            }
        }
        if r.len() > q.len() {
            assert(r[r.len() - 1] == listed.last());
        }
    }
}

/// Adding names to a list keeps those that were there and adds the others, none twice.
pub proof fn lemma_with_names(s: Seq<Seq<char>>, more: Seq<Seq<char>>, x: Seq<char>)
    requires
        distinct(s),
    ensures
        with_names(s, more).contains(x) <==> s.contains(x) || more.contains(x),
        distinct(with_names(s, more)),
    decreases more.len(),
{
    if more.len() > 0 {
        let d = more.drop_last();
        lemma_with_names(s, d, x);
        let w = with_names(s, d);
        lemma_with_name(w, more.last());
        assert(more[more.len() - 1] == more.last());
        let r = with_names(s, more);
        if d.contains(x) {
            let i = choose|i: int| 0 <= i < d.len() && d[i] == x;
            assert(more[i] == x);
        }
        if more.contains(x) && !d.contains(x) {
            let i = choose|i: int| 0 <= i < more.len() && more[i] == x;
            if i < d.len() {
                assert(d[i] == x);
            }
        }
        if w.contains(x) {
            let i = choose|i: int| 0 <= i < w.len() && w[i] == x;
            assert(r[i] == x);
        }
        if x == more.last() && !w.contains(x) {
            assert(r[r.len() - 1] == x);
        }
        if r.contains(x) && !w.contains(x) {
            let i = choose|i: int| 0 <= i < r.len() && r[i] == x;
            if i < w.len() {
                assert(w[i] == x);
            }
        }
    }
}

} // verus!

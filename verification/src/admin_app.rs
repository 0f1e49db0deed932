//! The app with which an operator manages a node: logging in, what it asks of the node,
//! and what it shows.
use vstd::prelude::*;
use vstd::string::StringExecFns;
use crate::admin::MIN_PASSWORD;
use crate::numerals::{decimal, format_u64};
use crate::requests::{
    ask_get, ask_post, asks, first_line, first_line_of, meaning, read_verdict, Ask, Ended, Meaning,
    Request, Verdict,
};
use crate::entry::Entry;
use crate::registry::shown;
use crate::search::best_chunk_of;
use crate::search_app::field;
use crate::text::{
    cut, ends_in, filled_lines, lines, lines_of, read_lines, same, split_once, splitn,
    split_str_n, texts, trim, trimmed,
};
use crate::text::{lemma_absent_in_sum, lemma_split_none, lemma_trim_fixed};
use crate::text::{lemma_splitn_none, lemma_splitn_push, lemma_splitn_rest};
use crate::names::has_name;

verus! {

// ── State ────────────────────────────────────────────────────────────────────

/// What the operator sees.
#[derive(Clone, Copy, Debug, PartialEq, Eq, Structural)]
pub enum Stage {
    /// It is not known yet whether a password is set.
    Loading,
    /// No password is set.
    Setup,
    /// A password is set, and the operator is not logged in.
    Login,
    Dashboard,
}

#[derive(Clone, Copy, Debug, PartialEq, Eq, Structural)]
pub enum AdminTab {
    Apps,
    Peers,
    Directory,
}

/// An app of the node.
pub struct AppRow {
    pub name: String,
    pub url: String,
    pub author: String,
}

/// What is known of the public directory.
pub struct Directory {
    pub url: String,
    pub published: bool,
    pub self_url: String,
    pub loaded: bool,
}

/// What the app keeps. The session ends with it: every launch asks for the password.
pub struct AdminApp {
    pub server: String,
    pub next_id: i32,
    pub stage: Stage,
    pub session: String,
    pub status_id: Option<i32>,
    pub auth_id: Option<i32>,
    pub apps_id: Option<i32>,
    pub mine_id: Option<i32>,
    pub peers_id: Option<i32>,
    pub active_id: Option<i32>,
    pub dir_id: Option<i32>,
    pub ai_id: Option<i32>,
    pub act_id: Option<i32>,
    pub tab: AdminTab,
    pub apps: Vec<AppRow>,
    pub mine: Vec<String>,
    pub peers: Vec<String>,
    pub active: Vec<String>,
    pub flash: String,
    pub directory: Directory,
    pub ai_on: Option<bool>,
    pub pass_error: String,
}

impl AdminApp {
    /// The app when it is opened. Asks whether a password is set.
    pub fn new(server: String, out: &mut Vec<Request>) -> (a: AdminApp)
        ensures
            a.server == server && a.next_id == 2 && a.stage == Stage::Loading && a.session@.len()
                == 0,
            a.status_id == Some(1i32) && a.auth_id is None && a.apps_id is None && a.mine_id is None
                && a.peers_id is None && a.active_id is None && a.dir_id is None && a.ai_id is None
                && a.act_id is None,
            a.tab == AdminTab::Apps && a.apps@.len() == 0 && a.mine@.len() == 0 && a.peers@.len()
                == 0 && a.active@.len() == 0 && a.flash@.len() == 0 && a.ai_on is None
                && a.pass_error@.len() == 0,
            a.directory.url@.len() == 0 && !a.directory.published && a.directory.self_url@.len() == 0
                && !a.directory.loaded,
            asks(final(out)@) == asks(old(out)@).push(
                Ask::Get(1, server@ + "/api/admin/status"@),
            ),
    {
        let mut url = server.clone();
        url.append("/api/admin/status");
        ask_get(out, 1, url);
        AdminApp {
            server,
            next_id: 2,
            stage: Stage::Loading,
            session: String::new(),
            status_id: Some(1),
            auth_id: None,
            apps_id: None,
            mine_id: None,
            peers_id: None,
            active_id: None,
            dir_id: None,
            ai_id: None,
            act_id: None,
            tab: AdminTab::Apps,
            apps: Vec::new(),
            mine: Vec::new(),
            peers: Vec::new(),
            active: Vec::new(),
            flash: String::new(),
            directory: Directory {
                url: String::new(),
                published: false,
                self_url: String::new(),
                loaded: false,
            },
            ai_on: None,
            pass_error: String::new(),
        }
    }

    /// Whether there are numbers left for that many requests.
    pub open spec fn has_ids(self, n: int) -> bool {
        self.next_id + n <= i32::MAX
    }

    fn take_id(&mut self) -> (id: i32)
        requires
            old(self).has_ids(1),
        ensures
            id == old(self).next_id,
            *final(self) == (AdminApp { next_id: (old(self).next_id + 1) as i32, ..*old(self) }),
    {
        let id: i32 = self.next_id;
        self.next_id = id + 1;
        id
    }

    /// An address of the node, with the session.
    pub open spec fn guarded_url(self, path: Seq<char>) -> Seq<char> {
        self.server@ + path + "?token="@ + self.session@
    }

    fn at(&self, path: &str) -> (r: String)
        ensures
            r@ == self.guarded_url(path@),
    {
        let mut r = self.server.clone();
        r.append(path);
        r.append("?token=");
        r.append(self.session.as_str());
        r
    }
}

/// How many peers of all are connected, in words.
pub open spec fn peers_words(active: nat, all: nat) -> Seq<char> {
    decimal(active) + " of "@ + decimal(all) + " connected"@
}

// ── Asking ───────────────────────────────────────────────────────────────────

/// The app after it asked for everything that it shows.
pub open spec fn refreshed(a: AdminApp) -> AdminApp {
    AdminApp {
        next_id: (a.next_id + 6) as i32,
        apps_id: Some(a.next_id),
        mine_id: Some((a.next_id + 1) as i32),
        peers_id: Some((a.next_id + 2) as i32),
        active_id: Some((a.next_id + 3) as i32),
        dir_id: Some((a.next_id + 4) as i32),
        ai_id: Some((a.next_id + 5) as i32),
        ..a
    }
}

/// What is asked for to show everything.
pub open spec fn refresh_asks(a: AdminApp) -> Seq<Ask> {
    seq![
        Ask::Get(a.next_id, a.guarded_url("/api/apps"@)),
        Ask::Get((a.next_id + 1) as i32, a.guarded_url("/api/mine"@)),
        Ask::Get((a.next_id + 2) as i32, a.guarded_url("/api/peers"@)),
        Ask::Get((a.next_id + 3) as i32, a.guarded_url("/api/peers/active"@)),
        Ask::Get((a.next_id + 4) as i32, a.guarded_url("/api/directory"@)),
        Ask::Get((a.next_id + 5) as i32, a.guarded_url("/api/admin/ai"@)),
    ]
}

impl AdminApp {
    /// Asks for everything that is shown.
    pub fn refresh(&mut self, out: &mut Vec<Request>)
        requires
            old(self).has_ids(6),
        ensures
            *final(self) == refreshed(*old(self)),
            asks(final(out)@) == asks(old(out)@) + refresh_asks(*old(self)),
    {
        let ghost before = asks(out@);
        let id: i32 = self.take_id();
        self.apps_id = Some(id);
        let u = self.at("/api/apps");
        ask_get(out, id, u);
        let id: i32 = self.take_id();
        self.mine_id = Some(id);
        let u = self.at("/api/mine");
        ask_get(out, id, u);
        let id: i32 = self.take_id();
        self.peers_id = Some(id);
        let u = self.at("/api/peers");
        ask_get(out, id, u);
        let id: i32 = self.take_id();
        self.active_id = Some(id);
        let u = self.at("/api/peers/active");
        ask_get(out, id, u);
        let id: i32 = self.take_id();
        self.dir_id = Some(id);
        let u = self.at("/api/directory");
        ask_get(out, id, u);
        let id: i32 = self.take_id();
        self.ai_id = Some(id);
        let u = self.at("/api/admin/ai");
        ask_get(out, id, u);
        assert(asks(out@) =~= before + refresh_asks(*old(self)));
    }

    /// Asks the node to do something.
    pub fn action(&mut self, path: &str, body: &str, out: &mut Vec<Request>)
        requires
            old(self).has_ids(1),
        ensures
            *final(self) == (AdminApp {
                next_id: (old(self).next_id + 1) as i32,
                act_id: Some(old(self).next_id),
                flash: final(self).flash,
                ..*old(self)
            }),
            final(self).flash@ == "Working…"@,
            asks(final(out)@) == asks(old(out)@).push(
                Ask::Post(old(self).next_id, old(self).guarded_url(path@), body@),
            ),
    {
        let id: i32 = self.take_id();
        self.act_id = Some(id);
        self.flash = "Working…".to_owned();
        let u = self.at(path);
        ask_post(out, id, u, body.to_owned());
    }

    /// Whether the node was asked to do something and has not answered.
    pub fn busy(&self) -> (r: bool)
        ensures
            r == (self.act_id is Some),
    {
        self.act_id.is_some()
    }
}

// ── Logging in ───────────────────────────────────────────────────────────────

/// Whether a reply says that there is no session.
pub open spec fn is_refusal(body: Seq<char>) -> bool {
    trimmed(body) == "unauthorized"@
}

/// Whether the session was dropped.
pub open spec fn session_dropped(a: AdminApp, b: AdminApp) -> bool {
    &&& b == (AdminApp { session: b.session, stage: Stage::Login, flash: b.flash, ..a })
    &&& b.session@.len() == 0
    &&& b.flash@ == "Session expired — please log in again."@
}

/// What is wrong with a password, before it is sent.
pub open spec fn password_flaw(pass: Seq<char>, confirm: Option<Seq<char>>) -> Option<Seq<char>> {
    if pass.len() < MIN_PASSWORD {
        Some("Password must be at least 8 characters."@)
    } else if confirm matches Some(c) && c != pass {
        Some("Passwords don't match."@)
    } else {
        None
    }
}

impl AdminApp {
    /// Drops the session if a reply says that there is none. Returns whether it did.
    pub fn handle_unauthorized(&mut self, body: &str) -> (r: bool)
        ensures
            r == is_refusal(body@),
            r ==> session_dropped(*old(self), *final(self)),
            !r ==> *final(self) == *old(self),
    {
        if !same(trim(body).as_str(), "unauthorized") {
            return false;
        }
        self.session = String::new();
        self.stage = Stage::Login;
        self.flash = "Session expired — please log in again.".to_owned();
        true
    }

    /// It is known whether a password is set.
    pub fn status_done(&mut self, ended: Ended)
        ensures
            match ended {
                Ended::Failed => *final(self) == (AdminApp {
                    status_id: None,
                    flash: final(self).flash,
                    ..*old(self)
                }) && final(self).flash@ == "Cannot reach the server. Is it running?"@,
                Ended::Done(body) => *final(self) == (AdminApp {
                    status_id: None,
                    stage: if trimmed(body@) != "1"@ {
                        Stage::Setup
                    } else if old(self).session@.len() > 0 {
                        Stage::Dashboard
                    } else {
                        Stage::Login
                    },
                    ..*old(self)
                }),
            },
    {
        self.status_id = None;
        match ended {
            Ended::Failed => {
                self.flash = "Cannot reach the server. Is it running?".to_owned();
            },
            Ended::Done(body) => {
                self.stage = if !same(trim(body.as_str()).as_str(), "1") {
                    Stage::Setup
                } else if !self.session.as_str().is_empty() {
                    Stage::Dashboard
                } else {
                    Stage::Login
                };
            },
        }
    }

    /// A password is entered: to set it where none is, else to log in.
    pub fn enter(&mut self, pass: &str, confirm: Option<&str>, out: &mut Vec<Request>)
        requires
            old(self).has_ids(1),
        ensures
            ({
                let a = *old(self);
                let b = *final(self);
                match password_flaw(
                    pass@,
                    match confirm {
                        Some(c) => Some(c@),
                        None => None,
                    },
                ) {
                    Some(m) => b == (AdminApp { pass_error: b.pass_error, ..a }) && b.pass_error@
                        == m && asks(final(out)@) == asks(old(out)@),
                    None => b == (AdminApp {
                        pass_error: b.pass_error,
                        next_id: (a.next_id + 1) as i32,
                        auth_id: Some(a.next_id),
                        ..a
                    }) && b.pass_error@.len() == 0 && asks(final(out)@) == asks(old(out)@).push(
                        Ask::Post(
                            a.next_id,
                            a.server@ + if a.stage == Stage::Setup {
                                "/api/admin/setup"@
                            } else {
                                "/api/admin/login"@
                            },
                            pass@,
                        ),
                    ),
                }
            }),
    {
        if pass.unicode_len() < MIN_PASSWORD {
            self.pass_error = "Password must be at least 8 characters.".to_owned();
            return;
        }
        match confirm {
            Some(c) => {
                if !same(c, pass) {
                    self.pass_error = "Passwords don't match.".to_owned();
                    return;
                }
            },
            None => {},
        }
        self.pass_error = String::new();
        let id: i32 = self.take_id();
        self.auth_id = Some(id);
        let mut u = self.server.clone();
        match self.stage {
            Stage::Setup => u.append("/api/admin/setup"),
            _ => u.append("/api/admin/login"),
        }
        ask_post(out, id, u, pass.to_owned());
    }

    /// Setting the password or logging in ended. With a session everything is asked for.
    pub fn auth_done(&mut self, ended: Ended, out: &mut Vec<Request>)
        requires
            old(self).has_ids(6),
        ensures
            ({
                let a = *old(self);
                let b = *final(self);
                match ended {
                    Ended::Failed => auth_failed(a, b, "Cannot reach the server. Is it running?"@)
                        && asks(final(out)@) == asks(old(out)@),
                    Ended::Done(body) => match cut(body@, '\t') {
                        Some(p) => if p.0 == "ok"@ {
                            let c = AdminApp {
                                auth_id: None,
                                session: b.session,
                                pass_error: b.pass_error,
                                stage: Stage::Dashboard,
                                ..a
                            };
                            &&& b.session@ == p.1
                            &&& b.pass_error@.len() == 0
                            &&& b == refreshed(c)
                            &&& asks(final(out)@) == asks(old(out)@) + refresh_asks(c)
                        } else if p.0 == "err"@ {
                            auth_failed(a, b, p.1) && asks(final(out)@) == asks(old(out)@)
                        } else {
                            auth_failed(a, b, "Unexpected response from server."@) && asks(
                                final(out)@,
                            ) == asks(old(out)@)
                        },
                        None => auth_failed(a, b, "Unexpected response from server."@) && asks(
                            final(out)@,
                        ) == asks(old(out)@),
                    },
                }
            }),
    {
        self.auth_id = None;
        match ended {
            Ended::Failed => {
                self.pass_error = "Cannot reach the server. Is it running?".to_owned();
            },
            Ended::Done(body) => match split_once(body.as_str(), '\t') {
                Some((word, rest)) => {
                    if same(word.as_str(), "ok") {
                        self.session = rest;
                        self.pass_error = String::new();
                        self.stage = Stage::Dashboard;
                        self.refresh(out);
                    } else if same(word.as_str(), "err") {
                        self.pass_error = rest;
                    } else {
                        self.pass_error = "Unexpected response from server.".to_owned();
                    }
                },
                None => {
                    self.pass_error = "Unexpected response from server.".to_owned();
                },
            },
        }
    }
}

/// Whether logging in failed with a message, and nothing else changed.
pub open spec fn auth_failed(a: AdminApp, b: AdminApp, msg: Seq<char>) -> bool {
    b == (AdminApp { auth_id: None, pass_error: b.pass_error, ..a }) && b.pass_error@ == msg
}

// ── Answers ──────────────────────────────────────────────────────────────────

/// Whether the node could not be reached, and only that is noted.
pub open spec fn out_of_reach(a: AdminApp, b: AdminApp) -> bool {
    b == (AdminApp { flash: b.flash, ..a }) && b.flash@ == "Cannot reach the server. Is it running?"@
}

/// Whether a row is what a line of the index says.
pub open spec fn is_row(r: AppRow, line: Seq<char>) -> bool {
    let p = splitn(line, '\t', 5);
    r.name@ == field(p, 0) && r.url@ == field(p, 2) && r.author@ == field(p, 3)
}

/// The lines of the index that say where an app is.
pub open spec fn located_lines(ls: Seq<Seq<char>>) -> Seq<Seq<char>>
    decreases ls.len(),
{
    if ls.len() == 0 {
        Seq::empty()
    } else {
        let rest = located_lines(ls.drop_last());
        if trimmed(ls.last()).len() > 0 && field(splitn(ls.last(), '\t', 5), 2).len() > 0 {
            rest.push(ls.last())
        } else {
            rest
        }
    }
}

fn piece(p: &Vec<String>, i: usize) -> (r: String)
    ensures
        r@ == field(texts(p@), i as int),
{
    if i < p.len() {
        assert(texts(p@)[i as int] == p@[i as int]@);
        p[i].clone()
    } else {
        String::new()
    }
}

/// Reads the lines of an index.
pub fn parse_rows(body: &str) -> (r: Vec<AppRow>)
    ensures
        r@.len() == located_lines(lines(body@)).len(),
        forall|i: int|
            0 <= i < r@.len() ==> is_row(#[trigger] r@[i], located_lines(lines(body@))[i]),
{
    let ls = lines_of(body);
    let mut out: Vec<AppRow> = Vec::new();
    let mut i: usize = 0;
    let ghost all = texts(ls@);
    while i < ls.len()
        invariant
            i <= ls@.len(),
            all == texts(ls@),
            out@.len() == located_lines(all.take(i as int)).len(),
            forall|k: int|
                0 <= k < out@.len() ==> is_row(
                    #[trigger] out@[k],
                    located_lines(all.take(i as int))[k],
                ),
        decreases ls.len() - i,
    {
        assert(all.take(i + 1).drop_last() =~= all.take(i as int));
        assert(all.take(i + 1).last() == ls@[i as int]@);
        let p = split_str_n(ls[i].as_str(), '\t', 5);
        let name = piece(&p, 0);
        let url = piece(&p, 2);
        let author = piece(&p, 3);
        let ghost before = out@;
        if !trim(ls[i].as_str()).as_str().is_empty() && !url.as_str().is_empty() {
            out.push(AppRow { name, url, author });
            assert(forall|k: int| 0 <= k < before.len() ==> out@[k] == #[trigger] before[k]);
        }
        i += 1;
    }
    assert(all.take(i as int) =~= all);
    out
}

/// Whether the directory is what a reply says.
pub open spec fn is_directory(d: Directory, body: Seq<char>) -> bool {
    let p = splitn(first_line_of(body), '\t', 3);
    &&& d.url@ == field(p, 0)
    &&& d.published == (field(p, 1) == "true"@)
    &&& d.self_url@ == field(p, 2)
    &&& d.loaded
}

impl AdminApp {
    fn unreachable(&mut self)
        ensures
            out_of_reach(*old(self), *final(self)),
    {
        self.flash = "Cannot reach the server. Is it running?".to_owned();
    }

    /// The index came.
    pub fn apps_done(&mut self, ended: Ended)
        ensures
            ({
                let a = AdminApp { apps_id: None, ..*old(self) };
                let b = *final(self);
                match ended {
                    Ended::Failed => out_of_reach(a, b),
                    Ended::Done(body) => {
                        let ls = located_lines(lines(body@));
                        &&& b == (AdminApp { apps: b.apps, ..a })
                        &&& b.apps@.len() == ls.len()
                        &&& forall|i: int| 0 <= i < ls.len() ==> is_row(#[trigger] b.apps@[i], ls[i])
                    },
                }
            }),
    {
        self.apps_id = None;
        match ended {
            Ended::Failed => self.unreachable(),
            Ended::Done(body) => {
                self.apps = parse_rows(body.as_str());
            },
        }
    }

    /// The addresses published here came.
    pub fn mine_done(&mut self, ended: Ended)
        ensures
            ({
                let a = AdminApp { mine_id: None, ..*old(self) };
                let b = *final(self);
                match ended {
                    Ended::Failed => out_of_reach(a, b),
                    Ended::Done(body) => if is_refusal(body@) {
                        session_dropped(a, b)
                    } else {
                        b == (AdminApp { mine: b.mine, ..a }) && texts(b.mine@) == filled_lines(
                            lines(body@),
                        )
                    },
                }
            }),
    {
        self.mine_id = None;
        match ended {
            Ended::Failed => self.unreachable(),
            Ended::Done(body) => {
                if !self.handle_unauthorized(body.as_str()) {
                    self.mine = read_lines(body.as_str());
                }
            },
        }
    }

    /// The known peers came.
    pub fn peers_done(&mut self, ended: Ended)
        ensures
            ({
                let a = AdminApp { peers_id: None, ..*old(self) };
                let b = *final(self);
                match ended {
                    Ended::Failed => out_of_reach(a, b),
                    Ended::Done(body) => if is_refusal(body@) {
                        session_dropped(a, b)
                    } else {
                        b == (AdminApp { peers: b.peers, ..a }) && texts(b.peers@) == filled_lines(
                            lines(body@),
                        )
                    },
                }
            }),
    {
        self.peers_id = None;
        match ended {
            Ended::Failed => self.unreachable(),
            Ended::Done(body) => {
                if !self.handle_unauthorized(body.as_str()) {
                    self.peers = read_lines(body.as_str());
                }
            },
        }
    }

    /// The connected peers came.
    pub fn active_done(&mut self, ended: Ended)
        ensures
            ({
                let a = AdminApp { active_id: None, ..*old(self) };
                let b = *final(self);
                match ended {
                    Ended::Failed => out_of_reach(a, b),
                    Ended::Done(body) => if is_refusal(body@) {
                        session_dropped(a, b)
                    } else {
                        b == (AdminApp { active: b.active, ..a }) && texts(b.active@)
                            == filled_lines(lines(body@))
                    },
                }
            }),
    {
        self.active_id = None;
        match ended {
            Ended::Failed => self.unreachable(),
            Ended::Done(body) => {
                if !self.handle_unauthorized(body.as_str()) {
                    self.active = read_lines(body.as_str());
                }
            },
        }
    }

    /// What the node says of the public directory came.
    pub fn directory_done(&mut self, ended: Ended)
        ensures
            ({
                let a = AdminApp { dir_id: None, ..*old(self) };
                let b = *final(self);
                match ended {
                    Ended::Failed => out_of_reach(a, b),
                    Ended::Done(body) => if is_refusal(body@) {
                        session_dropped(a, b)
                    } else {
                        b == (AdminApp { directory: b.directory, ..a }) && is_directory(
                            b.directory,
                            body@,
                        )
                    },
                }
            }),
    {
        self.dir_id = None;
        match ended {
            Ended::Failed => self.unreachable(),
            Ended::Done(body) => {
                if !self.handle_unauthorized(body.as_str()) {
                    let line = first_line(body.as_str());
                    let p = split_str_n(line.as_str(), '\t', 3);
                    let url = piece(&p, 0);
                    let published = same(piece(&p, 1).as_str(), "true");
                    let self_url = piece(&p, 2);
                    self.directory = Directory { url, published, self_url, loaded: true };
                }
            },
        }
    }

    /// Whether the node searches by meaning came.
    pub fn ai_done(&mut self, ended: Ended)
        ensures
            ({
                let a = AdminApp { ai_id: None, ..*old(self) };
                let b = *final(self);
                match ended {
                    Ended::Failed => out_of_reach(a, b),
                    Ended::Done(body) => if is_refusal(body@) {
                        session_dropped(a, b)
                    } else {
                        b == (AdminApp { ai_on: Some(trimmed(body@) == "1"@), ..a })
                    },
                }
            }),
    {
        self.ai_id = None;
        match ended {
            Ended::Failed => self.unreachable(),
            Ended::Done(body) => {
                if !self.handle_unauthorized(body.as_str()) {
                    self.ai_on = Some(same(trim(body.as_str()).as_str(), "1"));
                }
            },
        }
    }

    /// The node answered a request to do something. Its message is shown, and everything
    /// is asked for again.
    pub fn action_done(&mut self, ended: Ended, out: &mut Vec<Request>)
        requires
            old(self).has_ids(6),
        ensures
            ({
                let a = AdminApp { act_id: None, ..*old(self) };
                let b = *final(self);
                match ended {
                    Ended::Failed => b == (AdminApp { flash: b.flash, ..a }) && b.flash@
                        == "Request failed. Is the server running?"@ && asks(final(out)@) == asks(
                        old(out)@,
                    ),
                    Ended::Done(body) => if is_refusal(body@) {
                        session_dropped(a, b) && asks(final(out)@) == asks(old(out)@)
                    } else {
                        let c = AdminApp { flash: b.flash, ..a };
                        &&& b.flash@ == match meaning(body@) {
                            Meaning::Yes(m) => m,
                            Meaning::No(m) => m,
                            Meaning::Unclear(l) => if l.len() == 0 {
                                "Done."@
                            } else {
                                l
                            },
                        }
                        &&& b == refreshed(c)
                        &&& asks(final(out)@) == asks(old(out)@) + refresh_asks(c)
                    },
                }
            }),
    {
        self.act_id = None;
        match ended {
            Ended::Failed => {
                self.flash = "Request failed. Is the server running?".to_owned();
            },
            Ended::Done(body) => {
                if self.handle_unauthorized(body.as_str()) {
                    return;
                }
                self.flash = match read_verdict(body.as_str()) {
                    Verdict::Yes(m) => m,
                    Verdict::No(m) => m,
                    Verdict::Unclear(l) => if l.as_str().is_empty() {
                        "Done.".to_owned()
                    } else {
                        l
                    },
                };
                self.refresh(out);
            },
        }
    }

    /// Clears the message that is shown.
    pub fn clear_flash(&mut self)
        ensures
            *final(self) == (AdminApp { flash: final(self).flash, ..*old(self) }),
            final(self).flash@.len() == 0,
    {
        self.flash = String::new();
    }

    /// Shows a tab.
    pub fn show_tab(&mut self, t: AdminTab)
        ensures
            *final(self) == (AdminApp { tab: t, ..*old(self) }),
    {
        self.tab = t;
    }

    /// Flips the switch for search by meaning, once its state is known.
    pub fn toggle_ai(&mut self, out: &mut Vec<Request>)
        requires
            old(self).has_ids(1),
        ensures
            match old(self).ai_on {
                None => *final(self) == *old(self) && asks(final(out)@) == asks(old(out)@),
                Some(on) => *final(self) == (AdminApp {
                    next_id: (old(self).next_id + 1) as i32,
                    act_id: Some(old(self).next_id),
                    flash: final(self).flash,
                    ..*old(self)
                }) && final(self).flash@ == "Working…"@ && asks(final(out)@) == asks(old(out)@).push(
                    Ask::Post(
                        old(self).next_id,
                        old(self).guarded_url("/api/admin/ai"@),
                        if on {
                            "0"@
                        } else {
                            "1"@
                        },
                    ),
                ),
            },
    {
        match self.ai_on {
            None => {},
            Some(on) => self.action(
                "/api/admin/ai",
                if on {
                    "0"
                } else {
                    "1"
                },
                out,
            ),
        }
    }

    /// Whether an app was published here, and so can be deleted here.
    pub fn owns(&self, url: &str) -> (r: bool)
        ensures
            r == texts(self.mine@).contains(url@),
    {
        has_name(&self.mine, url)
    }

    /// Whether a peer is connected.
    pub fn is_live(&self, peer: &str) -> (r: bool)
        ensures
            r == texts(self.active@).contains(peer@),
    {
        has_name(&self.active, peer)
    }

    /// Deletes an app: only one that was published here, and not while the node is busy.
    pub fn delete(&mut self, url: &str, out: &mut Vec<Request>)
        requires
            old(self).has_ids(1),
        ensures
            texts(old(self).mine@).contains(url@) && old(self).act_id is None ==> asks(final(out)@)
                == asks(old(out)@).push(
                Ask::Post(old(self).next_id, old(self).guarded_url("/api/revoke"@), url@),
            ) && *final(self) == (AdminApp {
                next_id: (old(self).next_id + 1) as i32,
                act_id: Some(old(self).next_id),
                flash: final(self).flash,
                ..*old(self)
            }) && final(self).flash@ == "Working…"@,
            !(texts(old(self).mine@).contains(url@) && old(self).act_id is None) ==> *final(self)
                == *old(self) && asks(final(out)@) == asks(old(out)@),
    {
        if self.owns(url) && !self.busy() {
            self.action("/api/revoke", url, out);
        }
    }

    /// Returns how many peers are connected, in words.
    pub fn peers_text(&self) -> (r: String)
        ensures
            r@ == peers_words(self.active@.len(), self.peers@.len()),
    {
        let mut r = format_u64(self.active.len() as u64);
        r.append(" of ");
        r.append(format_u64(self.peers.len() as u64).as_str());
        r.append(" connected");
        r
    }
}

/// Everything that is shown is asked for with the session at the end of the address.
pub proof fn lemma_refresh_carries_the_session(a: AdminApp, i: int)
    requires
        0 <= i < 6,
    ensures
        refresh_asks(a)[i] matches Ask::Get(_, u) && ends_in(u, "?token="@ + a.session@),
{
    let paths = seq![
        "/api/apps"@,
        "/api/mine"@,
        "/api/peers"@,
        "/api/peers/active"@,
        "/api/directory"@,
        "/api/admin/ai"@,
    ];
    let u = a.guarded_url(paths[i]);
    let end = "?token="@ + a.session@;
    assert(refresh_asks(a)[i] == Ask::Get((a.next_id + i) as i32, u));
    assert(u.subrange(u.len() - end.len(), u.len() as int) =~= end);
}

/// What a node shows of an entry is what the operator sees of it: its name, its address and
/// its author.
pub proof fn lemma_shown_entry_is_a_row(e: Entry, q: Seq<char>, r: AppRow)
    requires
        !e.name.contains('\t') && !e.desc.contains('\t') && !e.url.contains('\t'),
        !e.author.contains('\t'),
        is_row(r, shown(e, q)),
    ensures
        r.name@ == e.name && r.url@ == e.url && r.author@ == e.author,
{
    reveal_strlit("\t");
    let tab = "\t"@;
    assert(tab =~= seq!['\t']);
    let rest = e.tags + tab + best_chunk_of(e.doc_snippet, q);
    let s1 = e.name + tab + e.desc;
    let s2 = s1 + tab + e.url;
    let s3 = s2 + tab + e.author;
    lemma_splitn_none(e.name, '\t', 5);
    lemma_splitn_push(e.name, '\t', 5, e.desc);
    lemma_splitn_push(s1, '\t', 5, e.url);
    lemma_splitn_push(s2, '\t', 5, e.author);
    lemma_splitn_rest(s3, '\t', 5, rest);
    assert(shown(e, q) =~= s3 + tab + rest);
}

/// The lines that are read are those that name an address, in their order.
pub proof fn lemma_located_lines(a: Seq<Seq<char>>, b: Seq<Seq<char>>, line: Seq<char>)
    ensures
        located_lines(a + b) == located_lines(a) + located_lines(b),
        located_lines(seq![line]) == if trimmed(line).len() > 0 && field(
            splitn(line, '\t', 5),
            2,
        ).len() > 0 {
            seq![line]
        } else {
            Seq::empty()
        },
    decreases b.len(),
{
    assert(seq![line].drop_last() =~= Seq::<Seq<char>>::empty());
    assert(located_lines(Seq::<Seq<char>>::empty()) =~= Seq::empty());
    assert(Seq::<Seq<char>>::empty().push(line) =~= seq![line]);
    if b.len() == 0 {
        assert(a + b =~= a);
        assert(located_lines(a) + located_lines(b) =~= located_lines(a));
    } else {
        assert((a + b).drop_last() =~= a + b.drop_last());
        lemma_located_lines(a, b.drop_last(), line);
        assert(located_lines(a + b) =~= located_lines(a) + located_lines(b));
    }
}

/// A refresh waits for each of its six answers under the number it was asked with, and no
/// two share one.
pub proof fn lemma_refresh_waits_for_its_answers(a: AdminApp)
    requires
        a.has_ids(6),
    ensures
        ({
            let b = refreshed(a);
            let q = refresh_asks(a);
            &&& q.len() == 6
            &&& q[0] == Ask::Get(b.apps_id->0, a.guarded_url("/api/apps"@))
            &&& q[1] == Ask::Get(b.mine_id->0, a.guarded_url("/api/mine"@))
            &&& q[2] == Ask::Get(b.peers_id->0, a.guarded_url("/api/peers"@))
            &&& q[3] == Ask::Get(b.active_id->0, a.guarded_url("/api/peers/active"@))
            &&& q[4] == Ask::Get(b.dir_id->0, a.guarded_url("/api/directory"@))
            &&& q[5] == Ask::Get(b.ai_id->0, a.guarded_url("/api/admin/ai"@))
            &&& a.next_id <= b.apps_id->0 < b.mine_id->0 < b.peers_id->0 < b.active_id->0
                < b.dir_id->0 < b.ai_id->0 < b.next_id
        }),
{
}

/// A password is taken exactly where it is long enough and, if it has to be typed again, was
/// typed the same twice.
pub proof fn lemma_password_is_taken(pass: Seq<char>, again: Seq<char>)
    ensures
        password_flaw(pass, None) is None <==> pass.len() >= 8,
        password_flaw(pass, Some(again)) is None <==> pass.len() >= 8 && again == pass,
{
}

/// A session that the node does not know any more is given up, and the operator is asked to
/// log in.
pub proof fn lemma_refused_session_is_given_up(a: AdminApp, b: AdminApp)
    requires
        session_dropped(a, b),
    ensures
        is_refusal("unauthorized"@),
        b.session@.len() == 0,
        b.stage == Stage::Login,
        b.server == a.server && b.next_id == a.next_id && b.tab == a.tab && b.apps == a.apps,
{
    reveal_strlit("unauthorized");
    lemma_trim_fixed("unauthorized"@);
}

/// What a node tells of the directory is what the operator sees: its address, whether the
/// node is listed, and the node's own address.
pub proof fn lemma_told_directory_is_shown(
    d: Directory,
    directory: Seq<char>,
    published: bool,
    self_url: Seq<char>,
)
    requires
        !directory.contains('\t') && !directory.contains('\n') && !self_url.contains('\n'),
        self_url.len() > 0,
        is_directory(
            d,
            directory + "\t"@ + (if published {
                "true"@
            } else {
                "false"@
            }) + "\t"@ + self_url,
        ),
    ensures
        d.url@ == directory,
        d.published == published,
        d.self_url@ == self_url,
        d.loaded,
{
    reveal_strlit("\t");
    reveal_strlit("true");
    reveal_strlit("false");
    let tab = "\t"@;
    assert(tab =~= seq!['\t']);
    let p = if published {
        "true"@
    } else {
        "false"@
    };
    assert(!p.contains('\t') && !p.contains('\n') && !tab.contains('\n'));
    let s = directory + tab + p + tab + self_url;
    lemma_absent_in_sum(directory, tab, '\n');
    lemma_absent_in_sum(directory + tab, p, '\n');
    lemma_absent_in_sum(directory + tab + p, tab, '\n');
    lemma_absent_in_sum(directory + tab + p + tab, self_url, '\n');
    lemma_split_none(s, '\n');
    assert(lines(s)[0] == s);
    lemma_splitn_none(directory, '\t', 3);
    lemma_splitn_push(directory, '\t', 3, p);
    lemma_splitn_rest(directory + tab + p, '\t', 3, self_url);
    assert("true"@.len() == 4 && "false"@.len() == 5);
}

/// Failing to log in or to reach the node is told, and changes nothing else that is shown.
pub proof fn lemma_failures_are_told(a: AdminApp, b: AdminApp, c: AdminApp, msg: Seq<char>)
    requires
        auth_failed(a, b, msg),
        out_of_reach(a, c),
    ensures
        b.auth_id is None && b.pass_error@ == msg && b.stage == a.stage && b.session == a.session
            && b.flash == a.flash && b.apps == a.apps,
        c.flash@.len() > 0 && c.stage == a.stage && c.session == a.session && c.apps == a.apps
            && c.peers == a.peers && c.pass_error == a.pass_error,
{
    reveal_strlit("Cannot reach the server. Is it running?");
}

} // verus!

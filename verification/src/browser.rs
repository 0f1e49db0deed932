//! The window around an app: which address it shows, what it waits for, and the question
//! that the first launch asks.
use vstd::prelude::*;
use crate::admin::{read_switch, switch_asked};
use crate::nav::{
    has_back, has_forward, home, home_url, is_remote, screen, stepped_back, stepped_forward, visited,
    Nav, NavRequest, Screen, Trail,
};
use crate::nav::lemma_back_leads_to_the_one_before;
use crate::text::{begins_with, lemma_trim_fixed, texts, trim, trimmed};

verus! {

/// An app that is to be loaded.
pub enum Load {
    /// From the network, in the background.
    Fetch(String),
    /// From a file, at once.
    Open(String),
}

/// Whether a load is the one for an address.
pub open spec fn loads(l: Load, url: Seq<char>) -> bool {
    if begins_with(url, "http://"@) || begins_with(url, "https://"@) {
        l matches Load::Fetch(u) && u@ == url
    } else {
        l matches Load::Open(u) && u@ == url
    }
}

/// How a load ended.
pub enum Arrival {
    App,
    Failed(String),
    /// Whoever loaded it is gone.
    Nothing,
}

/// The state of the window.
pub struct Browser {
    pub nav: Nav,
    pub loading: bool,
    pub error: Option<String>,
    pub has_app: bool,
    /// What stands in the address field.
    pub path_input: String,
    /// The address to go to once the question about semantic search is answered.
    pub pending_setup: Option<String>,
    /// The answer; nothing while it was not given.
    pub ai: Option<bool>,
}

impl Browser {
    pub open spec fn wf(self) -> bool {
        self.nav.wf()
    }

    /// Whether the window has let go of what it showed and turned to an address.
    pub open spec fn turned_to(self, before: Browser, trail: Trail, url: Seq<char>) -> bool {
        let remote = begins_with(url, "http://"@) || begins_with(url, "https://"@);
        &&& self.nav@ == trail
        &&& self.path_input@ == url
        &&& self.loading == remote
        &&& self.error is None
        &&& !self.has_app
        &&& self.ai == before.ai
    }

    /// Whether the window has moved along the history, and what that loads. `can` says
    /// whether there was a step to take, and `trail` where it leads.
    pub open spec fn moved(self, before: Browser, can: bool, trail: Trail, r: Option<Load>) -> bool {
        if can {
            let u = trail.history[trail.pos->0];
            (r matches Some(l) && loads(l, u)) && self.turned_to(before, trail, u)
                && self.pending_setup == before.pending_setup
        } else {
            r is None && self == before
        }
    }

    fn turn(&mut self, url: &str) -> (l: Load)
        requires
            old(self).wf(),
        ensures
            final(self).wf(),
            loads(l, url@),
            final(self).turned_to(*old(self), old(self).nav@, url@),
            final(self).pending_setup == old(self).pending_setup,
    {
        self.error = None;
        self.has_app = false;
        self.path_input = url.to_owned();
        if is_remote(url) {
            self.loading = true;
            Load::Fetch(url.to_owned())
        } else {
            self.loading = false;
            Load::Open(url.to_owned())
        }
    }

    /// Goes to an address, which becomes the last of the history.
    pub fn load_url(&mut self, url: &str) -> (l: Load)
        requires
            old(self).wf(),
        ensures
            final(self).wf(),
            loads(l, url@),
            final(self).turned_to(*old(self), visited(old(self).nav@, url@), url@),
            final(self).pending_setup == old(self).pending_setup,
    {
        self.nav.push(url);
        self.turn(url)
    }

    /// Goes to the address in the address field.
    pub fn load(&mut self) -> (l: Load)
        requires
            old(self).wf(),
        ensures
            final(self).wf(),
            loads(l, trimmed(old(self).path_input@)),
            final(self).turned_to(
                *old(self),
                visited(old(self).nav@, trimmed(old(self).path_input@)),
                trimmed(old(self).path_input@),
            ),
            final(self).pending_setup == old(self).pending_setup,
    {
        let url = trim(self.path_input.as_str());
        self.load_url(url.as_str())
    }

    /// The beginning of a session: at the address that was given, or at home. Where the
    /// question about semantic search was not answered yet, it comes first.
    pub fn new(
        history: Vec<String>,
        given: &Option<String>,
        address: &Option<String>,
        server: &Option<String>,
        ai_file: &Option<String>,
    ) -> (r: (Browser, Option<Load>))
        ensures
            r.0.wf(),
            ({
                let start = match given {
                    Some(u) => u@,
                    None => home(*address, *server),
                };
                let answer = match ai_file {
                    Some(t) => switch_asked(t@),
                    None => None,
                };
                let none = Trail { history: texts(history@), pos: None };
                let b = r.0;
                &&& b.ai == answer
                &&& match answer {
                    Some(_) => b.pending_setup is None && b.turned_to(b, visited(none, start), start)
                        && (r.1 matches Some(l) && loads(l, start)),
                    None => b.pending_setup matches Some(u) && u@ == start && b.nav@ == none
                        && !b.loading && b.error is None && !b.has_app && b.path_input@.len() == 0
                        && r.1 is None,
                }
            }),
    {
        let start = match given {
            Some(u) => u.clone(),
            None => home_url(address, server),
        };
        let ai = match ai_file {
            Some(t) => read_switch(t.as_str()),
            None => None,
        };
        let mut b = Browser {
            nav: Nav::new(history),
            loading: false,
            error: None,
            has_app: false,
            path_input: String::new(),
            pending_setup: None,
            ai,
        };
        if ai.is_some() {
            let l = b.load_url(start.as_str());
            (b, Some(l))
        } else {
            b.pending_setup = Some(start);
            (b, None)
        }
    }

    /// Answers the question about semantic search, or flips the answer later. Returns what
    /// to write down, and the address that waited for the answer.
    pub fn choose_ai(&mut self, enabled: bool) -> (r: (String, Option<Load>))
        requires
            old(self).wf(),
        ensures
            final(self).wf(),
            final(self).ai == Some(enabled),
            final(self).pending_setup is None,
            switch_asked(r.0@) == Some(enabled),
            r.0@ == if enabled {
                "1"@
            } else {
                "0"@
            },
            match old(self).pending_setup {
                Some(u) => (r.1 matches Some(l) && loads(l, u@)) && final(self).turned_to(
                    (Browser { ai: Some(enabled), ..*old(self) }),
                    visited(old(self).nav@, u@),
                    u@,
                ),
                None => r.1 is None && *final(self) == (Browser {
                    ai: Some(enabled),
                    pending_setup: None,
                    ..*old(self)
                }),
            },
    {
        let text = if enabled {
            "1".to_owned()
        } else {
            "0".to_owned()
        };
        proof {
            lemma_question_is_asked_once(enabled);
        }
        self.ai = Some(enabled);
        match self.pending_setup.take() {
            Some(u) => {
                let l = self.load_url(u.as_str());
                (text, Some(l))
            },
            None => (text, None),
        }
    }

    /// Whether semantic search is in use: as long as nobody said no.
    pub fn ai_on(&self) -> (r: bool)
        ensures
            r == (self.ai != Some(false)),
    {
        match self.ai {
            Some(b) => b,
            None => true,
        }
    }

    /// Goes one step back.
    pub fn nav_back(&mut self) -> (r: Option<Load>)
        requires
            old(self).wf(),
        ensures
            final(self).wf(),
            final(self).moved(
                *old(self),
                has_back(old(self).nav@),
                stepped_back(old(self).nav@),
                r,
            ),
    {
        if !self.nav.can_back() {
            return None;
        }
        match self.nav.back() {
            Some(u) => Some(self.turn(u.as_str())),
            None => None,
        }
    }

    /// Goes one step forward.
    pub fn nav_forward(&mut self) -> (r: Option<Load>)
        requires
            old(self).wf(),
        ensures
            final(self).wf(),
            final(self).moved(
                *old(self),
                has_forward(old(self).nav@),
                stepped_forward(old(self).nav@),
                r,
            ),
    {
        if !self.nav.can_forward() {
            return None;
        }
        match self.nav.forward() {
            Some(u) => Some(self.turn(u.as_str())),
            None => None,
        }
    }

    /// Follows the request that an app made in a frame. Returns whether there was one, in
    /// which case the frame no longer belongs to the app, and what to load.
    pub fn follow(&mut self, req: &Option<NavRequest>) -> (r: (bool, Option<Load>))
        requires
            old(self).wf(),
        ensures
            final(self).wf(),
            r.0 == req is Some,
            match req {
                None => r.1 is None && *final(self) == *old(self),
                Some(NavRequest::Push(u)) => (r.1 matches Some(l) && loads(l, u@))
                    && final(self).turned_to(*old(self), visited(old(self).nav@, u@), u@)
                    && final(self).pending_setup == old(self).pending_setup,
                Some(NavRequest::Back) => final(self).moved(
                    *old(self),
                    has_back(old(self).nav@),
                    stepped_back(old(self).nav@),
                    r.1,
                ),
                Some(NavRequest::Forward) => final(self).moved(
                    *old(self),
                    has_forward(old(self).nav@),
                    stepped_forward(old(self).nav@),
                    r.1,
                ),
            },
    {
        match req {
            None => (false, None),
            Some(NavRequest::Push(u)) => {
                let l = self.load_url(u.as_str());
                (true, Some(l))
            },
            Some(NavRequest::Back) => {
                let l = self.nav_back();
                (true, l)
            },
            Some(NavRequest::Forward) => {
                let l = self.nav_forward();
                (true, l)
            },
        }
    }

    /// Takes note of how a load ended.
    pub fn arrived(&mut self, a: Arrival)
        requires
            old(self).wf(),
        ensures
            final(self).wf(),
            *final(self) == (match a {
                Arrival::App => Browser { loading: false, has_app: true, ..*old(self) },
                Arrival::Failed(m) => Browser { loading: false, error: Some(m), ..*old(self) },
                Arrival::Nothing => Browser { loading: false, ..*old(self) },
            }),
    {
        self.loading = false;
        match a {
            Arrival::App => {
                self.has_app = true;
            },
            Arrival::Failed(m) => {
                self.error = Some(m);
            },
            Arrival::Nothing => {},
        }
    }

    /// Takes note that an app broke off in a frame: it is let go.
    pub fn broke(&mut self, why: String)
        requires
            old(self).wf(),
        ensures
            final(self).wf(),
            *final(self) == (Browser { has_app: false, error: Some(why), ..*old(self) }),
    {
        self.error = Some(why);
        self.has_app = false;
    }

    /// What fills the window.
    pub fn shown(&self) -> (s: Screen)
        ensures
            s == if self.pending_setup is Some {
                Screen::Setup
            } else if self.loading {
                Screen::Loading
            } else if self.error is Some {
                Screen::Failed
            } else if self.has_app {
                Screen::App
            } else {
                Screen::Welcome
            },
    {
        screen(self.pending_setup.is_some(), self.loading, self.error.is_some(), self.has_app)
    }
}

/// The question of the first launch is asked once: what is written down when it is answered
/// answers it in every later session.
pub proof fn lemma_question_is_asked_once(enabled: bool)
    ensures
        switch_asked(
            if enabled {
                "1"@
            } else {
                "0"@
            },
        ) == Some(enabled),
{
    reveal_strlit("1");
    reveal_strlit("0");
    lemma_trim_fixed("1"@);
    lemma_trim_fixed("0"@);
    assert("1"@[0] != "0"@[0]);
}

/// What is on the web is fetched, everything else is opened as a file.
pub proof fn lemma_web_addresses_are_fetched(l: Load, url: Seq<char>)
    requires
        loads(l, url),
    ensures
        l is Fetch <==> begins_with(url, "http://"@) || begins_with(url, "https://"@),
        l matches Load::Fetch(u) ==> u@ == url,
        l matches Load::Open(u) ==> u@ == url,
{
}

/// After going to one address and then to another, going back loads the first one again and
/// shows its address, and going forward the second one.
pub proof fn lemma_going_back_and_forward(
    b0: Browser,
    b1: Browser,
    b2: Browser,
    b3: Browser,
    b4: Browser,
    first: Seq<char>,
    second: Seq<char>,
    back: Option<Load>,
    forward: Option<Load>,
)
    requires
        b0.wf(),
        b1.turned_to(b0, visited(b0.nav@, first), first),
        b2.turned_to(b1, visited(b1.nav@, second), second),
        b3.moved(b2, has_back(b2.nav@), stepped_back(b2.nav@), back),
        b4.moved(b3, has_forward(b3.nav@), stepped_forward(b3.nav@), forward),
    ensures
        b1.path_input@ == first && b2.path_input@ == second,
        back matches Some(l) && loads(l, first),
        b3.path_input@ == first && !b3.has_app && b3.error is None,
        forward matches Some(l) && loads(l, second),
        b4.path_input@ == second && !b4.has_app && b4.error is None,
{
    lemma_back_leads_to_the_one_before(b0.nav@, first, second, first);
}

} // verus!

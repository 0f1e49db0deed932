//! Moving between apps: the history, where the user is in it, and where a session
//! begins.
use vstd::prelude::*;
use vstd::string::StringExecFns;
use crate::text::{begins_with, is_line, lemma_rows_round_trip, rows_text};
use crate::text::{lines, lines_of, starts_with, texts, trim, trim_trailing, trimmed, without_trailing};
use crate::widget::WidgetCmd;

verus! {

/// The addresses that were visited, and the position of the one that is shown.
pub struct Nav {
    pub history: Vec<String>,
    /// Nothing before the first app of this session.
    pub pos: Option<usize>,
}

/// The content of a [`Nav`].
#[verifier::ext_equal]
pub struct Trail {
    pub history: Seq<Seq<char>>,
    pub pos: Option<int>,
}

impl View for Nav {
    type V = Trail;

    open spec fn view(&self) -> Trail {
        Trail {
            history: texts(self.history@),
            pos: match self.pos {
                Some(p) => Some(p as int),
                None => None,
            },
        }
    }
}

/// Whether the position is one of the history.
pub open spec fn on_trail(t: Trail) -> bool {
    t.pos matches Some(p) ==> 0 <= p < t.history.len()
}

/// The history after going to an address: what lay ahead is forgotten.
pub open spec fn visited(t: Trail, url: Seq<char>) -> Trail {
    let kept = match t.pos {
        Some(p) => t.history.take(p + 1),
        None => t.history,
    };
    Trail { history: kept.push(url), pos: Some(kept.len() as int) }
}

/// Whether there is an address before the one that is shown.
pub open spec fn has_back(t: Trail) -> bool {
    t.pos matches Some(p) && p > 0
}

/// Whether there is an address after the one that is shown.
pub open spec fn has_forward(t: Trail) -> bool {
    t.pos matches Some(p) && p + 1 < t.history.len()
}

/// The history one step back, or as it is where there is none.
pub open spec fn stepped_back(t: Trail) -> Trail {
    if has_back(t) {
        Trail { pos: Some(t.pos->0 - 1), ..t }
    } else {
        t
    }
}

/// The history one step forward, or as it is where there is none.
pub open spec fn stepped_forward(t: Trail) -> Trail {
    if has_forward(t) {
        Trail { pos: Some(t.pos->0 + 1), ..t }
    } else {
        t
    }
}

/// A request to move, made by an app.
pub enum NavRequest {
    Push(String),
    Back,
    Forward,
}

impl Nav {
    /// Whether the position is one of the history.
    pub open spec fn wf(self) -> bool {
        on_trail(self@)
    }

    /// A session that begins with the history of earlier ones.
    pub fn new(history: Vec<String>) -> (r: Nav)
        ensures
            r.wf(),
            r@ == (Trail { history: texts(history@), pos: None }),
    {
        Nav { history, pos: None }
    }

    /// Goes to an address.
    pub fn push(&mut self, url: &str)
        requires
            old(self).wf(),
        ensures
            final(self).wf(),
            final(self)@ == visited(old(self)@, url@),
    {
        let ghost before = self@;
        match self.pos {
            Some(p) => {
                let len: usize = self.history.len();
                assert(p < len);
                self.history.truncate(p + 1);
                assert(texts(self.history@) =~= before.history.take(p + 1));
            },
            None => {},
        }
        let ghost kept = texts(self.history@);
        self.history.push(url.to_owned());
        assert(texts(self.history@) =~= kept.push(url@));
        self.pos = Some(self.history.len() - 1);
        assert(self@ =~= visited(before, url@));
    }

    /// Whether there is an address before the one that is shown.
    pub fn can_back(&self) -> (r: bool)
        ensures
            r == has_back(self@),
    {
        match self.pos {
            Some(p) => p > 0,
            None => false,
        }
    }

    /// Whether there is an address after the one that is shown.
    pub fn can_forward(&self) -> (r: bool)
        requires
            self.wf(),
        ensures
            r == has_forward(self@),
    {
        match self.pos {
            Some(p) => p < self.history.len() - 1,
            None => false,
        }
    }

    /// Goes one step back. Returns the address to load.
    pub fn back(&mut self) -> (r: Option<String>)
        requires
            old(self).wf(),
        ensures
            final(self).wf(),
            final(self)@ == stepped_back(old(self)@),
            match r {
                Some(u) => has_back(old(self)@) && u@ == final(self)@.history[final(self)@.pos->0],
                None => !has_back(old(self)@),
            },
    {
        match self.pos {
            Some(p) => {
                if p > 0 {
                    self.pos = Some(p - 1);
                    let u = self.history[p - 1].clone();
                    assert(u@ == texts(self.history@)[p - 1]);
                    return Some(u);
                }
                None
            },
            None => None,
        }
    }

    /// Goes one step forward. Returns the address to load.
    pub fn forward(&mut self) -> (r: Option<String>)
        requires
            old(self).wf(),
        ensures
            final(self).wf(),
            final(self)@ == stepped_forward(old(self)@),
            match r {
                Some(u) => has_forward(old(self)@) && u@
                    == final(self)@.history[final(self)@.pos->0],
                None => !has_forward(old(self)@),
            },
    {
        match self.pos {
            Some(p) => {
                if p < self.history.len() - 1 {
                    self.pos = Some(p + 1);
                    let u = self.history[p + 1].clone();
                    assert(u@ == texts(self.history@)[p + 1]);
                    return Some(u);
                }
                None
            },
            None => None,
        }
    }

    /// The address with a number in the history, as an app asks for it.
    pub fn entry(&self, idx: i32) -> (r: Option<String>)
        ensures
            match r {
                Some(u) => 0 <= idx < self@.history.len() && u@ == self@.history[idx as int],
                None => !(0 <= idx < self@.history.len()),
            },
    {
        if idx >= 0 && (idx as usize) < self.history.len() {
            let u = self.history[idx as usize].clone();
            assert(u@ == texts(self.history@)[idx as int]);
            Some(u)
        } else {
            None
        }
    }
}

/// Going back and then forward leads to where one was.
pub proof fn lemma_back_then_forward(t: Trail)
    requires
        on_trail(t),
        has_back(t),
    ensures
        stepped_forward(stepped_back(t)) == t,
{
}

/// Going forward and then back leads to where one was.
pub proof fn lemma_forward_then_back(t: Trail)
    requires
        on_trail(t),
        has_forward(t),
    ensures
        stepped_back(stepped_forward(t)) == t,
{
}

/// After going to an address it is the one shown, nothing lies ahead, and going back
/// leads to the address that was shown before.
pub proof fn lemma_visit(t: Trail, url: Seq<char>)
    requires
        on_trail(t),
    ensures
        on_trail(visited(t, url)),
        visited(t, url).history[visited(t, url).pos->0] == url,
        !has_forward(visited(t, url)),
        t.pos is Some ==> ({
            let b = stepped_back(visited(t, url));
            b.pos == t.pos && b.history[b.pos->0] == t.history[t.pos->0]
        }),
{
}

/// The lines that are not empty, as they are.
pub open spec fn nonempty(ls: Seq<Seq<char>>) -> Seq<Seq<char>>
    decreases ls.len(),
{
    if ls.len() == 0 {
        Seq::empty()
    } else if ls.last().len() > 0 {
        nonempty(ls.drop_last()).push(ls.last())
    } else {
        nonempty(ls.drop_last())
    }
}

/// Reads the file of visited addresses: one for each line that is not empty.
pub fn read_history(file: &str) -> (r: Vec<String>)
    ensures
        texts(r@) == nonempty(lines(file@)),
{
    let ls = lines_of(file);
    let mut out: Vec<String> = Vec::new();
    let mut i: usize = 0;
    let ghost all = texts(ls@);
    assert(texts(out@) =~= nonempty(all.take(0)));
    while i < ls.len()
        invariant
            i <= ls@.len(),
            all == texts(ls@),
            texts(out@) == nonempty(all.take(i as int)),
        decreases ls.len() - i,
    {
        assert(all.take(i + 1).drop_last() =~= all.take(i as int));
        assert(all.take(i + 1).last() == ls@[i as int]@);
        if !ls[i].as_str().is_empty() {
            let ghost before = texts(out@);
            let l = ls[i].clone();
            out.push(l);
            assert(texts(out@) =~= before.push(l@));
        }
        i += 1;
    }
    assert(all.take(i as int) =~= all);
    out
}

/// Where a session begins when nothing else is said.
pub open spec fn public_home() -> Seq<char> {
    "https://bootstrap.annessaia.workers.dev/search.wasm"@
}

/// The text of a setting; empty where it is not set.
pub open spec fn setting(v: Option<String>) -> Seq<char> {
    match v {
        Some(s) => trimmed(s@),
        None => Seq::empty(),
    }
}

/// Where a session begins: at the given address, or at the search app of the given
/// node, or at the public one.
pub open spec fn home(address: Option<String>, server: Option<String>) -> Seq<char> {
    if setting(address).len() > 0 {
        setting(address)
    } else if without_trailing(setting(server), '/').len() > 0 {
        without_trailing(setting(server), '/') + "/search.wasm"@
    } else {
        public_home()
    }
}

/// Returns where a session begins.
pub fn home_url(address: &Option<String>, server: &Option<String>) -> (r: String)
    ensures
        r@ == home(*address, *server),
{
    match address {
        Some(a) => {
            let h = trim(a.as_str());
            if !h.as_str().is_empty() {
                return h;
            }
        },
        None => {},
    }
    match server {
        Some(s) => {
            let t = trim(s.as_str());
            let mut h = trim_trailing(t.as_str(), '/');
            if !h.as_str().is_empty() {
                h.append("/search.wasm");
                return h;
            }
        },
        None => {},
    }
    assert(without_trailing(Seq::<char>::empty(), '/').len() == 0);
    "https://bootstrap.annessaia.workers.dev/search.wasm".to_owned()
}

/// Whether an address is fetched over the network, and not read from a file.
pub fn is_remote(url: &str) -> (r: bool)
    ensures
        r == (begins_with(url@, "http://"@) || begins_with(url@, "https://"@)),
{
    starts_with(url, "http://") || starts_with(url, "https://")
}

/// What fills the window.
#[derive(Clone, Copy, Debug, PartialEq, Eq, Structural)]
pub enum Screen {
    /// The question whether to enable semantic search.
    Setup,
    Loading,
    Failed,
    Welcome,
    App,
}

/// What fills the window: the question that is open, then a load in progress, then a
/// failure, then the app.
pub fn screen(asking: bool, loading: bool, failed: bool, has_app: bool) -> (s: Screen)
    ensures
        s == if asking {
            Screen::Setup
        } else if loading {
            Screen::Loading
        } else if failed {
            Screen::Failed
        } else if has_app {
            Screen::App
        } else {
            Screen::Welcome
        },
{
    if asking {
        Screen::Setup
    } else if loading {
        Screen::Loading
    } else if failed {
        Screen::Failed
    } else if has_app {
        Screen::App
    } else {
        Screen::Welcome
    }
}

// ── Pictures of a frame ──────────────────────────────────────────────────────

/// Whether a widget draws the picture with a number.
pub open spec fn shows_image(c: WidgetCmd, id: i32) -> bool {
    c matches WidgetCmd::Image { id: i, .. } && i == id
}

/// Whether a list grows from each number to the next.
pub open spec fn increasing(v: Seq<i32>) -> bool {
    forall|i: int, j: int| 0 <= i < j < v.len() ==> v[i] < v[j]
}

/// Puts a number in its place in a growing list, unless it is there.
fn insert_sorted(v: &mut Vec<i32>, x: i32)
    requires
        increasing(old(v)@),
    ensures
        increasing(final(v)@),
        forall|y: i32| #[trigger] final(v)@.contains(y) <==> old(v)@.contains(y) || y == x,
{
    let ghost before = v@;
    let mut at: usize = 0;
    while at < v.len() && v[at] < x
        invariant
            at <= v@.len(),
            v@ == before,
            forall|j: int| 0 <= j < at ==> v@[j] < x,
        decreases v.len() - at,
    {
        at += 1;
    }
    if at < v.len() && v[at] == x {
        return;
    }
    v.insert(at, x);
    proof {
        let now = v@;
        assert(now[at as int] == x);
        assert forall|j: int| 0 <= j < now.len() implies #[trigger] now[j] == if j < at {
            before[j]
        } else if j == at {
            x
        } else {
            before[j - 1]
        } by {}
        assert forall|y: i32| #[trigger] now.contains(y) <==> before.contains(y) || y == x by {
            if before.contains(y) {
                let j = choose|j: int| 0 <= j < before.len() && before[j] == y;
                if j < at {
                    assert(now[j] == y);
                } else {
                    assert(now[j + 1] == y);
                }
            }
            if now.contains(y) {
                let j = choose|j: int| 0 <= j < now.len() && now[j] == y;
                if j < at {
                    assert(before[j] == y);
                } else if j > at {
                    assert(before[j - 1] == y);
                }
            }
        }
        assert forall|i: int, j: int| 0 <= i < j < now.len() implies now[i] < now[j] by {
            if at < before.len() {
                assert(x < before[at as int]);
            }
            if i == at {
                assert(before[at as int] <= before[j - 1]);
            }
        }
    }
}

/// The numbers of the pictures that a frame draws, each once and in order.
pub fn images_needed(drawn: &Vec<i32>, widgets: &Vec<WidgetCmd>) -> (r: Vec<i32>)
    ensures
        increasing(r@),
        forall|id: i32| #[trigger]
            r@.contains(id) <==> drawn@.contains(id) || exists|i: int|
                0 <= i < widgets@.len() && shows_image(#[trigger] widgets@[i], id),
{
    let mut out: Vec<i32> = Vec::new();
    let mut i: usize = 0;
    while i < drawn.len()
        invariant
            i <= drawn@.len(),
            increasing(out@),
            forall|id: i32| #[trigger]
                out@.contains(id) <==> exists|j: int| 0 <= j < i && #[trigger] drawn@[j] == id,
        decreases drawn.len() - i,
    {
        insert_sorted(&mut out, drawn[i]);
        i += 1;
        assert(drawn@[i - 1] == drawn@[i - 1]);
    }
    assert forall|id: i32| #[trigger] out@.contains(id) <==> drawn@.contains(id) by {}
    let mut k: usize = 0;
    while k < widgets.len()
        invariant
            k <= widgets@.len(),
            increasing(out@),
            forall|id: i32| #[trigger]
                out@.contains(id) <==> drawn@.contains(id) || exists|j: int|
                    0 <= j < k && shows_image(#[trigger] widgets@[j], id),
        decreases widgets.len() - k,
    {
        match &widgets[k] {
            WidgetCmd::Image { id, w, h } => {
                insert_sorted(&mut out, *id);
                assert(shows_image(widgets@[k as int], *id));
            },
            _ => {},
        }
        k += 1;
    }
    out
}

/// Back leads to the address that was visited before the last one, and forward from there to
/// the last one again; a visit from there drops what lay ahead.
pub proof fn lemma_back_leads_to_the_one_before(
    t: Trail,
    a: Seq<char>,
    b: Seq<char>,
    c: Seq<char>,
)
    requires
        on_trail(t),
    ensures
        ({
            let two = visited(visited(t, a), b);
            let back = stepped_back(two);
            let ahead = stepped_forward(back);
            let anew = visited(back, c);
            &&& two.history[two.pos->0] == b && two.history.last() == b
            &&& back.history[back.pos->0] == a && back.history == two.history
            &&& ahead.history[ahead.pos->0] == b
            &&& anew.history.last() == c && anew.history[anew.history.len() - 2] == a
                && anew.history.len() == two.history.len()
            &&& stepped_forward(anew) == anew
        }),
{
}

proof fn lemma_nonempty_stay(ls: Seq<Seq<char>>)
    requires
        forall|i: int| 0 <= i < ls.len() ==> (#[trigger] ls[i]).len() > 0,
    ensures
        nonempty(ls) == ls,
    decreases ls.len(),
{
    if ls.len() > 0 {
        let d = ls.drop_last();
        assert forall|i: int| 0 <= i < d.len() implies (#[trigger] d[i]).len() > 0 by {
            assert(d[i] == ls[i]);
        }
        lemma_nonempty_stay(d);
        assert(ls[ls.len() - 1] == ls.last());
        assert(d.push(ls.last()) =~= ls);
    } else {
        assert(nonempty(ls) =~= ls);
    }
}

/// A history that was written one address to a line is read back as it was; lines without
/// an address are passed over.
pub proof fn lemma_history_is_read_back(addresses: Seq<Seq<char>>, a: Seq<Seq<char>>, b: Seq<Seq<char>>)
    requires
        forall|i: int|
            0 <= i < addresses.len() ==> is_line(#[trigger] addresses[i]) && addresses[i].len() > 0,
    ensures
        nonempty(lines(rows_text(addresses))) == addresses,
        nonempty(a.push(Seq::empty()) + b) == nonempty(a + b),
    decreases b.len(),
{
    lemma_rows_round_trip(addresses);
    lemma_nonempty_stay(addresses);
    if b.len() == 0 {
        assert(a.push(Seq::empty()) + b =~= a.push(Seq::empty()));
        assert(a.push(Seq::<char>::empty()).drop_last() =~= a);
        assert(a + b =~= a);
    } else {
        lemma_history_is_read_back(addresses, a, b.drop_last());
        assert((a.push(Seq::empty()) + b).drop_last() =~= a.push(Seq::empty()) + b.drop_last());
        assert((a + b).drop_last() =~= a + b.drop_last());
    }
}

/// A session begins at the address that is set; else at the search of the server that is
/// set, whether or not its address ends in a slash; else at the public one.
pub proof fn lemma_home_is_what_is_set(
    address: Option<String>,
    server: Option<String>,
    slashed: Option<String>,
)
    requires
        setting(server).len() > 0 && setting(server).last() != '/',
        setting(slashed) == setting(server).push('/'),
    ensures
        setting(address).len() > 0 ==> home(address, server) == setting(address),
        setting(address).len() == 0 ==> home(address, server) == setting(server)
            + "/search.wasm"@ && home(address, slashed) == home(address, server),
        setting(address).len() == 0 ==> home(address, None) == public_home(),
{
    assert(setting(slashed).drop_last() =~= setting(server));
}

} // verus!

//! The rules of a game of motes and hunters: screens, scores, and the list of the best
//! runs.
use vstd::prelude::*;
use crate::numerals::{decimal, format_u64, number, parse_u32};
use crate::numerals::{lemma_decimal_digits, lemma_decimal_round_trip};
use crate::text::{join, joined, split, split_str, texts};
use crate::text::lemma_split_join;

verus! {

// ── Screens ──────────────────────────────────────────────────────────────────

/// What is on the screen.
#[derive(Clone, Copy, Debug, PartialEq, Eq, Structural)]
pub enum Phase {
    Intro,
    Menu,
    Play,
    Dead,
    Leaderboard,
}

/// How many steps the introduction has.
pub const INTRO_STEPS: i32 = 4;

/// The most motes in a row that count for the combination.
pub const MAX_COMBO: u32 = 99;

/// How many runs are kept.
pub const TOP_RUNS: usize = 10;

/// What a mote does.
#[derive(Clone, Copy, Debug, PartialEq, Eq, Structural)]
pub enum Mote {
    Blue,
    Gold,
    Teleport,
}

/// The state of a game that its rules depend on.
pub struct Nova {
    pub phase: Phase,
    pub intro_step: i32,
    pub score: u32,
    pub best: u32,
    /// The scores of the best runs, the best one first.
    pub top_scores: Vec<u32>,
    pub combo: u32,
}

/// What a frame of the introduction asks for besides a change of state.
#[derive(Clone, Copy, Debug, PartialEq, Eq, Structural)]
pub enum IntroStep {
    /// The step goes on.
    Stay,
    /// The next step begins, or the introduction ends.
    Next,
    /// The introduction is skipped.
    Skip,
}

/// What a click on the menu does.
#[derive(Clone, Copy, Debug, PartialEq, Eq, Structural)]
pub enum MenuChoice {
    Nothing,
    Help,
    Scores,
    Start,
}

impl Nova {
    /// The game when it is opened, with what was stored.
    pub fn new(best: &Option<String>, top: &Option<String>) -> (g: Nova)
        ensures
            g.phase == Phase::Intro && g.intro_step == 0 && g.score == 0 && g.combo == 0,
            g.best == match best {
                Some(s) => match number(s@) {
                    Some(n) => if n <= u32::MAX {
                        n
                    } else {
                        0
                    },
                    None => 0,
                },
                None => 0,
            },
            g.top_scores@ == match top {
                Some(s) => scores_in(split(s@, ',')),
                None => Seq::empty(),
            },
    {
        let b: u32 = match best {
            Some(s) => match parse_u32(s.as_str()) {
                Some(n) => n,
                None => 0,
            },
            None => 0,
        };
        let t: Vec<u32> = match top {
            Some(s) => read_scores(s.as_str()),
            None => Vec::new(),
        };
        assert(top is None ==> t@ =~= Seq::empty());
        Nova { phase: Phase::Intro, intro_step: 0, score: 0, best: b, top_scores: t, combo: 0 }
    }

    /// A frame of the introduction. It goes on by a click or after a time, and ends after
    /// its last step or by the skip button.
    pub fn intro(&mut self, clicked: bool, on_skip: bool, time_is_up: bool) -> (r: IntroStep)
        requires
            0 <= old(self).intro_step <= INTRO_STEPS,
        ensures
            r == if clicked && on_skip {
                IntroStep::Skip
            } else if clicked || time_is_up {
                IntroStep::Next
            } else {
                IntroStep::Stay
            },
            final(self).intro_step == old(self).intro_step + if r == IntroStep::Next {
                1int
            } else {
                0
            },
            final(self).phase == if r == IntroStep::Skip || (r == IntroStep::Next
                && final(self).intro_step >= INTRO_STEPS) {
                Phase::Menu
            } else {
                old(self).phase
            },
            *final(self) == (Nova {
                phase: final(self).phase,
                intro_step: final(self).intro_step,
                ..*old(self)
            }),
    {
        if clicked && on_skip {
            self.phase = Phase::Menu;
            return IntroStep::Skip;
        }
        if clicked || time_is_up {
            self.intro_step = self.intro_step + 1;
            if self.intro_step >= INTRO_STEPS {
                self.phase = Phase::Menu;
            }
            return IntroStep::Next;
        }
        IntroStep::Stay
    }

    /// A frame of the menu.
    pub fn menu(&mut self, clicked: bool, on_help: bool, on_scores: bool) -> (r: MenuChoice)
        ensures
            r == if !clicked {
                MenuChoice::Nothing
            } else if on_help {
                MenuChoice::Help
            } else if on_scores {
                MenuChoice::Scores
            } else {
                MenuChoice::Start
            },
            match r {
                MenuChoice::Nothing => *final(self) == *old(self),
                MenuChoice::Help => *final(self) == (Nova {
                    phase: Phase::Intro,
                    intro_step: 0,
                    ..*old(self)
                }),
                MenuChoice::Scores => *final(self) == (Nova {
                    phase: Phase::Leaderboard,
                    ..*old(self)
                }),
                MenuChoice::Start => *final(self) == (Nova {
                    phase: Phase::Play,
                    score: 0,
                    combo: 0,
                    ..*old(self)
                }),
            },
    {
        if !clicked {
            return MenuChoice::Nothing;
        }
        if on_help {
            self.phase = Phase::Intro;
            self.intro_step = 0;
            return MenuChoice::Help;
        }
        if on_scores {
            self.phase = Phase::Leaderboard;
            return MenuChoice::Scores;
        }
        self.start();
        MenuChoice::Start
    }

    /// Starts a run.
    pub fn start(&mut self)
        ensures
            *final(self) == (Nova { phase: Phase::Play, score: 0, combo: 0, ..*old(self) }),
    {
        self.phase = Phase::Play;
        self.score = 0;
        self.combo = 0;
    }

    /// A frame of the list of the best runs: any click leaves it.
    pub fn leaderboard(&mut self, clicked: bool)
        ensures
            *final(self) == (Nova {
                phase: if clicked {
                    Phase::Menu
                } else {
                    old(self).phase
                },
                ..*old(self)
            }),
    {
        if clicked {
            self.phase = Phase::Menu;
        }
    }

    /// A frame after the end of a run. A click starts the next one, but not right away.
    /// Returns whether it does.
    pub fn dead(&mut self, clicked: bool, rested: bool) -> (again: bool)
        ensures
            again == (clicked && rested),
            again ==> *final(self) == (Nova {
                phase: Phase::Play,
                score: 0,
                combo: 0,
                ..*old(self)
            }),
            !again ==> *final(self) == *old(self),
    {
        if rested && clicked {
            self.start();
            return true;
        }
        false
    }
}

// ── Motes ────────────────────────────────────────────────────────────────────

/// What the next mote does, by a draw below two to the twenty-fourth: gold for the first
/// fourteen hundredths, teleport for the next ten.
pub fn mote_of(draw: u32) -> (m: Mote)
    ensures
        m == if draw <= 2348810 {
            Mote::Gold
        } else if draw <= 4026531 {
            Mote::Teleport
        } else {
            Mote::Blue
        },
{
    if draw <= 2348810 {
        Mote::Gold
    } else if draw <= 4026531 {
        Mote::Teleport
    } else {
        Mote::Blue
    }
}

/// What a mote is worth before the multiplier.
pub open spec fn worth(m: Mote) -> int {
    match m {
        Mote::Gold => 25,
        Mote::Teleport => 35,
        Mote::Blue => 10,
    }
}

/// The combination after one more mote.
pub open spec fn longer_combo(combo: u32) -> int {
    if combo < MAX_COMBO {
        combo + 1
    } else {
        MAX_COMBO as int
    }
}

/// The multiplier of a combination.
pub open spec fn multiplier(combo: int) -> int {
    1 + combo / 5
}

/// What a destroyed hunter is worth.
pub const HUNTER_WORTH: u32 = 15;

/// Returns the multiplier of a combination.
pub fn multiplier_of(combo: u32) -> (m: u32)
    ensures
        m == multiplier(combo as int),
{
    1 + combo / 5
}

impl Nova {
    /// A mote is collected.
    pub fn collect(&mut self, m: Mote)
        requires
            old(self).score + worth(m) * multiplier(longer_combo(old(self).combo)) <= u32::MAX,
        ensures
            final(self).combo == longer_combo(old(self).combo),
            final(self).score == old(self).score + worth(m) * multiplier(
                longer_combo(old(self).combo),
            ),
            *final(self) == (Nova {
                combo: final(self).combo,
                score: final(self).score,
                ..*old(self)
            }),
    {
        self.combo = if self.combo < MAX_COMBO {
            self.combo + 1
        } else {
            MAX_COMBO
        };
        let mult: u32 = 1 + self.combo / 5;
        let w: u32 = match m {
            Mote::Gold => 25,
            Mote::Teleport => 35,
            Mote::Blue => 10,
        };
        assert(0 <= w * mult <= 35 * 20) by (nonlinear_arith)
            requires
                w <= 35,
                mult <= 20,
        ;
        self.score = self.score + w * mult;
    }

    /// A shockwave destroys hunters.
    pub fn destroy(&mut self, hunters: u32)
        requires
            old(self).score + hunters * HUNTER_WORTH <= u32::MAX,
        ensures
            *final(self) == (Nova {
                score: (old(self).score + hunters * HUNTER_WORTH) as u32,
                ..*old(self)
            }),
    {
        self.score = self.score + hunters * HUNTER_WORTH;
    }

    /// The time for the next mote of a combination is up.
    pub fn combo_ends(&mut self)
        ensures
            *final(self) == (Nova { combo: 0, ..*old(self) }),
    {
        self.combo = 0;
    }

    /// Whether a run beats every one before it.
    pub open spec fn beats_best(self) -> bool {
        self.score > self.best
    }

    /// A hunter catches the player. Returns what has to be stored: the best score if it
    /// is a new one, and the list of the best runs.
    pub fn die(&mut self) -> (r: (Option<String>, String))
        requires
            old(self).top_scores@.len() < usize::MAX,
        ensures
            final(self).phase == Phase::Dead,
            final(self).best == if old(self).beats_best() {
                old(self).score
            } else {
                old(self).best
            },
            final(self).top_scores@ == recorded(old(self).top_scores@, old(self).score),
            final(self).score == old(self).score && final(self).combo == old(self).combo
                && final(self).intro_step == old(self).intro_step,
            match r.0 {
                Some(s) => old(self).beats_best() && s@ == decimal(old(self).score as nat),
                None => !old(self).beats_best(),
            },
            r.1@ == scores_text(final(self).top_scores@),
    {
        self.phase = Phase::Dead;
        let mut best: Option<String> = None;
        if self.score > self.best {
            self.best = self.score;
            best = Some(format_u64(self.best as u64));
        }
        let top = record_run(&self.top_scores, self.score);
        let t = scores_to_text(&top);
        self.top_scores = top;
        (best, t)
    }
}

// ── The best runs ────────────────────────────────────────────────────────────

/// A list from the greatest down, with one more number in its place.
pub open spec fn put_in(s: Seq<u32>, x: u32) -> Seq<u32>
    decreases s.len(),
{
    if s.len() == 0 || s.last() >= x {
        s.push(x)
    } else {
        put_in(s.drop_last(), x).push(s.last())
    }
}

/// The numbers of a list from the greatest down.
pub open spec fn from_greatest(s: Seq<u32>) -> Seq<u32>
    decreases s.len(),
{
    if s.len() == 0 {
        s
    } else {
        put_in(from_greatest(s.drop_last()), s.last())
    }
}

/// The list of the best runs after one more.
pub open spec fn recorded(top: Seq<u32>, score: u32) -> Seq<u32> {
    let all = from_greatest(top.push(score));
    if all.len() <= TOP_RUNS {
        all
    } else {
        all.take(TOP_RUNS as int)
    }
}

fn put(v: &mut Vec<u32>, x: u32)
    requires
        old(v)@.len() < usize::MAX,
    ensures
        final(v)@ == put_in(old(v)@, x),
{
    let ghost whole = v@;
    let mut i: usize = v.len();
    assert(whole.take(whole.len() as int) =~= whole);
    assert(put_in(whole, x) =~= put_in(whole.take(i as int), x) + whole.skip(i as int));
    while i > 0 && v[i - 1] < x
        invariant
            i <= v@.len(),
            v@ == whole,
            put_in(whole, x) == put_in(whole.take(i as int), x) + whole.skip(i as int),
        decreases i,
    {
        let ghost t = whole.take(i as int);
        assert(t.last() == whole[i - 1]);
        assert(t.drop_last() =~= whole.take(i - 1));
        i -= 1;
        assert(put_in(whole, x) =~= put_in(whole.take(i as int), x) + whole.skip(i as int));
    }
    proof {
        let t = whole.take(i as int);
        assert(t.len() > 0 ==> t.last() == whole[i - 1]);
        assert(put_in(t, x) == t.push(x));
        assert(whole.insert(i as int, x) =~= t.push(x) + whole.skip(i as int));
    }
    v.insert(i, x);
}

/// Returns the list of the best runs after one more.
pub fn record_run(top: &Vec<u32>, score: u32) -> (r: Vec<u32>)
    requires
        top@.len() < usize::MAX,
    ensures
        r@ == recorded(top@, score),
{
    let ghost all = top@.push(score);
    let mut v: Vec<u32> = Vec::new();
    let mut i: usize = 0;
    assert(all.take(0) =~= Seq::empty());
    assert(v@ =~= Seq::empty());
    while i < top.len()
        invariant
            i <= top@.len() < usize::MAX,
            all == top@.push(score),
            v@ == from_greatest(all.take(i as int)),
            v@.len() == i,
        decreases top.len() - i,
    {
        assert(all.take(i + 1).drop_last() =~= all.take(i as int));
        assert(all.take(i + 1).last() == top@[i as int]);
        proof {
            lemma_put_in(v@, top@[i as int]);
        }
        put(&mut v, top[i]);
        i += 1;
    }
    assert(all.drop_last() =~= all.take(i as int));
    proof {
        lemma_put_in(v@, score);
    }
    put(&mut v, score);
    if v.len() > TOP_RUNS {
        v.truncate(TOP_RUNS);
        assert(v@ =~= from_greatest(all).take(TOP_RUNS as int));
    }
    v
}

/// Whether a list goes from the greatest down.
pub open spec fn goes_down(s: Seq<u32>) -> bool {
    forall|i: int, j: int| 0 <= i < j < s.len() ==> s[i] >= s[j]
}

proof fn lemma_put_in(s: Seq<u32>, x: u32)
    ensures
        put_in(s, x).len() == s.len() + 1,
        put_in(s, x).to_multiset() == s.to_multiset().insert(x),
        goes_down(s) ==> goes_down(put_in(s, x)),
    decreases s.len(),
{
    broadcast use vstd::seq_lib::group_to_multiset_ensures;

    let p = put_in(s, x);
    if s.len() == 0 || s.last() >= x {
        if goes_down(s) {
            assert forall|i: int, j: int| 0 <= i < j < p.len() implies p[i] >= p[j] by {
                if j == s.len() {
                    assert(s.last() == s[s.len() - 1]);
                }
            }
        }
    } else {
        let d = s.drop_last();
        lemma_put_in(d, x);
        assert(d.push(s.last()) =~= s);
        let q = put_in(d, x);
        assert(p.to_multiset() =~= s.to_multiset().insert(x));
        if goes_down(s) {
            assert(goes_down(d));
            lemma_bounded(q, d, x, s.last());
            assert forall|i: int, j: int| 0 <= i < j < p.len() implies p[i] >= p[j] by {
                if j == q.len() {
                    assert(q.contains(q[i]));
                } else {
                    assert(q[i] >= q[j]);
                }
            }
        }
    }
}

proof fn lemma_bounded(q: Seq<u32>, d: Seq<u32>, x: u32, low: u32)
    requires
        q.to_multiset() == d.to_multiset().insert(x),
        x >= low,
        forall|i: int| 0 <= i < d.len() ==> #[trigger] d[i] >= low,
    ensures
        forall|i: int| 0 <= i < q.len() ==> #[trigger] q[i] >= low,
{
    broadcast use vstd::seq_lib::group_to_multiset_ensures;

    assert forall|i: int| 0 <= i < q.len() implies #[trigger] q[i] >= low by {
        assert(q.contains(q[i]));
        assert(q.to_multiset().count(q[i]) > 0);
        if q[i] != x {
            assert(d.to_multiset().count(q[i]) > 0);
            assert(d.contains(q[i]));
        }
    }
}

proof fn lemma_from_greatest(s: Seq<u32>)
    ensures
        from_greatest(s).len() == s.len(),
        goes_down(from_greatest(s)),
        from_greatest(s).to_multiset() == s.to_multiset(),
    decreases s.len(),
{
    broadcast use vstd::seq_lib::group_to_multiset_ensures;

    if s.len() > 0 {
        let d = s.drop_last();
        lemma_from_greatest(d);
        lemma_put_in(from_greatest(d), s.last());
        assert(d.push(s.last()) =~= s);
    }
}

/// The list of the best runs is never longer than ten, goes from the best one down, and
/// no run that was left out is better than one that was kept.
pub proof fn lemma_best_runs(top: Seq<u32>, score: u32)
    ensures
        recorded(top, score).len() <= TOP_RUNS,
        goes_down(recorded(top, score)),
        exists|all: Seq<u32>| #[trigger]
            goes_down(all) && all.to_multiset() == top.push(score).to_multiset()
                && recorded(top, score) == all.take(recorded(top, score).len() as int),
{
    let all = from_greatest(top.push(score));
    lemma_from_greatest(top.push(score));
    let r = recorded(top, score);
    assert(r =~= all.take(r.len() as int));
    assert(goes_down(all));
}

/// The texts of numbers.
pub open spec fn number_texts(s: Seq<u32>) -> Seq<Seq<char>> {
    Seq::new(s.len(), |i: int| decimal(s[i] as nat))
}

/// The list of the best runs as it is stored.
pub open spec fn scores_text(s: Seq<u32>) -> Seq<char> {
    joined(number_texts(s), ","@)
}

fn scores_to_text(v: &Vec<u32>) -> (r: String)
    ensures
        r@ == scores_text(v@),
{
    let mut parts: Vec<String> = Vec::new();
    let mut i: usize = 0;
    while i < v.len()
        invariant
            i <= v@.len(),
            parts@.len() == i,
            forall|k: int| 0 <= k < i ==> (#[trigger] parts@[k])@ == decimal(v@[k] as nat),
        decreases v.len() - i,
    {
        parts.push(format_u64(v[i] as u64));
        i += 1;
    }
    assert(texts(parts@) =~= number_texts(v@));
    join(&parts, ",")
}

/// The numbers among some texts.
pub open spec fn scores_in(p: Seq<Seq<char>>) -> Seq<u32>
    decreases p.len(),
{
    if p.len() == 0 {
        Seq::empty()
    } else {
        let rest = scores_in(p.drop_last());
        match number(p.last()) {
            Some(n) => if n <= u32::MAX {
                rest.push(n as u32)
            } else {
                rest
            },
            None => rest,
        }
    }
}

/// Reads the list of the best runs; what is no number is left out.
pub fn read_scores(s: &str) -> (r: Vec<u32>)
    ensures
        r@ == scores_in(split(s@, ',')),
{
    let p = split_str(s, ',');
    let mut out: Vec<u32> = Vec::new();
    let mut i: usize = 0;
    let ghost all = texts(p@);
    assert(out@ =~= scores_in(all.take(0)));
    while i < p.len()
        invariant
            i <= p@.len(),
            all == texts(p@),
            out@ == scores_in(all.take(i as int)),
        decreases p.len() - i,
    {
        assert(all.take(i + 1).drop_last() =~= all.take(i as int));
        assert(all.take(i + 1).last() == p@[i as int]@);
        match parse_u32(p[i].as_str()) {
            Some(n) => {
                out.push(n);
            },
            None => {},
        }
        i += 1;
    }
    assert(all.take(i as int) =~= all);
    out
}

proof fn lemma_scores_in_number_texts(s: Seq<u32>)
    ensures
        scores_in(number_texts(s)) == s,
    decreases s.len(),
{
    if s.len() > 0 {
        lemma_scores_in_number_texts(s.drop_last());
        assert(number_texts(s).drop_last() =~= number_texts(s.drop_last()));
        lemma_decimal_round_trip(s.last() as nat);
        assert(s.drop_last().push(s.last()) =~= s);
    } else {
        assert(scores_in(number_texts(s)) =~= s);
    }
}

/// The list of the best runs is read back as it was stored.
pub proof fn lemma_scores_round_trip(s: Seq<u32>)
    ensures
        scores_in(split(scores_text(s), ',')) == s,
{
    reveal_strlit(",");
    assert(","@ =~= seq![',']);
    let p = number_texts(s);
    if s.len() == 0 {
        assert(scores_text(s) =~= Seq::empty());
        reveal_with_fuel(scores_in, 2);
        assert(split(Seq::empty(), ',') =~= seq![Seq::empty()]);
        assert(split(scores_text(s), ',').drop_last() =~= Seq::empty());
        assert(number(Seq::<char>::empty()) is None);
        assert(scores_in(split(scores_text(s), ',')) =~= s);
    } else {
        assert forall|i: int| 0 <= i < p.len() implies !(#[trigger] p[i]).contains(',') by {
            lemma_decimal_digits(s[i] as nat);
        }
        lemma_split_join(p, ',');
        lemma_scores_in_number_texts(s);
    }
}

/// As many of the best runs are kept as there are, up to ten; the best one is the best of
/// all.
pub proof fn lemma_best_run_is_kept(top: Seq<u32>, score: u32)
    ensures
        recorded(top, score).len() == if top.len() < 10 {
            top.len() + 1
        } else {
            10
        },
        recorded(top, score)[0] >= score,
        forall|i: int| 0 <= i < top.len() ==> recorded(top, score)[0] >= #[trigger] top[i],
{
    let s = top.push(score);
    let all = from_greatest(s);
    lemma_from_greatest(s);
    assert(s.len() == s.to_multiset().len() && all.len() == all.to_multiset().len()) by {
        broadcast use vstd::seq_lib::group_to_multiset_ensures;

    }
    assert forall|i: int| 0 <= i < s.len() implies all[0] >= #[trigger] s[i] by {
        assert(s.to_multiset().count(s[i]) > 0) by {
            broadcast use vstd::seq_lib::group_to_multiset_ensures;

            assert(s.contains(s[i]));
        }
        assert(all.contains(s[i])) by {
            broadcast use vstd::seq_lib::group_to_multiset_ensures;

        }
        let k = choose|k: int| 0 <= k < all.len() && all[k] == s[i];
        if k > 0 {
            assert(all[0] >= all[k]);
        }
    }
    assert(s[top.len() as int] == score);
    assert forall|i: int| 0 <= i < top.len() implies recorded(top, score)[0] >= #[trigger] top[i] by {
        assert(s[i] == top[i]);
    }
}

/// Every fifth catch in a row makes the next ones worth more, up to the longest row; rarer
/// motes are worth more than common ones.
pub proof fn lemma_longer_rows_are_worth_more(c: int, combo: u32)
    requires
        0 <= c,
    ensures
        c < 5 ==> multiplier(c) == 1,
        multiplier(c + 5) == multiplier(c) + 1,
        multiplier(c) <= multiplier(c + 1),
        combo < 99 ==> longer_combo(combo) == combo + 1,
        longer_combo(99) == 99,
        worth(Mote::Blue) < worth(Mote::Gold) < worth(Mote::Teleport),
{
}

} // verus!

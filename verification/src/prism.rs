//! The rules of a brick-breaker: the walls of each level, what a hit does, scores, lives
//! and power-ups.
use vstd::prelude::*;
use crate::chance::quarter;
use crate::numerals::{decimal, format_u64, number, parse_u32};

verus! {

// ── Levels ───────────────────────────────────────────────────────────────────

/// Bricks across.
pub const COLS: u32 = 11;

/// How many colours the rows have.
pub const TONES: u32 = 6;

/// A brick.
#[derive(Clone, Copy, Debug, PartialEq, Eq, Structural)]
pub struct Brick {
    pub row: u32,
    pub col: u32,
    /// How many hits it takes.
    pub hp: u8,
    /// Its colour.
    pub tone: u32,
    /// Whether it never breaks.
    pub steel: bool,
}

/// How many rows a level has.
pub open spec fn rows_of(level: u32) -> int {
    if level < 3 {
        5 + level
    } else {
        8
    }
}

/// Whether a level has a brick at a place. The levels take turns in four patterns: a full
/// wall, a checkerboard, a pyramid, and a frame.
pub open spec fn has_brick(level: u32, r: int, c: int) -> bool {
    let pattern = (level - 1) % 4;
    if pattern == 0 {
        true
    } else if pattern == 1 {
        (r + c) % 2 == 0
    } else if pattern == 2 {
        let off = if c >= 5 {
            c - 5
        } else {
            5 - c
        };
        off <= r && off <= 5
    } else {
        !(1 < c < 9 && 0 < r < rows_of(level) - 1)
    }
}

/// The brick at a place of a level. From the third level on some in the first row never
/// break, and from the second on the upper third takes two hits.
pub open spec fn brick_at(level: u32, r: int, c: int) -> Brick {
    let steel = level >= 3 && r == 0 && c % 5 == 2;
    Brick {
        row: r as u32,
        col: c as u32,
        hp: if steel {
            255
        } else if r < rows_of(level) / 3 && level >= 2 {
            2
        } else {
            1
        },
        tone: (r % 6) as u32,
        steel,
    }
}

/// The bricks of the first `n` places of a level, row after row.
pub open spec fn bricks_up_to(level: u32, n: int) -> Seq<Brick>
    decreases n,
{
    if n <= 0 {
        Seq::empty()
    } else {
        let r = (n - 1) / 11;
        let c = (n - 1) % 11;
        let before = bricks_up_to(level, n - 1);
        if has_brick(level, r, c) {
            before.push(brick_at(level, r, c))
        } else {
            before
        }
    }
}

/// The bricks of a level.
pub open spec fn wall(level: u32) -> Seq<Brick> {
    bricks_up_to(level, rows_of(level) * 11)
}

fn row_count(level: u32) -> (n: u32)
    ensures
        n == rows_of(level),
{
    if level < 3 {
        5 + level
    } else {
        8
    }
}

fn is_there(level: u32, r: u32, c: u32) -> (b: bool)
    requires
        level >= 1,
        r < rows_of(level),
        c < COLS,
    ensures
        b == has_brick(level, r as int, c as int),
{
    let pattern: u32 = (level - 1) % 4;
    if pattern == 0 {
        true
    } else if pattern == 1 {
        (r + c) % 2 == 0
    } else if pattern == 2 {
        let off: u32 = if c >= 5 {
            c - 5
        } else {
            5 - c
        };
        off <= r && off <= 5
    } else {
        !(1 < c && c < 9 && 0 < r && r < row_count(level) - 1)
    }
}

fn make_brick(level: u32, r: u32, c: u32) -> (b: Brick)
    requires
        r < rows_of(level),
        c < COLS,
    ensures
        b == brick_at(level, r as int, c as int),
{
    let steel = level >= 3 && r == 0 && c % 5 == 2;
    let hp: u8 = if steel {
        255
    } else if r < row_count(level) / 3 && level >= 2 {
        2
    } else {
        1
    };
    Brick { row: r, col: c, hp, tone: r % TONES, steel }
}

/// Returns the bricks of a level.
pub fn build_level(level: u32) -> (v: Vec<Brick>)
    requires
        level >= 1,
    ensures
        v@ == wall(level),
{
    let n: u32 = row_count(level) * COLS;
    let mut v: Vec<Brick> = Vec::new();
    let mut i: u32 = 0;
    assert(v@ =~= bricks_up_to(level, 0));
    while i < n
        invariant
            level >= 1,
            i <= n,
            n == rows_of(level) * 11,
            v@ == bricks_up_to(level, i as int),
        decreases n - i,
    {
        let r: u32 = i / COLS;
        let c: u32 = i % COLS;
        if is_there(level, r, c) {
            v.push(make_brick(level, r, c));
        }
        i += 1;
    }
    v
}

/// How many bricks can be broken.
pub open spec fn breakable(b: Seq<Brick>) -> nat
    decreases b.len(),
{
    if b.len() == 0 {
        0
    } else {
        breakable(b.drop_last()) + if b.last().steel {
            0nat
        } else {
            1nat
        }
    }
}

/// Returns how many bricks can be broken.
pub fn breakable_left(b: &Vec<Brick>) -> (n: usize)
    ensures
        n == breakable(b@),
{
    let mut n: usize = 0;
    let mut i: usize = 0;
    assert(b@.take(0) =~= Seq::empty());
    while i < b.len()
        invariant
            i <= b@.len(),
            n <= i,
            n == breakable(b@.take(i as int)),
        decreases b.len() - i,
    {
        assert(b@.take(i + 1).drop_last() =~= b@.take(i as int));
        if !b[i].steel {
            n += 1;
        }
        i += 1;
    }
    assert(b@.take(i as int) =~= b@);
    n
}

proof fn lemma_breakable_grows(level: u32, m: int, n: int)
    requires
        m <= n,
    ensures
        breakable(bricks_up_to(level, m)) <= breakable(bricks_up_to(level, n)),
    decreases n - m,
{
    if m < n {
        lemma_breakable_grows(level, m, n - 1);
        if n > 0 {
            let b = bricks_up_to(level, n - 1);
            let x = brick_at(level, (n - 1) / 11, (n - 1) % 11);
            assert(b.push(x).drop_last() =~= b);
        }
    }
}

/// Every level has something to break.
pub proof fn lemma_every_level_can_be_played(level: u32)
    requires
        level >= 1,
    ensures
        breakable(wall(level)) > 0,
{
    // The second row has a brick in one of its middle columns, whatever the pattern.
    let c: int = if (level - 1) % 4 == 3 {
        0
    } else {
        5
    };
    let n = 11 + c;
    assert(n / 11 == 1 && n % 11 == c);
    assert(has_brick(level, 1, c));
    let b = bricks_up_to(level, n);
    let x = brick_at(level, 1, c);
    assert(bricks_up_to(level, n + 1) == b.push(x));
    assert(b.push(x).drop_last() =~= b);
    assert(b.push(x).last() == x);
    lemma_breakable_grows(level, n + 1, rows_of(level) * 11);
}

// ── Hits ─────────────────────────────────────────────────────────────────────

/// What a hit did.
#[derive(Clone, Copy, Debug, PartialEq, Eq, Structural)]
pub enum Hit {
    /// There is no such brick any more.
    Missed,
    /// The brick never breaks.
    Steel,
    /// The brick holds; its colour.
    Cracked(u32),
    /// The brick broke; its colour.
    Broken(u32),
}

/// What hitting a brick does.
pub open spec fn hit_of(b: Seq<Brick>, i: int) -> Hit {
    if i >= b.len() {
        Hit::Missed
    } else if b[i].steel {
        Hit::Steel
    } else if b[i].hp <= 1 {
        Hit::Broken(b[i].tone)
    } else {
        Hit::Cracked(b[i].tone)
    }
}

/// The bricks after one was hit.
pub open spec fn after_hit(b: Seq<Brick>, i: int) -> Seq<Brick> {
    match hit_of(b, i) {
        Hit::Broken(_) => b.remove(i),
        Hit::Cracked(_) => b.update(i, Brick { hp: (b[i].hp - 1) as u8, ..b[i] }),
        _ => b,
    }
}

/// Hits a brick.
pub fn strike(b: &mut Vec<Brick>, i: usize) -> (h: Hit)
    ensures
        h == hit_of(old(b)@, i as int),
        final(b)@ == after_hit(old(b)@, i as int),
{
    if i >= b.len() {
        return Hit::Missed;
    }
    let x = b[i];
    if x.steel {
        return Hit::Steel;
    }
    if x.hp <= 1 {
        b.remove(i);
        return Hit::Broken(x.tone);
    }
    b.set(i, Brick { row: x.row, col: x.col, hp: x.hp - 1, tone: x.tone, steel: x.steel });
    Hit::Cracked(x.tone)
}

/// What a row of hits does: the bricks after it, and what each one did.
pub open spec fn struck(b: Seq<Brick>, hits: Seq<usize>) -> (Seq<Brick>, Seq<Hit>)
    decreases hits.len(),
{
    if hits.len() == 0 {
        (b, Seq::empty())
    } else {
        let before = struck(b, hits.drop_last());
        let i = hits.last() as int;
        (after_hit(before.0, i), before.1.push(hit_of(before.0, i)))
    }
}

/// Hits bricks, one after the other.
pub fn strike_all(b: &mut Vec<Brick>, hits: &Vec<usize>) -> (r: Vec<Hit>)
    ensures
        (final(b)@, r@) == struck(old(b)@, hits@),
{
    let ghost start = b@;
    let mut r: Vec<Hit> = Vec::new();
    let mut i: usize = 0;
    assert(hits@.take(0) =~= Seq::empty());
    assert(r@ =~= Seq::empty());
    while i < hits.len()
        invariant
            i <= hits@.len(),
            (b@, r@) == struck(start, hits@.take(i as int)),
        decreases hits.len() - i,
    {
        assert(hits@.take(i + 1).drop_last() =~= hits@.take(i as int));
        r.push(strike(b, hits[i]));
        i += 1;
    }
    assert(hits@.take(i as int) =~= hits@);
    r
}

/// Steel is never broken, and nothing is ever added.
pub proof fn lemma_steel_stays(b: Seq<Brick>, i: int, k: int)
    requires
        0 <= k < b.len(),
        b[k].steel,
        0 <= i,
    ensures
        after_hit(b, i).contains(b[k]),
        after_hit(b, i).len() <= b.len(),
{
    let a = after_hit(b, i);
    match hit_of(b, i) {
        Hit::Broken(_) => {
            if k < i {
                assert(a[k] == b[k]);
            } else {
                assert(a[k - 1] == b[k]);
            }
        },
        _ => {
            assert(a[k] == b[k]);
        },
    }
}

// ── The game ─────────────────────────────────────────────────────────────────

/// What is going on.
#[derive(Clone, Copy, Debug, PartialEq, Eq, Structural)]
pub enum Phase {
    Menu,
    Serve,
    Play,
    Dead,
    Clear,
}

/// What a power-up does.
#[derive(Clone, Copy, Debug, PartialEq, Eq, Structural)]
pub enum Pow {
    Multi,
    Wide,
    Slow,
    Life,
}

/// The most balls at once.
pub const MAX_BALLS: usize = 12;

/// The most lives.
pub const MAX_LIVES: u32 = 6;

/// What a power-up is worth.
pub const POW_WORTH: u32 = 40;

/// What a cleared level is worth.
pub const CLEAR_WORTH: u32 = 250;

/// The state of a game that its rules depend on.
pub struct Prism {
    pub phase: Phase,
    pub score: u32,
    pub best: u32,
    pub lives: u32,
    pub level: u32,
    /// Bricks broken since the ball last met the paddle.
    pub combo: u32,
    pub bricks: Vec<Brick>,
}

/// What losing the balls led to.
pub enum Fall {
    /// A ball is left.
    Nothing,
    /// A life is lost, and the next ball is served.
    Serve,
    /// The run is over; the best score, if it is a new one, has to be stored.
    Over(Option<String>),
}

/// Whether a broken brick leaves a power-up, by a draw below two to the twenty-fourth:
/// thirteen times in a hundred.
pub fn leaves_power_up(draw: u32) -> (r: bool)
    ensures
        r == (draw < 2181038),
{
    draw < 2181038
}

/// Which power-up it is, by a draw below two to the twenty-fourth.
pub fn power_up_of(draw: u32) -> (p: Pow)
    ensures
        p == if draw < 0x40_0000 {
            Pow::Multi
        } else if draw < 0x80_0000 {
            Pow::Wide
        } else if draw < 0xC0_0000 {
            Pow::Slow
        } else {
            Pow::Life
        },
{
    let q: u32 = quarter(draw);
    if q == 0 {
        Pow::Multi
    } else if q == 1 {
        Pow::Wide
    } else if q == 2 {
        Pow::Slow
    } else {
        Pow::Life
    }
}

/// What the next broken brick is worth.
pub open spec fn brick_worth(combo: u32) -> int {
    10 * if combo + 1 < 8 {
        combo + 1
    } else {
        8
    }
}

/// How many balls there are after each was split in three, as far as there is room.
pub open spec fn split_count(balls: int) -> int {
    if balls >= MAX_BALLS {
        balls
    } else if 3 * balls >= MAX_BALLS {
        MAX_BALLS as int
    } else {
        3 * balls
    }
}

/// Returns how many balls there are after each was split in three.
pub fn split_balls(balls: usize) -> (n: usize)
    ensures
        n == split_count(balls as int),
{
    if balls >= MAX_BALLS {
        balls
    } else if 3 * balls >= MAX_BALLS {
        MAX_BALLS
    } else {
        3 * balls
    }
}

impl Prism {
    /// Whether the game is in order.
    pub open spec fn wf(self) -> bool {
        self.level >= 1
    }

    /// The game when it is opened, with the best score that was stored.
    pub fn new(best: &Option<String>) -> (g: Prism)
        ensures
            g.wf(),
            g.phase == Phase::Menu && g.score == 0 && g.lives == 3 && g.level == 1 && g.combo == 0,
            g.bricks@ == Seq::<Brick>::empty(),
            g.best == match best {
                Some(s) => match number(s@) {
                    Some(n) => if n <= u32::MAX {
                        n
                    } else {
                        0
                    },
                    None => 0,
                },
                None => 0,
            },
    {
        let b: u32 = match best {
            Some(s) => match parse_u32(s.as_str()) {
                Some(n) => n,
                None => 0,
            },
            None => 0,
        };
        Prism {
            phase: Phase::Menu,
            score: 0,
            best: b,
            lives: 3,
            level: 1,
            combo: 0,
            bricks: Vec::new(),
        }
    }

    /// A run begins.
    pub fn new_run(&mut self)
        ensures
            final(self).wf(),
            final(self).phase == Phase::Serve && final(self).score == 0 && final(self).lives == 3
                && final(self).level == 1 && final(self).combo == 0,
            final(self).bricks@ == wall(1),
            final(self).best == old(self).best,
    {
        self.score = 0;
        self.lives = 3;
        self.level = 1;
        self.bricks = build_level(1);
        self.serve();
    }

    /// The next ball is served.
    pub fn serve(&mut self)
        ensures
            *final(self) == (Prism { phase: Phase::Serve, combo: 0, ..*old(self) }),
    {
        self.phase = Phase::Serve;
        self.combo = 0;
    }

    /// The ball is let go.
    pub fn launch(&mut self)
        ensures
            *final(self) == (Prism { phase: Phase::Play, ..*old(self) }),
    {
        self.phase = Phase::Play;
    }

    /// The ball met the paddle.
    pub fn rally_ends(&mut self)
        ensures
            *final(self) == (Prism { combo: 0, ..*old(self) }),
    {
        self.combo = 0;
    }

    /// Balls hit bricks.
    pub fn hit(&mut self, hits: &Vec<usize>) -> (r: Vec<Hit>)
        ensures
            (final(self).bricks@, r@) == struck(old(self).bricks@, hits@),
            *final(self) == (Prism { bricks: final(self).bricks, ..*old(self) }),
    {
        strike_all(&mut self.bricks, hits)
    }

    /// A brick broke.
    pub fn reward(&mut self)
        requires
            old(self).combo < u32::MAX,
            old(self).score + brick_worth(old(self).combo) <= u32::MAX,
        ensures
            *final(self) == (Prism {
                combo: (old(self).combo + 1) as u32,
                score: (old(self).score + brick_worth(old(self).combo)) as u32,
                ..*old(self)
            }),
    {
        self.combo = self.combo + 1;
        let n: u32 = if self.combo < 8 {
            self.combo
        } else {
            8
        };
        self.score = self.score + 10 * n;
    }

    /// Balls were lost, and so many are left.
    pub fn balls_left(&mut self, balls: usize) -> (r: Fall)
        requires
            old(self).wf(),
        ensures
            final(self).wf(),
            final(self).score == old(self).score && final(self).level == old(self).level,
            final(self).bricks@ == old(self).bricks@,
            ({
                let g = *old(self);
                let over = balls == 0 && g.lives <= 1;
                &&& final(self).lives == if balls == 0 && g.lives > 0 {
                    g.lives - 1
                } else {
                    g.lives as int
                }
                &&& final(self).phase == if balls > 0 {
                    g.phase
                } else if over {
                    Phase::Dead
                } else {
                    Phase::Serve
                }
                &&& final(self).combo == if balls == 0 && !over {
                    0
                } else {
                    g.combo
                }
                &&& final(self).best == if over && g.score > g.best {
                    g.score
                } else {
                    g.best
                }
                &&& match r {
                    Fall::Nothing => balls > 0,
                    Fall::Serve => balls == 0 && !over,
                    Fall::Over(None) => over && g.score <= g.best,
                    Fall::Over(Some(s)) => over && g.score > g.best && s@ == decimal(
                        g.score as nat,
                    ),
                }
            }),
    {
        if balls > 0 {
            return Fall::Nothing;
        }
        self.lives = if self.lives > 0 {
            self.lives - 1
        } else {
            0
        };
        if self.lives > 0 {
            self.serve();
            return Fall::Serve;
        }
        self.phase = Phase::Dead;
        if self.score > self.best {
            self.best = self.score;
            return Fall::Over(Some(format_u64(self.best as u64)));
        }
        Fall::Over(None)
    }

    /// A power-up is caught.
    pub fn catch_power_up(&mut self, p: Pow)
        requires
            old(self).score + POW_WORTH <= u32::MAX,
            old(self).lives < u32::MAX,
        ensures
            *final(self) == (Prism {
                score: (old(self).score + POW_WORTH) as u32,
                lives: if p == Pow::Life {
                    if old(self).lives + 1 <= MAX_LIVES {
                        (old(self).lives + 1) as u32
                    } else {
                        MAX_LIVES
                    }
                } else {
                    old(self).lives
                },
                ..*old(self)
            }),
    {
        self.score = self.score + POW_WORTH;
        match p {
            Pow::Life => {
                self.lives = if self.lives + 1 <= MAX_LIVES {
                    self.lives + 1
                } else {
                    MAX_LIVES
                };
            },
            _ => {},
        }
    }

    /// Looks whether the level is cleared.
    pub fn check_clear(&mut self) -> (cleared: bool)
        requires
            old(self).score + CLEAR_WORTH <= u32::MAX,
        ensures
            cleared == (breakable(old(self).bricks@) == 0),
            cleared ==> *final(self) == (Prism {
                phase: Phase::Clear,
                score: (old(self).score + CLEAR_WORTH) as u32,
                ..*old(self)
            }),
            !cleared ==> *final(self) == *old(self),
    {
        if breakable_left(&self.bricks) == 0 {
            self.phase = Phase::Clear;
            self.score = self.score + CLEAR_WORTH;
            return true;
        }
        false
    }

    /// The next level begins.
    pub fn next_level(&mut self)
        requires
            old(self).level < u32::MAX,
        ensures
            final(self).wf(),
            final(self).phase == Phase::Serve && final(self).level == old(self).level + 1
                && final(self).combo == 0,
            final(self).bricks@ == wall((old(self).level + 1) as u32),
            final(self).score == old(self).score && final(self).best == old(self).best
                && final(self).lives == old(self).lives,
    {
        self.level = self.level + 1;
        self.bricks = build_level(self.level);
        self.serve();
    }

    /// Leaves the screen at the end of a run.
    pub fn to_menu(&mut self)
        ensures
            *final(self) == (Prism { phase: Phase::Menu, ..*old(self) }),
    {
        self.phase = Phase::Menu;
    }
}

/// A brick stands exactly where the pattern of its level has one, and is the one of its
/// place.
pub proof fn lemma_wall_follows_the_pattern(level: u32, b: Brick)
    requires
        level >= 1,
    ensures
        wall(level).contains(b) <==> exists|r: int, c: int|
            0 <= r < rows_of(level) && 0 <= c < 11 && has_brick(level, r, c) && b
                == #[trigger] brick_at(level, r, c),
{
    lemma_bricks_up_to(level, rows_of(level) * 11, b);
    let n = rows_of(level) * 11;
    if wall(level).contains(b) {
        let k = choose|k: int|
            0 <= k < n && #[trigger] has_brick(level, k / 11, k % 11) && b == brick_at(
                level,
                k / 11,
                k % 11,
            );
        assert(b == brick_at(level, k / 11, k % 11));
    }
    if exists|r: int, c: int|
        0 <= r < rows_of(level) && 0 <= c < 11 && has_brick(level, r, c) && b == #[trigger] brick_at(
            level,
            r,
            c,
        ) {
        let (r, c) = choose|r: int, c: int|
            0 <= r < rows_of(level) && 0 <= c < 11 && has_brick(level, r, c) && b
                == #[trigger] brick_at(level, r, c);
        let k = r * 11 + c;
        assert(k / 11 == r && k % 11 == c);
        assert(has_brick(level, k / 11, k % 11));
    }
}

proof fn lemma_bricks_up_to(level: u32, n: int, b: Brick)
    ensures
        bricks_up_to(level, n).contains(b) <==> exists|k: int|
            0 <= k < n && #[trigger] has_brick(level, k / 11, k % 11) && b == brick_at(
                level,
                k / 11,
                k % 11,
            ),
    decreases n,
{
    if n > 0 {
        lemma_bricks_up_to(level, n - 1, b);
        let d = bricks_up_to(level, n - 1);
        let all = bricks_up_to(level, n);
        let there = has_brick(level, (n - 1) / 11, (n - 1) % 11);
        if there {
            assert(all[d.len() as int] == brick_at(level, (n - 1) / 11, (n - 1) % 11));
        }
        if d.contains(b) {
            let i = choose|i: int| 0 <= i < d.len() && d[i] == b;
            assert(all[i] == b);
        }
        if all.contains(b) && !d.contains(b) {
            let i = choose|i: int| 0 <= i < all.len() && all[i] == b;
            if i < d.len() {
                assert(d[i] == b);
            }
        }
    }
}

/// The walls look the same from either side, and come again every four levels once they
/// have their full height.
pub proof fn lemma_walls_are_even(level: u32, r: int, c: int)
    requires
        1 <= level <= u32::MAX - 4,
        0 <= r < rows_of(level),
        0 <= c < 11,
    ensures
        has_brick(level, r, c) == has_brick(level, r, 10 - c),
        level >= 3 ==> has_brick((level + 4) as u32, r, c) == has_brick(level, r, c),
        rows_of(level) <= rows_of((level + 1) as u32) <= 8,
        level % 4 == 1 ==> has_brick(level, r, c),
        level % 4 == 2 && c < 10 ==> has_brick(level, r, c) != has_brick(level, r, c + 1),
        level % 4 == 2 ==> has_brick(level, r, c) != has_brick(level, r + 1, c),
        level % 4 == 3 && has_brick(level, r, c) ==> has_brick(level, r + 1, c),
        level % 4 == 3 ==> has_brick(level, r, 5),
        level % 4 == 0 && (c == 0 || c == 10 || r == 0 || r == rows_of(level) - 1) ==> has_brick(
            level,
            r,
            c,
        ),
        level % 4 == 0 && r == 1 ==> !has_brick(level, r, 5),
{
}

/// A brick that is not of steel breaks with as many hits as it takes, no sooner, and takes
/// no other with it.
pub proof fn lemma_brick_breaks_after_its_hits(b: Seq<Brick>, i: usize, n: nat)
    requires
        i < b.len(),
        !b[i as int].steel,
        1 <= n <= b[i as int].hp,
    ensures
        n < b[i as int].hp ==> struck(b, Seq::new(n, |k: int| i)).0 == b.update(
            i as int,
            (Brick { hp: (b[i as int].hp - n) as u8, ..b[i as int] }),
        ),
        n == b[i as int].hp ==> struck(b, Seq::new(n, |k: int| i)).0 == b.remove(i as int),
    decreases n,
{
    let hits = Seq::new(n, |k: int| i);
    let d = hits.drop_last();
    let m = (n - 1) as nat;
    assert(d =~= Seq::new(m, |k: int| i));
    if n > 1 {
        lemma_brick_breaks_after_its_hits(b, i, m);
        let before = struck(b, d).0;
        assert(before[i as int].hp == b[i as int].hp - m);
        if n < b[i as int].hp {
            assert(after_hit(before, i as int) =~= b.update(
                i as int,
                (Brick { hp: (b[i as int].hp - n) as u8, ..b[i as int] }),
            ));
        } else {
            assert(before.remove(i as int) =~= b.remove(i as int));
        }
    } else {
        assert(d.len() == 0);
        assert(struck(b, d).0 == b);
    }
}

/// What is left to break is what each part of the wall leaves; a brick of steel counts for
/// nothing.
pub proof fn lemma_breakable_adds(a: Seq<Brick>, b: Seq<Brick>, x: Brick)
    ensures
        breakable(a + b) == breakable(a) + breakable(b),
        breakable(seq![x]) == if x.steel {
            0nat
        } else {
            1nat
        },
    decreases b.len(),
{
    assert(seq![x].drop_last() =~= Seq::<Brick>::empty());
    assert(breakable(Seq::<Brick>::empty()) == 0);
    if b.len() == 0 {
        assert(a + b =~= a);
    } else {
        assert((a + b).drop_last() =~= a + b.drop_last());
        lemma_breakable_adds(a, b.drop_last(), x);
    }
}

/// Each brick of a rally is worth ten more than the one before it, up to eighty; splitting
/// makes three balls of each, as long as they are not too many.
pub proof fn lemma_rally_is_worth_more(combo: u32, balls: int)
    requires
        combo < u32::MAX,
        balls >= 0,
    ensures
        brick_worth(0) == 10,
        combo < 7 ==> brick_worth((combo + 1) as u32) == brick_worth(combo) + 10,
        combo >= 7 ==> brick_worth(combo) == 80,
        balls <= 4 ==> split_count(balls) == 3 * balls,
        4 < balls <= 12 ==> split_count(balls) == 12,
        balls > 12 ==> split_count(balls) == balls,
{
}

/// In the first level every brick breaks with one hit; from the second on those of the upper
/// third take two; bricks of steel come from the third level on, in the top row alone, and
/// the rows differ in their color.
pub proof fn lemma_higher_levels_are_harder(level: u32, r: int, c: int)
    requires
        level >= 1,
        0 <= r < rows_of(level),
        0 <= c < 11,
    ensures
        ({
            let b = brick_at(level, r, c);
            &&& b.row == r && b.col == c
            &&& b.steel ==> level >= 3 && r == 0
            &&& level >= 3 && r == 0 && (c == 2 || c == 7) ==> b.steel
            &&& !b.steel && level == 1 ==> b.hp == 1
            &&& !b.steel && level >= 2 && 3 * (r + 1) <= rows_of(level) ==> b.hp == 2
            &&& !b.steel && 3 * (r + 1) > rows_of(level) ==> b.hp == 1
            &&& b.tone < 6 && (r >= 1 ==> b.tone != brick_at(level, r - 1, c).tone)
        }),
        level == 1 ==> rows_of(level) == 6,
        level == 2 ==> rows_of(level) == 7,
        level >= 3 ==> rows_of(level) == 8,
{
}

} // verus!

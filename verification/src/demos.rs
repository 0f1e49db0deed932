//! Small demonstration apps: a keyboard tester, an animated panel, and a click counter.
use vstd::prelude::*;
use vstd::string::StringExecFns;
use crate::canvas::{le32, le32_value};
use crate::numerals::{decimal, format_u64};
use crate::text::{chars_of, string_from};

verus! {

// ── The keyboard tester ──────────────────────────────────────────────────────

/// The most marks that are kept.
pub const MAX_MARKS: usize = 40;

/// The most characters of typed text that are kept.
pub const MAX_TYPED: usize = 48;

/// A place on the screen, by the bits of its two coordinates.
#[derive(Clone, Copy, Debug, PartialEq, Eq, Structural)]
pub struct Mark {
    pub x: u32,
    pub y: u32,
}

/// What the keyboard tester keeps.
pub struct Keyboard {
    pub marks: Vec<Mark>,
    pub text: String,
}

/// Marks after one more: the oldest is dropped where there are too many.
pub open spec fn marked(m: Seq<Mark>, x: Mark) -> Seq<Mark> {
    if m.len() >= MAX_MARKS {
        m.push(x).skip(1)
    } else {
        m.push(x)
    }
}

/// The last characters of a text.
pub open spec fn last_chars(s: Seq<char>, n: int) -> Seq<char> {
    if s.len() > n {
        s.skip(s.len() - n)
    } else {
        s
    }
}

/// A list without its last item.
pub open spec fn shortened<T>(s: Seq<T>) -> Seq<T> {
    if s.len() > 0 {
        s.drop_last()
    } else {
        s
    }
}

/// The marks after a frame.
pub open spec fn marks_after(
    m: Seq<Mark>,
    space: Option<Mark>,
    backspace: bool,
    escape: bool,
) -> Seq<Mark> {
    let a = match space {
        Some(x) => marked(m, x),
        None => m,
    };
    let b = if backspace {
        shortened(a)
    } else {
        a
    };
    if escape {
        Seq::empty()
    } else {
        b
    }
}

/// The text after a frame.
pub open spec fn text_after(s: Seq<char>, typed: Seq<char>, backspace: bool, escape: bool) -> Seq<
    char,
> {
    let a = if escape {
        Seq::empty()
    } else {
        s
    };
    let b = if typed.len() > 0 {
        last_chars(a + typed, MAX_TYPED as int)
    } else {
        a
    };
    if backspace {
        shortened(b)
    } else {
        b
    }
}

impl Keyboard {
    /// The tester when it is opened.
    pub fn new() -> (k: Keyboard)
        ensures
            k.marks@.len() == 0 && k.text@.len() == 0,
    {
        Keyboard { marks: Vec::new(), text: String::new() }
    }

    /// A frame: the place to mark if space was pressed, which of the other keys were, and
    /// what was typed.
    pub fn frame(&mut self, space: Option<Mark>, backspace: bool, escape: bool, typed: &str)
        requires
            old(self).marks@.len() <= MAX_MARKS,
        ensures
            final(self).marks@ == marks_after(old(self).marks@, space, backspace, escape),
            final(self).marks@.len() <= MAX_MARKS,
            final(self).text@ == text_after(old(self).text@, typed@, backspace, escape),
    {
        match space {
            Some(x) => {
                let ghost before = self.marks@;
                self.marks.push(x);
                if self.marks.len() > MAX_MARKS {
                    self.marks.remove(0);
                }
                assert(self.marks@ =~= marked(before, x));
            },
            None => {},
        }
        if backspace {
            let ghost before = self.marks@;
            let _ = self.marks.pop();
            assert(self.marks@ =~= shortened(before));
        }
        if escape {
            self.marks = Vec::new();
            self.text = String::new();
        }
        assert(self.marks@ =~= marks_after(old(self).marks@, space, backspace, escape));
        if !typed.is_empty() {
            self.text.append(typed);
            let v = chars_of(self.text.as_str());
            if v.len() > MAX_TYPED {
                let s = string_from(&v, v.len() - MAX_TYPED, v.len());
                assert(s@ =~= v@.skip(v@.len() - MAX_TYPED));
                self.text = s;
            }
        }
        if backspace {
            let v = chars_of(self.text.as_str());
            if v.len() > 0 {
                let s = string_from(&v, 0, v.len() - 1);
                assert(s@ =~= v@.drop_last());
                self.text = s;
            }
        }
    }
}

/// The tester never keeps more than it has room for.
pub proof fn lemma_typed_text_is_bounded(
    s: Seq<char>,
    typed: Seq<char>,
    backspace: bool,
    escape: bool,
)
    requires
        s.len() <= MAX_TYPED,
    ensures
        text_after(s, typed, backspace, escape).len() <= MAX_TYPED,
{
}

/// How a key is drawn.
#[derive(Clone, Copy, Debug, PartialEq, Eq, Structural)]
pub enum KeyLook {
    Hit,
    Held,
    Released,
    Idle,
}

/// Returns how a key is drawn: that it was just pressed counts before that it is held.
pub fn key_look(pressed: bool, held: bool, released: bool) -> (l: KeyLook)
    ensures
        l == if pressed {
            KeyLook::Hit
        } else if held {
            KeyLook::Held
        } else if released {
            KeyLook::Released
        } else {
            KeyLook::Idle
        },
{
    if pressed {
        KeyLook::Hit
    } else if held {
        KeyLook::Held
    } else if released {
        KeyLook::Released
    } else {
        KeyLook::Idle
    }
}

/// Returns how high the bar of a character is, in steps.
pub fn bar_steps(c: char) -> (n: u32)
    ensures
        n == c as u32 % 17,
{
    c as u32 % 17
}

// ── The animated panel ───────────────────────────────────────────────────────

/// How many themes there are.
pub const THEMES: u32 = 3;

/// What the panel keeps. Speeds are numbers of the host, by their bits.
pub struct Panel {
    pub playing: bool,
    pub theme: u32,
    pub speed: u32,
    pub dragging: bool,
    /// What was stored last.
    pub saved_theme: Option<u32>,
    pub saved_speed: Option<u32>,
}

impl Panel {
    /// The panel when it is opened. `one` is the host's number one.
    pub fn new(one: u32) -> (p: Panel)
        ensures
            p.playing && p.theme == 0 && p.speed == one && !p.dragging && p.saved_theme is None
                && p.saved_speed is None,
    {
        Panel {
            playing: true,
            theme: 0,
            speed: one,
            dragging: false,
            saved_theme: None,
            saved_speed: None,
        }
    }

    /// Takes up a stored theme: a digit from zero to two.
    pub fn load_theme(&mut self, stored: &Vec<u8>)
        ensures
            ({
                let ok = stored@.len() > 0 && 48 <= stored@[0] <= 50;
                let t = (stored@[0] - 48) as u32;
                *final(self) == if ok {
                    Panel { theme: t, saved_theme: Some(t), ..*old(self) }
                } else {
                    *old(self)
                }
            }),
    {
        if stored.len() > 0 && 48 <= stored[0] && stored[0] <= 50 {
            let t: u32 = (stored[0] - 48) as u32;
            self.theme = t;
            self.saved_theme = Some(t);
        }
    }

    /// Returns the speed that was stored, by its bits.
    pub fn stored_speed(stored: &Vec<u8>) -> (r: Option<u32>)
        ensures
            match r {
                Some(b) => stored@.len() == 4 && b == le32_value(stored@),
                None => stored@.len() != 4,
            },
    {
        if stored.len() != 4 {
            return None;
        }
        Some(
            stored[0] as u32 + stored[1] as u32 * 256 + stored[2] as u32 * 65536 + stored[3] as u32
                * 16777216,
        )
    }

    /// Takes up a stored speed; `bounded` is what it is within its bounds.
    pub fn load_speed(&mut self, stored: u32, bounded: u32)
        ensures
            *final(self) == (Panel { speed: bounded, saved_speed: Some(stored), ..*old(self) }),
    {
        self.speed = bounded;
        self.saved_speed = Some(stored);
    }

    /// Plays or pauses.
    pub fn toggle(&mut self)
        ensures
            *final(self) == (Panel { playing: !old(self).playing, ..*old(self) }),
    {
        self.playing = !self.playing;
    }

    /// Chooses a theme.
    pub fn set_theme(&mut self, theme: u32)
        requires
            theme < THEMES,
        ensures
            *final(self) == (Panel { theme, ..*old(self) }),
    {
        self.theme = theme;
    }

    /// The pointer on the slider: whether it is down, whether it was just pressed on the
    /// handle, and the speed under it.
    pub fn slide(&mut self, down: bool, grabbed: bool, speed: u32)
        ensures
            *final(self) == if down && (old(self).dragging || grabbed) {
                Panel { dragging: true, speed, ..*old(self) }
            } else if !down {
                Panel { dragging: false, ..*old(self) }
            } else {
                *old(self)
            },
    {
        if down && (self.dragging || grabbed) {
            self.dragging = true;
            self.speed = speed;
        } else if !down {
            self.dragging = false;
        }
    }

    /// Returns what has to be stored: the theme when it changed, and the speed when it
    /// changed and the slider was let go.
    pub fn persist(&mut self, down: bool) -> (r: (Option<Vec<u8>>, Option<Vec<u8>>))
        requires
            old(self).theme < THEMES,
        ensures
            ({
                let p = *old(self);
                let theme = p.saved_theme != Some(p.theme);
                let speed = !down && !p.dragging && p.saved_speed != Some(p.speed);
                &&& match r.0 {
                    Some(b) => theme && b@ == seq![(48 + p.theme) as u8],
                    None => !theme,
                }
                &&& match r.1 {
                    Some(b) => speed && b@ == le32(p.speed),
                    None => !speed,
                }
                &&& *final(self) == (Panel {
                    saved_theme: Some(p.theme),
                    saved_speed: if speed {
                        Some(p.speed)
                    } else {
                        p.saved_speed
                    },
                    ..p
                })
            }),
    {
        let mut t: Option<Vec<u8>> = None;
        let mut s: Option<Vec<u8>> = None;
        let theme_is_saved = match self.saved_theme {
            Some(x) => x == self.theme,
            None => false,
        };
        if !theme_is_saved {
            self.saved_theme = Some(self.theme);
            let mut v: Vec<u8> = Vec::new();
            v.push((48 + self.theme) as u8);
            assert(v@ =~= seq![(48 + self.theme) as u8]);
            t = Some(v);
        }
        let speed_is_saved = match self.saved_speed {
            Some(x) => x == self.speed,
            None => false,
        };
        if !down && !self.dragging && !speed_is_saved {
            self.saved_speed = Some(self.speed);
            let n: u32 = self.speed;
            let mut v: Vec<u8> = Vec::new();
            v.push((n % 256) as u8);
            v.push((n / 256 % 256) as u8);
            v.push((n / 65536 % 256) as u8);
            v.push((n / 16777216 % 256) as u8);
            assert(v@ =~= le32(n));
            s = Some(v);
        }
        (t, s)
    }
}

/// The speed is read back as it was stored.
pub proof fn lemma_speed_round_trip(n: u32)
    ensures
        le32(n).len() == 4,
        le32_value(le32(n)) == n,
{
}

/// Returns red, green and blue of a theme.
pub fn theme_rgb(theme: u32) -> (c: (u8, u8, u8))
    ensures
        c == if theme == 0 {
            (56u8, 189u8, 248u8)
        } else if theme == 1 {
            (74u8, 222u8, 128u8)
        } else {
            (248u8, 113u8, 163u8)
        },
{
    if theme == 0 {
        (56, 189, 248)
    } else if theme == 1 {
        (74, 222, 128)
    } else {
        (248, 113, 163)
    }
}

// ── The click counter ────────────────────────────────────────────────────────

/// Returns how often was clicked, in words.
pub fn clicks_text(n: u32) -> (r: String)
    ensures
        r@ == "Clicked "@ + decimal(n as nat) + " time"@ + if n == 1 {
            ""@
        } else {
            "s"@
        },
{
    let mut r = "Clicked ".to_owned();
    r.append(format_u64(n as u64).as_str());
    r.append(" time");
    r.append(
        if n == 1 {
            ""
        } else {
            "s"
        },
    );
    r
}

/// Of what is typed the last characters are kept, in their order; a backspace takes the last
/// one away, and escape all that stood there before.
pub proof fn lemma_last_typed_is_kept(s: Seq<char>, typed: Seq<char>)
    requires
        s.len() <= 48,
        typed.len() > 0,
    ensures
        ({
            let t = text_after(s, typed, false, false);
            let all = s + typed;
            &&& t.len() == if all.len() <= 48 {
                all.len()
            } else {
                48
            }
            &&& forall|i: int|
                0 <= i < t.len() ==> #[trigger] t[t.len() - 1 - i] == all[all.len() - 1 - i]
        }),
        text_after(s, Seq::empty(), false, false) == s,
        s.len() > 0 ==> text_after(s, Seq::empty(), true, false) == s.drop_last(),
        text_after(s, Seq::empty(), false, true).len() == 0,
        text_after(s, typed, false, true) == text_after(Seq::empty(), typed, false, false),
{
    assert(Seq::<char>::empty() + typed =~= typed);
}

/// The last marks are kept, the oldest making room; a backspace takes the newest away, and
/// escape all.
pub proof fn lemma_last_marks_are_kept(m: Seq<Mark>, x: Mark)
    requires
        m.len() <= 40,
    ensures
        marks_after(m, Some(x), false, false).last() == x,
        m.len() < 40 ==> marks_after(m, Some(x), false, false) == m.push(x),
        m.len() == 40 ==> marks_after(m, Some(x), false, false) == m.skip(1).push(x),
        marks_after(m, None, false, false) == m,
        m.len() > 0 ==> marks_after(m, None, true, false) == m.drop_last(),
        forall|s: Option<Mark>, b: bool| (#[trigger] marks_after(m, s, b, true)).len() == 0,
{
    if m.len() == 40 {
        assert(m.push(x).skip(1) =~= m.skip(1).push(x));
    }
}

} // verus!

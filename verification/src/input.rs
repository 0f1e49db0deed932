//! What the user does with keyboard and mouse, as guests see it.
use vstd::prelude::*;
use vstd::string::StringExecFns;

verus! {

/// The keys that guests can ask for.
#[derive(Debug, Clone, Copy, PartialEq, Eq, Structural)]
pub enum Key {
    A,
    B,
    C,
    D,
    E,
    F,
    G,
    H,
    I,
    J,
    K,
    L,
    M,
    N,
    O,
    P,
    Q,
    R,
    S,
    T,
    U,
    V,
    W,
    X,
    Y,
    Z,
    Num0,
    Num1,
    Num2,
    Num3,
    Num4,
    Num5,
    Num6,
    Num7,
    Num8,
    Num9,
    Left,
    Right,
    Up,
    Down,
    Space,
    Enter,
    Escape,
    Tab,
    Backspace,
    Delete,
    Insert,
    Home,
    End,
    PageUp,
    PageDown,
    Minus,
    Plus,
    Equals,
    Comma,
    Period,
    Slash,
    Backslash,
    Semicolon,
    Colon,
    Backtick,
    OpenBracket,
    CloseBracket,
    Pipe,
    Question,
    F1,
    F2,
    F3,
    F4,
    F5,
    F6,
    F7,
    F8,
    F9,
    F10,
    F11,
    F12,
}

/// The number by which guests and host call a key. Letters come first, then digits,
/// arrows, editing keys, punctuation and, from 70 on, the function keys.
pub open spec fn key_code(k: Key) -> i32 {
    match k {
        Key::A => 0,
        Key::B => 1,
        Key::C => 2,
        Key::D => 3,
        Key::E => 4,
        Key::F => 5,
        Key::G => 6,
        Key::H => 7,
        Key::I => 8,
        Key::J => 9,
        Key::K => 10,
        Key::L => 11,
        Key::M => 12,
        Key::N => 13,
        Key::O => 14,
        Key::P => 15,
        Key::Q => 16,
        Key::R => 17,
        Key::S => 18,
        Key::T => 19,
        Key::U => 20,
        Key::V => 21,
        Key::W => 22,
        Key::X => 23,
        Key::Y => 24,
        Key::Z => 25,
        Key::Num0 => 26,
        Key::Num1 => 27,
        Key::Num2 => 28,
        Key::Num3 => 29,
        Key::Num4 => 30,
        Key::Num5 => 31,
        Key::Num6 => 32,
        Key::Num7 => 33,
        Key::Num8 => 34,
        Key::Num9 => 35,
        Key::Left => 36,
        Key::Right => 37,
        Key::Up => 38,
        Key::Down => 39,
        Key::Space => 40,
        Key::Enter => 41,
        Key::Escape => 42,
        Key::Tab => 43,
        Key::Backspace => 44,
        Key::Delete => 45,
        Key::Insert => 46,
        Key::Home => 47,
        Key::End => 48,
        Key::PageUp => 49,
        Key::PageDown => 50,
        Key::Minus => 51,
        Key::Plus => 52,
        Key::Equals => 53,
        Key::Comma => 54,
        Key::Period => 55,
        Key::Slash => 56,
        Key::Backslash => 57,
        Key::Semicolon => 58,
        Key::Colon => 59,
        Key::Backtick => 60,
        Key::OpenBracket => 61,
        Key::CloseBracket => 62,
        Key::Pipe => 63,
        Key::Question => 64,
        Key::F1 => 70,
        Key::F2 => 71,
        Key::F3 => 72,
        Key::F4 => 73,
        Key::F5 => 74,
        Key::F6 => 75,
        Key::F7 => 76,
        Key::F8 => 77,
        Key::F9 => 78,
        Key::F10 => 79,
        Key::F11 => 80,
        Key::F12 => 81,
    }
}

/// The key with a number.
pub open spec fn key_of_code(code: i32) -> Option<Key> {
    if code == 0 {
        Some(Key::A)
    } else if code == 1 {
        Some(Key::B)
    } else if code == 2 {
        Some(Key::C)
    } else if code == 3 {
        Some(Key::D)
    } else if code == 4 {
        Some(Key::E)
    } else if code == 5 {
        Some(Key::F)
    } else if code == 6 {
        Some(Key::G)
    } else if code == 7 {
        Some(Key::H)
    } else if code == 8 {
        Some(Key::I)
    } else if code == 9 {
        Some(Key::J)
    } else if code == 10 {
        Some(Key::K)
    } else if code == 11 {
        Some(Key::L)
    } else if code == 12 {
        Some(Key::M)
    } else if code == 13 {
        Some(Key::N)
    } else if code == 14 {
        Some(Key::O)
    } else if code == 15 {
        Some(Key::P)
    } else if code == 16 {
        Some(Key::Q)
    } else if code == 17 {
        Some(Key::R)
    } else if code == 18 {
        Some(Key::S)
    } else if code == 19 {
        Some(Key::T)
    } else if code == 20 {
        Some(Key::U)
    } else if code == 21 {
        Some(Key::V)
    } else if code == 22 {
        Some(Key::W)
    } else if code == 23 {
        Some(Key::X)
    } else if code == 24 {
        Some(Key::Y)
    } else if code == 25 {
        Some(Key::Z)
    } else if code == 26 {
        Some(Key::Num0)
    } else if code == 27 {
        Some(Key::Num1)
    } else if code == 28 {
        Some(Key::Num2)
    } else if code == 29 {
        Some(Key::Num3)
    } else if code == 30 {
        Some(Key::Num4)
    } else if code == 31 {
        Some(Key::Num5)
    } else if code == 32 {
        Some(Key::Num6)
    } else if code == 33 {
        Some(Key::Num7)
    } else if code == 34 {
        Some(Key::Num8)
    } else if code == 35 {
        Some(Key::Num9)
    } else if code == 36 {
        Some(Key::Left)
    } else if code == 37 {
        Some(Key::Right)
    } else if code == 38 {
        Some(Key::Up)
    } else if code == 39 {
        Some(Key::Down)
    } else if code == 40 {
        Some(Key::Space)
    } else if code == 41 {
        Some(Key::Enter)
    } else if code == 42 {
        Some(Key::Escape)
    } else if code == 43 {
        Some(Key::Tab)
    } else if code == 44 {
        Some(Key::Backspace)
    } else if code == 45 {
        Some(Key::Delete)
    } else if code == 46 {
        Some(Key::Insert)
    } else if code == 47 {
        Some(Key::Home)
    } else if code == 48 {
        Some(Key::End)
    } else if code == 49 {
        Some(Key::PageUp)
    } else if code == 50 {
        Some(Key::PageDown)
    } else if code == 51 {
        Some(Key::Minus)
    } else if code == 52 {
        Some(Key::Plus)
    } else if code == 53 {
        Some(Key::Equals)
    } else if code == 54 {
        Some(Key::Comma)
    } else if code == 55 {
        Some(Key::Period)
    } else if code == 56 {
        Some(Key::Slash)
    } else if code == 57 {
        Some(Key::Backslash)
    } else if code == 58 {
        Some(Key::Semicolon)
    } else if code == 59 {
        Some(Key::Colon)
    } else if code == 60 {
        Some(Key::Backtick)
    } else if code == 61 {
        Some(Key::OpenBracket)
    } else if code == 62 {
        Some(Key::CloseBracket)
    } else if code == 63 {
        Some(Key::Pipe)
    } else if code == 64 {
        Some(Key::Question)
    } else if code == 70 {
        Some(Key::F1)
    } else if code == 71 {
        Some(Key::F2)
    } else if code == 72 {
        Some(Key::F3)
    } else if code == 73 {
        Some(Key::F4)
    } else if code == 74 {
        Some(Key::F5)
    } else if code == 75 {
        Some(Key::F6)
    } else if code == 76 {
        Some(Key::F7)
    } else if code == 77 {
        Some(Key::F8)
    } else if code == 78 {
        Some(Key::F9)
    } else if code == 79 {
        Some(Key::F10)
    } else if code == 80 {
        Some(Key::F11)
    } else if code == 81 {
        Some(Key::F12)
    } else {
        None
    }
}

/// The key that a number stands for is the key with that number, so no two keys
/// share one.
pub proof fn lemma_key_codes_distinct(k: Key)
    ensures
        key_of_code(key_code(k)) == Some(k),
{
}

impl Key {
    /// The number of this key.
    pub fn code(self) -> (c: i32)
        ensures
            c == key_code(self),
    {
        match self {
            Key::A => 0,
            Key::B => 1,
            Key::C => 2,
            Key::D => 3,
            Key::E => 4,
            Key::F => 5,
            Key::G => 6,
            Key::H => 7,
            Key::I => 8,
            Key::J => 9,
            Key::K => 10,
            Key::L => 11,
            Key::M => 12,
            Key::N => 13,
            Key::O => 14,
            Key::P => 15,
            Key::Q => 16,
            Key::R => 17,
            Key::S => 18,
            Key::T => 19,
            Key::U => 20,
            Key::V => 21,
            Key::W => 22,
            Key::X => 23,
            Key::Y => 24,
            Key::Z => 25,
            Key::Num0 => 26,
            Key::Num1 => 27,
            Key::Num2 => 28,
            Key::Num3 => 29,
            Key::Num4 => 30,
            Key::Num5 => 31,
            Key::Num6 => 32,
            Key::Num7 => 33,
            Key::Num8 => 34,
            Key::Num9 => 35,
            Key::Left => 36,
            Key::Right => 37,
            Key::Up => 38,
            Key::Down => 39,
            Key::Space => 40,
            Key::Enter => 41,
            Key::Escape => 42,
            Key::Tab => 43,
            Key::Backspace => 44,
            Key::Delete => 45,
            Key::Insert => 46,
            Key::Home => 47,
            Key::End => 48,
            Key::PageUp => 49,
            Key::PageDown => 50,
            Key::Minus => 51,
            Key::Plus => 52,
            Key::Equals => 53,
            Key::Comma => 54,
            Key::Period => 55,
            Key::Slash => 56,
            Key::Backslash => 57,
            Key::Semicolon => 58,
            Key::Colon => 59,
            Key::Backtick => 60,
            Key::OpenBracket => 61,
            Key::CloseBracket => 62,
            Key::Pipe => 63,
            Key::Question => 64,
            Key::F1 => 70,
            Key::F2 => 71,
            Key::F3 => 72,
            Key::F4 => 73,
            Key::F5 => 74,
            Key::F6 => 75,
            Key::F7 => 76,
            Key::F8 => 77,
            Key::F9 => 78,
            Key::F10 => 79,
            Key::F11 => 80,
            Key::F12 => 81,
        }
    }
}

/// The modifier keys that are held.
#[derive(Clone, Copy, Debug, PartialEq, Eq, Structural)]
pub struct Modifiers {
    pub shift: bool,
    pub ctrl: bool,
    pub alt: bool,
    pub cmd: bool,
}

/// The mouse buttons that are held, and those that were clicked in this frame.
#[derive(Clone, Copy, Debug, PartialEq, Eq, Structural)]
pub struct Buttons {
    pub left_down: bool,
    pub right_down: bool,
    pub middle_down: bool,
    pub left_clicked: bool,
    pub right_clicked: bool,
}

/// What the keyboard and the mouse buttons do in one frame.
pub struct Input {
    pub keys_down: Vec<i32>,
    pub keys_pressed: Vec<i32>,
    pub keys_released: Vec<i32>,
    /// One bit for each of shift, control, alt and command, lowest first.
    pub modifiers: i32,
    pub buttons: Buttons,
    /// The characters typed in this frame.
    pub typed: String,
}

/// Something the keyboard did.
pub enum KeyboardEvent {
    /// A key changed: which, whether it went down, and whether this is only the
    /// keyboard repeating a key that is held.
    Change(Key, bool, bool),
    /// Characters were typed.
    Typed(String),
}

/// One where the flag is set.
pub open spec fn bit(b: bool, value: int) -> int {
    if b {
        value
    } else {
        0
    }
}

/// The modifier keys as bits.
pub open spec fn modifier_bits(m: Modifiers) -> int {
    bit(m.shift, 1) + bit(m.ctrl, 2) + bit(m.alt, 4) + bit(m.cmd, 8)
}

/// Whether an event is a press of a key, repetitions not counted.
pub open spec fn is_press(e: KeyboardEvent, code: i32) -> bool {
    e matches KeyboardEvent::Change(k, pressed, repeat) && pressed && !repeat && key_code(k) == code
}

/// Whether an event is a key going up.
pub open spec fn is_release(e: KeyboardEvent, code: i32) -> bool {
    e matches KeyboardEvent::Change(k, pressed, repeat) && !pressed && key_code(k) == code
}

/// The characters that the events typed.
pub open spec fn typed_text(events: Seq<KeyboardEvent>) -> Seq<char>
    decreases events.len(),
{
    if events.len() == 0 {
        Seq::empty()
    } else {
        match events.last() {
            KeyboardEvent::Typed(t) => typed_text(events.drop_last()) + t@,
            _ => typed_text(events.drop_last()),
        }
    }
}

/// Whether a list holds a number.
pub fn holds_code(list: &Vec<i32>, code: i32) -> (r: bool)
    ensures
        r == list@.contains(code),
{
    let mut i: usize = 0;
    while i < list.len()
        invariant
            i <= list@.len(),
            forall|j: int| 0 <= j < i ==> list@[j] != code,
        decreases list.len() - i,
    {
        if list[i] == code {
            return true;
        }
        i += 1;
    }
    false
}

/// Adds a number to a list that has it once at most.
fn add_code(list: &mut Vec<i32>, code: i32)
    requires
        old(list)@.no_duplicates(),
    ensures
        final(list)@.no_duplicates(),
        forall|c: i32| #[trigger]
            final(list)@.contains(c) <==> old(list)@.contains(c) || c == code,
{
    if holds_code(list, code) {
        return;
    }
    let ghost before = list@;
    list.push(code);
    assert forall|c: i32| #[trigger] list@.contains(c) <==> before.contains(c) || c == code by {
        if before.contains(c) {
            let i = choose|i: int| 0 <= i < before.len() && before[i] == c;
            assert(list@[i] == c);
        }
        if list@.contains(c) {
            let i = choose|i: int| 0 <= i < list@.len() && list@[i] == c;
            if i < before.len() {
                assert(before[i] == c);
            }
        }
        assert(list@[before.len() as int] == code);
    }
}

/// What guests see of one frame: the keys that are held, those that went down or up,
/// and what was typed.
pub fn snapshot(
    held: &Vec<Key>,
    events: &Vec<KeyboardEvent>,
    modifiers: Modifiers,
    buttons: Buttons,
) -> (r: Input)
    ensures
        forall|c: i32| #[trigger]
            r.keys_down@.contains(c) <==> exists|i: int|
                0 <= i < held@.len() && key_code(#[trigger] held@[i]) == c,
        forall|c: i32| #[trigger]
            r.keys_pressed@.contains(c) <==> exists|i: int|
                0 <= i < events@.len() && is_press(#[trigger] events@[i], c),
        forall|c: i32| #[trigger]
            r.keys_released@.contains(c) <==> exists|i: int|
                0 <= i < events@.len() && is_release(#[trigger] events@[i], c),
        r.keys_down@.no_duplicates(),
        r.keys_pressed@.no_duplicates(),
        r.keys_released@.no_duplicates(),
        r.modifiers == modifier_bits(modifiers),
        r.buttons == buttons,
        r.typed@ == typed_text(events@),
{
    let mut down: Vec<i32> = Vec::new();
    let mut i: usize = 0;
    while i < held.len()
        invariant
            i <= held@.len(),
            down@.no_duplicates(),
            forall|c: i32| #[trigger]
                down@.contains(c) <==> exists|j: int|
                    0 <= j < i && key_code(#[trigger] held@[j]) == c,
        decreases held.len() - i,
    {
        let code: i32 = held[i].code();
        add_code(&mut down, code);
        i += 1;
        assert(key_code(held@[i - 1]) == code);
    }
    let mut pressed: Vec<i32> = Vec::new();
    let mut released: Vec<i32> = Vec::new();
    let mut typed: String = String::new();
    let mut n: usize = 0;
    while n < events.len()
        invariant
            n <= events@.len(),
            pressed@.no_duplicates(),
            released@.no_duplicates(),
            forall|c: i32| #[trigger]
                pressed@.contains(c) <==> exists|j: int|
                    0 <= j < n && is_press(#[trigger] events@[j], c),
            forall|c: i32| #[trigger]
                released@.contains(c) <==> exists|j: int|
                    0 <= j < n && is_release(#[trigger] events@[j], c),
            typed@ == typed_text(events@.take(n as int)),
        decreases events.len() - n,
    {
        assert(events@.take(n + 1).drop_last() =~= events@.take(n as int));
        assert(events@.take(n + 1).last() == events@[n as int]);
        match &events[n] {
            KeyboardEvent::Change(k, is_pressed, repeat) => {
                let code: i32 = k.code();
                if *is_pressed {
                    if !*repeat {
                        add_code(&mut pressed, code);
                        assert(is_press(events@[n as int], code));
                    }
                } else {
                    add_code(&mut released, code);
                    assert(is_release(events@[n as int], code));
                }
            },
            KeyboardEvent::Typed(t) => {
                typed.append(t.as_str());
            },
        }
        n += 1;
    }
    assert(events@.take(n as int) =~= events@);
    let mut bits: i32 = 0;
    if modifiers.shift {
        bits += 1;
    }
    if modifiers.ctrl {
        bits += 2;
    }
    if modifiers.alt {
        bits += 4;
    }
    if modifiers.cmd {
        bits += 8;
    }
    Input {
        keys_down: down,
        keys_pressed: pressed,
        keys_released: released,
        modifiers: bits,
        buttons,
        typed,
    }
}

/// Whether a key is held.
pub fn key_down(input: &Input, k: Key) -> (r: bool)
    ensures
        r == input.keys_down@.contains(key_code(k)),
{
    holds_code(&input.keys_down, k.code())
}

/// Whether a key went down in this frame.
pub fn key_pressed(input: &Input, k: Key) -> (r: bool)
    ensures
        r == input.keys_pressed@.contains(key_code(k)),
{
    holds_code(&input.keys_pressed, k.code())
}

/// Whether a key went up in this frame.
pub fn key_released(input: &Input, k: Key) -> (r: bool)
    ensures
        r == input.keys_released@.contains(key_code(k)),
{
    holds_code(&input.keys_released, k.code())
}

/// Whether Shift is held.
pub fn shift(input: &Input) -> (r: bool)
    ensures
        r == (input.modifiers & 1 != 0),
{
    input.modifiers & 1 != 0
}

/// Whether Control is held.
pub fn ctrl(input: &Input) -> (r: bool)
    ensures
        r == (input.modifiers & 2 != 0),
{
    input.modifiers & 2 != 0
}

/// Whether Alt is held.
pub fn alt(input: &Input) -> (r: bool)
    ensures
        r == (input.modifiers & 4 != 0),
{
    input.modifiers & 4 != 0
}

/// Whether the platform's shortcut key is held: Command on macOS, Control elsewhere.
pub fn cmd(input: &Input) -> (r: bool)
    ensures
        r == (input.modifiers & 8 != 0),
{
    input.modifiers & 8 != 0
}

/// A guest reads from the bits the modifier keys that the host put there.
pub proof fn lemma_modifiers_round_trip(m: Modifiers, bits: i32)
    requires
        bits == modifier_bits(m),
    ensures
        m.shift == (bits & 1 != 0),
        m.ctrl == (bits & 2 != 0),
        m.alt == (bits & 4 != 0),
        m.cmd == (bits & 8 != 0),
{
    let (s, c, a, k) = (m.shift, m.ctrl, m.alt, m.cmd);
    assert(s == (bits & 1 != 0) && c == (bits & 2 != 0) && a == (bits & 4 != 0) && k == (bits & 8
        != 0)) by (bit_vector)
        requires
            bits == (if s {
                1i32
            } else {
                0i32
            }) + (if c {
                2i32
            } else {
                0i32
            }) + (if a {
                4i32
            } else {
                0i32
            }) + (if k {
                8i32
            } else {
                0i32
            }),
    ;
}

/// The direction of the arrow keys and of W, A, S and D: minus one, zero or one to
/// the right and downwards. Opposite keys cancel.
pub fn axis(input: &Input) -> (r: (i32, i32))
    ensures
        r.0 == bit(held_either(*input, Key::Right, Key::D), 1) - bit(
            held_either(*input, Key::Left, Key::A),
            1,
        ),
        r.1 == bit(held_either(*input, Key::Down, Key::S), 1) - bit(
            held_either(*input, Key::Up, Key::W),
            1,
        ),
{
    let mut x: i32 = 0;
    let mut y: i32 = 0;
    if key_down(input, Key::Left) || key_down(input, Key::A) {
        x -= 1;
    }
    if key_down(input, Key::Right) || key_down(input, Key::D) {
        x += 1;
    }
    if key_down(input, Key::Up) || key_down(input, Key::W) {
        y -= 1;
    }
    if key_down(input, Key::Down) || key_down(input, Key::S) {
        y += 1;
    }
    (x, y)
}

/// Whether one of two keys is held.
pub open spec fn held_either(input: Input, a: Key, b: Key) -> bool {
    input.keys_down@.contains(key_code(a)) || input.keys_down@.contains(key_code(b))
}

/// Whether the mouse button with a number is held: 0 left, 1 right, 2 middle.
pub fn button_down(b: &Buttons, button: i32) -> (r: bool)
    ensures
        r == (button == 0 && b.left_down || button == 1 && b.right_down || button == 2
            && b.middle_down),
{
    if button == 0 {
        b.left_down
    } else if button == 1 {
        b.right_down
    } else if button == 2 {
        b.middle_down
    } else {
        false
    }
}

/// Whether the mouse button with a number was clicked: 0 left, 1 right.
pub fn button_clicked(b: &Buttons, button: i32) -> (r: bool)
    ensures
        r == (button == 0 && b.left_clicked || button == 1 && b.right_clicked),
{
    if button == 0 {
        b.left_clicked
    } else if button == 1 {
        b.right_clicked
    } else {
        false
    }
}

/// Whether the left mouse button is held.
pub fn left_down(input: &Input) -> (r: bool)
    ensures
        r == input.buttons.left_down,
{
    button_down(&input.buttons, 0)
}

/// Whether the right mouse button is held.
pub fn right_down(input: &Input) -> (r: bool)
    ensures
        r == input.buttons.right_down,
{
    button_down(&input.buttons, 1)
}

/// Whether the middle mouse button is held.
pub fn middle_down(input: &Input) -> (r: bool)
    ensures
        r == input.buttons.middle_down,
{
    button_down(&input.buttons, 2)
}

/// Whether the left mouse button was clicked.
pub fn left_clicked(input: &Input) -> (r: bool)
    ensures
        r == input.buttons.left_clicked,
{
    button_clicked(&input.buttons, 0)
}

/// Whether the right mouse button was clicked.
pub fn right_clicked(input: &Input) -> (r: bool)
    ensures
        r == input.buttons.right_clicked,
{
    button_clicked(&input.buttons, 1)
}

/// A key that goes down is pressed, one that comes up is released, and a keyboard that
/// repeats a key that is held tells of neither.
pub proof fn lemma_events_are_told_apart(k: Key, other: Key, repeat: bool, t: String)
    requires
        k != other,
    ensures
        is_press(KeyboardEvent::Change(k, true, false), key_code(k)),
        !is_release(KeyboardEvent::Change(k, true, repeat), key_code(k)),
        is_release(KeyboardEvent::Change(k, false, repeat), key_code(k)),
        !is_press(KeyboardEvent::Change(k, false, repeat), key_code(k)),
        !is_press(KeyboardEvent::Change(k, true, true), key_code(k)),
        !is_press(KeyboardEvent::Change(k, true, false), key_code(other)),
        !is_release(KeyboardEvent::Change(k, false, false), key_code(other)),
        forall|c: i32|
            !(#[trigger] is_press(KeyboardEvent::Typed(t), c)) && !is_release(
                KeyboardEvent::Typed(t),
                c,
            ),
{
    lemma_key_codes_distinct(k);
    lemma_key_codes_distinct(other);
}

/// What is typed in one go and then in another is what is typed in both, in this order; keys
/// that only change type nothing.
pub proof fn lemma_typed_in_order(
    a: Seq<KeyboardEvent>,
    b: Seq<KeyboardEvent>,
    t: String,
    k: Key,
    pressed: bool,
    repeat: bool,
)
    ensures
        typed_text(a + b) == typed_text(a) + typed_text(b),
        typed_text(seq![KeyboardEvent::Typed(t)]) == t@,
        typed_text(seq![KeyboardEvent::Change(k, pressed, repeat)]).len() == 0,
    decreases b.len(),
{
    let one = seq![KeyboardEvent::Typed(t)];
    let none = seq![KeyboardEvent::Change(k, pressed, repeat)];
    assert(one.drop_last() =~= Seq::<KeyboardEvent>::empty());
    assert(none.drop_last() =~= Seq::<KeyboardEvent>::empty());
    assert(typed_text(Seq::<KeyboardEvent>::empty()) =~= Seq::empty());
    assert(typed_text(one) =~= t@);
    if b.len() == 0 {
        assert(a + b =~= a);
        assert(typed_text(a) + typed_text(b) =~= typed_text(a));
    } else {
        assert((a + b).drop_last() =~= a + b.drop_last());
        lemma_typed_in_order(a, b.drop_last(), t, k, pressed, repeat);
        assert(typed_text(a + b) =~= typed_text(a) + typed_text(b));
    }
}

} // verus!

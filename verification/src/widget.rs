//! The widgets that a guest asks for in a frame, and the state that the host keeps
//! for them between frames.
use vstd::prelude::*;
use vstd::string::StringExecFns;
use vstd::utf8::encode_utf8;
use crate::color::{packed, Color};
use crate::image::Image;
use crate::memory::guest_text;
use crate::names::{add_name, distinct, has_name, with_name};
use crate::names::lemma_with_name;
use crate::numerals::{decimal, format_u64, is_digit};
use crate::numerals::{lemma_decimal_digits, lemma_decimal_round_trip};
use crate::slots::Slots;
use crate::table::Table;
use crate::storage::clipped;
use crate::text::{texts, utf8_lossy};

verus! {

/// A 32-bit float by its bits: the library carries it and does not compute with it.
#[derive(Clone, Copy, Debug, PartialEq, Eq, Structural)]
pub struct Float(pub u32);

/// One thing that a guest asked to be drawn.
pub enum WidgetCmd {
    Heading(String),
    Label(String),
    Small(String),
    ColoredLabel(String, Color),
    Code(String),
    /// The key is the label and how often it came before in this frame, so that
    /// buttons with one caption are told apart.
    Button { label: String, key: String },
    ButtonStyled { label: String, key: String, fg: Color, bg: Color, border: Color },
    Checkbox { id: i32, label: String, checked: bool },
    Slider { id: i32, label: String, min: Float, max: Float, value: Float },
    Progress { value: Float, label: String },
    TextEdit { id: i32, hint: String, secret: bool },
    Text { s: String, size: Float, color: Color },
    Badge { s: String, color: Color },
    RowBegin,
    RowEnd,
    CardBegin,
    CardBeginColor(Color),
    CardEnd,
    ColumnsBegin(i32),
    ColumnNext,
    ColumnsEnd,
    Separator,
    Space(Float),
    Image { id: i32, w: Float, h: Float },
}

/// The label and the key of a button.
pub open spec fn button_of(c: WidgetCmd) -> Option<(Seq<char>, Seq<char>)> {
    match c {
        WidgetCmd::Button { label, key } => Some((label@, key@)),
        WidgetCmd::ButtonStyled { label, key, fg, bg, border } => Some((label@, key@)),
        _ => None,
    }
}

/// The key of a button.
pub open spec fn key_of(c: WidgetCmd) -> Seq<char> {
    match c {
        WidgetCmd::Button { label, key } => key@,
        WidgetCmd::ButtonStyled { label, key, fg, bg, border } => key@,
        _ => Seq::empty(),
    }
}

/// The key of the button with a label that came `n` times before.
pub open spec fn button_key(label: Seq<char>, n: nat) -> Seq<char> {
    label + "#"@ + decimal(n)
}

/// The widgets of a frame, and what the host keeps for them.
pub struct Ui {
    /// What the guest asked for in this frame.
    pub widgets: Vec<WidgetCmd>,
    /// The keys of the buttons clicked in the frame before.
    pub clicked_prev: Vec<String>,
    /// The keys of the buttons clicked in this frame.
    pub clicked_curr: Vec<String>,
    /// How often each label came in this frame.
    pub seen: Table<u32>,
    pub checkbox_states: Slots<bool>,
    pub slider_states: Slots<Float>,
    pub text_states: Slots<String>,
}

impl View for Float {
    type V = Float;

    open spec fn view(&self) -> Float {
        *self
    }
}

/// How often a label came so far.
pub open spec fn times(seen: Map<Seq<char>, u32>, label: Seq<char>) -> nat {
    if seen.contains_key(label) {
        seen[label] as nat
    } else {
        0
    }
}

/// Whether a button's key counts an occurrence of its label in this frame.
pub open spec fn key_counted(c: WidgetCmd, seen: Map<Seq<char>, u32>) -> bool {
    button_of(c) matches Some(b) ==> exists|n: nat|
        n < times(seen, b.0) && b.1 == #[trigger] button_key(b.0, n)
}

impl Ui {
    /// Whether the parts fit together: every button's key counts an occurrence of its
    /// label, and no two buttons share a key.
    pub open spec fn wf(self) -> bool {
        &&& self.seen.wf()
        &&& distinct(texts(self.clicked_prev@))
        &&& distinct(texts(self.clicked_curr@))
        &&& forall|i: int|
            0 <= i < self.widgets@.len() ==> key_counted(#[trigger] self.widgets@[i], self.seen@)
        &&& forall|i: int, j: int|
            0 <= i < j < self.widgets@.len() && button_of(#[trigger] self.widgets@[i]) is Some
                && button_of(#[trigger] self.widgets@[j]) is Some ==> key_of(self.widgets@[i])
                != key_of(self.widgets@[j])
    }

    /// Whether nothing but the list of widgets differs.
    pub open spec fn same_state(self, other: Ui) -> bool {
        &&& self.clicked_prev == other.clicked_prev
        &&& self.clicked_curr == other.clicked_curr
        &&& self.checkbox_states == other.checkbox_states
        &&& self.slider_states == other.slider_states
        &&& self.text_states == other.text_states
    }

    /// Whether this is `before` with one more widget.
    pub open spec fn emitted(self, before: Ui, c: WidgetCmd) -> bool {
        &&& self.wf()
        &&& self.widgets@ == before.widgets@.push(c)
        &&& self.seen == before.seen
        &&& self.same_state(before)
    }
}

/// A label and a count can be read back from a button's key, so different
/// occurrences have different keys.
pub proof fn lemma_button_keys_distinct(a: Seq<char>, m: nat, b: Seq<char>, n: nat)
    requires
        button_key(a, m) == button_key(b, n),
    ensures
        a == b,
        m == n,
{
    reveal_strlit("#");
    let p = button_key(a, m);
    let q = button_key(b, n);
    lemma_decimal_digits(m);
    lemma_decimal_digits(n);
    let dm = decimal(m);
    let dn = decimal(n);
    assert("#"@ =~= seq!['#']);
    assert(p[a.len() as int] == '#');
    assert(q[b.len() as int] == '#');
    assert(p.len() == a.len() + 1 + dm.len());
    assert(q.len() == b.len() + 1 + dn.len());
    if a.len() < b.len() {
        assert(p[b.len() as int] == dm[b.len() - a.len() - 1]);
        assert(is_digit(dm[b.len() - a.len() - 1]));
        assert(false);
    } else if b.len() < a.len() {
        assert(q[a.len() as int] == dn[a.len() - b.len() - 1]);
        assert(is_digit(dn[a.len() - b.len() - 1]));
        assert(false);
    }
    assert(a =~= p.take(a.len() as int));
    assert(b =~= q.take(b.len() as int));
    assert(dm =~= p.skip(a.len() as int + 1));
    assert(dn =~= q.skip(b.len() as int + 1));
    lemma_decimal_round_trip(m);
    lemma_decimal_round_trip(n);
}

/// No widgets and no state.
pub fn new_ui() -> (ui: Ui)
    ensures
        ui.wf(),
        ui.widgets@.len() == 0,
        texts(ui.clicked_prev@).len() == 0,
        texts(ui.clicked_curr@).len() == 0,
        ui.seen@ == Map::<Seq<char>, u32>::empty(),
        ui.checkbox_states@ == Map::<i32, bool>::empty(),
        ui.slider_states@ == Map::<i32, Float>::empty(),
        ui.text_states@ == Map::<i32, Seq<char>>::empty(),
{
    Ui {
        widgets: Vec::new(),
        clicked_prev: Vec::new(),
        clicked_curr: Vec::new(),
        seen: Table::new(),
        checkbox_states: Slots::new(),
        slider_states: Slots::new(),
        text_states: Slots::new(),
    }
}

/// Begins a frame: the clicks of the last one become readable, and the list of
/// widgets starts anew.
pub fn begin_frame(ui: &mut Ui)
    requires
        old(ui).wf(),
    ensures
        final(ui).wf(),
        final(ui).widgets@.len() == 0,
        final(ui).seen@ == Map::<Seq<char>, u32>::empty(),
        final(ui).clicked_prev == old(ui).clicked_curr,
        final(ui).clicked_curr@.len() == 0,
        final(ui).checkbox_states == old(ui).checkbox_states,
        final(ui).slider_states == old(ui).slider_states,
        final(ui).text_states == old(ui).text_states,
{
    let mut curr: Vec<String> = Vec::new();
    std::mem::swap(&mut curr, &mut ui.clicked_curr);
    ui.clicked_prev = curr;
    ui.seen = Table::new();
    ui.widgets = Vec::new();
}

/// What the user did to the widgets of a frame.
pub struct WidgetUpdates {
    pub clicks: Vec<String>,
    pub checkboxes: Vec<(i32, bool)>,
    pub sliders: Vec<(i32, Float)>,
    pub texts: Vec<(i32, String)>,
}

/// The keys that are clicked after some more clicks.
pub open spec fn clicks_applied(s: Seq<Seq<char>>, clicks: Seq<Seq<char>>) -> Seq<Seq<char>>
    decreases clicks.len(),
{
    if clicks.len() == 0 {
        s
    } else {
        with_name(clicks_applied(s, clicks.drop_last()), clicks.last())
    }
}

/// The states after some changes, the last one for a widget counting.
pub open spec fn changes_applied<V: View>(m: Map<i32, V::V>, changes: Seq<(i32, V)>) -> Map<
    i32,
    V::V,
>
    decreases changes.len(),
{
    if changes.len() == 0 {
        m
    } else {
        changes_applied(m, changes.drop_last()).insert(changes.last().0, changes.last().1@)
    }
}

/// Keeps what the user did to the widgets of a frame.
pub fn apply_widget_updates(ui: &mut Ui, upd: WidgetUpdates)
    requires
        old(ui).wf(),
    ensures
        final(ui).wf(),
        final(ui).widgets == old(ui).widgets,
        final(ui).seen == old(ui).seen,
        final(ui).clicked_prev == old(ui).clicked_prev,
        texts(final(ui).clicked_curr@) == clicks_applied(
            texts(old(ui).clicked_curr@),
            texts(upd.clicks@),
        ),
        final(ui).checkbox_states@ == changes_applied(old(ui).checkbox_states@, upd.checkboxes@),
        final(ui).slider_states@ == changes_applied(old(ui).slider_states@, upd.sliders@),
        final(ui).text_states@ == changes_applied(old(ui).text_states@, upd.texts@),
{
    let ghost before = *ui;
    let ghost keys = texts(upd.clicks@);
    let mut i: usize = 0;
    while i < upd.clicks.len()
        invariant
            i <= upd.clicks@.len(),
            keys == texts(upd.clicks@),
            ui.wf(),
            ui.widgets == before.widgets,
            ui.seen == before.seen,
            ui.clicked_prev == before.clicked_prev,
            ui.checkbox_states == before.checkbox_states,
            ui.slider_states == before.slider_states,
            ui.text_states == before.text_states,
            texts(ui.clicked_curr@) == clicks_applied(
                texts(before.clicked_curr@),
                keys.take(i as int),
            ),
        decreases upd.clicks.len() - i,
    {
        assert(keys.take(i + 1).drop_last() =~= keys.take(i as int));
        assert(keys.take(i + 1).last() == upd.clicks@[i as int]@);
        proof {
            lemma_with_name(texts(ui.clicked_curr@), upd.clicks@[i as int]@);
        }
        let _ = add_name(&mut ui.clicked_curr, upd.clicks[i].clone());
        i += 1;
    }
    assert(keys.take(i as int) =~= keys);
    let mut c: usize = 0;
    while c < upd.checkboxes.len()
        invariant
            c <= upd.checkboxes@.len(),
            ui.wf(),
            ui.widgets == before.widgets,
            ui.seen == before.seen,
            ui.clicked_prev == before.clicked_prev,
            ui.slider_states == before.slider_states,
            ui.text_states == before.text_states,
            texts(ui.clicked_curr@) == clicks_applied(texts(before.clicked_curr@), keys),
            ui.checkbox_states@ == changes_applied(
                before.checkbox_states@,
                upd.checkboxes@.take(c as int),
            ),
        decreases upd.checkboxes.len() - c,
    {
        assert(upd.checkboxes@.take(c + 1).drop_last() =~= upd.checkboxes@.take(c as int));
        ui.checkbox_states.set(upd.checkboxes[c].0, upd.checkboxes[c].1);
        c += 1;
    }
    assert(upd.checkboxes@.take(c as int) =~= upd.checkboxes@);
    let mut s: usize = 0;
    while s < upd.sliders.len()
        invariant
            s <= upd.sliders@.len(),
            ui.wf(),
            ui.widgets == before.widgets,
            ui.seen == before.seen,
            ui.clicked_prev == before.clicked_prev,
            ui.text_states == before.text_states,
            texts(ui.clicked_curr@) == clicks_applied(texts(before.clicked_curr@), keys),
            ui.checkbox_states@ == changes_applied(before.checkbox_states@, upd.checkboxes@),
            ui.slider_states@ == changes_applied(
                before.slider_states@,
                upd.sliders@.take(s as int),
            ),
        decreases upd.sliders.len() - s,
    {
        assert(upd.sliders@.take(s + 1).drop_last() =~= upd.sliders@.take(s as int));
        ui.slider_states.set(upd.sliders[s].0, upd.sliders[s].1);
        s += 1;
    }
    assert(upd.sliders@.take(s as int) =~= upd.sliders@);
    let mut t: usize = 0;
    while t < upd.texts.len()
        invariant
            t <= upd.texts@.len(),
            ui.wf(),
            ui.widgets == before.widgets,
            ui.seen == before.seen,
            ui.clicked_prev == before.clicked_prev,
            texts(ui.clicked_curr@) == clicks_applied(texts(before.clicked_curr@), keys),
            ui.checkbox_states@ == changes_applied(before.checkbox_states@, upd.checkboxes@),
            ui.slider_states@ == changes_applied(before.slider_states@, upd.sliders@),
            ui.text_states@ == changes_applied(before.text_states@, upd.texts@.take(t as int)),
        decreases upd.texts.len() - t,
    {
        assert(upd.texts@.take(t + 1).drop_last() =~= upd.texts@.take(t as int));
        ui.text_states.set(upd.texts[t].0, upd.texts[t].1.clone());
        t += 1;
    }
    assert(upd.texts@.take(t as int) =~= upd.texts@);
}

/// A button clicked in a frame reads as clicked in the next frame.
pub proof fn lemma_click_is_seen(s: Seq<Seq<char>>, clicks: Seq<Seq<char>>, key: Seq<char>)
    requires
        distinct(s),
        clicks.contains(key) || s.contains(key),
    ensures
        clicks_applied(s, clicks).contains(key),
        distinct(clicks_applied(s, clicks)),
    decreases clicks.len(),
{
    if clicks.len() > 0 {
        let d = clicks.drop_last();
        if d.contains(key) || s.contains(key) {
            lemma_click_is_seen(s, d, key);
        } else {
            assert(clicks.last() == key) by {
                let i = choose|i: int| 0 <= i < clicks.len() && clicks[i] == key;
                if i < d.len() {
                    assert(d[i] == key);
                }
            }
            lemma_clicks_distinct(s, d);
        }
        lemma_with_name(clicks_applied(s, d), clicks.last());
    }
}

proof fn lemma_clicks_distinct(s: Seq<Seq<char>>, clicks: Seq<Seq<char>>)
    requires
        distinct(s),
    ensures
        distinct(clicks_applied(s, clicks)),
    decreases clicks.len(),
{
    if clicks.len() > 0 {
        lemma_clicks_distinct(s, clicks.drop_last());
        lemma_with_name(clicks_applied(s, clicks.drop_last()), clicks.last());
    }
}

// ── What a guest asks for ────────────────────────────────────────────────────

/// Adds a widget that is no button.
pub fn emit(ui: &mut Ui, c: WidgetCmd)
    requires
        old(ui).wf(),
        button_of(c) is None,
    ensures
        final(ui).emitted(*old(ui), c),
{
    let ghost before = *ui;
    ui.widgets.push(c);
    assert forall|i: int| 0 <= i < ui.widgets@.len() implies key_counted(
        #[trigger] ui.widgets@[i],
        ui.seen@,
    ) by {
        if i < before.widgets@.len() {
            assert(ui.widgets@[i] == before.widgets@[i]);
            assert(key_counted(before.widgets@[i], before.seen@));
        }
    }
    assert forall|i: int, j: int|
        0 <= i < j < ui.widgets@.len() && button_of(#[trigger] ui.widgets@[i]) is Some && button_of(
            #[trigger] ui.widgets@[j],
        ) is Some implies key_of(ui.widgets@[i]) != key_of(ui.widgets@[j]) by {
        assert(ui.widgets@[i] == before.widgets@[i]);
        assert(ui.widgets@[j] == before.widgets@[j]);
    }
}

/// The key for the next button with a label. The count is advanced, and no button of
/// this frame has that key yet.
fn next_key(ui: &mut Ui, label: &str) -> (key: String)
    requires
        old(ui).wf(),
        times(old(ui).seen@, label@) < u32::MAX,
    ensures
        key@ == button_key(label@, times(old(ui).seen@, label@)),
        final(ui).wf(),
        final(ui).widgets == old(ui).widgets,
        final(ui).same_state(*old(ui)),
        final(ui).seen@ == old(ui).seen@.insert(
            label@,
            (times(old(ui).seen@, label@) + 1) as u32,
        ),
        forall|i: int|
            0 <= i < old(ui).widgets@.len() && button_of(#[trigger] old(ui).widgets@[i]) is Some
                ==> key_of(old(ui).widgets@[i]) != key@,
{
    let ghost before = *ui;
    let n: u32 = match ui.seen.get(label) {
        Some(n) => *n,
        None => 0,
    };
    let mut key = label.to_owned();
    key.append("#");
    key.append(format_u64(n as u64).as_str());
    ui.seen.set(label.to_owned(), n + 1);
    proof {
        assert forall|i: int| 0 <= i < ui.widgets@.len() implies key_counted(
            #[trigger] ui.widgets@[i],
            ui.seen@,
        ) by {
            assert(key_counted(before.widgets@[i], before.seen@));
            if button_of(ui.widgets@[i]) is Some {
                let b = button_of(ui.widgets@[i])->0;
                let k = choose|k: nat|
                    k < times(before.seen@, b.0) && b.1 == #[trigger] button_key(b.0, k);
                assert(k < times(ui.seen@, b.0) && b.1 == button_key(b.0, k));
            }
        }
        assert forall|i: int|
            0 <= i < before.widgets@.len() && button_of(
                #[trigger] before.widgets@[i],
            ) is Some implies key_of(before.widgets@[i]) != key@ by {
            assert(key_counted(before.widgets@[i], before.seen@));
            let b = button_of(before.widgets@[i])->0;
            let k = choose|k: nat|
                k < times(before.seen@, b.0) && b.1 == #[trigger] button_key(b.0, k);
            if b.1 == key@ {
                lemma_button_keys_distinct(b.0, k, label@, n as nat);
            }
        }
    }
    key
}

/// Whether this is `before` with one more button, whose key counts its label.
pub open spec fn button_added(now: Ui, before: Ui, label: Seq<char>) -> bool {
    let n = times(before.seen@, label);
    &&& now.wf()
    &&& now.same_state(before)
    &&& now.seen@ == before.seen@.insert(label, (n + 1) as u32)
    &&& now.widgets@.len() == before.widgets@.len() + 1
    &&& now.widgets@.drop_last() == before.widgets@
    &&& button_of(now.widgets@.last()) == Some((label, button_key(label, n)))
}

/// Whether the button with a label that comes next was clicked in the frame before.
pub open spec fn was_clicked(ui: Ui, label: Seq<char>) -> bool {
    texts(ui.clicked_prev@).contains(button_key(label, times(ui.seen@, label)))
}

proof fn lemma_button_pushed(before: Ui, now: Ui, c: WidgetCmd, label: Seq<char>, n: nat)
    requires
        before.wf(),
        times(before.seen@, label) > n,
        button_of(c) == Some((label, button_key(label, n))),
        forall|i: int|
            0 <= i < before.widgets@.len() && button_of(#[trigger] before.widgets@[i]) is Some
                ==> key_of(before.widgets@[i]) != button_key(label, n),
        now.widgets@ == before.widgets@.push(c),
        now.seen == before.seen,
        now.same_state(before),
    ensures
        now.wf(),
{
    assert forall|i: int| 0 <= i < now.widgets@.len() implies key_counted(
        #[trigger] now.widgets@[i],
        now.seen@,
    ) by {
        if i < before.widgets@.len() {
            assert(now.widgets@[i] == before.widgets@[i]);
            assert(key_counted(before.widgets@[i], before.seen@));
        } else {
            let b = button_of(c)->0;
            assert(n < times(now.seen@, b.0) && b.1 == button_key(b.0, n));
        }
    }
    assert forall|i: int, j: int|
        0 <= i < j < now.widgets@.len() && button_of(#[trigger] now.widgets@[i]) is Some && button_of(
            #[trigger] now.widgets@[j],
        ) is Some implies key_of(now.widgets@[i]) != key_of(now.widgets@[j]) by {
        assert(now.widgets@[i] == before.widgets@[i]);
        if j < before.widgets@.len() {
            assert(now.widgets@[j] == before.widgets@[j]);
        }
    }
}

/// Asks for a button. Returns whether it was clicked in the frame before.
pub fn button(ui: &mut Ui, s: &str) -> (clicked: bool)
    requires
        old(ui).wf(),
        times(old(ui).seen@, s@) < u32::MAX,
    ensures
        clicked == was_clicked(*old(ui), s@),
        button_added(*final(ui), *old(ui), s@),
        final(ui).widgets@.last() is Button,
{
    let ghost n = times(ui.seen@, s@);
    let key = next_key(ui, s);
    let clicked = has_name(&ui.clicked_prev, key.as_str());
    let ghost before = *ui;
    ui.widgets.push(WidgetCmd::Button { label: s.to_owned(), key });
    proof {
        lemma_button_pushed(before, *ui, ui.widgets@.last(), s@, n);
        assert(ui.widgets@.drop_last() =~= before.widgets@);
    }
    clicked
}

/// Asks for a button in given colors.
pub fn button_styled(ui: &mut Ui, s: &str, fg: Color, bg: Color, border: Color) -> (clicked: bool)
    requires
        old(ui).wf(),
        times(old(ui).seen@, s@) < u32::MAX,
    ensures
        clicked == was_clicked(*old(ui), s@),
        button_added(*final(ui), *old(ui), s@),
        final(ui).widgets@.last() matches WidgetCmd::ButtonStyled { fg: f, bg: b, border: o, .. }
            && f == fg && b == bg && o == border,
{
    let ghost n = times(ui.seen@, s@);
    let key = next_key(ui, s);
    let clicked = has_name(&ui.clicked_prev, key.as_str());
    let ghost before = *ui;
    ui.widgets.push(WidgetCmd::ButtonStyled { label: s.to_owned(), key, fg, bg, border });
    proof {
        lemma_button_pushed(before, *ui, ui.widgets@.last(), s@, n);
        assert(ui.widgets@.drop_last() =~= before.widgets@);
    }
    clicked
}

/// Asks for a red button, for what cannot be undone.
pub fn button_danger(ui: &mut Ui, s: &str) -> (clicked: bool)
    requires
        old(ui).wf(),
        times(old(ui).seen@, s@) < u32::MAX,
    ensures
        clicked == was_clicked(*old(ui), s@),
        button_added(*final(ui), *old(ui), s@),
        final(ui).widgets@.last() matches WidgetCmd::ButtonStyled { fg, bg, border, .. } && fg.0
            == packed(255, 255, 255, 255) && bg.0 == packed(127, 29, 29, 255) && border.0 == packed(
            239,
            68,
            68,
            255,
        ),
{
    button_styled(ui, s, Color::white(), Color::rgb(127, 29, 29), Color::rgb(239, 68, 68))
}

/// Asks for a green button, for what goes ahead.
pub fn button_success(ui: &mut Ui, s: &str) -> (clicked: bool)
    requires
        old(ui).wf(),
        times(old(ui).seen@, s@) < u32::MAX,
    ensures
        clicked == was_clicked(*old(ui), s@),
        button_added(*final(ui), *old(ui), s@),
        final(ui).widgets@.last() matches WidgetCmd::ButtonStyled { fg, bg, border, .. } && fg.0
            == packed(255, 255, 255, 255) && bg.0 == packed(20, 83, 45, 255) && border.0 == packed(
            74,
            222,
            128,
            255,
        ),
{
    button_styled(ui, s, Color::white(), Color::rgb(20, 83, 45), Color::rgb(74, 222, 128))
}

/// Asks for an unobtrusive button.
pub fn button_ghost(ui: &mut Ui, s: &str) -> (clicked: bool)
    requires
        old(ui).wf(),
        times(old(ui).seen@, s@) < u32::MAX,
    ensures
        clicked == was_clicked(*old(ui), s@),
        button_added(*final(ui), *old(ui), s@),
        final(ui).widgets@.last() matches WidgetCmd::ButtonStyled { fg, bg, border, .. } && fg.0
            == packed(148, 163, 184, 255) && bg.0 == packed(0, 0, 0, 0) && border.0 == packed(
            71,
            85,
            105,
            255,
        ),
{
    button_styled(
        ui,
        s,
        Color::rgb(148, 163, 184),
        Color::transparent(),
        Color::rgb(71, 85, 105),
    )
}

/// The value kept for a widget, or the given one where none is.
pub open spec fn kept<V>(m: Map<i32, V>, id: i32, default: V) -> V {
    if m.contains_key(id) {
        m[id]
    } else {
        default
    }
}

/// Asks for a checkbox. Returns whether it is checked.
pub fn checkbox(ui: &mut Ui, id: i32, label: &str) -> (checked: bool)
    requires
        old(ui).wf(),
    ensures
        checked == kept(old(ui).checkbox_states@, id, false),
        final(ui).widgets@.len() > 0,
        final(ui).emitted(*old(ui), final(ui).widgets@.last()),
        final(ui).widgets@.last() matches WidgetCmd::Checkbox { id: i, label: l, checked: c } && i
            == id && l@ == label@ && c == checked,
{
    let checked = match ui.checkbox_states.get(id) {
        Some(b) => *b,
        None => false,
    };
    emit(ui, WidgetCmd::Checkbox { id, label: label.to_owned(), checked });
    checked
}

/// Asks for a slider. Returns its value, the default where the user has not moved it.
pub fn slider(ui: &mut Ui, id: i32, label: &str, min: Float, max: Float, default: Float) -> (value:
    Float)
    requires
        old(ui).wf(),
    ensures
        value == kept(old(ui).slider_states@, id, default),
        final(ui).widgets@.len() > 0,
        final(ui).emitted(*old(ui), final(ui).widgets@.last()),
        final(ui).widgets@.last() matches WidgetCmd::Slider {
            id: i,
            label: l,
            min: a,
            max: b,
            value: v,
        } && i == id && l@ == label@ && a == min && b == max && v == value,
{
    let value = match ui.slider_states.get(id) {
        Some(v) => *v,
        None => default,
    };
    emit(ui, WidgetCmd::Slider { id, label: label.to_owned(), min, max, value });
    value
}

/// Asks for a field to type in. Returns its text.
pub fn text_edit(ui: &mut Ui, id: i32, hint: &str, secret: bool) -> (text: String)
    requires
        old(ui).wf(),
    ensures
        text@ == kept(old(ui).text_states@, id, Seq::empty()),
        final(ui).widgets@.len() > 0,
        final(ui).emitted(*old(ui), final(ui).widgets@.last()),
        final(ui).widgets@.last() matches WidgetCmd::TextEdit { id: i, hint: h, secret: s } && i
            == id && h@ == hint@ && s == secret,
{
    let text = match ui.text_states.get(id) {
        Some(t) => t.clone(),
        None => String::new(),
    };
    emit(ui, WidgetCmd::TextEdit { id, hint: hint.to_owned(), secret });
    text
}

/// The most bytes that a guest reads of a field.
pub const MAX_FIELD: usize = 4096;

/// What a guest reads of a field: its text, as far as the guest's buffer goes.
pub open spec fn field_text(states: Map<i32, Seq<char>>, id: i32) -> Seq<char> {
    utf8_lossy(clipped(encode_utf8(kept(states, id, Seq::empty())), MAX_FIELD as int))
}

/// Asks for a field to type in. Returns what the guest reads of it.
pub fn text_field(ui: &mut Ui, id: i32, hint: &str) -> (text: String)
    requires
        old(ui).wf(),
    ensures
        text@ == field_text(old(ui).text_states@, id),
        encode_utf8(kept(old(ui).text_states@, id, Seq::empty())).len() <= MAX_FIELD ==> text@
            == kept(old(ui).text_states@, id, Seq::empty()),
        final(ui).widgets@.len() > 0,
        final(ui).emitted(*old(ui), final(ui).widgets@.last()),
        final(ui).widgets@.last() matches WidgetCmd::TextEdit { id: i, hint: h, secret: s } && i
            == id && h@ == hint@ && !s,
{
    let t = text_edit(ui, id, hint, false);
    guest_text(t.as_str(), MAX_FIELD)
}

/// Asks for a field to type a secret in.
pub fn text_field_secret(ui: &mut Ui, id: i32, hint: &str) -> (text: String)
    requires
        old(ui).wf(),
    ensures
        text@ == field_text(old(ui).text_states@, id),
        encode_utf8(kept(old(ui).text_states@, id, Seq::empty())).len() <= MAX_FIELD ==> text@
            == kept(old(ui).text_states@, id, Seq::empty()),
        final(ui).widgets@.len() > 0,
        final(ui).emitted(*old(ui), final(ui).widgets@.last()),
        final(ui).widgets@.last() matches WidgetCmd::TextEdit { id: i, hint: h, secret: s } && i
            == id && h@ == hint@ && s,
{
    let t = text_edit(ui, id, hint, true);
    guest_text(t.as_str(), MAX_FIELD)
}

/// Asks for a heading.
pub fn heading(ui: &mut Ui, s: &str)
    requires
        old(ui).wf(),
    ensures
        final(ui).widgets@.len() > 0,
        final(ui).emitted(*old(ui), final(ui).widgets@.last()),
        final(ui).widgets@.last() matches WidgetCmd::Heading(t) && t@ == s@,
{
    emit(ui, WidgetCmd::Heading(s.to_owned()));
}

/// Asks for a thin horizontal rule.
pub fn separator(ui: &mut Ui)
    requires
        old(ui).wf(),
    ensures
        final(ui).emitted(*old(ui), WidgetCmd::Separator),
{
    emit(ui, WidgetCmd::Separator);
}

/// Asks for a gap.
pub fn space(ui: &mut Ui, px: Float)
    requires
        old(ui).wf(),
    ensures
        final(ui).emitted(*old(ui), WidgetCmd::Space(px)),
{
    emit(ui, WidgetCmd::Space(px));
}

/// Asks for a line of text.
pub fn label(ui: &mut Ui, s: &str)
    requires
        old(ui).wf(),
    ensures
        final(ui).widgets@.len() > 0,
        final(ui).emitted(*old(ui), final(ui).widgets@.last()),
        final(ui).widgets@.last() matches WidgetCmd::Label(t) && t@ == s@,
{
    emit(ui, WidgetCmd::Label(s.to_owned()));
}

/// Asks for a line of small text.
pub fn small(ui: &mut Ui, s: &str)
    requires
        old(ui).wf(),
    ensures
        final(ui).widgets@.len() > 0,
        final(ui).emitted(*old(ui), final(ui).widgets@.last()),
        final(ui).widgets@.last() matches WidgetCmd::Small(t) && t@ == s@,
{
    emit(ui, WidgetCmd::Small(s.to_owned()));
}

/// Asks for a line of text in a color.
pub fn colored(ui: &mut Ui, s: &str, color: Color)
    requires
        old(ui).wf(),
    ensures
        final(ui).widgets@.len() > 0,
        final(ui).emitted(*old(ui), final(ui).widgets@.last()),
        final(ui).widgets@.last() matches WidgetCmd::ColoredLabel(t, c) && t@ == s@ && c == color,
{
    emit(ui, WidgetCmd::ColoredLabel(s.to_owned(), color));
}

/// Asks for a line of code.
pub fn code(ui: &mut Ui, s: &str)
    requires
        old(ui).wf(),
    ensures
        final(ui).widgets@.len() > 0,
        final(ui).emitted(*old(ui), final(ui).widgets@.last()),
        final(ui).widgets@.last() matches WidgetCmd::Code(t) && t@ == s@,
{
    emit(ui, WidgetCmd::Code(s.to_owned()));
}

/// Asks for a line of text in a size and a color.
pub fn text(ui: &mut Ui, s: &str, size: Float, color: Color)
    requires
        old(ui).wf(),
    ensures
        final(ui).widgets@.len() > 0,
        final(ui).emitted(*old(ui), final(ui).widgets@.last()),
        final(ui).widgets@.last() matches WidgetCmd::Text { s: t, size: z, color: c } && t@ == s@ && z
            == size && c == color,
{
    emit(ui, WidgetCmd::Text { s: s.to_owned(), size, color });
}

/// Asks for a colored pill with a text.
pub fn badge(ui: &mut Ui, s: &str, color: Color)
    requires
        old(ui).wf(),
    ensures
        final(ui).widgets@.len() > 0,
        final(ui).emitted(*old(ui), final(ui).widgets@.last()),
        final(ui).widgets@.last() matches WidgetCmd::Badge { s: t, color: c } && t@ == s@ && c
            == color,
{
    emit(ui, WidgetCmd::Badge { s: s.to_owned(), color });
}

/// Asks for a picture.
pub fn image(ui: &mut Ui, img: Image, w: Float, h: Float)
    requires
        old(ui).wf(),
    ensures
        final(ui).emitted(*old(ui), (WidgetCmd::Image { id: img.id, w, h })),
{
    emit(ui, WidgetCmd::Image { id: img.id, w, h });
}

/// A click reaches the button that it was on, in the frame after, and no other: neither one
/// with another caption nor another one with the same.
pub proof fn lemma_click_reaches_its_button(ui: Ui, label: Seq<char>, n: nat, other: Seq<char>)
    requires
        texts(ui.clicked_prev@) == seq![label + "#"@ + decimal(n)],
    ensures
        was_clicked(ui, other) <==> other == label && times(ui.seen@, other) == n,
{
    let key = button_key(label, n);
    let s = texts(ui.clicked_prev@);
    assert(s[0] == key);
    if was_clicked(ui, other) {
        let i = choose|i: int| 0 <= i < s.len() && s[i] == button_key(
            other,
            times(ui.seen@, other),
        );
        lemma_button_keys_distinct(other, times(ui.seen@, other), label, n);
    }
}

/// Of several changes of one widget the last one counts, and a widget that is not changed
/// keeps what it had.
pub proof fn lemma_last_change_counts<V: View>(
    m: Map<i32, V::V>,
    a: Seq<(i32, V)>,
    id: i32,
    v: V,
    b: Seq<(i32, V)>,
)
    requires
        forall|i: int| 0 <= i < b.len() ==> (#[trigger] b[i]).0 != id,
    ensures
        changes_applied(m, b).contains_key(id) == m.contains_key(id),
        m.contains_key(id) ==> changes_applied(m, b)[id] == m[id],
        changes_applied(m, a + seq![(id, v)] + b).contains_key(id),
        changes_applied(m, a + seq![(id, v)] + b)[id] == v@,
    decreases b.len(),
{
    let all = a + seq![(id, v)] + b;
    if b.len() == 0 {
        assert(all.drop_last() =~= a);
        assert(all.last() == (id, v));
    } else {
        let d = b.drop_last();
        assert forall|i: int| 0 <= i < d.len() implies (#[trigger] d[i]).0 != id by {
            assert(d[i] == b[i]);
        }
        lemma_last_change_counts(m, a, id, v, d);
        assert(all.drop_last() =~= a + seq![(id, v)] + d);
        assert(all.last() == b.last());
        assert(b[b.len() - 1].0 != id);
    }
}

/// Widgets come in the order in which they are asked for, and asking for one changes neither
/// what was clicked nor what is ticked, set or typed.
pub proof fn lemma_widgets_come_in_order(a: Ui, b: Ui, c: Ui, x: WidgetCmd, y: WidgetCmd)
    requires
        b.emitted(a, x),
        c.emitted(b, y),
    ensures
        c.widgets@ == a.widgets@ + seq![x, y],
        c.clicked_prev == a.clicked_prev && c.clicked_curr == a.clicked_curr,
        c.checkbox_states == a.checkbox_states && c.slider_states == a.slider_states && c.text_states
            == a.text_states,
        c.seen == a.seen,
{
    assert(c.widgets@ =~= a.widgets@ + seq![x, y]);
}

/// The next button with a caption is told apart from the one before by how often the caption
/// came.
pub proof fn lemma_buttons_are_counted(a: Ui, b: Ui, c: Ui, label: Seq<char>)
    requires
        times(a.seen@, label) + 2 <= u32::MAX,
        button_added(b, a, label),
        button_added(c, b, label),
    ensures
        c.widgets@.len() == a.widgets@.len() + 2,
        button_of(c.widgets@[a.widgets@.len() as int]) == Some(
            (label, label + "#"@ + decimal(times(a.seen@, label))),
        ),
        button_of(c.widgets@.last()) == Some(
            (label, label + "#"@ + decimal(times(a.seen@, label) + 1)),
        ),
        c.clicked_prev == a.clicked_prev && c.checkbox_states == a.checkbox_states,
{
    let n = a.widgets@.len() as int;
    assert(c.widgets@.drop_last()[n] == b.widgets@[n]);
    assert(c.widgets@[n] == b.widgets@[n]);
    assert(b.widgets@[n] == b.widgets@.last());
}

} // verus!

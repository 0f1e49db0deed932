//! A four-function calculator: what is typed, what is pending, and what the keys do. The
//! arithmetic itself is done by the host, on numbers that are handed through as they are.
use vstd::prelude::*;
use vstd::string::StringExecFns;
use crate::text::{byte_len, chars_of, longer_than, same, string_from};
use crate::text::{trim_trailing, without_trailing};

verus! {

/// A number of the host, by its bits.
#[derive(Clone, Copy, Debug, PartialEq, Eq, Structural)]
pub struct Number(pub u64);

/// The most characters of an entry, its sign left out.
pub const MAX_ENTRY: usize = 14;

/// An operation that the host is to carry out.
#[derive(Clone, Copy, Debug, PartialEq, Eq, Structural)]
pub struct Operation {
    pub op: char,
    pub lhs: Number,
    pub rhs: Number,
}

/// The calculator.
pub struct Calc {
    /// What is being typed.
    pub entry: String,
    /// The left side of the pending operation.
    pub acc: Number,
    pub pending: Option<char>,
    /// Whether the next digit begins a new entry.
    pub fresh: bool,
    /// What a repeated `=` does again.
    pub last_op: Option<(char, Number)>,
    /// What is shown above the entry.
    pub memo: String,
}

/// The calculator as its texts and numbers.
#[verifier::ext_equal]
pub struct CalcView {
    pub entry: Seq<char>,
    pub acc: Number,
    pub pending: Option<char>,
    pub fresh: bool,
    pub last_op: Option<(char, Number)>,
    pub memo: Seq<char>,
}

impl View for Calc {
    type V = CalcView;

    open spec fn view(&self) -> CalcView {
        CalcView {
            entry: self.entry@,
            acc: self.acc,
            pending: self.pending,
            fresh: self.fresh,
            last_op: self.last_op,
            memo: self.memo@,
        }
    }
}

/// What a key does.
#[derive(Clone, Copy, Debug, PartialEq, Eq, Structural)]
pub enum Key {
    Digit(char),
    Op(char),
    Equals,
    Clear,
    Negate,
    Percent,
    Other,
}

/// What the key with a mark does.
pub open spec fn key_for(mark: char) -> Key {
    if ('0' <= mark <= '9') || mark == '.' {
        Key::Digit(mark)
    } else if mark == '+' || mark == '-' || mark == '*' || mark == '/' {
        Key::Op(mark)
    } else if mark == '=' {
        Key::Equals
    } else if mark == 'C' {
        Key::Clear
    } else if mark == '~' {
        Key::Negate
    } else if mark == '%' {
        Key::Percent
    } else {
        Key::Other
    }
}

/// Returns what the key with a mark does.
pub fn key_of(mark: char) -> (k: Key)
    ensures
        k == key_for(mark),
{
    if ('0' <= mark && mark <= '9') || mark == '.' {
        Key::Digit(mark)
    } else if mark == '+' || mark == '-' || mark == '*' || mark == '/' {
        Key::Op(mark)
    } else if mark == '=' {
        Key::Equals
    } else if mark == 'C' {
        Key::Clear
    } else if mark == '~' {
        Key::Negate
    } else if mark == '%' {
        Key::Percent
    } else {
        Key::Other
    }
}

/// A text without the signs at its front.
pub open spec fn unsigned(s: Seq<char>) -> Seq<char>
    decreases s.len(),
{
    if s.len() > 0 && s[0] == '-' {
        unsigned(s.skip(1))
    } else {
        s
    }
}

/// An entry after a digit or the point was typed.
pub open spec fn typed(entry: Seq<char>, fresh: bool, d: char) -> Seq<char> {
    let e = if fresh {
        Seq::empty()
    } else {
        entry
    };
    if d == '.' && e.contains('.') {
        e
    } else {
        let e = if d == '.' && e.len() == 0 {
            seq!['0']
        } else {
            e
        };
        if byte_len(unsigned(e)) >= MAX_ENTRY {
            e
        } else {
            e.push(d)
        }
    }
}

/// An entry with its sign changed. There is no negative zero, and nothing to negate in an
/// empty entry.
pub open spec fn negated(entry: Seq<char>) -> Seq<char> {
    if entry.len() > 0 && entry[0] == '-' {
        entry.skip(1)
    } else if entry.len() > 0 && entry != "0"@ {
        seq!['-'] + entry
    } else {
        entry
    }
}

fn without_signs(s: &str) -> (r: String)
    ensures
        r@ == unsigned(s@),
{
    let v = chars_of(s);
    let mut i: usize = 0;
    assert(v@.skip(0) =~= v@);
    while i < v.len() && v[i] == '-'
        invariant
            i <= v@.len(),
            v@ == s@,
            unsigned(s@) == unsigned(v@.skip(i as int)),
        decreases v.len() - i,
    {
        assert(v@.skip(i as int).skip(1) =~= v@.skip(i + 1));
        i += 1;
    }
    let r = string_from(&v, i, v.len());
    assert(r@ =~= v@.skip(i as int));
    r
}

fn has_point(s: &str) -> (r: bool)
    ensures
        r == s@.contains('.'),
{
    let v = chars_of(s);
    let mut i: usize = 0;
    while i < v.len()
        invariant
            i <= v@.len(),
            v@ == s@,
            forall|k: int| 0 <= k < i ==> v@[k] != '.',
        decreases v.len() - i,
    {
        if v[i] == '.' {
            assert(s@[i as int] == '.');
            return true;
        }
        i += 1;
    }
    false
}

/// The calculator when it is opened.
pub open spec fn opened(zero: Number) -> CalcView {
    CalcView {
        entry: Seq::empty(),
        acc: zero,
        pending: None,
        fresh: true,
        last_op: None,
        memo: Seq::empty(),
    }
}

impl CalcView {
    /// After a digit or the point was typed.
    pub open spec fn digit(self, d: char) -> CalcView {
        CalcView { entry: typed(self.entry, self.fresh, d), fresh: false, ..self }
    }

    /// After the sign of the entry was changed.
    pub open spec fn negate(self) -> CalcView {
        CalcView { entry: negated(self.entry), ..self }
    }

    /// After the hundredth of the entry was taken.
    pub open spec fn percent(self, shown: Seq<char>) -> CalcView {
        CalcView { entry: shown, fresh: true, ..self }
    }

    /// What `=` has to compute, `value` being the number of the entry.
    pub open spec fn due(self, value: Number) -> Option<Operation> {
        match (self.pending, self.last_op) {
            (Some(o), _) => Some(Operation { op: o, lhs: self.acc, rhs: value }),
            (None, Some((o, rhs))) => Some(Operation { op: o, lhs: value, rhs }),
            (None, None) => None,
        }
    }

    /// After an operation was carried out.
    pub open spec fn computed(self, o: Operation, result: Number, shown: Seq<char>) -> CalcView {
        CalcView {
            entry: shown,
            acc: result,
            pending: None,
            fresh: true,
            last_op: Some((o.op, o.rhs)),
            memo: Seq::empty(),
        }
    }

    /// What an operation key has to compute before.
    pub open spec fn fold(self, value: Number) -> Option<Operation> {
        if self.pending is Some && !self.fresh {
            self.due(value)
        } else {
            None
        }
    }

    /// After an operation key was pressed.
    pub open spec fn op(self, o: char, folded: bool, value: Number, zero: Number) -> CalcView {
        CalcView {
            acc: if folded {
                self.acc
            } else if self.entry.len() == 0 {
                zero
            } else {
                value
            },
            pending: Some(o),
            fresh: true,
            ..self
        }
    }

    /// After the pending operation was shown.
    pub open spec fn remember(self, acc: Seq<char>, o: char) -> CalcView {
        CalcView { memo: (acc + " "@).push(o), ..self }
    }
}

impl Calc {
    /// The calculator when it is opened. `zero` is the host's number zero.
    pub fn new(zero: Number) -> (c: Calc)
        ensures
            c.entry@ == Seq::<char>::empty() && c.acc == zero && c.pending is None && c.fresh
                && c.last_op is None && c.memo@ == Seq::<char>::empty(),
            c@ == opened(zero),
    {
        Calc {
            entry: String::new(),
            acc: zero,
            pending: None,
            fresh: true,
            last_op: None,
            memo: String::new(),
        }
    }

    /// What the display shows.
    pub fn show(&self) -> (r: String)
        ensures
            r@ == if self.entry@.len() == 0 {
                "0"@
            } else {
                self.entry@
            },
    {
        if self.entry.as_str().is_empty() {
            "0".to_owned()
        } else {
            self.entry.clone()
        }
    }

    /// A digit or the point is typed.
    pub fn digit(&mut self, d: char)
        ensures
            final(self).entry@ == typed(old(self).entry@, old(self).fresh, d),
            !final(self).fresh,
            *final(self) == (Calc { entry: final(self).entry, fresh: false, ..*old(self) }),
            final(self)@ == old(self)@.digit(d),
    {
        if self.fresh {
            self.entry = String::new();
            self.fresh = false;
        }
        if d == '.' {
            if has_point(self.entry.as_str()) {
                return;
            }
            if self.entry.as_str().is_empty() {
                self.entry.push('0');
                assert(self.entry@ =~= seq!['0']);
            }
        }
        if longer_than(without_signs(self.entry.as_str()).as_str(), MAX_ENTRY - 1) {
            return;
        }
        self.entry.push(d);
    }

    /// Starts over.
    pub fn clear(&mut self, zero: Number)
        ensures
            final(self).entry@ == Seq::<char>::empty() && final(self).acc == zero
                && final(self).pending is None && final(self).fresh && final(self).last_op is None
                && final(self).memo@ == Seq::<char>::empty(),
            final(self)@ == opened(zero),
    {
        *self = Calc::new(zero);
    }

    /// Changes the sign of the entry.
    pub fn negate(&mut self)
        ensures
            final(self).entry@ == negated(old(self).entry@),
            *final(self) == (Calc { entry: final(self).entry, ..*old(self) }),
            final(self)@ == old(self)@.negate(),
    {
        let v = chars_of(self.entry.as_str());
        if v.len() > 0 && v[0] == '-' {
            let r = string_from(&v, 1, v.len());
            assert(r@ =~= self.entry@.skip(1));
            self.entry = r;
        } else if v.len() > 0 && !same(self.entry.as_str(), "0") {
            let mut r = String::new();
            r.push('-');
            r.append(self.entry.as_str());
            assert(r@ =~= seq!['-'] + self.entry@);
            self.entry = r;
        }
    }

    /// Takes the hundredth of the entry; `shown` is its text.
    pub fn percent(&mut self, shown: String)
        ensures
            *final(self) == (Calc { entry: shown, fresh: true, ..*old(self) }),
            final(self)@ == old(self)@.percent(shown@),
    {
        self.entry = shown;
        self.fresh = true;
    }

    /// What `=` has to compute, `value` being the number of the entry: the pending
    /// operation, or else the last one again on what is shown.
    pub open spec fn due(self, value: Number) -> Option<Operation> {
        match self.pending {
            Some(o) => Some(Operation { op: o, lhs: self.acc, rhs: value }),
            None => match self.last_op {
                Some(l) => Some(Operation { op: l.0, lhs: value, rhs: l.1 }),
                None => None,
            },
        }
    }

    /// Returns what `=` has to compute.
    pub fn equals(&self, value: Number) -> (r: Option<Operation>)
        ensures
            r == self.due(value),
            r == self@.due(value),
            self.pending matches Some(o) ==> r == Some(
                (Operation { op: o, lhs: self.acc, rhs: value }),
            ),
            self.pending is None ==> (self.last_op matches Some((o, rhs)) ==> r == Some(
                (Operation { op: o, lhs: value, rhs }),
            )),
            r is None <==> self.pending is None && self.last_op is None,
    {
        match self.pending {
            Some(o) => Some(Operation { op: o, lhs: self.acc, rhs: value }),
            None => match self.last_op {
                Some((o, r)) => Some(Operation { op: o, lhs: value, rhs: r }),
                None => None,
            },
        }
    }

    /// Takes the result of what `=` had to compute; `shown` is its text.
    pub fn computed(&mut self, o: Operation, result: Number, shown: String)
        ensures
            final(self).entry@ == shown@ && final(self).acc == result && final(self).pending is None
                && final(self).fresh && final(self).last_op == Some((o.op, o.rhs))
                && final(self).memo@ == Seq::<char>::empty(),
            final(self)@ == old(self)@.computed(o, result, shown@),
    {
        self.last_op = Some((o.op, o.rhs));
        self.acc = result;
        self.entry = shown;
        self.pending = None;
        self.fresh = true;
        self.memo = String::new();
    }

    /// Whether an operation key first has to carry out the pending operation.
    pub open spec fn folds(self) -> bool {
        self.pending is Some && !self.fresh
    }

    /// An operation key is pressed: what has to be computed before, `value` being the
    /// number of the entry.
    pub fn fold(&self, value: Number) -> (r: Option<Operation>)
        ensures
            r == if self.folds() {
                self.due(value)
            } else {
                None
            },
            r == self@.fold(value),
    {
        if self.pending.is_some() && !self.fresh {
            self.equals(value)
        } else {
            None
        }
    }

    /// The number that becomes the left side of an operation: what is kept where nothing
    /// else was typed since the last operation was carried out, else the entry.
    pub fn op(&mut self, o: char, folded: bool, value: Number, zero: Number)
        ensures
            final(self).acc == if folded {
                old(self).acc
            } else if old(self).entry@.len() == 0 {
                zero
            } else {
                value
            },
            final(self).pending == Some(o),
            final(self).fresh,
            *final(self) == (Calc {
                acc: final(self).acc,
                pending: Some(o),
                fresh: true,
                ..*old(self)
            }),
            final(self)@ == old(self)@.op(o, folded, value, zero),
    {
        if !folded {
            self.acc = if self.entry.as_str().is_empty() {
                zero
            } else {
                value
            };
        }
        self.pending = Some(o);
        self.fresh = true;
    }

    /// Shows the pending operation; `acc` is the text of its left side.
    pub fn remember(&mut self, acc: &str, o: char)
        ensures
            final(self).memo@ == (acc@ + " "@).push(o),
            *final(self) == (Calc { memo: final(self).memo, ..*old(self) }),
            final(self)@ == old(self)@.remember(acc@, o),
    {
        let mut m = acc.to_owned();
        m.append(" ");
        m.push(o);
        self.memo = m;
    }
}

/// Changing the sign twice changes nothing, unless a second sign comes to light.
pub proof fn lemma_negate_twice(entry: Seq<char>)
    requires
        entry.len() > 1 ==> !(entry[0] == '-' && entry[1] == '-'),
        entry != "-"@,
        entry != "-0"@,
    ensures
        negated(negated(entry)) == entry,
{
    reveal_strlit("-");
    reveal_strlit("-0");
    reveal_strlit("0");
    let n = negated(entry);
    if entry.len() > 0 && entry[0] == '-' {
        assert(n.len() == 0 ==> entry =~= "-"@);
        if n == "0"@ {
            assert(entry[1] == n[0]);
            assert(entry =~= "-0"@);
        }
        if n.len() > 0 {
            assert(n[0] == entry[1]);
        }
        assert(seq!['-'] + n =~= entry);
    } else if entry.len() > 0 && entry != "0"@ {
        assert(n.skip(1) =~= entry);
    }
}

/// Whether a text holds at most one point.
pub open spec fn one_point(s: Seq<char>) -> bool {
    forall|i: int, j: int| 0 <= i < j < s.len() ==> !(s[i] == '.' && s[j] == '.')
}

/// An entry never comes to hold two points.
pub proof fn lemma_typing_keeps_one_point(entry: Seq<char>, fresh: bool, d: char)
    requires
        one_point(entry),
    ensures
        one_point(typed(entry, fresh, d)),
{
    let t = typed(entry, fresh, d);
    if d == '.' && !fresh && !entry.contains('.') {
        assert forall|i: int, j: int| 0 <= i < j < t.len() implies !(t[i] == '.' && t[j] == '.') by {
            if i < entry.len() && entry.len() > 0 {
                assert(t[i] == entry[i]);
            }
        }
    }
}

// ── Keys one after the other ─────────────────────────────────────────────────

/// The arithmetic that the host does: the number of a text and the text of a number, what
/// an operation gives, and the hundredth of a number.
pub struct Arithmetic {
    pub value: spec_fn(Seq<char>) -> Number,
    pub text: spec_fn(Number) -> Seq<char>,
    pub result: spec_fn(Operation) -> Number,
    pub hundredth: spec_fn(Number) -> Number,
    pub zero: Number,
}

impl Arithmetic {
    /// After an operation was carried out and its result was taken.
    pub open spec fn carried_out(self, c: CalcView, o: Option<Operation>) -> CalcView {
        if o is Some {
            let r = (self.result)(o->0);
            c.computed(o->0, r, (self.text)(r))
        } else {
            c
        }
    }

    /// After the key with a mark was pressed.
    pub open spec fn pressed(self, c: CalcView, mark: char) -> CalcView {
        let value = (self.value)(c.entry);
        match key_for(mark) {
            Key::Digit(d) => c.digit(d),
            Key::Op(o) => {
                let due = c.fold(value);
                let f = self.carried_out(c, due);
                let g = f.op(o, due is Some, (self.value)(f.entry), self.zero);
                g.remember((self.text)(g.acc), o)
            },
            Key::Equals => self.carried_out(c, c.due(value)),
            Key::Clear => opened(self.zero),
            Key::Negate => c.negate(),
            Key::Percent => c.percent((self.text)((self.hundredth)(value))),
            Key::Other => c,
        }
    }

    /// After the keys with these marks were pressed one after the other.
    pub open spec fn after(self, c: CalcView, marks: Seq<char>) -> CalcView
        decreases marks.len(),
    {
        if marks.len() == 0 {
            c
        } else {
            self.pressed(self.after(c, marks.drop_last()), marks.last())
        }
    }
}

/// Whether a text is a number that fits the entry, as it is typed: digits with at most one
/// point, which does not come first.
pub open spec fn is_number(s: Seq<char>) -> bool {
    &&& 0 < s.len() <= 14
    &&& forall|i: int| 0 <= i < s.len() ==> '0' <= #[trigger] s[i] <= '9' || s[i] == '.'
    &&& one_point(s)
    &&& s[0] != '.'
}

proof fn lemma_plain_len(s: Seq<char>)
    requires
        forall|i: int| 0 <= i < s.len() ==> '0' <= #[trigger] s[i] <= '9' || s[i] == '.',
    ensures
        byte_len(s) == s.len(),
        unsigned(s) == s,
    decreases s.len(),
{
    if s.len() > 0 {
        assert(s[0] != '-');
        assert forall|i: int| 0 <= i < s.len() - 1 implies '0' <= #[trigger] s.drop_last()[i] <= '9'
            || s.drop_last()[i] == '.' by {
            assert(s.drop_last()[i] == s[i]);
        }
        lemma_plain_len(s.drop_last());
        assert('0' <= s[s.len() - 1] <= '9' || s[s.len() - 1] == '.');
    }
}

/// Keys pressed in two goes are the keys pressed in one.
pub proof fn lemma_keys_in_two_goes(h: Arithmetic, c: CalcView, a: Seq<char>, b: Seq<char>)
    ensures
        h.after(c, a + b) == h.after(h.after(c, a), b),
    decreases b.len(),
{
    if b.len() == 0 {
        assert(a + b =~= a);
    } else {
        assert((a + b).drop_last() =~= a + b.drop_last());
        lemma_keys_in_two_goes(h, c, a, b.drop_last());
    }
}

/// A number that is typed where a new entry begins is the entry, digit for digit, and
/// nothing else changes.
pub proof fn lemma_typed_number_is_the_entry(h: Arithmetic, c: CalcView, a: Seq<char>)
    requires
        is_number(a),
        c.fresh,
    ensures
        h.after(c, a) == (CalcView { entry: a, fresh: false, ..c }),
    decreases a.len(),
{
    let p = a.drop_last();
    let d = a.last();
    assert(d == a[a.len() - 1]);
    assert(p.push(d) =~= a);
    assert forall|i: int| 0 <= i < p.len() implies '0' <= #[trigger] p[i] <= '9' || p[i] == '.' by {
        assert(p[i] == a[i]);
    }
    lemma_plain_len(p);
    if p.len() > 0 {
        assert(p[0] == a[0]);
        assert(one_point(p)) by {
            assert forall|i: int, j: int| 0 <= i < j < p.len() implies !(p[i] == '.' && p[j]
                == '.') by {
                assert(p[i] == a[i] && p[j] == a[j]);
            }
        }
        lemma_typed_number_is_the_entry(h, c, p);
        if d == '.' && p.contains('.') {
            let i = choose|i: int| 0 <= i < p.len() && p[i] == '.';
            assert(a[i] == '.' && a[a.len() - 1] == '.');
        }
        assert(h.after(c, a) =~= (CalcView { entry: a, fresh: false, ..c }));
    } else {
        assert(h.after(c, p) == c);
        assert(a[0] == d);
        assert(Seq::<char>::empty().push(d) =~= a);
        assert(h.after(c, a) =~= (CalcView { entry: a, fresh: false, ..c }));
    }
}

/// Whether a mark is that of an operation.
pub open spec fn is_operation(o: char) -> bool {
    o == '+' || o == '-' || o == '*' || o == '/'
}

/// A number, an operation key and a second number are typed where nothing is pending: what
/// `=` has to compute is the operation on the first number and the second, in this order.
pub proof fn lemma_operation_is_on_both_numbers(
    h: Arithmetic,
    c: CalcView,
    a: Seq<char>,
    o: char,
    b: Seq<char>,
)
    requires
        c.fresh && c.pending is None,
        is_number(a) && is_number(b),
        is_operation(o),
    ensures
        ({
            let t = h.after(c, a + seq![o] + b);
            let w = Operation { op: o, lhs: (h.value)(a), rhs: (h.value)(b) };
            &&& t.entry == b
            &&& t.due((h.value)(t.entry)) == Some(w)
            &&& forall|x: Calc| #![auto] x@ == t ==> x.due((h.value)(x.entry@)) == Some(w)
        }),
{
    lemma_keys_in_two_goes(h, c, a + seq![o], b);
    lemma_keys_in_two_goes(h, c, a, seq![o]);
    lemma_typed_number_is_the_entry(h, c, a);
    let m = h.after(c, a);
    assert(seq![o].drop_last() =~= Seq::<char>::empty());
    assert(h.after(m, Seq::<char>::empty()) == m);
    let n = h.after(m, seq![o]);
    assert(n == h.pressed(m, o));
    lemma_typed_number_is_the_entry(h, n, b);
}

/// The result of an operation takes the place of the entry, and the next digit begins a
/// new one.
pub proof fn lemma_result_is_shown(
    h: Arithmetic,
    c: CalcView,
    a: Seq<char>,
    o: char,
    b: Seq<char>,
)
    requires
        c.fresh && c.pending is None,
        is_number(a) && is_number(b),
        is_operation(o),
    ensures
        ({
            let t = h.after(c, a + seq![o] + b + seq!['=']);
            let r = (h.result)(Operation { op: o, lhs: (h.value)(a), rhs: (h.value)(b) });
            &&& t.entry == (h.text)(r)
            &&& t.fresh && t.pending is None && t.memo.len() == 0
        }),
{
    let s = a + seq![o] + b;
    lemma_operation_is_on_both_numbers(h, c, a, o, b);
    assert((s + seq!['=']).drop_last() =~= s);
}

/// Pressing `=` again carries out the operation again, on the result and the second number.
pub proof fn lemma_equals_again_repeats(
    h: Arithmetic,
    c: CalcView,
    a: Seq<char>,
    o: char,
    b: Seq<char>,
)
    requires
        c.fresh && c.pending is None,
        is_number(a) && is_number(b),
        is_operation(o),
    ensures
        ({
            let t = h.after(c, a + seq![o] + b + seq!['=']);
            let r = (h.result)(Operation { op: o, lhs: (h.value)(a), rhs: (h.value)(b) });
            let w = Operation { op: o, lhs: (h.value)((h.text)(r)), rhs: (h.value)(b) };
            &&& t.due((h.value)(t.entry)) == Some(w)
            &&& forall|x: Calc| #![auto] x@ == t ==> x.due((h.value)(x.entry@)) == Some(w)
        }),
{
    let s = a + seq![o] + b;
    lemma_operation_is_on_both_numbers(h, c, a, o, b);
    assert((s + seq!['=']).drop_last() =~= s);
}

/// Operations are carried out from left to right: a second operation key takes the result
/// of the first operation for its left side.
pub proof fn lemma_operations_chain(
    h: Arithmetic,
    c: CalcView,
    a: Seq<char>,
    o: char,
    b: Seq<char>,
    p: char,
    d: Seq<char>,
)
    requires
        c.fresh && c.pending is None,
        is_number(a) && is_number(b) && is_number(d),
        is_operation(o) && is_operation(p),
    ensures
        ({
            let t = h.after(c, a + seq![o] + b + seq![p] + d);
            let r = (h.result)(Operation { op: o, lhs: (h.value)(a), rhs: (h.value)(b) });
            let w = Operation { op: p, lhs: r, rhs: (h.value)(d) };
            &&& t.entry == d
            &&& t.due((h.value)(t.entry)) == Some(w)
            &&& forall|x: Calc| #![auto] x@ == t ==> x.due((h.value)(x.entry@)) == Some(w)
        }),
{
    let s = a + seq![o] + b;
    lemma_operation_is_on_both_numbers(h, c, a, o, b);
    lemma_keys_in_two_goes(h, c, s + seq![p], d);
    lemma_keys_in_two_goes(h, c, a + seq![o], b);
    lemma_keys_in_two_goes(h, c, a, seq![o]);
    lemma_typed_number_is_the_entry(h, c, a);
    let m = h.after(c, a);
    assert(seq![o].drop_last() =~= Seq::<char>::empty());
    assert(h.after(m, Seq::<char>::empty()) == m);
    let n = h.after(m, seq![o]);
    assert(n == h.pressed(m, o));
    lemma_typed_number_is_the_entry(h, n, b);
    assert((s + seq![p]).drop_last() =~= s);
    let t = h.after(c, s);
    let u = h.after(c, s + seq![p]);
    assert(u == h.pressed(t, p));
    lemma_typed_number_is_the_entry(h, u, d);
}

/// The last of several operation keys counts.
pub proof fn lemma_last_operation_key_counts(
    h: Arithmetic,
    c: CalcView,
    a: Seq<char>,
    o: char,
    p: char,
    b: Seq<char>,
)
    requires
        c.fresh && c.pending is None,
        is_number(a) && is_number(b),
        is_operation(o) && is_operation(p),
    ensures
        ({
            let t = h.after(c, a + seq![o] + seq![p] + b);
            let w = Operation { op: p, lhs: (h.value)(a), rhs: (h.value)(b) };
            &&& t.entry == b
            &&& t.due((h.value)(t.entry)) == Some(w)
            &&& forall|x: Calc| #![auto] x@ == t ==> x.due((h.value)(x.entry@)) == Some(w)
        }),
{
    lemma_keys_in_two_goes(h, c, a + seq![o] + seq![p], b);
    lemma_keys_in_two_goes(h, c, a, seq![o]);
    lemma_typed_number_is_the_entry(h, c, a);
    let m = h.after(c, a);
    assert(seq![o].drop_last() =~= Seq::<char>::empty());
    assert(h.after(m, Seq::<char>::empty()) == m);
    let n = h.after(m, seq![o]);
    assert(n == h.pressed(m, o));
    assert((a + seq![o] + seq![p]).drop_last() =~= a + seq![o]);
    let u = h.after(c, a + seq![o] + seq![p]);
    assert(u == h.pressed(n, p));
    lemma_typed_number_is_the_entry(h, u, b);
}

/// The number on the left of an operation and its sign are shown while the other number is
/// typed.
pub proof fn lemma_left_side_is_shown(
    h: Arithmetic,
    c: CalcView,
    a: Seq<char>,
    o: char,
    b: Seq<char>,
)
    requires
        c.fresh && c.pending is None,
        is_number(a) && is_number(b),
        is_operation(o),
    ensures
        h.after(c, a + seq![o] + b).memo == (h.text)((h.value)(a)) + seq![' ', o],
{
    reveal_strlit(" ");
    lemma_keys_in_two_goes(h, c, a + seq![o], b);
    lemma_typed_number_is_the_entry(h, c, a);
    assert((a + seq![o]).drop_last() =~= a);
    let m = h.after(c, a);
    let n = h.pressed(m, o);
    assert(n.memo =~= (h.text)((h.value)(a)) + seq![' ', o]);
    lemma_typed_number_is_the_entry(h, n, b);
}

/// The hundredth of what is shown takes its place, and the next digit begins a new entry.
pub proof fn lemma_percent_key(h: Arithmetic, c: CalcView, a: Seq<char>)
    requires
        c.fresh,
        is_number(a),
    ensures
        ({
            let t = h.after(c, a + seq!['%']);
            &&& t.entry == (h.text)((h.hundredth)((h.value)(a)))
            &&& t.fresh && t.pending == c.pending && t.acc == c.acc
        }),
{
    lemma_typed_number_is_the_entry(h, c, a);
    assert((a + seq!['%']).drop_last() =~= a);
}

/// Whatever was typed before, nothing of it is left after the key that starts over.
pub proof fn lemma_clear_forgets(h: Arithmetic, c: CalcView, before: Seq<char>, after: Seq<char>)
    ensures
        h.after(c, before + seq!['C'] + after) == h.after(opened(h.zero), after),
{
    lemma_keys_in_two_goes(h, c, before + seq!['C'], after);
    assert((before + seq!['C']).drop_last() =~= before);
}

/// The sign key puts a sign before a number that was typed, other than a lone zero, and
/// takes it away again; nothing typed has no sign, and neither has zero.
#[verifier::spinoff_prover]
pub proof fn lemma_sign_key(h: Arithmetic, c: CalcView, a: Seq<char>)
    requires
        c.fresh,
        is_number(a),
        a != "0"@,
    ensures
        negated(Seq::empty()).len() == 0 && negated("0"@) == "0"@,
        h.after(c, a + seq!['~']).entry == seq!['-'] + a,
        h.after(c, a + seq!['~', '~']).entry == a,
{
    lemma_typed_number_is_the_entry(h, c, a);
    reveal_strlit("0");
    let t = h.after(c, a);
    let u = h.pressed(t, '~');
    assert(a[0] != '-');
    assert(u == t.negate() && u.entry == seq!['-'] + a);
    assert(h.after(c, a + seq!['~']) == u) by {
        assert((a + seq!['~']).drop_last() =~= a);
    }
    assert(h.pressed(u, '~').entry == a) by {
        assert(u.entry.skip(1) =~= a);
    }
    assert(h.after(c, a + seq!['~', '~']) == h.pressed(u, '~')) by {
        assert((a + seq!['~', '~']).drop_last() =~= a + seq!['~']);
    }
}

/// A decimal without the zeros, and then the point, at its end.
pub open spec fn without_noise(s: Seq<char>) -> Seq<char> {
    if s.contains('.') {
        without_trailing(without_trailing(s, '0'), '.')
    } else {
        s
    }
}

/// Returns a decimal without the zeros, and then the point, at its end.
pub fn trim_noise(s: &str) -> (r: String)
    ensures
        r@ == without_noise(s@),
{
    if has_point(s) {
        let t = trim_trailing(s, '0');
        trim_trailing(t.as_str(), '.')
    } else {
        s.to_owned()
    }
}

/// How large the display's type is: smaller for what takes more bytes.
pub fn type_size(shown: &str) -> (n: u32)
    ensures
        n == if byte_len(shown@) > 11 {
            26u32
        } else if byte_len(shown@) > 8 {
            32
        } else {
            40
        },
{
    if longer_than(shown, 11) {
        26
    } else if longer_than(shown, 8) {
        32
    } else {
        40
    }
}

/// What is cut from the end of a decimal are zeros behind the point, and the point where
/// nothing is left behind it; nothing is cut from a number without a point.
pub proof fn lemma_only_noise_is_cut(s: Seq<char>)
    ensures
        without_noise(s).len() <= s.len(),
        without_noise(s) == s.take(without_noise(s).len() as int),
        !s.contains('.') ==> without_noise(s) == s,
        forall|i: int|
            without_noise(s).len() <= i < s.len() ==> #[trigger] s[i] == '0' || s[i] == '.',
        s.contains('.') && without_noise(s).len() > 0 ==> without_noise(s).last() != '.',
{
    let a = without_trailing(s, '0');
    lemma_trailing_cut(s, '0');
    lemma_trailing_cut(a, '.');
    if s.contains('.') {
        let b = without_noise(s);
        assert(b =~= s.take(b.len() as int));
        assert forall|i: int| b.len() <= i < s.len() implies #[trigger] s[i] == '0' || s[i] == '.' by {
            if i < a.len() {
                assert(a[i] == s[i]);
            }
        }
    } else {
        assert(s.take(s.len() as int) =~= s);
    }
}

proof fn lemma_trailing_cut(s: Seq<char>, c: char)
    ensures
        without_trailing(s, c).len() <= s.len(),
        without_trailing(s, c) == s.take(without_trailing(s, c).len() as int),
        forall|i: int| without_trailing(s, c).len() <= i < s.len() ==> #[trigger] s[i] == c,
        without_trailing(s, c).len() > 0 ==> without_trailing(s, c).last() != c,
    decreases s.len(),
{
    if s.len() > 0 && s.last() == c {
        let d = s.drop_last();
        lemma_trailing_cut(d, c);
        let w = without_trailing(s, c);
        assert(w =~= s.take(w.len() as int));
        assert forall|i: int| w.len() <= i < s.len() implies #[trigger] s[i] == c by {
            if i < d.len() {
                assert(d[i] == s[i]);
            }
        }
    } else {
        assert(s.take(s.len() as int) =~= s);
    }
}

} // verus!

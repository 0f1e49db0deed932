//! Strings as sequences of characters: splitting, trimming, searching, joining.
//!
//! Every function here works on `&str` and `String`; what it computes is stated
//! over `Seq<char>`, the view that both share.
use vstd::prelude::*;
use vstd::string::StringExecFns;
use vstd::utf8::{encode_utf8, valid_utf8};

verus! {

/// `String::push` appends one character and changes nothing else.
pub assume_specification[ String::push ](s: &mut String, c: char)
    ensures
        final(s)@ == old(s)@.push(c),
;

/// The name for what `str::to_lowercase` returns: Unicode lowercasing.
pub uninterp spec fn lowercase(s: Seq<char>) -> Seq<char>;

/// Calls `str::to_lowercase`, whose result depends on the text alone.
#[verifier::external_body]
pub(crate) fn to_lowercase(s: &str) -> (r: String)
    ensures
        r@ == lowercase(s@),
{
    s.to_lowercase()
}

/// The name for what `String::from_utf8_lossy` returns: the text that the bytes
/// encode, with each malformed sequence replaced.
pub uninterp spec fn utf8_lossy(bytes: Seq<u8>) -> Seq<char>;

/// Calls `String::from_utf8_lossy`, whose result depends on the bytes alone. Bytes
/// that are valid UTF-8 are the encoding of the result.
#[verifier::external_body]
pub(crate) fn from_utf8_lossy(bytes: &Vec<u8>) -> (r: String)
    ensures
        r@ == utf8_lossy(bytes@),
        valid_utf8(bytes@) ==> encode_utf8(r@) == bytes@,
{
    String::from_utf8_lossy(bytes).into_owned()
}

/// Calls `String::from_utf8`: the text that the bytes encode, or nothing where they
/// are not valid UTF-8.
#[verifier::external_body]
pub(crate) fn from_utf8(bytes: Vec<u8>) -> (r: Option<String>)
    ensures
        match r {
            Some(s) => valid_utf8(bytes@) && encode_utf8(s@) == bytes@,
            None => !valid_utf8(bytes@),
        },
{
    String::from_utf8(bytes).ok()
}

/// The views of a list of strings.
pub open spec fn texts(v: Seq<String>) -> Seq<Seq<char>> {
    Seq::new(v.len(), |i: int| v[i]@)
}

/// The characters of a string.
pub fn chars_of(s: &str) -> (v: Vec<char>)
    ensures
        v@ == s@,
{
    let mut v: Vec<char> = Vec::new();
    for c in it: s.chars()
        invariant
            v@ == s@.take(it.index() as int),
            it.seq() == s@,
    {
        v.push(c);
        assert(s@.take(it.index() as int + 1) =~= s@.take(it.index() as int).push(c));
    }
    assert(s@.take(s@.len() as int) =~= s@);
    v
}

/// The string made of the characters `v[from..to]`.
pub fn string_from(v: &Vec<char>, from: usize, to: usize) -> (s: String)
    requires
        from <= to <= v@.len(),
    ensures
        s@ == v@.subrange(from as int, to as int),
{
    let mut s: String = String::new();
    let mut i: usize = from;
    while i < to
        invariant
            from <= i <= to <= v@.len(),
            s@ == v@.subrange(from as int, i as int),
        decreases to - i,
    {
        s.push(v[i]);
        assert(v@.subrange(from as int, i + 1) =~= v@.subrange(from as int, i as int).push(v@[i as int]));
        i += 1;
    }
    s
}

/// The string made of the characters `v`.
pub fn string_of(v: &Vec<char>) -> (s: String)
    ensures
        s@ == v@,
{
    let s = string_from(v, 0, v.len());
    assert(v@.subrange(0, v@.len() as int) =~= v@);
    s
}

/// Whether two strings hold the same characters.
pub fn same(a: &str, b: &str) -> (r: bool)
    ensures
        r == (a@ == b@),
{
    let x = chars_of(a);
    let y = chars_of(b);
    if x.len() != y.len() {
        return false;
    }
    let mut i: usize = 0;
    while i < x.len()
        invariant
            i <= x@.len() == y@.len(),
            x@ == a@,
            y@ == b@,
            forall|j: int| 0 <= j < i ==> x@[j] == y@[j],
        decreases x.len() - i,
    {
        if x[i] != y[i] {
            return false;
        }
        i += 1;
    }
    assert(a@ =~= b@);
    true
}

/// Whether `list` holds the string `s`.
pub open spec fn holds(list: Seq<String>, s: Seq<char>) -> bool {
    exists|i: int| 0 <= i < list.len() && (#[trigger] list[i])@ == s
}

/// The position of `s` in `list`, if it is there: the first one.
pub fn position_of(list: &Vec<String>, s: &str) -> (r: Option<usize>)
    ensures
        match r {
            Some(i) => i < list@.len() && list@[i as int]@ == s@ && forall|j: int|
                0 <= j < i ==> (#[trigger] list@[j])@ != s@,
            None => !holds(list@, s@),
        },
{
    let mut i: usize = 0;
    while i < list.len()
        invariant
            i <= list@.len(),
            forall|j: int| 0 <= j < i ==> (#[trigger] list@[j])@ != s@,
        decreases list.len() - i,
    {
        if same(list[i].as_str(), s) {
            return Some(i);
        }
        i += 1;
    }
    None
}

// ── Whitespace ───────────────────────────────────────────────────────────────

/// The characters with the Unicode property White_Space.
pub open spec fn is_space(c: char) -> bool {
    ||| '\u{9}' <= c <= '\u{d}'
    ||| c == ' '
    ||| c == '\u{85}'
    ||| c == '\u{a0}'
    ||| c == '\u{1680}'
    ||| '\u{2000}' <= c <= '\u{200a}'
    ||| c == '\u{2028}'
    ||| c == '\u{2029}'
    ||| c == '\u{202f}'
    ||| c == '\u{205f}'
    ||| c == '\u{3000}'
}

/// Whether a character is white space.
pub fn char_is_space(c: char) -> (r: bool)
    ensures
        r == is_space(c),
{
    ('\u{9}' <= c && c <= '\u{d}') || c == ' ' || c == '\u{85}' || c == '\u{a0}' || c == '\u{1680}'
        || ('\u{2000}' <= c && c <= '\u{200a}') || c == '\u{2028}' || c == '\u{2029}'
        || c == '\u{202f}' || c == '\u{205f}' || c == '\u{3000}'
}

/// `s` without its leading white space.
pub open spec fn trim_start(s: Seq<char>) -> Seq<char>
    decreases s.len(),
{
    if s.len() > 0 && is_space(s[0]) {
        trim_start(s.drop_first())
    } else {
        s
    }
}

/// `s` without its trailing white space.
pub open spec fn trim_end(s: Seq<char>) -> Seq<char>
    decreases s.len(),
{
    if s.len() > 0 && is_space(s.last()) {
        trim_end(s.drop_last())
    } else {
        s
    }
}

/// `s` without the white space around it.
pub open spec fn trimmed(s: Seq<char>) -> Seq<char> {
    trim_start(trim_end(s))
}

/// Whether `s` has no white space at either end.
pub open spec fn is_trimmed(s: Seq<char>) -> bool {
    s.len() > 0 ==> !is_space(s[0]) && !is_space(s.last())
}

/// Text without outer white space is left as it is by trimming.
pub proof fn lemma_trim_fixed(s: Seq<char>)
    requires
        is_trimmed(s),
    ensures
        trimmed(s) == s,
{
}

proof fn lemma_trim_start_shape(s: Seq<char>)
    ensures
        trim_start(s).len() <= s.len(),
        trim_start(s) == s.skip(s.len() - trim_start(s).len()),
        trim_start(s).len() > 0 ==> !is_space(trim_start(s)[0]),
        trim_start(s).len() > 0 ==> trim_start(s).last() == s.last(),
    decreases s.len(),
{
    if s.len() > 0 && is_space(s[0]) {
        lemma_trim_start_shape(s.drop_first());
        assert(trim_start(s) =~= s.skip(s.len() - trim_start(s).len()));
    } else {
        assert(s =~= s.skip(0));
    }
}

proof fn lemma_trim_end_shape(s: Seq<char>)
    ensures
        trim_end(s).len() <= s.len(),
        trim_end(s) == s.take(trim_end(s).len() as int),
        trim_end(s).len() > 0 ==> !is_space(trim_end(s).last()),
    decreases s.len(),
{
    if s.len() > 0 && is_space(s.last()) {
        lemma_trim_end_shape(s.drop_last());
        assert(trim_end(s) =~= s.take(trim_end(s).len() as int));
    } else {
        assert(s =~= s.take(s.len() as int));
    }
}

/// White space behind a text that does not all vanish is taken off its end alone.
pub proof fn lemma_trim_end_behind(a: Seq<char>, s: Seq<char>)
    requires
        trim_end(s).len() > 0,
    ensures
        trim_end(a + s) == a + trim_end(s),
    decreases s.len(),
{
    assert((a + s).last() == s.last());
    if is_space(s.last()) {
        assert((a + s).drop_last() =~= a + s.drop_last());
        lemma_trim_end_behind(a, s.drop_last());
    }
}

/// A text that holds more than white space does not all vanish.
pub proof fn lemma_trim_end_leaves(s: Seq<char>, i: int)
    requires
        0 <= i < s.len(),
        !is_space(s[i]),
    ensures
        trim_end(s).len() > 0,
    decreases s.len(),
{
    if is_space(s.last()) {
        assert(s.drop_last()[i] == s[i]);
        lemma_trim_end_leaves(s.drop_last(), i);
    }
}

/// What trimming returns: a stretch of the text with no white space at its ends.
pub proof fn lemma_trim_shape(s: Seq<char>)
    ensures
        is_trimmed(trimmed(s)),
        trimmed(s).len() <= s.len(),
        exists|from: int|
            0 <= from <= from + trimmed(s).len() <= s.len() && trimmed(s) == #[trigger] s.subrange(
                from,
                from + trimmed(s).len(),
            ),
{
    lemma_trim_end_shape(s);
    lemma_trim_start_shape(trim_end(s));
    let from = trim_end(s).len() - trimmed(s).len();
    assert(trimmed(s) =~= s.subrange(from, from + trimmed(s).len()));
}

/// A character that `s` lacks, its trimmed form lacks too.
pub proof fn lemma_trim_keeps_absence(s: Seq<char>, c: char)
    requires
        !s.contains(c),
    ensures
        !trimmed(s).contains(c),
{
    lemma_trim_shape(s);
    let from = choose|from: int|
        0 <= from <= from + trimmed(s).len() <= s.len() && trimmed(s) == #[trigger] s.subrange(
            from,
            from + trimmed(s).len(),
        );
    if trimmed(s).contains(c) {
        let i = choose|i: int| 0 <= i < trimmed(s).len() && trimmed(s)[i] == c;
        assert(s[from + i] == c);
    }
}

/// Returns `s` without the white space around it.
pub fn trim(s: &str) -> (r: String)
    ensures
        r@ == trimmed(s@),
{
    let v = chars_of(s);
    let mut end: usize = v.len();
    assert(v@.take(end as int) =~= v@);
    while end > 0 && char_is_space(v[end - 1])
        invariant
            end <= v@.len(),
            trim_end(v@) == trim_end(v@.take(end as int)),
        decreases end,
    {
        assert(v@.take(end as int).drop_last() =~= v@.take(end - 1));
        assert(v@.take(end as int).last() == v@[end - 1]);
        end -= 1;
    }
    assert(end > 0 ==> v@.take(end as int).last() == v@[end - 1]);
    let ghost t = trim_end(v@);
    assert(t == v@.take(end as int));
    let mut start: usize = 0;
    assert(t.skip(0) =~= t);
    while start < end && char_is_space(v[start])
        invariant
            start <= end <= v@.len(),
            t == v@.take(end as int),
            trim_start(t) == trim_start(t.skip(start as int)),
        decreases end - start,
    {
        assert(t.skip(start as int).drop_first() =~= t.skip(start + 1));
        assert(t.skip(start as int)[0] == v@[start as int]);
        start += 1;
    }
    assert(start < end ==> t.skip(start as int)[0] == v@[start as int]);
    assert(t.skip(start as int) =~= v@.subrange(start as int, end as int));
    string_from(&v, start, end)
}

// ── Splitting ────────────────────────────────────────────────────────────────

/// The pieces of `s` between occurrences of `sep`; at most `n` of them, the last
/// holding what is left, separators included.
pub open spec fn splitn(s: Seq<char>, sep: char, n: int) -> Seq<Seq<char>>
    decreases s.len(),
{
    if s.len() == 0 {
        seq![Seq::<char>::empty()]
    } else {
        let p = splitn(s.drop_last(), sep, n);
        if s.last() == sep && p.len() < n {
            p.push(Seq::<char>::empty())
        } else {
            p.drop_last().push(p.last().push(s.last()))
        }
    }
}

/// The pieces of `s` between all occurrences of `sep`.
pub open spec fn split(s: Seq<char>, sep: char) -> Seq<Seq<char>>
    decreases s.len(),
{
    if s.len() == 0 {
        seq![Seq::<char>::empty()]
    } else {
        let p = split(s.drop_last(), sep);
        if s.last() == sep {
            p.push(Seq::<char>::empty())
        } else {
            p.drop_last().push(p.last().push(s.last()))
        }
    }
}

/// Splitting always gives at least one piece, and `splitn` at most `n`.
pub proof fn lemma_splitn_len(s: Seq<char>, sep: char, n: int)
    ensures
        splitn(s, sep, n).len() >= 1,
        n >= 1 ==> splitn(s, sep, n).len() <= n,
    decreases s.len(),
{
    if s.len() > 0 {
        lemma_splitn_len(s.drop_last(), sep, n);
    }
}

/// Text without the separator is a single piece.
pub proof fn lemma_splitn_none(s: Seq<char>, sep: char, n: int)
    requires
        !s.contains(sep),
    ensures
        splitn(s, sep, n) == seq![s],
    decreases s.len(),
{
    if s.len() > 0 {
        let d = s.drop_last();
        assert(!d.contains(sep)) by {
            if d.contains(sep) {
                let i = choose|i: int| 0 <= i < d.len() && d[i] == sep;
                assert(s[i] == sep);
            }
        }
        lemma_splitn_none(d, sep, n);
        assert(s.last() != sep) by {
            assert(s[s.len() - 1] == s.last());
        }
        assert(d.push(s.last()) =~= s);
        assert(splitn(s, sep, n) =~= seq![s]);
    } else {
        assert(s =~= Seq::<char>::empty());
        assert(splitn(s, sep, n) =~= seq![s]);
    }
}

/// Adding a separator and a piece without one adds that piece to the list.
pub proof fn lemma_splitn_push(s: Seq<char>, sep: char, n: int, piece: Seq<char>)
    requires
        !piece.contains(sep),
        splitn(s, sep, n).len() < n,
    ensures
        splitn(s + seq![sep] + piece, sep, n) == splitn(s, sep, n).push(piece),
    decreases piece.len(),
{
    let whole = s + seq![sep] + piece;
    if piece.len() == 0 {
        assert(whole.drop_last() =~= s);
        assert(piece =~= Seq::<char>::empty());
        assert(splitn(whole, sep, n) =~= splitn(s, sep, n).push(piece));
    } else {
        let d = piece.drop_last();
        assert(!d.contains(sep)) by {
            if d.contains(sep) {
                let i = choose|i: int| 0 <= i < d.len() && d[i] == sep;
                assert(piece[i] == sep);
            }
        }
        lemma_splitn_push(s, sep, n, d);
        assert(whole.drop_last() =~= s + seq![sep] + d);
        assert(whole.last() == piece.last());
        assert(piece.last() != sep) by {
            assert(piece[piece.len() - 1] == piece.last());
        }
        assert(d.push(piece.last()) =~= piece);
        let p = splitn(s, sep, n).push(d);
        assert(p.drop_last() =~= splitn(s, sep, n));
        assert(splitn(whole, sep, n) =~= splitn(s, sep, n).push(piece));
    }
}

/// Splitting always gives at least one piece, and no piece holds the separator.
pub proof fn lemma_split_shape(s: Seq<char>, sep: char)
    ensures
        split(s, sep).len() >= 1,
        forall|i: int| 0 <= i < split(s, sep).len() ==> !(#[trigger] split(s, sep)[i]).contains(sep),
    decreases s.len(),
{
    if s.len() > 0 {
        lemma_split_shape(s.drop_last(), sep);
        let p = split(s.drop_last(), sep);
        if s.last() != sep {
            let q = p.last().push(s.last());
            assert(!q.contains(sep)) by {
                if q.contains(sep) {
                    let i = choose|i: int| 0 <= i < q.len() && q[i] == sep;
                    assert(p.last()[i] == sep);
                    assert(p[p.len() - 1].contains(sep));
                }
            }
            assert forall|i: int| 0 <= i < split(s, sep).len() implies !(#[trigger] split(
                s,
                sep,
            )[i]).contains(sep) by {
                if i < p.len() - 1 {
                    assert(split(s, sep)[i] == p[i]);
                }
            }
        } else {
            assert forall|i: int| 0 <= i < split(s, sep).len() implies !(#[trigger] split(
                s,
                sep,
            )[i]).contains(sep) by {
                if i < p.len() {
                    assert(split(s, sep)[i] == p[i]);
                }
            }
        }
    }
}

/// Returns the pieces of `s`, at most `n` of them.
pub fn split_str_n(s: &str, sep: char, n: usize) -> (r: Vec<String>)
    requires
        n >= 1,
    ensures
        texts(r@) == splitn(s@, sep, n as int),
        1 <= r@.len() <= n,
{
    let v = chars_of(s);
    let mut done: Vec<String> = Vec::new();
    let mut cur: String = String::new();
    let mut i: usize = 0;
    assert(v@.take(0) =~= Seq::<char>::empty());
    assert(texts(done@).push(cur@) =~= splitn(v@.take(0), sep, n as int));
    while i < v.len()
        invariant
            i <= v@.len(),
            v@ == s@,
            n >= 1,
            texts(done@).push(cur@) == splitn(v@.take(i as int), sep, n as int),
        decreases v.len() - i,
    {
        let ghost before = texts(done@);
        let ghost p = splitn(v@.take(i as int), sep, n as int);
        assert(v@.take(i + 1).drop_last() =~= v@.take(i as int));
        assert(v@.take(i + 1).last() == v@[i as int]);
        assert(p.len() == done@.len() + 1);
        assert(p.last() == cur@);
        assert(p.drop_last() =~= before);
        if v[i] == sep && done.len() < n - 1 {
            done.push(cur);
            cur = String::new();
            assert(texts(done@) =~= p);
            assert(texts(done@).push(cur@) =~= splitn(v@.take(i + 1), sep, n as int));
        } else {
            cur.push(v[i]);
            assert(texts(done@).push(cur@) =~= splitn(v@.take(i + 1), sep, n as int));
        }
        i += 1;
    }
    assert(v@.take(i as int) =~= s@);
    let ghost before = texts(done@);
    let ghost last = cur@;
    done.push(cur);
    assert(texts(done@) =~= before.push(last));
    proof {
        lemma_splitn_len(s@, sep, n as int);
    }
    done
}

/// Returns the pieces of `s` between all occurrences of `sep`.
pub fn split_str(s: &str, sep: char) -> (r: Vec<String>)
    ensures
        texts(r@) == split(s@, sep),
        r@.len() >= 1,
{
    let v = chars_of(s);
    let mut done: Vec<String> = Vec::new();
    let mut cur: String = String::new();
    let mut i: usize = 0;
    assert(v@.take(0) =~= Seq::<char>::empty());
    assert(texts(done@).push(cur@) =~= split(v@.take(0), sep));
    while i < v.len()
        invariant
            i <= v@.len(),
            v@ == s@,
            texts(done@).push(cur@) == split(v@.take(i as int), sep),
        decreases v.len() - i,
    {
        let ghost before = texts(done@);
        let ghost p = split(v@.take(i as int), sep);
        assert(v@.take(i + 1).drop_last() =~= v@.take(i as int));
        assert(v@.take(i + 1).last() == v@[i as int]);
        assert(p.last() == cur@);
        assert(p.drop_last() =~= before);
        if v[i] == sep {
            done.push(cur);
            cur = String::new();
            assert(texts(done@) =~= p);
            assert(texts(done@).push(cur@) =~= split(v@.take(i + 1), sep));
        } else {
            cur.push(v[i]);
            assert(texts(done@).push(cur@) =~= split(v@.take(i + 1), sep));
        }
        i += 1;
    }
    assert(v@.take(i as int) =~= s@);
    let ghost before = texts(done@);
    let ghost last = cur@;
    done.push(cur);
    assert(texts(done@) =~= before.push(last));
    done
}

/// The lines of a text: a line ends in a newline, or in a carriage return and a
/// newline; the last one may lack its newline.
pub open spec fn lines(s: Seq<char>) -> Seq<Seq<char>> {
    let p = split(s, '\n');
    let ended = Seq::new((p.len() - 1) as nat, |i: int| without_cr(p[i]));
    if p.last().len() == 0 {
        ended
    } else {
        ended.push(p.last())
    }
}

/// `s` without one carriage return at its end.
pub open spec fn without_cr(s: Seq<char>) -> Seq<char> {
    if s.len() > 0 && s.last() == '\r' {
        s.drop_last()
    } else {
        s
    }
}

/// Returns the lines of `s`.
pub fn lines_of(s: &str) -> (r: Vec<String>)
    ensures
        texts(r@) == lines(s@),
{
    let p = split_str(s, '\n');
    let mut out: Vec<String> = Vec::new();
    let mut i: usize = 0;
    let last: usize = p.len() - 1;
    while i < last
        invariant
            i <= last,
            last + 1 == p@.len(),
            texts(p@) == split(s@, '\n'),
            texts(out@) == lines(s@).take(i as int),
            lines(s@).len() >= last,
        decreases last - i,
    {
        let v = chars_of(p[i].as_str());
        let end: usize = if v.len() > 0 && v[v.len() - 1] == '\r' { v.len() - 1 } else { v.len() };
        let l = string_from(&v, 0, end);
        assert(texts(p@)[i as int] == v@);
        assert(l@ =~= without_cr(v@));
        let ghost before = texts(out@);
        out.push(l);
        assert(texts(out@) =~= before.push(l@));
        assert(lines(s@).take(i + 1) =~= lines(s@).take(i as int).push(lines(s@)[i as int]));
        i += 1;
    }
    assert(texts(p@)[last as int] == p@[last as int]@);
    let ghost before = texts(out@);
    if !p[last].as_str().is_empty() {
        let l = p[last].clone();
        out.push(l);
        assert(texts(out@) =~= before.push(l@));
        assert(texts(out@) =~= lines(s@));
    } else {
        assert(texts(out@) =~= lines(s@));
    }
    out
}

/// The stretches of `s` between white space.
pub open spec fn words(s: Seq<char>) -> Seq<Seq<char>>
    decreases s.len(),
{
    if s.len() == 0 {
        Seq::empty()
    } else {
        let w = words(s.drop_last());
        if is_space(s.last()) {
            w
        } else if s.len() >= 2 && !is_space(s[s.len() - 2]) {
            w.drop_last().push(w.last().push(s.last()))
        } else {
            w.push(seq![s.last()])
        }
    }
}

proof fn lemma_words_open(s: Seq<char>)
    requires
        s.len() > 0,
        !is_space(s.last()),
    ensures
        words(s).len() > 0,
    decreases s.len(),
{
    if s.len() >= 2 && !is_space(s[s.len() - 2]) {
        lemma_words_open(s.drop_last());
    }
}

/// White space parts words: the words on both sides of it are the words of the text.
pub proof fn lemma_words_around_space(a: Seq<char>, sp: char, b: Seq<char>)
    requires
        is_space(sp),
    ensures
        words(a + seq![sp] + b) == words(a) + words(b),
    decreases b.len(),
{
    let s = a + seq![sp] + b;
    if b.len() == 0 {
        assert(s.drop_last() =~= a);
        assert(words(a) + words(b) =~= words(a));
    } else {
        let d = b.drop_last();
        assert(s.drop_last() =~= a + seq![sp] + d);
        lemma_words_around_space(a, sp, d);
        assert(s.last() == b.last());
        if b.len() >= 2 {
            assert(s[s.len() - 2] == b[b.len() - 2]);
            if !is_space(b.last()) && !is_space(b[b.len() - 2]) {
                lemma_words_open(d);
                let w = words(a) + words(d);
                assert(w.drop_last().push(w.last().push(b.last())) =~= words(a) + words(
                    d,
                ).drop_last().push(words(d).last().push(b.last())));
            }
        } else {
            assert(s[s.len() - 2] == sp);
            assert(d =~= Seq::<char>::empty());
        }
        assert(words(s) =~= words(a) + words(b));
    }
}

/// A text without white space is one word.
pub proof fn lemma_one_word(w: Seq<char>)
    requires
        w.len() > 0,
        forall|i: int| 0 <= i < w.len() ==> !is_space(#[trigger] w[i]),
    ensures
        words(w) == seq![w],
    decreases w.len(),
{
    let d = w.drop_last();
    if d.len() > 0 {
        assert forall|i: int| 0 <= i < d.len() implies !is_space(#[trigger] d[i]) by {
            assert(d[i] == w[i]);
        }
        lemma_one_word(d);
        assert(d.push(w.last()) =~= w);
        assert(words(w) =~= seq![w]);
    } else {
        assert(words(d) =~= Seq::<Seq<char>>::empty());
        assert(seq![w.last()] =~= w);
        assert(words(w) =~= seq![w]);
    }
}

/// No word holds white space, and none is empty.
pub proof fn lemma_words_hold_no_space(s: Seq<char>, i: int)
    requires
        0 <= i < words(s).len(),
    ensures
        words(s)[i].len() > 0,
        forall|j: int| 0 <= j < words(s)[i].len() ==> !is_space(#[trigger] words(s)[i][j]),
    decreases s.len(),
{
    let d = s.drop_last();
    let w = words(d);
    if is_space(s.last()) {
        lemma_words_hold_no_space(d, i);
    } else if s.len() >= 2 && !is_space(s[s.len() - 2]) {
        lemma_words_open(d);
        lemma_words_hold_no_space(d, i);
    } else if i < w.len() {
        lemma_words_hold_no_space(d, i);
    }
}

/// Returns the stretches of `s` between white space.
pub fn words_of(s: &str) -> (r: Vec<String>)
    ensures
        texts(r@) == words(s@),
{
    let v = chars_of(s);
    let mut out: Vec<String> = Vec::new();
    let mut i: usize = 0;
    assert(texts(out@) =~= words(v@.take(0)));
    while i < v.len()
        invariant
            i <= v@.len(),
            v@ == s@,
            texts(out@) == words(v@.take(i as int)),
        decreases v.len() - i,
    {
        let ghost before = texts(out@);
        let ghost t = v@.take(i + 1);
        assert(t.drop_last() =~= v@.take(i as int));
        assert(t.last() == v@[i as int]);
        if !char_is_space(v[i]) {
            if i > 0 && !char_is_space(v[i - 1]) {
                assert(t[t.len() - 2] == v@[i - 1]);
                proof {
                    assert(v@.take(i as int).last() == v@[i - 1]);
                    lemma_words_open(v@.take(i as int));
                }
                assert(out@.len() > 0);
                let ghost all = out@;
                let mut w = out.pop().unwrap();
                assert(before.last() == w@);
                w.push(v[i]);
                out.push(w);
                assert(texts(out@) =~= before.drop_last().push(before.last().push(v@[i as int])));
            } else {
                assert(t.len() >= 2 ==> t[t.len() - 2] == v@[i - 1]);
                let mut w: String = String::new();
                w.push(v[i]);
                assert(w@ =~= seq![v@[i as int]]);
                out.push(w);
                assert(texts(out@) =~= before.push(seq![v@[i as int]]));
            }
        }
        i += 1;
    }
    assert(v@.take(i as int) =~= s@);
    out
}

// ── Searching ────────────────────────────────────────────────────────────────

/// Whether `needle` stands in `hay` at position `i`.
pub open spec fn stands_at(hay: Seq<char>, needle: Seq<char>, i: int) -> bool {
    0 <= i <= i + needle.len() <= hay.len() && hay.subrange(i, i + needle.len()) == needle
}

/// Whether `needle` occurs in `hay`.
pub open spec fn has_substring(hay: Seq<char>, needle: Seq<char>) -> bool {
    exists|i: int| stands_at(hay, needle, i)
}

/// Whether `needle` stands in `hay` at position `i`.
fn is_at(hay: &Vec<char>, needle: &Vec<char>, i: usize) -> (r: bool)
    ensures
        r == stands_at(hay@, needle@, i as int),
{
    if needle.len() > hay.len() || i > hay.len() - needle.len() {
        return false;
    }
    let mut j: usize = 0;
    while j < needle.len()
        invariant
            j <= needle@.len(),
            i + needle@.len() <= hay.len(),
            forall|k: int| 0 <= k < j ==> hay@[i + k] == needle@[k],
        decreases needle.len() - j,
    {
        if hay[i + j] != needle[j] {
            proof {
                if hay@.subrange(i as int, i + needle@.len()) == needle@ {
                    assert(hay@.subrange(i as int, i + needle@.len())[j as int] == needle@[j as int]);
                }
            }
            return false;
        }
        j += 1;
    }
    assert(hay@.subrange(i as int, i + needle@.len()) =~= needle@);
    true
}

/// Whether `needle` occurs in `hay`.
pub fn contains(hay: &str, needle: &str) -> (r: bool)
    ensures
        r == has_substring(hay@, needle@),
{
    let h = chars_of(hay);
    let n = chars_of(needle);
    if n.len() > h.len() {
        return false;
    }
    let last: usize = h.len() - n.len();
    let mut i: usize = 0;
    while i <= last
        invariant
            i <= last + 1,
            last == h@.len() - n@.len(),
            h@ == hay@,
            n@ == needle@,
            forall|k: int| 0 <= k < i ==> !stands_at(h@, n@, k),
        decreases last + 1 - i,
    {
        if is_at(&h, &n, i) {
            return true;
        }
        if i == last {
            return false;
        }
        i += 1;
    }
    false
}

/// The text with the first occurrence of `needle` exchanged for `other`; unchanged where
/// it does not occur.
pub open spec fn exchanged_once(hay: Seq<char>, needle: Seq<char>, other: Seq<char>) -> Seq<char> {
    if has_substring(hay, needle) {
        let i = first_at(hay, needle, 0);
        hay.take(i) + other + hay.skip(i + needle.len())
    } else {
        hay
    }
}

/// The first position from `from` on at which `needle` stands.
pub open spec fn first_at(hay: Seq<char>, needle: Seq<char>, from: int) -> int
    decreases hay.len() + 1 - from,
{
    if from > hay.len() || stands_at(hay, needle, from) {
        from
    } else {
        first_at(hay, needle, from + 1)
    }
}

/// Exchanges the first occurrence of `needle` for `other`.
pub fn replace_once(hay: &str, needle: &str, other: &str) -> (r: String)
    ensures
        r@ == exchanged_once(hay@, needle@, other@),
{
    let h = chars_of(hay);
    let n = chars_of(needle);
    if n.len() > h.len() {
        let r = hay.to_owned();
        return r;
    }
    let mut i: usize = 0;
    let last: usize = h.len() - n.len();
    while i <= last
        invariant
            h@ == hay@,
            n@ == needle@,
            last == h@.len() - n@.len(),
            i <= last + 1,
            h@.len() == h.len(),
            forall|k: int| 0 <= k < i ==> !stands_at(h@, n@, k),
            first_at(h@, n@, 0) == first_at(h@, n@, i as int),
        decreases last + 1 - i,
    {
        if is_at(&h, &n, i) {
            let mut r = string_from(&h, 0, i);
            r.append(other);
            let rest = string_from(&h, i + n.len(), h.len());
            r.append(rest.as_str());
            assert(has_substring(hay@, needle@));
            assert(r@ =~= hay@.take(i as int) + other@ + hay@.skip(i + needle@.len()));
            return r;
        }
        if i == last {
            assert forall|k: int| !stands_at(h@, n@, k) by {}
            return hay.to_owned();
        }
        i += 1;
    }
    hay.to_owned()
}

/// Whether `s` begins with `prefix`.
pub open spec fn begins_with(s: Seq<char>, prefix: Seq<char>) -> bool {
    stands_at(s, prefix, 0)
}

/// Whether `s` ends with `suffix`.
pub open spec fn ends_in(s: Seq<char>, suffix: Seq<char>) -> bool {
    stands_at(s, suffix, s.len() - suffix.len())
}

/// Whether `s` begins with `prefix`.
pub fn starts_with(s: &str, prefix: &str) -> (r: bool)
    ensures
        r == begins_with(s@, prefix@),
{
    is_at(&chars_of(s), &chars_of(prefix), 0)
}

/// Whether `s` ends with `suffix`.
pub fn ends_with(s: &str, suffix: &str) -> (r: bool)
    ensures
        r == ends_in(s@, suffix@),
{
    let v = chars_of(s);
    let n = chars_of(suffix);
    if n.len() > v.len() {
        return false;
    }
    is_at(&v, &n, v.len() - n.len())
}

/// What follows `prefix` in `s`; nothing where `s` does not begin with it.
pub fn strip_prefix(s: &str, prefix: &str) -> (r: Option<String>)
    ensures
        match r {
            Some(rest) => begins_with(s@, prefix@) && rest@ == s@.skip(prefix@.len() as int),
            None => !begins_with(s@, prefix@),
        },
{
    let v = chars_of(s);
    let n = chars_of(prefix);
    if !is_at(&v, &n, 0) {
        return None;
    }
    let r = string_from(&v, n.len(), v.len());
    assert(r@ =~= s@.skip(prefix@.len() as int));
    Some(r)
}

/// What stands before `suffix` in `s`; nothing where `s` does not end with it.
pub fn strip_suffix(s: &str, suffix: &str) -> (r: Option<String>)
    ensures
        match r {
            Some(rest) => ends_in(s@, suffix@) && rest@ == s@.take(s@.len() - suffix@.len()),
            None => !ends_in(s@, suffix@),
        },
{
    let v = chars_of(s);
    let n = chars_of(suffix);
    if n.len() > v.len() || !is_at(&v, &n, v.len() - n.len()) {
        return None;
    }
    let r = string_from(&v, 0, v.len() - n.len());
    assert(r@ =~= s@.take(s@.len() - suffix@.len()));
    Some(r)
}

/// `s` cut at the first `sep`: what stands before it and what follows.
pub open spec fn cut(s: Seq<char>, sep: char) -> Option<(Seq<char>, Seq<char>)> {
    if s.contains(sep) {
        let i = s.index_of_first(sep)->0;
        Some((s.take(i), s.skip(i + 1)))
    } else {
        None
    }
}

/// Cuts `s` at the first `sep`.
pub fn split_once(s: &str, sep: char) -> (r: Option<(String, String)>)
    ensures
        match r {
            Some(p) => cut(s@, sep) == Some((p.0@, p.1@)),
            None => cut(s@, sep) is None,
        },
{
    let v = chars_of(s);
    let mut i: usize = 0;
    while i < v.len()
        invariant
            i <= v@.len(),
            v@ == s@,
            forall|k: int| 0 <= k < i ==> v@[k] != sep,
        decreases v.len() - i,
    {
        if v[i] == sep {
            let a = string_from(&v, 0, i);
            let b = string_from(&v, i + 1, v.len());
            assert(a@ =~= s@.take(i as int));
            assert(b@ =~= s@.skip(i + 1));
            proof {
                assert(s@.contains(sep));
                s@.index_of_first_ensures(sep);
            }
            return Some((a, b));
        }
        i += 1;
    }
    None
}

// ── Joining ──────────────────────────────────────────────────────────────────

/// The parts one after another with `sep` between them.
pub open spec fn joined(parts: Seq<Seq<char>>, sep: Seq<char>) -> Seq<char>
    decreases parts.len(),
{
    if parts.len() == 0 {
        Seq::empty()
    } else if parts.len() == 1 {
        parts[0]
    } else {
        joined(parts.drop_last(), sep) + sep + parts.last()
    }
}

/// Returns the parts one after another with `sep` between them.
pub fn join(parts: &Vec<String>, sep: &str) -> (r: String)
    ensures
        r@ == joined(texts(parts@), sep@),
{
    let mut out: String = String::new();
    let mut i: usize = 0;
    let ghost all = texts(parts@);
    while i < parts.len()
        invariant
            i <= parts@.len(),
            all == texts(parts@),
            out@ == joined(all.take(i as int), sep@),
        decreases parts.len() - i,
    {
        if i > 0 {
            out.append(sep);
        }
        out.append(parts[i].as_str());
        assert(all.take(i + 1).drop_last() =~= all.take(i as int));
        assert(all.take(i + 1).last() == parts@[i as int]@);
        assert(out@ =~= joined(all.take(i + 1), sep@));
        i += 1;
    }
    assert(all.take(i as int) =~= all);
    out
}

/// A text is its pieces with the separator put back between them.
pub proof fn lemma_join_split(s: Seq<char>, sep: char)
    ensures
        joined(split(s, sep), seq![sep]) == s,
    decreases s.len(),
{
    lemma_split_shape(s, sep);
    if s.len() == 0 {
        assert(joined(split(s, sep), seq![sep]) =~= s);
    } else {
        let p = split(s.drop_last(), sep);
        lemma_split_shape(s.drop_last(), sep);
        lemma_join_split(s.drop_last(), sep);
        let q = split(s, sep);
        if s.last() == sep {
            assert(q.drop_last() =~= p);
            assert(joined(q, seq![sep]) =~= s);
        } else if p.len() == 1 {
            assert(q.len() == 1);
            assert(joined(q, seq![sep]) =~= s);
        } else {
            assert(q.drop_last() =~= p.drop_last());
            assert(joined(q, seq![sep]) =~= joined(p, seq![sep]).push(s.last()));
            assert(joined(q, seq![sep]) =~= s);
        }
    }
}

/// Adding a separator and a piece without one adds that piece to the list.
pub proof fn lemma_split_push(s: Seq<char>, sep: char, piece: Seq<char>)
    requires
        !piece.contains(sep),
    ensures
        split(s + seq![sep] + piece, sep) == split(s, sep).push(piece),
    decreases piece.len(),
{
    let whole = s + seq![sep] + piece;
    if piece.len() == 0 {
        assert(whole.drop_last() =~= s);
        assert(piece =~= Seq::<char>::empty());
        assert(split(whole, sep) =~= split(s, sep).push(piece));
    } else {
        let d = piece.drop_last();
        lemma_absent_in_part(piece, sep, 0, piece.len() - 1);
        assert(d =~= piece.subrange(0, piece.len() - 1));
        lemma_split_push(s, sep, d);
        assert(whole.drop_last() =~= s + seq![sep] + d);
        assert(piece.last() != sep) by {
            assert(piece[piece.len() - 1] == piece.last());
        }
        assert(d.push(piece.last()) =~= piece);
        assert(split(s, sep).push(d).drop_last() =~= split(s, sep));
        assert(split(whole, sep) =~= split(s, sep).push(piece));
    }
}

/// Text without the separator is a single piece.
pub proof fn lemma_split_none(s: Seq<char>, sep: char)
    requires
        !s.contains(sep),
    ensures
        split(s, sep) == seq![s],
    decreases s.len(),
{
    if s.len() > 0 {
        let d = s.drop_last();
        lemma_absent_in_part(s, sep, 0, s.len() - 1);
        assert(d =~= s.subrange(0, s.len() - 1));
        lemma_split_none(d, sep);
        assert(s.last() != sep) by {
            assert(s[s.len() - 1] == s.last());
        }
        assert(d.push(s.last()) =~= s);
        assert(split(s, sep) =~= seq![s]);
    } else {
        assert(s =~= Seq::<char>::empty());
        assert(split(s, sep) =~= seq![s]);
    }
}

/// Splitting at a separator that no part holds gives back the parts joined by it.
pub proof fn lemma_split_join(parts: Seq<Seq<char>>, sep: char)
    requires
        parts.len() > 0,
        forall|i: int| 0 <= i < parts.len() ==> !(#[trigger] parts[i]).contains(sep),
    ensures
        split(joined(parts, seq![sep]), sep) == parts,
    decreases parts.len(),
{
    if parts.len() == 1 {
        lemma_split_none(parts[0], sep);
        assert(seq![parts[0]] =~= parts);
    } else {
        assert forall|i: int| 0 <= i < parts.drop_last().len() implies !(
        #[trigger] parts.drop_last()[i]).contains(sep) by {
            assert(parts.drop_last()[i] == parts[i]);
        }
        lemma_split_join(parts.drop_last(), sep);
        assert(!parts[parts.len() - 1].contains(sep));
        lemma_split_push(joined(parts.drop_last(), seq![sep]), sep, parts.last());
        assert(parts.drop_last().push(parts.last()) =~= parts);
    }
}

/// A character that `s` lacks, no stretch of `s` holds.
pub proof fn lemma_absent_in_part(s: Seq<char>, c: char, from: int, to: int)
    requires
        !s.contains(c),
        0 <= from <= to <= s.len(),
    ensures
        !s.subrange(from, to).contains(c),
{
    let p = s.subrange(from, to);
    if p.contains(c) {
        let i = choose|i: int| 0 <= i < p.len() && p[i] == c;
        assert(s[from + i] == c);
    }
}

/// A character that neither part holds, their concatenation lacks too.
pub proof fn lemma_absent_in_sum(a: Seq<char>, b: Seq<char>, c: char)
    requires
        !a.contains(c),
        !b.contains(c),
    ensures
        !(a + b).contains(c),
{
    let s = a + b;
    if s.contains(c) {
        let i = choose|i: int| 0 <= i < s.len() && s[i] == c;
        if i < a.len() {
            assert(a[i] == c);
        } else {
            assert(b[i - a.len()] == c);
        }
    }
}

/// A character that neither the parts nor the separator hold, the joined text
/// lacks too.
pub proof fn lemma_absent_in_join(parts: Seq<Seq<char>>, sep: Seq<char>, c: char)
    requires
        !sep.contains(c),
        forall|i: int| 0 <= i < parts.len() ==> !(#[trigger] parts[i]).contains(c),
    ensures
        !joined(parts, sep).contains(c),
    decreases parts.len(),
{
    if parts.len() == 1 {
        assert(!parts[0].contains(c));
    } else if parts.len() > 1 {
        assert forall|i: int| 0 <= i < parts.drop_last().len() implies !(
        #[trigger] parts.drop_last()[i]).contains(c) by {
            assert(parts.drop_last()[i] == parts[i]);
        }
        lemma_absent_in_join(parts.drop_last(), sep, c);
        assert(!parts[parts.len() - 1].contains(c));
        lemma_absent_in_sum(joined(parts.drop_last(), sep), sep, c);
        lemma_absent_in_sum(joined(parts.drop_last(), sep) + sep, parts.last(), c);
    }
}

/// Once `n - 1` pieces are there, what follows the next separator is the last piece,
/// whatever it holds.
pub proof fn lemma_splitn_rest(s: Seq<char>, sep: char, n: int, rest: Seq<char>)
    requires
        splitn(s, sep, n).len() == n - 1,
    ensures
        splitn(s + seq![sep] + rest, sep, n) == splitn(s, sep, n).push(rest),
    decreases rest.len(),
{
    let whole = s + seq![sep] + rest;
    if rest.len() == 0 {
        assert(whole.drop_last() =~= s);
        assert(rest =~= Seq::<char>::empty());
        assert(splitn(whole, sep, n) =~= splitn(s, sep, n).push(rest));
    } else {
        let d = rest.drop_last();
        lemma_splitn_rest(s, sep, n, d);
        assert(whole.drop_last() =~= s + seq![sep] + d);
        assert(d.push(rest.last()) =~= rest);
        assert(splitn(s, sep, n).push(d).drop_last() =~= splitn(s, sep, n));
        assert(splitn(whole, sep, n) =~= splitn(s, sep, n).push(rest));
    }
}

/// Text without the separator, put at the end, lengthens the last piece.
pub proof fn lemma_split_extend(s: Seq<char>, sep: char, piece: Seq<char>)
    requires
        !piece.contains(sep),
    ensures
        split(s + piece, sep) == split(s, sep).drop_last().push(split(s, sep).last() + piece),
    decreases piece.len(),
{
    lemma_split_shape(s, sep);
    let p = split(s, sep);
    if piece.len() == 0 {
        assert(s + piece =~= s);
        assert(p.last() + piece =~= p.last());
        assert(p.drop_last().push(p.last()) =~= p);
    } else {
        let d = piece.drop_last();
        lemma_absent_in_part(piece, sep, 0, piece.len() - 1);
        assert(d =~= piece.subrange(0, piece.len() - 1));
        lemma_split_extend(s, sep, d);
        assert((s + piece).drop_last() =~= s + d);
        assert(piece.last() != sep) by {
            assert(piece[piece.len() - 1] == piece.last());
        }
        let q = p.drop_last().push(p.last() + d);
        assert(q.drop_last() =~= p.drop_last());
        assert((p.last() + d).push(piece.last()) =~= p.last() + piece);
    }
}

/// Each row followed by a newline.
pub open spec fn rows_text(rows: Seq<Seq<char>>) -> Seq<char>
    decreases rows.len(),
{
    if rows.len() == 0 {
        Seq::empty()
    } else {
        rows_text(rows.drop_last()) + rows.last() + "\n"@
    }
}

/// Whether a text can stand as one line of a file and be read back as it is.
pub open spec fn is_line(s: Seq<char>) -> bool {
    !s.contains('\n') && (s.len() > 0 ==> s.last() != '\r')
}

proof fn lemma_rows_split(rows: Seq<Seq<char>>)
    requires
        forall|i: int| 0 <= i < rows.len() ==> is_line(#[trigger] rows[i]),
    ensures
        split(rows_text(rows), '\n') == rows.push(Seq::<char>::empty()),
    decreases rows.len(),
{
    if rows.len() == 0 {
        assert(split(rows_text(rows), '\n') =~= rows.push(Seq::<char>::empty()));
    } else {
        let d = rows.drop_last();
        assert forall|i: int| 0 <= i < d.len() implies is_line(#[trigger] d[i]) by {
            assert(d[i] == rows[i]);
        }
        lemma_rows_split(d);
        assert(is_line(rows[rows.len() - 1]));
        lemma_split_extend(rows_text(d), '\n', rows.last());
        let q = d.push(Seq::<char>::empty());
        assert(q.drop_last() =~= d);
        assert(Seq::<char>::empty() + rows.last() =~= rows.last());
        assert(d.push(rows.last()) =~= rows);
        reveal_strlit("\n");
        let body = rows_text(d) + rows.last();
        assert(rows_text(rows).drop_last() =~= body);
        assert(rows_text(rows).last() == '\n');
    }
}

/// A file written row by row is read back as the same rows.
pub proof fn lemma_rows_round_trip(rows: Seq<Seq<char>>)
    requires
        forall|i: int| 0 <= i < rows.len() ==> is_line(#[trigger] rows[i]),
    ensures
        lines(rows_text(rows)) == rows,
{
    lemma_rows_split(rows);
    let p = split(rows_text(rows), '\n');
    assert forall|i: int| 0 <= i < rows.len() implies without_cr(#[trigger] rows[i]) == rows[i] by {
        assert(is_line(rows[i]));
    }
    assert(lines(rows_text(rows)) =~= rows);
}

/// Rows joined by newlines are read back as the same rows, if none is empty at the
/// end.
pub proof fn lemma_joined_rows_round_trip(rows: Seq<Seq<char>>)
    requires
        forall|i: int| 0 <= i < rows.len() ==> is_line(#[trigger] rows[i]),
        rows.len() > 0 ==> rows.last().len() > 0,
    ensures
        lines(joined(rows, "\n"@)) == rows,
{
    reveal_strlit("\n");
    assert("\n"@ =~= seq!['\n']);
    if rows.len() > 0 {
        assert forall|i: int| 0 <= i < rows.len() implies !(#[trigger] rows[i]).contains('\n') by {
            assert(is_line(rows[i]));
        }
        lemma_split_join(rows, '\n');
        assert forall|i: int| 0 <= i < rows.len() implies without_cr(#[trigger] rows[i])
            == rows[i] by {
            assert(is_line(rows[i]));
        }
    } else {
        assert(split(joined(rows, "\n"@), '\n') =~= seq![Seq::<char>::empty()]);
    }
    assert(lines(joined(rows, "\n"@)) =~= rows);
}

/// Returns each row followed by a newline.
pub fn rows_to_text(rows: &Vec<String>) -> (r: String)
    ensures
        r@ == rows_text(texts(rows@)),
{
    let mut out: String = String::new();
    let mut i: usize = 0;
    let ghost all = texts(rows@);
    while i < rows.len()
        invariant
            i <= rows@.len(),
            all == texts(rows@),
            out@ == rows_text(all.take(i as int)),
        decreases rows.len() - i,
    {
        assert(all.take(i + 1).drop_last() =~= all.take(i as int));
        assert(all.take(i + 1).last() == rows@[i as int]@);
        out.append(rows[i].as_str());
        out.append("\n");
        i += 1;
    }
    assert(all.take(i as int) =~= all);
    out
}

/// The lines of a text, trimmed, those that are empty left out.
pub open spec fn filled_lines(ls: Seq<Seq<char>>) -> Seq<Seq<char>>
    decreases ls.len(),
{
    if ls.len() == 0 {
        Seq::empty()
    } else if trimmed(ls.last()).len() > 0 {
        filled_lines(ls.drop_last()).push(trimmed(ls.last()))
    } else {
        filled_lines(ls.drop_last())
    }
}

/// Returns the parts, trimmed, those that are empty left out.
pub fn trimmed_parts(ls: &Vec<String>) -> (r: Vec<String>)
    ensures
        texts(r@) == filled_lines(texts(ls@)),
{
    let mut out: Vec<String> = Vec::new();
    let mut i: usize = 0;
    let ghost all = texts(ls@);
    assert(texts(out@) =~= filled_lines(all.take(0)));
    while i < ls.len()
        invariant
            i <= ls@.len(),
            all == texts(ls@),
            texts(out@) == filled_lines(all.take(i as int)),
        decreases ls.len() - i,
    {
        assert(all.take(i + 1).drop_last() =~= all.take(i as int));
        assert(all.take(i + 1).last() == ls@[i as int]@);
        let l = trim(ls[i].as_str());
        if !l.as_str().is_empty() {
            let ghost before = texts(out@);
            out.push(l);
            assert(texts(out@) =~= before.push(l@));
        }
        i += 1;
    }
    assert(all.take(i as int) =~= all);
    out
}

/// Returns the lines of a text, trimmed, those that are empty left out.
pub fn read_lines(s: &str) -> (r: Vec<String>)
    ensures
        texts(r@) == filled_lines(lines(s@)),
{
    trimmed_parts(&lines_of(s))
}

/// Returns the items of a list that is separated by commas, trimmed, those that are
/// empty left out.
pub fn comma_list(s: &str) -> (r: Vec<String>)
    ensures
        texts(r@) == filled_lines(split(s@, ',')),
{
    trimmed_parts(&split_str(s, ','))
}

/// The parts that are not empty, in their order.
pub open spec fn filled(p: Seq<Seq<char>>) -> Seq<Seq<char>>
    decreases p.len(),
{
    if p.len() == 0 {
        Seq::empty()
    } else if p.last().len() > 0 {
        filled(p.drop_last()).push(p.last())
    } else {
        filled(p.drop_last())
    }
}

/// Returns the parts that are not empty.
pub fn filled_parts(p: &Vec<String>) -> (r: Vec<String>)
    ensures
        texts(r@) == filled(texts(p@)),
{
    let mut out: Vec<String> = Vec::new();
    let mut i: usize = 0;
    let ghost all = texts(p@);
    assert(texts(out@) =~= filled(all.take(0)));
    while i < p.len()
        invariant
            i <= p@.len(),
            all == texts(p@),
            texts(out@) == filled(all.take(i as int)),
        decreases p.len() - i,
    {
        assert(all.take(i + 1).drop_last() =~= all.take(i as int));
        assert(all.take(i + 1).last() == p@[i as int]@);
        if !p[i].as_str().is_empty() {
            let ghost before = texts(out@);
            let c = p[i].clone();
            out.push(c);
            assert(texts(out@) =~= before.push(c@));
        }
        i += 1;
    }
    assert(all.take(i as int) =~= all);
    out
}

/// A list of lines without outer white space, none empty, is read back from the
/// file that holds it joined by newlines.
pub proof fn lemma_read_lines_round_trip(rows: Seq<Seq<char>>)
    requires
        forall|i: int|
            0 <= i < rows.len() ==> (#[trigger] rows[i]).len() > 0 && is_trimmed(rows[i])
                && !rows[i].contains('\n'),
    ensures
        filled_lines(lines(joined(rows, "\n"@))) == rows,
{
    assert forall|i: int| 0 <= i < rows.len() implies is_line(#[trigger] rows[i]) by {}
    lemma_joined_rows_round_trip(rows);
    lemma_filled_lines_fixed(rows);
}

proof fn lemma_filled_lines_fixed(rows: Seq<Seq<char>>)
    requires
        forall|i: int| 0 <= i < rows.len() ==> (#[trigger] rows[i]).len() > 0 && is_trimmed(rows[i]),
    ensures
        filled_lines(rows) == rows,
    decreases rows.len(),
{
    if rows.len() > 0 {
        let d = rows.drop_last();
        assert forall|i: int| 0 <= i < d.len() implies (#[trigger] d[i]).len() > 0 && is_trimmed(
            d[i],
        ) by {
            assert(d[i] == rows[i]);
        }
        lemma_filled_lines_fixed(d);
        assert(is_trimmed(rows[rows.len() - 1]));
        lemma_trim_fixed(rows.last());
        assert(d.push(rows.last()) =~= rows);
    } else {
        assert(filled_lines(rows) =~= rows);
    }
}

// ── Filtering and lengths ────────────────────────────────────────────────────

/// Whether a character would break a line of tab-separated fields.
pub open spec fn breaks_row(c: char) -> bool {
    c == '\t' || c == '\r' || c == '\n'
}

/// `s` without its tabs, carriage returns and newlines.
pub open spec fn one_row(s: Seq<char>) -> Seq<char>
    decreases s.len(),
{
    if s.len() == 0 {
        s
    } else if breaks_row(s.last()) {
        one_row(s.drop_last())
    } else {
        one_row(s.drop_last()).push(s.last())
    }
}

/// What `one_row` leaves holds no character that breaks a row, and no character
/// that was not there.
pub proof fn lemma_one_row(s: Seq<char>)
    ensures
        !one_row(s).contains('\t'),
        !one_row(s).contains('\r'),
        !one_row(s).contains('\n'),
        one_row(s).len() <= s.len(),
        forall|c: char| !s.contains(c) ==> !(#[trigger] one_row(s).contains(c)),
    decreases s.len(),
{
    if s.len() > 0 {
        let d = s.drop_last();
        lemma_one_row(d);
        assert forall|c: char| !s.contains(c) implies !(#[trigger] one_row(s).contains(c)) by {
            lemma_absent_in_part(s, c, 0, s.len() - 1);
            assert(d =~= s.subrange(0, s.len() - 1));
            assert(!one_row(d).contains(c));
            assert(s[s.len() - 1] != c);
            if !breaks_row(s.last()) {
                lemma_absent_in_push(one_row(d), s.last(), c);
            }
        }
        if !breaks_row(s.last()) {
            lemma_absent_in_push(one_row(d), s.last(), '\t');
            lemma_absent_in_push(one_row(d), s.last(), '\r');
            lemma_absent_in_push(one_row(d), s.last(), '\n');
        }
    }
}

proof fn lemma_absent_in_push(s: Seq<char>, x: char, c: char)
    requires
        !s.contains(c),
        x != c,
    ensures
        !s.push(x).contains(c),
{
    let p = s.push(x);
    if p.contains(c) {
        let i = choose|i: int| 0 <= i < p.len() && p[i] == c;
        if i < s.len() {
            assert(s[i] == c);
        }
    }
}

/// Returns `s` without its tabs, carriage returns and newlines.
pub fn on_one_row(s: &str) -> (r: String)
    ensures
        r@ == one_row(s@),
{
    let v = chars_of(s);
    let mut out: String = String::new();
    let mut i: usize = 0;
    while i < v.len()
        invariant
            i <= v@.len(),
            out@ == one_row(v@.take(i as int)),
        decreases v.len() - i,
    {
        assert(v@.take(i + 1).drop_last() =~= v@.take(i as int));
        assert(v@.take(i + 1).last() == v@[i as int]);
        if !(v[i] == '\t' || v[i] == '\r' || v[i] == '\n') {
            out.push(v[i]);
        }
        i += 1;
    }
    assert(v@.take(i as int) =~= s@);
    out
}

/// The first `n` characters of `s`, or all of it if there are fewer.
pub open spec fn prefix(s: Seq<char>, n: int) -> Seq<char> {
    if s.len() <= n {
        s
    } else {
        s.take(n)
    }
}

/// Returns the first `n` characters of `s`.
pub fn first_chars(s: &str, n: usize) -> (r: String)
    ensures
        r@ == prefix(s@, n as int),
{
    let v = chars_of(s);
    let end: usize = if v.len() <= n { v.len() } else { n };
    let r = string_from(&v, 0, end);
    assert(r@ =~= prefix(s@, n as int));
    r
}

/// How many bytes UTF-8 takes for a character.
pub open spec fn utf8_width(c: char) -> nat {
    if c <= '\u{7f}' {
        1
    } else if c <= '\u{7ff}' {
        2
    } else if c <= '\u{ffff}' {
        3
    } else {
        4
    }
}

/// How many bytes UTF-8 takes for a text.
pub open spec fn byte_len(s: Seq<char>) -> nat
    decreases s.len(),
{
    if s.len() == 0 {
        0
    } else {
        byte_len(s.drop_last()) + utf8_width(s.last())
    }
}

proof fn lemma_byte_len_grows(s: Seq<char>, i: int)
    requires
        0 <= i <= s.len(),
    ensures
        byte_len(s.take(i)) <= byte_len(s),
    decreases s.len() - i,
{
    if i < s.len() {
        lemma_byte_len_grows(s, i + 1);
        assert(s.take(i + 1).drop_last() =~= s.take(i));
    } else {
        assert(s.take(i) =~= s);
    }
}

/// Whether `s` takes more than `n` bytes in UTF-8.
pub fn longer_than(s: &str, n: usize) -> (r: bool)
    requires
        n < 0x1000_0000,
    ensures
        r == (byte_len(s@) > n),
{
    let v = chars_of(s);
    let mut total: usize = 0;
    let mut i: usize = 0;
    assert(v@.take(0) =~= Seq::<char>::empty());
    while i < v.len()
        invariant
            i <= v@.len(),
            v@ == s@,
            total == byte_len(v@.take(i as int)),
            total <= n < 0x1000_0000,
        decreases v.len() - i,
    {
        let ch: char = v[i];
        let w: usize = if ch <= '\u{7f}' {
            1
        } else if ch <= '\u{7ff}' {
            2
        } else if ch <= '\u{ffff}' {
            3
        } else {
            4
        };
        assert(v@.take(i + 1).drop_last() =~= v@.take(i as int));
        assert(v@.take(i + 1).last() == v@[i as int]);
        total += w;
        i += 1;
        if total > n {
            proof {
                lemma_byte_len_grows(v@, i as int);
            }
            return true;
        }
    }
    assert(v@.take(i as int) =~= s@);
    false
}

/// `s` without the characters `c` at its end.
pub open spec fn without_trailing(s: Seq<char>, c: char) -> Seq<char>
    decreases s.len(),
{
    if s.len() > 0 && s.last() == c {
        without_trailing(s.drop_last(), c)
    } else {
        s
    }
}

/// Returns `s` without the characters `c` at its end.
pub fn trim_trailing(s: &str, c: char) -> (r: String)
    ensures
        r@ == without_trailing(s@, c),
{
    let v = chars_of(s);
    let mut end: usize = v.len();
    assert(v@.take(end as int) =~= v@);
    while end > 0 && v[end - 1] == c
        invariant
            end <= v@.len(),
            v@ == s@,
            without_trailing(s@, c) == without_trailing(v@.take(end as int), c),
        decreases end,
    {
        assert(v@.take(end as int).drop_last() =~= v@.take(end - 1));
        assert(v@.take(end as int).last() == v@[end - 1]);
        end -= 1;
    }
    assert(end > 0 ==> v@.take(end as int).last() == v@[end - 1]);
    let r = string_from(&v, 0, end);
    assert(r@ =~= v@.take(end as int));
    r
}

/// `s` without the endings `suffix` at its end, however many there are.
pub open spec fn without_suffixes(s: Seq<char>, suffix: Seq<char>) -> Seq<char>
    decreases s.len(),
{
    if suffix.len() > 0 && ends_in(s, suffix) {
        without_suffixes(s.take(s.len() - suffix.len()), suffix)
    } else {
        s
    }
}

/// Returns `s` without the endings `suffix` at its end.
pub fn trim_suffixes(s: &str, suffix: &str) -> (r: String)
    requires
        suffix@.len() > 0,
    ensures
        r@ == without_suffixes(s@, suffix@),
{
    let mut cur = s.to_owned();
    loop
        invariant
            suffix@.len() > 0,
            without_suffixes(s@, suffix@) == without_suffixes(cur@, suffix@),
        ensures
            cur@ == without_suffixes(s@, suffix@),
        decreases cur@.len(),
    {
        match strip_suffix(cur.as_str(), suffix) {
            Some(rest) => {
                cur = rest;
            },
            None => {
                break;
            },
        }
    }
    cur
}

/// Text around a separator is split into the parts before it and the parts behind it.
pub proof fn lemma_split_around(a: Seq<char>, sep: char, b: Seq<char>)
    ensures
        split(a + seq![sep] + b, sep) == split(a, sep) + split(b, sep),
    decreases b.len(),
{
    let s = a + seq![sep] + b;
    lemma_split_shape(a, sep);
    lemma_split_shape(b, sep);
    if b.len() == 0 {
        assert(b =~= Seq::<char>::empty());
        lemma_split_none(b, sep);
        lemma_split_push(a, sep, b);
        assert(split(s, sep) =~= split(a, sep) + split(b, sep));
    } else {
        let d = b.drop_last();
        lemma_split_around(a, sep, d);
        lemma_split_shape(d, sep);
        let t = a + seq![sep] + d;
        assert(d.push(b.last()) =~= b);
        if b.last() == sep {
            let none = Seq::<char>::empty();
            lemma_split_push(t, sep, none);
            lemma_split_push(d, sep, none);
            assert(t + seq![sep] + none =~= s);
            assert(d + seq![sep] + none =~= b);
        } else {
            let one = seq![b.last()];
            lemma_split_extend(t, sep, one);
            lemma_split_extend(d, sep, one);
            assert(t + one =~= s);
            assert(d + one =~= b);
        }
        assert(split(s, sep) =~= split(a, sep) + split(b, sep));
    }
}

/// What is filled of two lists is what is filled of the one, then of the other; a part is
/// left out exactly where it is empty.
pub proof fn lemma_filled_parts(p: Seq<Seq<char>>, q: Seq<Seq<char>>, c: Seq<char>)
    ensures
        filled(p + q) == filled(p) + filled(q),
        filled(seq![c]) == if c.len() > 0 {
            seq![c]
        } else {
            Seq::empty()
        },
    decreases q.len(),
{
    assert(seq![c].drop_last() =~= Seq::<Seq<char>>::empty());
    assert(filled(Seq::<Seq<char>>::empty()) =~= Seq::empty());
    assert(filled(seq![c]) =~= if c.len() > 0 {
        seq![c]
    } else {
        Seq::empty()
    });
    if q.len() == 0 {
        assert(p + q =~= p);
        assert(filled(p) + filled(q) =~= filled(p));
    } else {
        assert((p + q).drop_last() =~= p + q.drop_last());
        lemma_filled_parts(p, q.drop_last(), c);
        assert(filled(p + q) =~= filled(p) + filled(q));
    }
}

/// A text stands in another exactly where that is what comes before it, the text, and what
/// comes behind it.
pub proof fn lemma_stands_between(a: Seq<char>, n: Seq<char>, b: Seq<char>, hay: Seq<char>, i: int)
    ensures
        stands_at(a + n + b, n, a.len() as int),
        begins_with(n + b, n),
        ends_in(a + n, n),
        has_substring(a + n + b, n),
        stands_at(hay, n, i) ==> 0 <= i && i + n.len() <= hay.len() && hay == hay.take(i) + n
            + hay.skip(i + n.len()),
{
    assert((a + n + b).subrange(a.len() as int, (a.len() + n.len()) as int) =~= n);
    assert((n + b).subrange(0, n.len() as int) =~= n);
    assert((a + n).subrange(a.len() as int, (a.len() + n.len()) as int) =~= n);
    assert(stands_at(a + n + b, n, a.len() as int));
    if stands_at(hay, n, i) {
        assert(hay =~= hay.take(i) + n + hay.skip(i + n.len()));
    }
}

/// Endings are taken off as often as they stand at the end, and nothing else is.
pub proof fn lemma_endings_are_taken_off(s: Seq<char>, suffix: Seq<char>)
    requires
        suffix.len() > 0,
    ensures
        without_suffixes(s + suffix, suffix) == without_suffixes(s, suffix),
        !ends_in(without_suffixes(s, suffix), suffix),
        !ends_in(s, suffix) ==> without_suffixes(s, suffix) == s,
    decreases s.len(),
{
    let t = s + suffix;
    assert(t.subrange(s.len() as int, t.len() as int) =~= suffix);
    assert(t.take(t.len() - suffix.len()) =~= s);
    if ends_in(s, suffix) {
        lemma_endings_are_taken_off(s.take(s.len() - suffix.len()), suffix);
    }
}

} // verus!

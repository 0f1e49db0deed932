//! Text that is put into the query of an address.
use vstd::prelude::*;
use vstd::string::StringExecFns;
use vstd::utf8::encode_utf8;
use crate::text::chars_of;

verus! {

// ── Bytes ────────────────────────────────────────────────────────────────────

/// The hexadecimal digit for a number under sixteen, in upper case.
pub open spec fn upper_hex(d: int) -> char {
    if d < 10 {
        (d + 48) as char
    } else {
        (d + 55) as char
    }
}

/// Whether a byte stands for itself.
pub open spec fn is_plain(b: u8) -> bool {
    ||| 65 <= b <= 90
    ||| 97 <= b <= 122
    ||| 48 <= b <= 57
    ||| b == 45 || b == 95 || b == 46 || b == 126
}

/// A byte as it is written: itself, or a percent sign and two digits.
pub open spec fn escaped(b: u8) -> Seq<char> {
    if is_plain(b) {
        seq![b as char]
    } else {
        seq!['%', upper_hex(b as int / 16), upper_hex(b as int % 16)]
    }
}

/// Bytes as they are written.
pub open spec fn all_escaped(b: Seq<u8>) -> Seq<char>
    decreases b.len(),
{
    if b.len() == 0 {
        Seq::empty()
    } else {
        all_escaped(b.drop_last()) + escaped(b.last())
    }
}

fn upper_hex_char(d: u8) -> (c: char)
    requires
        d < 16,
    ensures
        c == upper_hex(d as int),
{
    if d < 10 {
        (d + 48) as char
    } else {
        (d + 55) as char
    }
}

/// Returns a text with everything that would break a query written by its bytes.
pub fn encode(s: &str) -> (r: String)
    ensures
        r@ == all_escaped(encode_utf8(s@)),
{
    let b = s.as_bytes();
    let ghost all = encode_utf8(s@);
    assert(b@ == all);
    let mut out = String::new();
    let mut i: usize = 0;
    assert(out@ =~= all_escaped(all.take(0)));
    while i < b.len()
        invariant
            i <= b@.len(),
            b@ == all,
            out@ == all_escaped(all.take(i as int)),
        decreases b.len() - i,
    {
        assert(all.take(i + 1).drop_last() =~= all.take(i as int));
        let ghost before = out@;
        let x: u8 = b[i];
        if (65 <= x && x <= 90) || (97 <= x && x <= 122) || (48 <= x && x <= 57) || x == 45 || x
            == 95 || x == 46 || x == 126 {
            out.push(x as char);
        } else {
            out.push('%');
            out.push(upper_hex_char(x / 16));
            out.push(upper_hex_char(x % 16));
        }
        assert(out@ =~= before + escaped(x));
        i += 1;
    }
    assert(all.take(i as int) =~= all);
    out
}

/// The number of a hexadecimal digit in upper case.
pub open spec fn upper_hex_value(c: char) -> Option<int> {
    if '0' <= c <= '9' {
        Some(c as int - 48)
    } else if 'A' <= c <= 'F' {
        Some(c as int - 55)
    } else {
        None
    }
}

/// The bytes that a reader of a query makes of written ones.
pub open spec fn unescaped(s: Seq<char>) -> Seq<u8>
    decreases s.len(),
{
    if s.len() == 0 {
        Seq::empty()
    } else if s.len() >= 3 && s[s.len() - 3] == '%' && upper_hex_value(s[s.len() - 2]) is Some
        && upper_hex_value(s[s.len() - 1]) is Some {
        unescaped(s.take(s.len() - 3)).push(
            (upper_hex_value(s[s.len() - 2])->0 * 16 + upper_hex_value(s[s.len() - 1])->0) as u8,
        )
    } else {
        unescaped(s.drop_last()).push(s.last() as u8)
    }
}

proof fn lemma_escape_is_complete(b: Seq<u8>)
    ensures
        ({
            let s = all_escaped(b);
            &&& s.len() >= 1 ==> s[s.len() - 1] != '%'
            &&& s.len() >= 2 ==> s[s.len() - 2] != '%'
        }),
    decreases b.len(),
{
    if b.len() > 0 {
        lemma_escape_is_complete(b.drop_last());
    }
}

/// A reader of a query gets back the bytes that were written.
pub proof fn lemma_encode_round_trip(b: Seq<u8>)
    ensures
        unescaped(all_escaped(b)) == b,
    decreases b.len(),
{
    let s = all_escaped(b);
    if b.len() == 0 {
        assert(unescaped(s) =~= b);
    } else {
        let d = b.drop_last();
        let x = b.last();
        lemma_encode_round_trip(d);
        lemma_escape_is_complete(d);
        assert(d.push(x) =~= b);
        if is_plain(x) {
            assert(s.drop_last() =~= all_escaped(d));
        } else {
            assert(s.take(s.len() - 3) =~= all_escaped(d));
            assert(upper_hex_value(upper_hex(x as int / 16)) == Some(x as int / 16));
            assert(upper_hex_value(upper_hex(x as int % 16)) == Some(x as int % 16));
        }
    }
}

/// Whether a character can stand in a query.
pub open spec fn is_query_char(c: char) -> bool {
    c == '%' || ('A' <= c <= 'Z') || ('a' <= c <= 'z') || ('0' <= c <= '9') || c == '-' || c == '_'
        || c == '.' || c == '~'
}

proof fn lemma_escaped_chars(b: Seq<u8>)
    ensures
        forall|i: int| 0 <= i < all_escaped(b).len() ==> is_query_char(#[trigger] all_escaped(b)[i]),
    decreases b.len(),
{
    if b.len() > 0 {
        lemma_escaped_chars(b.drop_last());
        let a = all_escaped(b.drop_last());
        let e = escaped(b.last());
        assert forall|i: int| 0 <= i < all_escaped(b).len() implies is_query_char(
            #[trigger] all_escaped(b)[i],
        ) by {
            if i < a.len() {
                assert(all_escaped(b)[i] == a[i]);
            } else {
                assert(all_escaped(b)[i] == e[i - a.len()]);
            }
        }
    }
}

/// What is written holds nothing that a query gives a meaning, but for the percent sign
/// of what was escaped.
pub proof fn lemma_encoded_is_safe(b: Seq<u8>)
    ensures
        forall|i: int| 0 <= i < all_escaped(b).len() ==> is_query_char(#[trigger] all_escaped(b)[i]),
        !all_escaped(b).contains('&'),
        !all_escaped(b).contains('='),
        !all_escaped(b).contains('+'),
        !all_escaped(b).contains('#'),
{
    lemma_escaped_chars(b);
}

// ── Vectors ──────────────────────────────────────────────────────────────────

/// A character of a vector as it is written.
pub open spec fn vec_char(c: char) -> Seq<char> {
    if c == '+' {
        "%2B"@
    } else if c == '/' {
        "%2F"@
    } else if c == '=' {
        "%3D"@
    } else {
        seq![c]
    }
}

/// A vector as it is written.
pub open spec fn vec_text(v: Seq<char>) -> Seq<char>
    decreases v.len(),
{
    if v.len() == 0 {
        Seq::empty()
    } else {
        vec_text(v.drop_last()) + vec_char(v.last())
    }
}

/// Returns a vector with the characters written that a query would change.
pub fn url_encode_vec(v: &str) -> (r: String)
    ensures
        r@ == vec_text(v@),
{
    let cs = chars_of(v);
    let mut out = String::new();
    let mut i: usize = 0;
    assert(out@ =~= vec_text(cs@.take(0)));
    while i < cs.len()
        invariant
            i <= cs@.len(),
            cs@ == v@,
            out@ == vec_text(cs@.take(i as int)),
        decreases cs.len() - i,
    {
        assert(cs@.take(i + 1).drop_last() =~= cs@.take(i as int));
        let ghost before = out@;
        let c = cs[i];
        if c == '+' {
            out.append("%2B");
        } else if c == '/' {
            out.append("%2F");
        } else if c == '=' {
            out.append("%3D");
        } else {
            out.push(c);
        }
        assert(out@ =~= before + vec_char(c));
        i += 1;
    }
    assert(cs@.take(i as int) =~= cs@);
    out
}

/// A written vector holds none of the characters that a query would change.
pub proof fn lemma_vector_survives_a_query(v: Seq<char>)
    ensures
        !vec_text(v).contains('+'),
        !vec_text(v).contains('/'),
        !vec_text(v).contains('='),
    decreases v.len(),
{
    reveal_strlit("%2B");
    reveal_strlit("%2F");
    reveal_strlit("%3D");
    if v.len() > 0 {
        lemma_vector_survives_a_query(v.drop_last());
        let a = vec_text(v.drop_last());
        let e = vec_char(v.last());
        let t = vec_text(v);
        assert forall|i: int| 0 <= i < t.len() implies t[i] != '+' && t[i] != '/' && t[i]
            != '=' by {
            if i < a.len() {
                assert(t[i] == a[i]);
                assert(a.contains(a[i]));
            } else {
                assert(t[i] == e[i - a.len()]);
            }
        }
    }
}

// ── Queries ──────────────────────────────────────────────────────────────────

/// A search as it is written: a plus sign for each blank.
pub open spec fn plus_text(q: Seq<char>) -> Seq<char> {
    Seq::new(
        q.len(),
        |i: int|
            if q[i] == ' ' {
                '+'
            } else {
                q[i]
            },
    )
}

/// Returns a search with a plus sign for each blank.
pub fn plus_for_blanks(q: &str) -> (r: String)
    ensures
        r@ == plus_text(q@),
{
    let cs = chars_of(q);
    let mut out = String::new();
    let mut i: usize = 0;
    assert(out@ =~= plus_text(q@).take(0));
    while i < cs.len()
        invariant
            i <= cs@.len(),
            cs@ == q@,
            out@ == plus_text(q@).take(i as int),
        decreases cs.len() - i,
    {
        out.push(
            if cs[i] == ' ' {
                '+'
            } else {
                cs[i]
            },
        );
        i += 1;
        assert(out@ =~= plus_text(q@).take(i as int));
    }
    assert(out@ =~= plus_text(q@));
    out
}

/// Letters, digits and the marks `-`, `_`, `.` and `~` stay as they are; every other byte
/// becomes a percent sign and two digits.
pub proof fn lemma_unreserved_stays(b: Seq<u8>, c: u8)
    ensures
        ('A' <= c as char <= 'Z' || 'a' <= c as char <= 'z' || '0' <= c as char <= '9' || c as char
            == '-' || c as char == '_' || c as char == '.' || c as char == '~') ==> all_escaped(
            b.push(c),
        ) == all_escaped(b).push(c as char),
        !('A' <= c as char <= 'Z' || 'a' <= c as char <= 'z' || '0' <= c as char <= '9' || c as char
            == '-' || c as char == '_' || c as char == '.' || c as char == '~') ==> ({
            let s = all_escaped(b.push(c));
            &&& s.len() == all_escaped(b).len() + 3
            &&& s[s.len() - 3] == '%'
            &&& s.take(s.len() - 3) == all_escaped(b)
        }),
{
    assert(b.push(c).drop_last() =~= b);
    let s = all_escaped(b.push(c));
    if is_plain(c) {
        assert(s =~= all_escaped(b).push(c as char));
    } else {
        assert(s.take(s.len() - 3) =~= all_escaped(b));
    }
}

/// A query with a plus sign for each blank holds no blank, and is as long and otherwise the
/// same.
pub proof fn lemma_blanks_become_plus(q: Seq<char>)
    ensures
        plus_text(q).len() == q.len(),
        !plus_text(q).contains(' '),
        forall|i: int| 0 <= i < q.len() && q[i] != ' ' ==> #[trigger] plus_text(q)[i] == q[i],
        forall|i: int| 0 <= i < q.len() && q[i] == ' ' ==> #[trigger] plus_text(q)[i] == '+',
{
}

} // verus!

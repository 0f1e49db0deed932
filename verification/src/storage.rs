//! A guest's named values, as the host keeps them.
use vstd::prelude::*;
use vstd::string::StrSliceExecFns;
use vstd::utf8::{encode_utf8, valid_utf8};
use vstd::utf8::{encode_utf8_decode_utf8, encode_utf8_valid_utf8};
use crate::numerals::{decimal, lemma_decimal_round_trip, number, parse_u32, parse_u64, parse_u8};
use crate::table::Table;
use crate::text::{chars_of, from_utf8};

verus! {

/// The named values of a guest.
pub type Store = Table<Vec<u8>>;

/// The most bytes of a value that a guest reads at once.
pub const MAX_VALUE: usize = 65536;

/// The first `n` bytes, or all of them if there are fewer.
pub open spec fn clipped(b: Seq<u8>, n: int) -> Seq<u8> {
    if b.len() <= n {
        b
    } else {
        b.take(n)
    }
}

/// Returns the first `n` bytes.
pub fn clip(b: &Vec<u8>, n: usize) -> (r: Vec<u8>)
    ensures
        r@ == clipped(b@, n as int),
{
    let end: usize = if b.len() <= n { b.len() } else { n };
    let mut out: Vec<u8> = Vec::new();
    let mut i: usize = 0;
    while i < end
        invariant
            i <= end <= b@.len(),
            out@ == b@.take(i as int),
        decreases end - i,
    {
        out.push(b[i]);
        i += 1;
        assert(out@ =~= b@.take(i as int));
    }
    assert(out@ =~= clipped(b@, n as int));
    out
}

/// The text that some bytes encode, if they are valid UTF-8.
pub open spec fn utf8_text(b: Seq<u8>) -> Option<Seq<char>> {
    if valid_utf8(b) {
        Some(vstd::utf8::decode_utf8(b))
    } else {
        None
    }
}

/// The view of an optional string.
pub open spec fn maybe_text(s: Option<String>) -> Option<Seq<char>> {
    match s {
        Some(s) => Some(s@),
        None => None,
    }
}

/// Returns the text that some bytes encode, if they are valid UTF-8.
pub fn text_from(b: Vec<u8>) -> (r: Option<String>)
    ensures
        maybe_text(r) == utf8_text(b@),
{
    let r = from_utf8(b);
    proof {
        if r is Some {
            encode_utf8_decode_utf8(r->0@);
        }
    }
    r
}

/// Gives a name its value.
pub fn set(store: &mut Store, key: &str, val: &Vec<u8>)
    requires
        old(store).wf(),
    ensures
        final(store).wf(),
        final(store)@ == old(store)@.insert(key@, val@),
{
    let v = clip(val, val.len());
    store.set(key.to_owned(), v);
}

/// Gives a name a text as its value.
pub fn set_str(store: &mut Store, key: &str, val: &str)
    requires
        old(store).wf(),
    ensures
        final(store).wf(),
        final(store)@ == old(store)@.insert(key@, encode_utf8(val@)),
{
    store.set(key.to_owned(), val.as_bytes_vec());
}

/// What a guest reads under a name: the value as far as its buffer goes.
pub open spec fn read_value(m: Map<Seq<char>, Seq<u8>>, key: Seq<char>) -> Option<Seq<u8>> {
    if m.contains_key(key) {
        Some(clipped(m[key], MAX_VALUE as int))
    } else {
        None
    }
}

/// What a guest reads under a name as text: nothing where the name is unknown, or
/// where the bytes are not valid UTF-8.
pub open spec fn read_text(m: Map<Seq<char>, Seq<u8>>, key: Seq<char>) -> Option<Seq<char>> {
    match read_value(m, key) {
        Some(b) => utf8_text(b),
        None => None,
    }
}

/// The value of a name, as far as a guest's buffer goes.
pub fn get(store: &Store, key: &str) -> (r: Option<Vec<u8>>)
    requires
        store.wf(),
    ensures
        match r {
            Some(b) => read_value(store@, key@) == Some(b@),
            None => read_value(store@, key@) is None,
        },
{
    match store.get(key) {
        Some(v) => Some(clip(v, MAX_VALUE)),
        None => None,
    }
}

/// The value of a name as text.
pub fn get_str(store: &Store, key: &str) -> (r: Option<String>)
    requires
        store.wf(),
    ensures
        maybe_text(r) == read_text(store@, key@),
{
    match get(store, key) {
        Some(b) => text_from(b),
        None => None,
    }
}

/// What can be read from a text.
pub trait Parse: Sized {
    /// The value that a text stands for.
    spec fn parsed(s: Seq<char>) -> Option<Self>;

    /// Reads the value that a text stands for.
    fn parse_from(s: &str) -> (r: Option<Self>)
        ensures
            r == Self::parsed(s@),
    ;
}

impl Parse for u64 {
    open spec fn parsed(s: Seq<char>) -> Option<u64> {
        if number(s) is Some && number(s)->0 <= u64::MAX {
            Some(number(s)->0 as u64)
        } else {
            None
        }
    }

    fn parse_from(s: &str) -> (r: Option<u64>) {
        parse_u64(s)
    }
}

impl Parse for u32 {
    open spec fn parsed(s: Seq<char>) -> Option<u32> {
        if number(s) is Some && number(s)->0 <= u32::MAX {
            Some(number(s)->0 as u32)
        } else {
            None
        }
    }

    fn parse_from(s: &str) -> (r: Option<u32>) {
        parse_u32(s)
    }
}

impl Parse for u8 {
    open spec fn parsed(s: Seq<char>) -> Option<u8> {
        if number(s) is Some && number(s)->0 <= u8::MAX {
            Some(number(s)->0 as u8)
        } else {
            None
        }
    }

    fn parse_from(s: &str) -> (r: Option<u8>) {
        parse_u8(s)
    }
}

/// The value of a name, read as a number.
pub fn get_parsed<T: Parse>(store: &Store, key: &str) -> (r: Option<T>)
    requires
        store.wf(),
    ensures
        r == match read_text(store@, key@) {
            Some(s) => T::parsed(s),
            None => None,
        },
{
    match get_str(store, key) {
        Some(s) => T::parse_from(s.as_str()),
        None => None,
    }
}

/// Whether a name has a value.
pub fn has(store: &Store, key: &str) -> (r: bool)
    requires
        store.wf(),
    ensures
        r == store@.contains_key(key@),
{
    store.has(key)
}

/// Forgets a name.
pub fn del(store: &mut Store, key: &str)
    requires
        old(store).wf(),
    ensures
        final(store).wf(),
        final(store)@ == old(store)@.remove(key@),
{
    let _ = store.take(key);
}

/// Forgets every name.
pub fn clear(store: &mut Store)
    ensures
        final(store).wf(),
        final(store)@ == Map::<Seq<char>, Seq<u8>>::empty(),
{
    *store = Table::new();
}

/// A guest reads back the value it gave a name, as far as its buffer goes; other
/// names keep theirs.
pub proof fn lemma_read_back(
    m: Map<Seq<char>, Seq<u8>>,
    key: Seq<char>,
    val: Seq<u8>,
    other: Seq<char>,
)
    ensures
        read_value(m.insert(key, val), key) == Some(clipped(val, MAX_VALUE as int)),
        other != key ==> read_value(m.insert(key, val), other) == read_value(m, other),
        read_value(m.remove(key), key) is None,
        other != key ==> read_value(m.remove(key), other) == read_value(m, other),
{
}

/// A guest reads back the text it gave a name, if that fits its buffer.
pub proof fn lemma_read_back_text(m: Map<Seq<char>, Seq<u8>>, key: Seq<char>, val: Seq<char>)
    requires
        encode_utf8(val).len() <= MAX_VALUE,
    ensures
        read_text(m.insert(key, encode_utf8(val)), key) == Some(val),
{
    encode_utf8_valid_utf8(val);
    encode_utf8_decode_utf8(val);
}

// ── File names ───────────────────────────────────────────────────────────────

/// The name for what `char::is_alphanumeric` returns: whether Unicode counts a
/// character as a letter or a number.
pub uninterp spec fn alphanumeric(c: char) -> bool;

/// Whether a character is an ASCII letter or digit.
pub open spec fn ascii_alphanumeric(c: char) -> bool {
    'a' <= c <= 'z' || 'A' <= c <= 'Z' || '0' <= c <= '9'
}

/// Calls `char::is_alphanumeric`, whose result depends on the character alone. Of
/// the ASCII characters it accepts the letters and the digits.
#[verifier::external_body]
pub(crate) fn is_alphanumeric(c: char) -> (r: bool)
    ensures
        r == alphanumeric(c),
        c <= '\u{7f}' ==> r == ascii_alphanumeric(c),
{
    c.is_alphanumeric()
}

/// A character as it stands in a file name, given whether it is a letter or number.
pub open spec fn file_char(c: char, letter: bool) -> char {
    if letter || c == '-' || c == '_' || c == '.' {
        c
    } else {
        '_'
    }
}

/// The name of the file for a key.
pub open spec fn file_name(key: Seq<char>) -> Seq<char> {
    Seq::new(key.len(), |i: int| file_char(key[i], alphanumeric(key[i])))
}

/// Returns a character as it stands in a file name.
pub fn safe_char(c: char, letter: bool) -> (r: char)
    ensures
        r == file_char(c, letter),
{
    if letter || c == '-' || c == '_' || c == '.' {
        c
    } else {
        '_'
    }
}

/// Returns the name of the file for a key: it stays within its directory.
pub fn safe_key(key: &str) -> (r: String)
    ensures
        r@ == file_name(key@),
        !r@.contains('/'),
        !r@.contains('\\'),
{
    let v = chars_of(key);
    let mut out: String = String::new();
    let mut i: usize = 0;
    while i < v.len()
        invariant
            i <= v@.len(),
            v@ == key@,
            out@ == file_name(key@).take(i as int),
            forall|j: int| 0 <= j < i ==> #[trigger] out@[j] != '/' && out@[j] != '\\',
        decreases v.len() - i,
    {
        let c: char = v[i];
        let letter = is_alphanumeric(c);
        out.push(safe_char(c, letter));
        i += 1;
        assert(out@ =~= file_name(key@).take(i as int));
    }
    assert(out@ =~= file_name(key@));
    out
}

/// A key of letters, digits, dashes, underscores and points is its own file's name, and every
/// name is as long as its key.
pub proof fn lemma_plain_key_is_its_name(key: Seq<char>)
    ensures
        file_name(key).len() == key.len(),
        forall|i: int|
            0 <= i < key.len() ==> #[trigger] file_name(key)[i] == key[i] || file_name(key)[i]
                == '_',
        (forall|i: int|
            0 <= i < key.len() ==> alphanumeric(#[trigger] key[i]) || key[i] == '-' || key[i] == '_'
                || key[i] == '.') ==> file_name(key) == key,
        forall|i: int|
            0 <= i < key.len() && !alphanumeric(key[i]) && key[i] != '-' && key[i] != '.'
                ==> #[trigger] file_name(key)[i] == '_',
{
    if forall|i: int|
        0 <= i < key.len() ==> alphanumeric(#[trigger] key[i]) || key[i] == '-' || key[i] == '_'
            || key[i] == '.' {
        assert(file_name(key) =~= key);
    }
}

/// What is stored under one key is not read under another, and what is deleted is not read.
pub proof fn lemma_keys_are_apart(
    m: Map<Seq<char>, Seq<u8>>,
    key: Seq<char>,
    other: Seq<char>,
    val: Seq<u8>,
)
    requires
        key != other,
    ensures
        read_value(m.insert(key, val), other) == read_value(m, other),
        read_value(m.remove(key), other) == read_value(m, other),
        read_value(m.remove(key), key) is None,
        read_text(m.insert(key, val), other) == read_text(m, other),
        val.len() <= 65536 ==> read_value(m.insert(key, val), key) == Some(val),
        val.len() > 65536 ==> read_value(m.insert(key, val), key) == Some(val.take(65536)),
{
}

/// A number that was stored in digits is read back as that number.
pub proof fn lemma_stored_number_is_read_back(a: u64, b: u32, c: u8)
    ensures
        <u64 as Parse>::parsed(decimal(a as nat)) == Some(a),
        <u32 as Parse>::parsed(decimal(b as nat)) == Some(b),
        <u8 as Parse>::parsed(decimal(c as nat)) == Some(c),
{
    lemma_decimal_round_trip(a as nat);
    lemma_decimal_round_trip(b as nat);
    lemma_decimal_round_trip(c as nat);
}

} // verus!

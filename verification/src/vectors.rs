//! Text embeddings: what is embedded, and how a vector of small integers is
//! stored, checked and compared.
use vstd::prelude::*;
use vstd::string::StringExecFns;
use base64::Engine;
use crate::text::{first_chars, is_trimmed, prefix};

verus! {

/// How many dimensions a stored vector has.
pub const EXPECTED_DIMS: usize = 256;

/// The most characters of an app's text that are embedded.
pub const MAX_EMBED_CHARS: usize = 1000;

/// The text that is embedded for an app: the document side of the model's format.
pub open spec fn document_text(name: Seq<char>, tags: Seq<char>, desc: Seq<char>) -> Seq<char> {
    prefix(
        "title: none | text: "@ + name + ". "@ + tags + ". "@ + desc,
        MAX_EMBED_CHARS as int,
    )
}

/// Returns the text that is embedded for an app.
pub fn embed_input(name: &str, tags: &str, desc: &str) -> (r: String)
    ensures
        r@ == document_text(name@, tags@, desc@),
{
    let mut s = "title: none | text: ".to_owned();
    s.append(name);
    s.append(". ");
    s.append(tags);
    s.append(". ");
    s.append(desc);
    first_chars(s.as_str(), MAX_EMBED_CHARS)
}

/// Returns the text that is embedded for a document that a guest hands over.
pub fn embed_document(text: &str) -> (r: String)
    ensures
        r@ == prefix("title: none | text: "@ + text@, MAX_EMBED_CHARS as int),
{
    let mut s = "title: none | text: ".to_owned();
    s.append(text);
    first_chars(s.as_str(), MAX_EMBED_CHARS)
}

/// Returns the text that is embedded for a query: the query side of the format.
pub fn embed_query(q: &str) -> (r: String)
    ensures
        r@ == "task: search result | query: "@ + q@,
{
    let mut s = "task: search result | query: ".to_owned();
    s.append(q);
    s
}

// ── Storage ──────────────────────────────────────────────────────────────────

/// The name for what decoding with base64's `STANDARD` engine returns: the bytes,
/// or nothing where the text is no padded base64 of the standard alphabet.
pub uninterp spec fn base64_decoded(text: Seq<char>) -> Option<Seq<u8>>;

/// The characters of standard base64, the padding among them.
pub open spec fn is_base64_char(c: char) -> bool {
    'A' <= c <= 'Z' || 'a' <= c <= 'z' || '0' <= c <= '9' || c == '+' || c == '/' || c == '='
}

/// Calls `STANDARD.encode`: four characters of the standard alphabet for every
/// three bytes, the last group padded, and decoding gives back the bytes.
/// The length bound is the one at which the call would panic.
#[verifier::external_body]
pub(crate) fn base64_encode(bytes: &Vec<u8>) -> (r: String)
    requires
        (bytes@.len() + 2) / 3 * 4 <= usize::MAX,
    ensures
        base64_decoded(r@) == Some(bytes@),
        r@.len() == (bytes@.len() + 2) / 3 * 4,
        forall|i: int| 0 <= i < r@.len() ==> is_base64_char(#[trigger] r@[i]),
{
    base64::engine::general_purpose::STANDARD.encode(bytes)
}

/// Calls `STANDARD.decode`, whose result depends on the text alone; the error is
/// dropped.
#[verifier::external_body]
pub(crate) fn base64_decode(text: &str) -> (r: Option<Vec<u8>>)
    ensures
        match r {
            Some(bytes) => base64_decoded(text@) == Some(bytes@),
            None => base64_decoded(text@) is None,
        },
{
    base64::engine::general_purpose::STANDARD.decode(text).ok()
}

/// The bytes of a vector: each component in two's complement.
pub open spec fn vector_bytes(v: Seq<i8>) -> Seq<u8> {
    Seq::new(v.len(), |i: int| v[i] as u8)
}

/// The vector in a sequence of bytes.
pub open spec fn bytes_vector(b: Seq<u8>) -> Seq<i8> {
    Seq::new(b.len(), |i: int| b[i] as i8)
}

/// The vector that a stored text holds; an empty text holds none.
pub open spec fn stored_vector(text: Seq<char>) -> Option<Seq<i8>> {
    if text.len() == 0 || base64_decoded(text) is None {
        None
    } else {
        Some(bytes_vector(base64_decoded(text)->0))
    }
}

/// Returns the stored form of a vector.
pub fn encode_vector(v: &Vec<i8>) -> (r: String)
    requires
        (v@.len() + 2) / 3 * 4 <= usize::MAX,
    ensures
        base64_decoded(r@) == Some(vector_bytes(v@)),
        r@.len() == (v@.len() + 2) / 3 * 4,
        forall|i: int| 0 <= i < r@.len() ==> is_base64_char(#[trigger] r@[i]),
{
    let mut bytes: Vec<u8> = Vec::new();
    let mut i: usize = 0;
    while i < v.len()
        invariant
            i <= v@.len(),
            bytes@ == vector_bytes(v@).take(i as int),
        decreases v.len() - i,
    {
        bytes.push(#[verifier::truncate] (v[i] as u8));
        i += 1;
        assert(bytes@ =~= vector_bytes(v@).take(i as int));
    }
    assert(bytes@ =~= vector_bytes(v@));
    base64_encode(&bytes)
}

/// Returns the vector in a sequence of bytes.
pub fn vector_of(bytes: &Vec<u8>) -> (r: Vec<i8>)
    ensures
        r@ == bytes_vector(bytes@),
{
    let mut v: Vec<i8> = Vec::new();
    let mut i: usize = 0;
    while i < bytes.len()
        invariant
            i <= bytes@.len(),
            v@ == bytes_vector(bytes@).take(i as int),
        decreases bytes.len() - i,
    {
        v.push(#[verifier::truncate] (bytes[i] as i8));
        i += 1;
        assert(v@ =~= bytes_vector(bytes@).take(i as int));
    }
    assert(v@ =~= bytes_vector(bytes@));
    v
}

/// Returns the vector that a stored text holds.
pub fn dequantize(b64: &str) -> (r: Option<Vec<i8>>)
    ensures
        match r {
            Some(v) => stored_vector(b64@) == Some(v@),
            None => stored_vector(b64@) is None,
        },
{
    if b64.is_empty() {
        return None;
    }
    match base64_decode(b64) {
        Some(bytes) => Some(vector_of(&bytes)),
        None => None,
    }
}

/// Whether a decoded vector is not one of the model in use.
pub open spec fn is_foreign(v: Option<Seq<i8>>) -> bool {
    v is None || v->0.len() != EXPECTED_DIMS
}

/// Whether a stored text lacks a vector of the model in use: none at all, or one
/// with another number of dimensions.
pub open spec fn lacks_vector(text: Seq<char>) -> bool {
    is_foreign(stored_vector(text))
}

/// Whether a decoded vector is not one of the model in use.
pub fn foreign(v: &Option<Vec<i8>>) -> (r: bool)
    ensures
        r == is_foreign(
            match v {
                Some(v) => Some(v@),
                None => None,
            },
        ),
{
    match v {
        Some(v) => v.len() != EXPECTED_DIMS,
        None => true,
    }
}

/// Whether a stored text lacks a vector of the model in use.
pub fn needs_embedding(vec: &str) -> (r: bool)
    ensures
        r == lacks_vector(vec@),
{
    foreign(&dequantize(vec))
}

/// What encoding stores, decoding gives back; and a vector of the right size is
/// not asked for again.
pub proof fn lemma_vector_round_trip(v: Seq<i8>, text: Seq<char>)
    requires
        v.len() > 0,
        base64_decoded(text) == Some(vector_bytes(v)),
        text.len() == (v.len() + 2) / 3 * 4,
    ensures
        stored_vector(text) == Some(v),
        v.len() == EXPECTED_DIMS ==> !lacks_vector(text),
{
    assert forall|i: int| 0 <= i < v.len() implies bytes_vector(vector_bytes(v))[i] == v[i] by {
        let x: i8 = v[i];
        assert((x as u8) as i8 == x) by (bit_vector);
    }
    assert(bytes_vector(vector_bytes(v)) =~= v);
}

/// A stored vector fits one field of a row as it is.
pub proof fn lemma_base64_is_one_field(text: Seq<char>)
    requires
        forall|i: int| 0 <= i < text.len() ==> is_base64_char(#[trigger] text[i]),
    ensures
        is_trimmed(text),
        !text.contains('\t'),
        !text.contains('\n'),
{
    if text.contains('\t') {
        let i = choose|i: int| 0 <= i < text.len() && text[i] == '\t';
        assert(is_base64_char(text[i]));
    }
    if text.contains('\n') {
        let i = choose|i: int| 0 <= i < text.len() && text[i] == '\n';
        assert(is_base64_char(text[i]));
    }
    if text.len() > 0 {
        assert(is_base64_char(text[0]));
        assert(is_base64_char(text[text.len() - 1]));
    }
}

// ── Similarity ───────────────────────────────────────────────────────────────

/// The scalar product of two vectors of one length.
pub open spec fn dot(a: Seq<i8>, b: Seq<i8>) -> int
    decreases a.len(),
{
    if a.len() == 0 {
        0
    } else {
        dot(a.drop_last(), b.drop_last()) + a.last() as int * b.last() as int
    }
}

/// The three integers of a cosine: the product of the vectors, and of each with
/// itself.
#[derive(Clone, Copy, Debug, PartialEq, Eq, Structural)]
pub struct Cosine {
    pub dot: i64,
    pub norm_a: i64,
    pub norm_b: i64,
}

proof fn lemma_product_bound(x: i8, y: i8)
    ensures
        -16384 <= x as int * y as int <= 16384,
        0 <= x as int * x as int <= 16384,
{
    assert(-16384 <= x as int * y as int <= 16384) by (nonlinear_arith)
        requires
            -128 <= x <= 127,
            -128 <= y <= 127,
    ;
    assert(0 <= x as int * x as int <= 16384) by (nonlinear_arith)
        requires
            -128 <= x <= 127,
    ;
}

/// Returns the integers of the cosine of two vectors; nothing where they cannot be
/// compared: of different lengths, empty, or one of them zero.
pub fn cosine_i8(a: &Vec<i8>, b: &Vec<i8>) -> (r: Option<Cosine>)
    requires
        a@.len() <= u32::MAX,
    ensures
        match r {
            Some(c) => a@.len() == b@.len() && c.dot == dot(a@, b@) && c.norm_a == dot(a@, a@)
                && c.norm_b == dot(b@, b@) && c.norm_a != 0 && c.norm_b != 0,
            None => a@.len() != b@.len() || dot(a@, a@) == 0 || dot(b@, b@) == 0,
        },
{
    if a.len() != b.len() || a.len() == 0 {
        return None;
    }
    let mut d: i64 = 0;
    let mut na: i64 = 0;
    let mut nb: i64 = 0;
    let mut i: usize = 0;
    while i < a.len()
        invariant
            i <= a@.len() == b@.len(),
            a@.len() <= u32::MAX,
            d == dot(a@.take(i as int), b@.take(i as int)),
            na == dot(a@.take(i as int), a@.take(i as int)),
            nb == dot(b@.take(i as int), b@.take(i as int)),
            -16384 * i <= d <= 16384 * i,
            0 <= na <= 16384 * i,
            0 <= nb <= 16384 * i,
        decreases a.len() - i,
    {
        let x: i64 = a[i] as i64;
        let y: i64 = b[i] as i64;
        proof {
            lemma_product_bound(a@[i as int], b@[i as int]);
            lemma_product_bound(b@[i as int], a@[i as int]);
            assert(a@.take(i + 1).drop_last() =~= a@.take(i as int));
            assert(b@.take(i + 1).drop_last() =~= b@.take(i as int));
        }
        d = d + x * y;
        na = na + x * x;
        nb = nb + y * y;
        i += 1;
    }
    assert(a@.take(i as int) =~= a@);
    assert(b@.take(i as int) =~= b@);
    if na == 0 || nb == 0 {
        return None;
    }
    Some(Cosine { dot: d, norm_a: na, norm_b: nb })
}

/// The cosine of a query with a stored vector: nothing where either is missing or
/// they cannot be compared, which counts as no similarity.
pub fn semantic_score(query: &Option<Vec<i8>>, stored: &str) -> (r: Option<Cosine>)
    requires
        query matches Some(q) ==> q@.len() <= u32::MAX,
    ensures
        match r {
            Some(c) => query is Some && stored_vector(stored@) is Some && ({
                let q = query->0@;
                let v = stored_vector(stored@)->0;
                q.len() == v.len() && c.dot == dot(q, v) && c.norm_a == dot(q, q) && c.norm_b == dot(
                    v,
                    v,
                ) && c.norm_a != 0 && c.norm_b != 0
            }),
            None => query is None || stored_vector(stored@) is None || ({
                let q = query->0@;
                let v = stored_vector(stored@)->0;
                q.len() != v.len() || dot(q, q) == 0 || dot(v, v) == 0
            }),
        },
{
    match query {
        None => None,
        Some(q) => match dequantize(stored) {
            None => None,
            Some(v) => cosine_i8(q, &v),
        },
    }
}

/// Where it fits, what is embedded for an app holds its name, its tags and its description.
pub proof fn lemma_all_texts_are_embedded(name: Seq<char>, tags: Seq<char>, desc: Seq<char>)
    requires
        name.len() + tags.len() + desc.len() + 24 <= 1000,
    ensures
        ({
            let t = document_text(name, tags, desc);
            let n: int = 20 + name.len() as int;
            &&& t.len() == name.len() + tags.len() + desc.len() + 24
            &&& t.subrange(20, n) == name
            &&& t.subrange(n + 2, n + 2 + tags.len()) == tags
            &&& t.skip(n + 4 + tags.len()) == desc
        }),
{
    reveal_strlit("title: none | text: ");
    reveal_strlit(". ");
    let t = document_text(name, tags, desc);
    let n: int = 20 + name.len() as int;
    assert(t.subrange(20, n) =~= name);
    assert(t.subrange(n + 2, n + 2 + tags.len()) =~= tags);
    assert(t.skip(n + 4 + tags.len()) =~= desc);
}

/// Each dimension adds the product of its two numbers, whichever comes first.
pub proof fn lemma_each_dimension_counts(a: Seq<i8>, b: Seq<i8>, x: i8, y: i8)
    requires
        a.len() == b.len(),
    ensures
        dot(Seq::empty(), Seq::empty()) == 0,
        dot(a.push(x), b.push(y)) == dot(a, b) + x as int * y as int,
        dot(a, b) == dot(b, a),
    decreases a.len(),
{
    assert(a.push(x).drop_last() =~= a);
    assert(b.push(y).drop_last() =~= b);
    if a.len() > 0 {
        lemma_each_dimension_counts(a.drop_last(), b.drop_last(), x, y);
        let p = a.last() as int;
        let q = b.last() as int;
        assert(p * q == q * p) by (nonlinear_arith);
    }
}

/// A vector is at no angle to itself that is not zero: the product with itself is positive
/// unless all its numbers are zero.
pub proof fn lemma_norm_is_zero_for_zeros_only(a: Seq<i8>)
    ensures
        dot(a, a) >= 0,
        dot(a, a) == 0 <==> forall|i: int| 0 <= i < a.len() ==> #[trigger] a[i] == 0,
    decreases a.len(),
{
    if a.len() > 0 {
        let d = a.drop_last();
        lemma_norm_is_zero_for_zeros_only(d);
        let x = a.last() as int;
        assert(x * x >= 0) by (nonlinear_arith);
        assert(x != 0 ==> x * x > 0) by (nonlinear_arith);
        assert(a[a.len() - 1] == a.last());
        if dot(a, a) == 0 {
            assert forall|i: int| 0 <= i < a.len() implies #[trigger] a[i] == 0 by {
                if i < d.len() {
                    assert(d[i] == a[i]);
                }
            }
        }
        if forall|i: int| 0 <= i < a.len() ==> #[trigger] a[i] == 0 {
            assert forall|i: int| 0 <= i < d.len() implies #[trigger] d[i] == 0 by {
                assert(d[i] == a[i]);
            }
        }
    }
}

} // verus!

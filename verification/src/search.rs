//! Keyword search over directory entries: which apps a query finds, how well
//! their text answers it, and which chunk of an app's content to show.
use vstd::prelude::*;
use vstd::string::StringExecFns;
use crate::entry::{App, Entry};
use crate::text::{filled, filled_parts};
use crate::text::{
    begins_with, byte_len, contains, ends_in, first_chars, has_substring, join, joined, lowercase,
    longer_than, is_space, on_one_row, one_row, prefix, same, split, split_str, stands_at, starts_with,
    strip_suffix, texts, to_lowercase, trim, trimmed, words, words_of,
};
use crate::text::{
    lemma_absent_in_join, lemma_absent_in_part, lemma_one_row, lemma_split_join, lemma_split_shape,
    lemma_filled_parts, lemma_one_word, lemma_split_around, lemma_split_none,
    lemma_words_around_space, lemma_words_hold_no_space,
};

verus! {

// ── Query words ──────────────────────────────────────────────────────────────

/// The connective words that carry nothing to search for.
pub open spec fn is_stopword(w: Seq<char>) -> bool {
    ||| w == "how"@ || w == "to"@ || w == "use"@ || w == "used"@ || w == "using"@ || w == "the"@
    ||| w == "a"@ || w == "an"@ || w == "of"@ || w == "in"@ || w == "on"@ || w == "for"@
    ||| w == "and"@ || w == "or"@ || w == "is"@ || w == "are"@ || w == "do"@ || w == "does"@
    ||| w == "with"@ || w == "at"@ || w == "by"@ || w == "it"@ || w == "this"@ || w == "that"@
    ||| w == "what"@ || w == "you"@ || w == "your"@ || w == "i"@
}

/// Returns a query as it is looked for: in lower case and without outer white space.
pub fn read_query(raw: &str) -> (r: String)
    ensures
        r@ == lowercase(trimmed(raw@)),
{
    to_lowercase(trim(raw).as_str())
}

/// Whether a word is one of the connective words.
pub fn stopword(w: &str) -> (r: bool)
    ensures
        r == is_stopword(w@),
{
    same(w, "how") || same(w, "to") || same(w, "use") || same(w, "used") || same(w, "using")
        || same(w, "the") || same(w, "a") || same(w, "an") || same(w, "of") || same(w, "in")
        || same(w, "on") || same(w, "for") || same(w, "and") || same(w, "or") || same(w, "is")
        || same(w, "are") || same(w, "do") || same(w, "does") || same(w, "with") || same(w, "at")
        || same(w, "by") || same(w, "it") || same(w, "this") || same(w, "that") || same(w, "what")
        || same(w, "you") || same(w, "your") || same(w, "i")
}

/// Whether a word is worth looking for: more than one byte, and no stopword.
pub open spec fn is_content_word(w: Seq<char>) -> bool {
    byte_len(w) > 1 && !is_stopword(w)
}

/// The words of `ws` that are worth looking for, in their order.
pub open spec fn content_only(ws: Seq<Seq<char>>) -> Seq<Seq<char>>
    decreases ws.len(),
{
    if ws.len() == 0 {
        Seq::empty()
    } else if is_content_word(ws.last()) {
        content_only(ws.drop_last()).push(ws.last())
    } else {
        content_only(ws.drop_last())
    }
}

/// The words of a query that are worth looking for.
pub open spec fn content_words(q: Seq<char>) -> Seq<Seq<char>> {
    content_only(words(q))
}

/// Returns the words of a query that are worth looking for.
pub fn query_words(q: &str) -> (r: Vec<String>)
    ensures
        texts(r@) == content_words(q@),
{
    let ws = words_of(q);
    let mut out: Vec<String> = Vec::new();
    let mut i: usize = 0;
    let ghost all = texts(ws@);
    assert(texts(out@) =~= content_only(all.take(0)));
    while i < ws.len()
        invariant
            i <= ws@.len(),
            all == texts(ws@),
            texts(out@) == content_only(all.take(i as int)),
        decreases ws.len() - i,
    {
        assert(all.take(i + 1).drop_last() =~= all.take(i as int));
        assert(all.take(i + 1).last() == ws@[i as int]@);
        if longer_than(ws[i].as_str(), 1) && !stopword(ws[i].as_str()) {
            let ghost before = texts(out@);
            let w = ws[i].clone();
            out.push(w);
            assert(texts(out@) =~= before.push(w@));
        }
        i += 1;
    }
    assert(all.take(i as int) =~= all);
    out
}

/// Whether `w` without `suffix` is longer than two bytes and stands in `hay`.
pub open spec fn stem_hits(hay: Seq<char>, w: Seq<char>, suffix: Seq<char>) -> bool {
    let stem = w.take(w.len() - suffix.len());
    ends_in(w, suffix) && byte_len(stem) > 2 && has_substring(hay, stem)
}

/// Whether `hay` holds the word, or its singular: the word without `es` or `s`.
pub open spec fn hits(hay: Seq<char>, w: Seq<char>) -> bool {
    has_substring(hay, w) || stem_hits(hay, w, "es"@) || stem_hits(hay, w, "s"@)
}

/// Whether `hay_lc` holds the word or its singular.
pub fn word_hit(hay_lc: &str, w: &str) -> (r: bool)
    ensures
        r == hits(hay_lc@, w@),
{
    if contains(hay_lc, w) {
        return true;
    }
    match strip_suffix(w, "es") {
        Some(stem) => {
            if longer_than(stem.as_str(), 2) && contains(hay_lc, stem.as_str()) {
                return true;
            }
        },
        None => {},
    }
    match strip_suffix(w, "s") {
        Some(stem) => longer_than(stem.as_str(), 2) && contains(hay_lc, stem.as_str()),
        None => false,
    }
}

/// How many of the words hit `hay`.
pub open spec fn hit_total(hay: Seq<char>, ws: Seq<Seq<char>>) -> nat
    decreases ws.len(),
{
    if ws.len() == 0 {
        0
    } else {
        hit_total(hay, ws.drop_last()) + if hits(hay, ws.last()) {
            1nat
        } else {
            0nat
        }
    }
}

/// Counts the words that hit `hay_lc`.
pub fn hit_count(hay_lc: &str, ws: &Vec<String>) -> (n: usize)
    ensures
        n == hit_total(hay_lc@, texts(ws@)),
        n <= ws@.len(),
{
    let mut n: usize = 0;
    let mut i: usize = 0;
    let ghost all = texts(ws@);
    while i < ws.len()
        invariant
            n <= i <= ws@.len(),
            all == texts(ws@),
            n == hit_total(hay_lc@, all.take(i as int)),
        decreases ws.len() - i,
    {
        assert(all.take(i + 1).drop_last() =~= all.take(i as int));
        assert(all.take(i + 1).last() == ws@[i as int]@);
        if word_hit(hay_lc, ws[i].as_str()) {
            n += 1;
        }
        i += 1;
    }
    assert(all.take(i as int) =~= all);
    n
}

proof fn lemma_hit_total_positive(hay: Seq<char>, ws: Seq<Seq<char>>)
    ensures
        hit_total(hay, ws) > 0 <==> exists|i: int| 0 <= i < ws.len() && hits(hay, #[trigger] ws[i]),
    decreases ws.len(),
{
    if ws.len() > 0 {
        let d = ws.drop_last();
        lemma_hit_total_positive(hay, d);
        if hits(hay, ws.last()) {
            assert(hits(hay, ws[ws.len() - 1]));
        } else {
            if exists|i: int| 0 <= i < ws.len() && hits(hay, #[trigger] ws[i]) {
                let i = choose|i: int| 0 <= i < ws.len() && hits(hay, #[trigger] ws[i]);
                assert(d[i] == ws[i]);
            }
            if exists|i: int| 0 <= i < d.len() && hits(hay, #[trigger] d[i]) {
                let i = choose|i: int| 0 <= i < d.len() && hits(hay, #[trigger] d[i]);
                assert(ws[i] == d[i]);
            }
        }
    }
}

/// Whether a lowercase query finds a lowercase text: by any word worth looking
/// for; where it has none, by the whole query.
pub open spec fn finds(hay: Seq<char>, q: Seq<char>) -> bool {
    let ws = content_words(q);
    if ws.len() > 0 {
        exists|i: int| 0 <= i < ws.len() && hits(hay, #[trigger] ws[i])
    } else {
        has_substring(hay, trimmed(q))
    }
}

/// Whether a lowercase query finds a lowercase text.
pub fn finds_in(hay_lc: &str, q_lc: &str) -> (r: bool)
    ensures
        r == finds(hay_lc@, q_lc@),
{
    let ws = query_words(q_lc);
    if ws.len() > 0 {
        proof {
            lemma_hit_total_positive(hay_lc@, texts(ws@));
        }
        return hit_count(hay_lc, &ws) > 0;
    }
    contains(hay_lc, trim(q_lc).as_str())
}

/// The text of an entry that keyword search looks in.
pub open spec fn haystack(a: Entry) -> Seq<char> {
    a.name + " "@ + a.desc + " "@ + a.tags + " "@ + a.author + " "@ + a.doc_snippet
}

impl App {
    /// The text of this entry that keyword search looks in.
    pub fn search_text(&self) -> (r: String)
        ensures
            r@ == haystack(self@),
    {
        let mut s = self.name.clone();
        s.append(" ");
        s.append(self.desc.as_str());
        s.append(" ");
        s.append(self.tags.as_str());
        s.append(" ");
        s.append(self.author.as_str());
        s.append(" ");
        s.append(self.doc_snippet.as_str());
        s
    }

    /// Whether the query finds this entry, whatever the case of either.
    pub fn matches(&self, q: &str) -> (r: bool)
        ensures
            r == finds(lowercase(haystack(self@)), lowercase(q@)),
    {
        let q_lc = to_lowercase(q);
        let hay = to_lowercase(self.search_text().as_str());
        finds_in(hay.as_str(), q_lc.as_str())
    }
}

// ── What a query finds ───────────────────────────────────────────────────────

proof fn lemma_content_only(ws: Seq<Seq<char>>)
    ensures
        forall|w: Seq<char>| #[trigger]
            content_only(ws).contains(w) <==> ws.contains(w) && is_content_word(w),
    decreases ws.len(),
{
    if ws.len() > 0 {
        let d = ws.drop_last();
        let c = content_only(d);
        lemma_content_only(d);
        assert(ws[ws.len() - 1] == ws.last());
        assert forall|w: Seq<char>| #[trigger] content_only(ws).contains(w) <==> ws.contains(w)
            && is_content_word(w) by {
            if ws.contains(w) {
                let i = choose|i: int| 0 <= i < ws.len() && ws[i] == w;
                if i < d.len() {
                    assert(d[i] == w);
                }
            }
            if d.contains(w) {
                let i = choose|i: int| 0 <= i < d.len() && d[i] == w;
                assert(ws[i] == w);
            }
            if is_content_word(ws.last()) {
                assert(content_only(ws) == c.push(ws.last()));
                assert(c.push(ws.last())[c.len() as int] == ws.last());
                if c.contains(w) {
                    let i = choose|i: int| 0 <= i < c.len() && c[i] == w;
                    assert(c.push(ws.last())[i] == w);
                }
                if content_only(ws).contains(w) {
                    let i = choose|i: int|
                        0 <= i < content_only(ws).len() && content_only(ws)[i] == w;
                    if i < c.len() {
                        assert(c[i] == w);
                    }
                }
            }
        }
    }
}

/// Every word of more than five characters is worth looking for.
pub proof fn lemma_long_words_count(w: Seq<char>)
    requires
        w.len() > 5,
    ensures
        is_content_word(w),
{
    lemma_byte_len_at_least(w);
    if is_stopword(w) {
        lemma_stopwords_are_short(w);
    }
}

proof fn lemma_byte_len_at_least(w: Seq<char>)
    ensures
        byte_len(w) >= w.len(),
    decreases w.len(),
{
    if w.len() > 0 {
        lemma_byte_len_at_least(w.drop_last());
    }
}

proof fn lemma_stopwords_are_short(w: Seq<char>)
    requires
        is_stopword(w),
    ensures
        w.len() <= 5,
{
    reveal_strlit("how");
    reveal_strlit("to");
    reveal_strlit("use");
    reveal_strlit("used");
    reveal_strlit("using");
    reveal_strlit("the");
    reveal_strlit("a");
    reveal_strlit("an");
    reveal_strlit("of");
    reveal_strlit("in");
    reveal_strlit("on");
    reveal_strlit("for");
    reveal_strlit("and");
    reveal_strlit("or");
    reveal_strlit("is");
    reveal_strlit("are");
    reveal_strlit("do");
    reveal_strlit("does");
    reveal_strlit("with");
    reveal_strlit("at");
    reveal_strlit("by");
    reveal_strlit("it");
    reveal_strlit("this");
    reveal_strlit("that");
    reveal_strlit("what");
    reveal_strlit("you");
    reveal_strlit("your");
    reveal_strlit("i");
}

/// Whether lower-casing looks at no character beyond a blank, so that the parts of a text
/// around a blank are lower-cased each for itself.
pub open spec fn lowercases_by_parts() -> bool {
    forall|x: Seq<char>, y: Seq<char>| #[trigger]
        lowercase(x + " "@ + y) == lowercase(x) + " "@ + lowercase(y)
}

/// What stands in a part of a text stands in the text.
pub proof fn lemma_substring_of_part(x: Seq<char>, part: Seq<char>, y: Seq<char>, w: Seq<char>)
    requires
        has_substring(part, w),
    ensures
        has_substring(x + part + y, w),
{
    let i = choose|i: int| stands_at(part, w, i);
    let s = x + part + y;
    assert(s.subrange(x.len() + i, x.len() + i + w.len()) =~= part.subrange(i, i + w.len()));
    assert(stands_at(s, w, x.len() + i));
}

/// What holds no blank and stands in two parts around a blank stands in one of them.
pub proof fn lemma_substring_around_blank(a: Seq<char>, b: Seq<char>, w: Seq<char>)
    requires
        has_substring(a + " "@ + b, w),
        !w.contains(' '),
    ensures
        has_substring(a, w) || has_substring(b, w),
{
    reveal_strlit(" ");
    let s = a + " "@ + b;
    let i = choose|i: int| stands_at(s, w, i);
    if i + w.len() <= a.len() {
        assert(a.subrange(i, i + w.len()) =~= s.subrange(i, i + w.len()));
        assert(stands_at(a, w, i));
    } else if i > a.len() {
        let k = i - a.len() - 1;
        assert(b.subrange(k, k + w.len()) =~= s.subrange(i, i + w.len()));
        assert(stands_at(b, w, k));
    } else {
        assert(w[a.len() - i] == s[a.len() as int]);
        assert(w.contains(' '));
    }
}

/// The text that is searched is made of all five texts of an entry.
proof fn lemma_searched(e: Entry)
    requires
        lowercases_by_parts(),
    ensures
        lowercase(haystack(e)) == lowercase(e.name) + " "@ + lowercase(e.desc) + " "@ + lowercase(
            e.tags,
        ) + " "@ + lowercase(e.author) + " "@ + lowercase(e.doc_snippet),
{
    let a = e.name + " "@ + e.desc;
    let b = a + " "@ + e.tags;
    let c = b + " "@ + e.author;
    assert(lowercase(a) == lowercase(e.name) + " "@ + lowercase(e.desc));
    assert(lowercase(b) == lowercase(a) + " "@ + lowercase(e.tags));
    assert(lowercase(c) == lowercase(b) + " "@ + lowercase(e.author));
    assert(lowercase(c + " "@ + e.doc_snippet) == lowercase(c) + " "@ + lowercase(e.doc_snippet));
}

/// Each of the five texts of an entry stands in what is searched, as it is.
pub proof fn lemma_every_text_is_searched(e: Entry)
    ensures
        has_substring(haystack(e), e.name),
        has_substring(haystack(e), e.desc),
        has_substring(haystack(e), e.tags),
        has_substring(haystack(e), e.author),
        has_substring(haystack(e), e.doc_snippet),
{
    lemma_whole(e.name);
    lemma_whole(e.desc);
    lemma_whole(e.tags);
    lemma_whole(e.author);
    lemma_whole(e.doc_snippet);
    lemma_in_parts(e.name, e.desc, e.tags, e.author, e.doc_snippet, e.name);
    lemma_in_parts(e.name, e.desc, e.tags, e.author, e.doc_snippet, e.desc);
    lemma_in_parts(e.name, e.desc, e.tags, e.author, e.doc_snippet, e.tags);
    lemma_in_parts(e.name, e.desc, e.tags, e.author, e.doc_snippet, e.author);
    lemma_in_parts(e.name, e.desc, e.tags, e.author, e.doc_snippet, e.doc_snippet);
}

proof fn lemma_whole(s: Seq<char>)
    ensures
        has_substring(s, s),
{
    assert(s.subrange(0, s.len() as int) =~= s);
    assert(stands_at(s, s, 0));
}

/// What stands in one of five texts stands in them joined by blanks; and what holds no
/// blank stands in one of them, if it stands in them joined.
proof fn lemma_in_parts(
    a: Seq<char>,
    b: Seq<char>,
    c: Seq<char>,
    d: Seq<char>,
    e: Seq<char>,
    w: Seq<char>,
)
    ensures
        ({
            let any = has_substring(a, w) || has_substring(b, w) || has_substring(c, w)
                || has_substring(d, w) || has_substring(e, w);
            let s = a + " "@ + b + " "@ + c + " "@ + d + " "@ + e;
            (any ==> has_substring(s, w)) && (has_substring(s, w) && !w.contains(' ') ==> any)
        }),
{
    let none = Seq::<char>::empty();
    let ab = a + " "@ + b;
    let abc = ab + " "@ + c;
    let abcd = abc + " "@ + d;
    let s = abcd + " "@ + e;
    if has_substring(a, w) {
        lemma_substring_of_part(none, a, " "@ + b, w);
        assert(none + a + (" "@ + b) =~= ab);
    }
    if has_substring(b, w) {
        lemma_substring_of_part(a + " "@, b, none, w);
        assert(a + " "@ + b + none =~= ab);
    }
    if has_substring(ab, w) {
        lemma_substring_of_part(none, ab, " "@ + c, w);
        assert(none + ab + (" "@ + c) =~= abc);
    }
    if has_substring(c, w) {
        lemma_substring_of_part(ab + " "@, c, none, w);
        assert(ab + " "@ + c + none =~= abc);
    }
    if has_substring(abc, w) {
        lemma_substring_of_part(none, abc, " "@ + d, w);
        assert(none + abc + (" "@ + d) =~= abcd);
    }
    if has_substring(d, w) {
        lemma_substring_of_part(abc + " "@, d, none, w);
        assert(abc + " "@ + d + none =~= abcd);
    }
    if has_substring(abcd, w) {
        lemma_substring_of_part(none, abcd, " "@ + e, w);
        assert(none + abcd + (" "@ + e) =~= s);
    }
    if has_substring(e, w) {
        lemma_substring_of_part(abcd + " "@, e, none, w);
        assert(abcd + " "@ + e + none =~= s);
    }
    if has_substring(s, w) && !w.contains(' ') {
        lemma_substring_around_blank(abcd, e, w);
        if has_substring(abcd, w) {
            lemma_substring_around_blank(abc, d, w);
        }
        if has_substring(abc, w) {
            lemma_substring_around_blank(ab, c, w);
        }
        if has_substring(ab, w) {
            lemma_substring_around_blank(a, b, w);
        }
    }
}

/// A query finds an entry by any of its words that is worth looking for and stands in the
/// name, the description, the tags, the author or the preview, whatever the case of either.
pub proof fn lemma_found_by_any_text(e: Entry, q: Seq<char>, w: Seq<char>)
    requires
        lowercases_by_parts(),
        words(lowercase(q)).contains(w),
        is_content_word(w),
        has_substring(lowercase(e.name), w) || has_substring(lowercase(e.desc), w)
            || has_substring(lowercase(e.tags), w) || has_substring(lowercase(e.author), w)
            || has_substring(lowercase(e.doc_snippet), w),
    ensures
        finds(lowercase(haystack(e)), lowercase(q)),
{
    lemma_searched(e);
    lemma_in_parts(
        lowercase(e.name),
        lowercase(e.desc),
        lowercase(e.tags),
        lowercase(e.author),
        lowercase(e.doc_snippet),
        w,
    );
    lemma_content_only(words(lowercase(q)));
    let ws = content_words(lowercase(q));
    assert(ws.contains(w));
    let i = choose|i: int| 0 <= i < ws.len() && ws[i] == w;
    assert(hits(lowercase(haystack(e)), ws[i]));
}

/// A query finds an entry by the singular of a word, too: by the word without the `s` or
/// `es` at its end, where more than two bytes are left.
pub proof fn lemma_found_by_singular(e: Entry, q: Seq<char>, stem: Seq<char>, ending: Seq<char>)
    requires
        lowercases_by_parts(),
        ending == "s"@ || ending == "es"@,
        words(lowercase(q)).contains(stem + ending),
        is_content_word(stem + ending),
        byte_len(stem) > 2,
        has_substring(lowercase(e.name), stem) || has_substring(lowercase(e.desc), stem)
            || has_substring(lowercase(e.tags), stem) || has_substring(lowercase(e.author), stem)
            || has_substring(lowercase(e.doc_snippet), stem),
    ensures
        finds(lowercase(haystack(e)), lowercase(q)),
{
    lemma_searched(e);
    lemma_in_parts(
        lowercase(e.name),
        lowercase(e.desc),
        lowercase(e.tags),
        lowercase(e.author),
        lowercase(e.doc_snippet),
        stem,
    );
    lemma_content_only(words(lowercase(q)));
    let ws = content_words(lowercase(q));
    let w = stem + ending;
    assert(ws.contains(w));
    let i = choose|i: int| 0 <= i < ws.len() && ws[i] == w;
    assert(w.take(w.len() - ending.len()) =~= stem);
    assert(w.subrange(w.len() - ending.len(), w.len() as int) =~= ending);
    assert(stem_hits(lowercase(haystack(e)), w, ending));
    assert(hits(lowercase(haystack(e)), ws[i]));
}

/// Whether a text holds a word, or what is left of it without an `s` or `es` at its end.
pub open spec fn holds_word(text: Seq<char>, w: Seq<char>) -> bool {
    exists|stem: Seq<char>| #[trigger]
        has_substring(text, stem) && (stem == w || stem + "s"@ == w || stem + "es"@ == w)
}

/// A query that has words worth looking for finds an entry only where one of them, or its
/// singular, stands in one of its texts.
pub proof fn lemma_found_only_by_a_text(e: Entry, q: Seq<char>)
    requires
        lowercases_by_parts(),
        finds(lowercase(haystack(e)), lowercase(q)),
        exists|w: Seq<char>| #[trigger] words(lowercase(q)).contains(w) && is_content_word(w),
    ensures
        exists|w: Seq<char>| #[trigger]
            words(lowercase(q)).contains(w) && is_content_word(w) && (holds_word(
                lowercase(e.name),
                w,
            ) || holds_word(lowercase(e.desc), w) || holds_word(lowercase(e.tags), w)
                || holds_word(lowercase(e.author), w) || holds_word(lowercase(e.doc_snippet), w)),
{
    let all = words(lowercase(q));
    let ws = content_words(lowercase(q));
    let hay = lowercase(haystack(e));
    lemma_searched(e);
    lemma_content_only(all);
    let some = choose|w: Seq<char>| #[trigger] all.contains(w) && is_content_word(w);
    assert(ws.contains(some));
    let i = choose|i: int| 0 <= i < ws.len() && hits(hay, #[trigger] ws[i]);
    let w = ws[i];
    assert(ws.contains(w));
    let j = choose|j: int| 0 <= j < all.len() && all[j] == w;
    lemma_words_hold_no_space(lowercase(q), j);
    assert(!w.contains(' '));
    let n = w.len();
    reveal_strlit("s");
    reveal_strlit("es");
    let stem = if has_substring(hay, w) {
        w
    } else if stem_hits(hay, w, "es"@) {
        w.take(n - 2)
    } else {
        w.take(n - 1)
    };
    if stem_hits(hay, w, "es"@) {
        assert(w.take(n - 2) + "es"@ =~= w) by {
            assert(w.subrange(n - 2, n as int) =~= "es"@);
        }
    }
    if stem_hits(hay, w, "s"@) {
        assert(w.take(n - 1) + "s"@ =~= w) by {
            assert(w.subrange(n - 1, n as int) =~= "s"@);
        }
    }
    assert(has_substring(hay, stem));
    assert(!stem.contains(' ')) by {
        if stem.contains(' ') {
            let k = choose|k: int| 0 <= k < stem.len() && stem[k] == ' ';
            assert(w[k] == ' ');
        }
    }
    lemma_in_parts(
        lowercase(e.name),
        lowercase(e.desc),
        lowercase(e.tags),
        lowercase(e.author),
        lowercase(e.doc_snippet),
        stem,
    );
    assert(all.contains(w) && is_content_word(w));
}

// ── How well the text answers ────────────────────────────────────────────────

/// How well an app's text answers a query: whole points, and the number of query
/// words found, each of which is worth four fifths of a point.
#[derive(Clone, Copy, Debug, PartialEq, Eq, Structural)]
pub struct TextScore {
    pub points: u32,
    pub word_hits: usize,
}

/// Whether one of the comma-separated tags, trimmed, is `q`.
pub open spec fn has_tag(tags: Seq<char>, q: Seq<char>) -> bool {
    exists|i: int| 0 <= i < split(tags, ',').len() && trimmed(#[trigger] split(tags, ',')[i]) == q
}

/// The points for the name: exact, then prefix, then substring.
pub open spec fn name_points(name: Seq<char>, q: Seq<char>) -> nat {
    if name == q {
        12
    } else if begins_with(name, q) {
        8
    } else if has_substring(name, q) {
        5
    } else {
        0
    }
}

/// The points for the tags: a whole tag, then a substring.
pub open spec fn tag_points(tags: Seq<char>, q: Seq<char>) -> nat {
    if has_tag(tags, q) {
        4
    } else if has_substring(tags, q) {
        2
    } else {
        0
    }
}

/// One point where `q` stands in the text.
pub open spec fn mention_points(s: Seq<char>, q: Seq<char>) -> nat {
    if has_substring(s, q) {
        1
    } else {
        0
    }
}

/// The words of more than one byte.
pub open spec fn long_only(ws: Seq<Seq<char>>) -> Seq<Seq<char>>
    decreases ws.len(),
{
    if ws.len() == 0 {
        Seq::empty()
    } else if byte_len(ws.last()) > 1 {
        long_only(ws.drop_last()).push(ws.last())
    } else {
        long_only(ws.drop_last())
    }
}

/// Whether a word stands in the name, the tags or the description.
pub open spec fn word_somewhere(
    name: Seq<char>,
    tags: Seq<char>,
    desc: Seq<char>,
    w: Seq<char>,
) -> bool {
    has_substring(name, w) || has_substring(tags, w) || has_substring(desc, w)
}

/// How many words stand in the name, the tags or the description.
pub open spec fn somewhere_total(
    name: Seq<char>,
    tags: Seq<char>,
    desc: Seq<char>,
    ws: Seq<Seq<char>>,
) -> nat
    decreases ws.len(),
{
    if ws.len() == 0 {
        0
    } else {
        somewhere_total(name, tags, desc, ws.drop_last()) + if word_somewhere(
            name,
            tags,
            desc,
            ws.last(),
        ) {
            1nat
        } else {
            0nat
        }
    }
}

/// The score of lowercase fields for a lowercase query. An empty query scores one
/// point everywhere; words count only where the query has more than one.
pub open spec fn answer(
    name: Seq<char>,
    desc: Seq<char>,
    tags: Seq<char>,
    author: Seq<char>,
    q: Seq<char>,
) -> (nat, nat) {
    if q.len() == 0 {
        (1, 0)
    } else {
        let ws = long_only(words(q));
        (
            name_points(name, q) + tag_points(tags, q) + mention_points(desc, q) + mention_points(
                author,
                q,
            ),
            if ws.len() > 1 {
                somewhere_total(name, tags, desc, ws)
            } else {
                0
            },
        )
    }
}

fn long_words(q: &str) -> (r: Vec<String>)
    ensures
        texts(r@) == long_only(words(q@)),
{
    let ws = words_of(q);
    let mut out: Vec<String> = Vec::new();
    let mut i: usize = 0;
    let ghost all = texts(ws@);
    assert(texts(out@) =~= long_only(all.take(0)));
    while i < ws.len()
        invariant
            i <= ws@.len(),
            all == texts(ws@),
            texts(out@) == long_only(all.take(i as int)),
        decreases ws.len() - i,
    {
        assert(all.take(i + 1).drop_last() =~= all.take(i as int));
        assert(all.take(i + 1).last() == ws@[i as int]@);
        if longer_than(ws[i].as_str(), 1) {
            let ghost before = texts(out@);
            let w = ws[i].clone();
            out.push(w);
            assert(texts(out@) =~= before.push(w@));
        }
        i += 1;
    }
    assert(all.take(i as int) =~= all);
    out
}

fn tag_is(tags: &str, q: &str) -> (r: bool)
    ensures
        r == has_tag(tags@, q@),
{
    let p = split_str(tags, ',');
    let mut i: usize = 0;
    while i < p.len()
        invariant
            i <= p@.len(),
            texts(p@) == split(tags@, ','),
            forall|j: int| 0 <= j < i ==> trimmed(#[trigger] texts(p@)[j]) != q@,
        decreases p.len() - i,
    {
        assert(texts(p@)[i as int] == p@[i as int]@);
        if same(trim(p[i].as_str()).as_str(), q) {
            return true;
        }
        i += 1;
    }
    false
}

/// Scores lowercase fields for a lowercase query.
pub fn score_fields(name: &str, desc: &str, tags: &str, author: &str, q: &str) -> (r: TextScore)
    ensures
        (r.points as nat, r.word_hits as nat) == answer(name@, desc@, tags@, author@, q@),
{
    if q.is_empty() {
        return TextScore { points: 1, word_hits: 0 };
    }
    let mut points: u32 = 0;
    if same(name, q) {
        points += 12;
    } else if starts_with(name, q) {
        points += 8;
    } else if contains(name, q) {
        points += 5;
    }
    if tag_is(tags, q) {
        points += 4;
    } else if contains(tags, q) {
        points += 2;
    }
    if contains(desc, q) {
        points += 1;
    }
    if contains(author, q) {
        points += 1;
    }
    let ws = long_words(q);
    let ghost all = texts(ws@);
    let mut n: usize = 0;
    if ws.len() > 1 {
        let mut i: usize = 0;
        while i < ws.len()
            invariant
                n <= i <= ws@.len(),
                all == texts(ws@),
                n == somewhere_total(name@, tags@, desc@, all.take(i as int)),
            decreases ws.len() - i,
        {
            assert(all.take(i + 1).drop_last() =~= all.take(i as int));
            assert(all.take(i + 1).last() == ws@[i as int]@);
            let w = ws[i].as_str();
            if contains(name, w) || contains(tags, w) || contains(desc, w) {
                n += 1;
            }
            i += 1;
        }
        assert(all.take(i as int) =~= all);
    }
    TextScore { points, word_hits: n }
}

/// Scores an entry for a lowercase query.
pub fn text_score(app: &App, q: &str) -> (r: TextScore)
    ensures
        (r.points as nat, r.word_hits as nat) == answer(
            lowercase(app@.name),
            lowercase(app@.desc),
            lowercase(app@.tags),
            lowercase(app@.author),
            q@,
        ),
{
    if q.is_empty() {
        return TextScore { points: 1, word_hits: 0 };
    }
    let name = to_lowercase(app.name.as_str());
    let desc = to_lowercase(app.desc.as_str());
    let tags = to_lowercase(app.tags.as_str());
    let author = to_lowercase(app.author.as_str());
    score_fields(name.as_str(), desc.as_str(), tags.as_str(), author.as_str(), q)
}

// ── Chunks ───────────────────────────────────────────────────────────────────

/// What separates the chunks of an app's content preview.
pub const CHUNK_SEP: char = '\u{1e}';

/// The most chunks that a preview keeps.
pub const MAX_CHUNKS: usize = 40;

/// The most characters that a chunk keeps.
pub const MAX_CHUNK_CHARS: usize = 200;

/// The chunks of a preview.
pub open spec fn chunk_list(doc: Seq<char>) -> Seq<Seq<char>> {
    filled(split(doc, CHUNK_SEP))
}

/// A chunk as it is stored: on one row, and cut to its first characters.
pub open spec fn stored_chunk(c: Seq<char>) -> Seq<char> {
    prefix(one_row(c), MAX_CHUNK_CHARS as int)
}

/// The chunks that a raw preview is stored with.
pub open spec fn stored_chunks(raw: Seq<char>) -> Seq<Seq<char>> {
    let cs = chunk_list(raw);
    Seq::new(
        if cs.len() <= MAX_CHUNKS {
            cs.len()
        } else {
            MAX_CHUNKS as nat
        },
        |i: int| stored_chunk(cs[i]),
    )
}

/// The preview as it is stored.
pub open spec fn sanitized(raw: Seq<char>) -> Seq<char> {
    joined(stored_chunks(raw), seq![CHUNK_SEP])
}

/// Returns the chunks of a preview: its parts that are not empty.
pub fn chunks(doc_snippet: &str) -> (r: Vec<String>)
    ensures
        texts(r@) == chunk_list(doc_snippet@),
{
    filled_parts(&split_str(doc_snippet, CHUNK_SEP))
}

/// Bounds a preview: at most `MAX_CHUNKS` chunks, each on one row and at most
/// `MAX_CHUNK_CHARS` characters long.
pub fn sanitize_doc_snippet(raw: &str) -> (r: String)
    ensures
        r@ == sanitized(raw@),
{
    let cs = chunks(raw);
    let n: usize = if cs.len() <= MAX_CHUNKS { cs.len() } else { MAX_CHUNKS };
    let mut out: Vec<String> = Vec::new();
    let mut i: usize = 0;
    while i < n
        invariant
            i <= n <= cs@.len(),
            n == stored_chunks(raw@).len(),
            texts(cs@) == chunk_list(raw@),
            texts(out@) == stored_chunks(raw@).take(i as int),
        decreases n - i,
    {
        assert(texts(cs@)[i as int] == cs@[i as int]@);
        let c = first_chars(on_one_row(cs[i].as_str()).as_str(), MAX_CHUNK_CHARS);
        let ghost before = texts(out@);
        out.push(c);
        assert(texts(out@) =~= before.push(c@));
        assert(stored_chunks(raw@).take(i + 1) =~= stored_chunks(raw@).take(i as int).push(c@));
        i += 1;
    }
    assert(stored_chunks(raw@).take(i as int) =~= stored_chunks(raw@));
    let mut sep: String = String::new();
    sep.push(CHUNK_SEP);
    assert(sep@ =~= seq![CHUNK_SEP]);
    join(&out, sep.as_str())
}

proof fn lemma_filled_subset(p: Seq<Seq<char>>, c: char)
    requires
        forall|i: int| 0 <= i < p.len() ==> !(#[trigger] p[i]).contains(c),
    ensures
        forall|i: int| 0 <= i < filled(p).len() ==> !(#[trigger] filled(p)[i]).contains(c),
    decreases p.len(),
{
    if p.len() > 0 {
        let d = p.drop_last();
        assert forall|i: int| 0 <= i < d.len() implies !(#[trigger] d[i]).contains(c) by {
            assert(d[i] == p[i]);
        }
        lemma_filled_subset(d, c);
        assert(!p[p.len() - 1].contains(c));
        assert forall|i: int| 0 <= i < filled(p).len() implies !(#[trigger] filled(p)[i]).contains(
            c,
        ) by {
            if i < filled(d).len() {
                assert(filled(p)[i] == filled(d)[i]);
            }
        }
    }
}

/// A stored chunk holds no tab, newline or separator, and no more characters than
/// the limit.
pub proof fn lemma_stored_chunk(raw: Seq<char>, i: int)
    requires
        0 <= i < stored_chunks(raw).len(),
    ensures
        stored_chunks(raw)[i].len() <= MAX_CHUNK_CHARS,
        !stored_chunks(raw)[i].contains('\t'),
        !stored_chunks(raw)[i].contains('\r'),
        !stored_chunks(raw)[i].contains('\n'),
        !stored_chunks(raw)[i].contains(CHUNK_SEP),
{
    lemma_split_shape(raw, CHUNK_SEP);
    lemma_filled_subset(split(raw, CHUNK_SEP), CHUNK_SEP);
    let c = chunk_list(raw)[i];
    assert(!c.contains(CHUNK_SEP));
    lemma_one_row(c);
    let o = one_row(c);
    assert(!o.contains(CHUNK_SEP));
    if o.len() > MAX_CHUNK_CHARS {
        assert(o.take(MAX_CHUNK_CHARS as int) =~= o.subrange(0, MAX_CHUNK_CHARS as int));
        lemma_absent_in_part(o, '\t', 0, MAX_CHUNK_CHARS as int);
        lemma_absent_in_part(o, '\r', 0, MAX_CHUNK_CHARS as int);
        lemma_absent_in_part(o, '\n', 0, MAX_CHUNK_CHARS as int);
        lemma_absent_in_part(o, CHUNK_SEP, 0, MAX_CHUNK_CHARS as int);
    }
}

/// A stored preview fits one field of a row, and splits into at most `MAX_CHUNKS`
/// parts of at most `MAX_CHUNK_CHARS` characters.
pub proof fn lemma_sanitized_bounds(raw: Seq<char>)
    ensures
        !sanitized(raw).contains('\t'),
        !sanitized(raw).contains('\r'),
        !sanitized(raw).contains('\n'),
        split(sanitized(raw), CHUNK_SEP).len() <= MAX_CHUNKS,
        forall|i: int|
            0 <= i < split(sanitized(raw), CHUNK_SEP).len() ==> (#[trigger] split(
                sanitized(raw),
                CHUNK_SEP,
            )[i]).len() <= MAX_CHUNK_CHARS,
{
    let p = stored_chunks(raw);
    assert forall|i: int| 0 <= i < p.len() implies !(#[trigger] p[i]).contains('\t') && !p[i].contains(
        '\r',
    ) && !p[i].contains('\n') && !p[i].contains(CHUNK_SEP) && p[i].len() <= MAX_CHUNK_CHARS by {
        lemma_stored_chunk(raw, i);
    }
    let sep = seq![CHUNK_SEP];
    assert(sep[0] == CHUNK_SEP);
    assert(!sep.contains('\t') && !sep.contains('\r') && !sep.contains('\n'));
    lemma_absent_in_join(p, sep, '\t');
    lemma_absent_in_join(p, sep, '\r');
    lemma_absent_in_join(p, sep, '\n');
    if p.len() > 0 {
        lemma_split_join(p, CHUNK_SEP);
    } else {
        assert(sanitized(raw) =~= Seq::<char>::empty());
        assert(split(sanitized(raw), CHUNK_SEP).len() == 1);
    }
}

/// Whether `i` is the first position of the greatest number in `v`.
pub open spec fn is_first_max(v: Seq<nat>, i: int) -> bool {
    &&& 0 <= i < v.len()
    &&& forall|j: int| 0 <= j < v.len() ==> #[trigger] v[j] <= v[i]
    &&& forall|j: int| 0 <= j < i ==> #[trigger] v[j] < v[i]
}

/// How many of the words hit each chunk.
pub open spec fn chunk_scores(cs: Seq<Seq<char>>, ws: Seq<Seq<char>>) -> Seq<nat> {
    Seq::new(cs.len(), |i: int| hit_total(lowercase(cs[i]), ws))
}

/// Whether `r` is the chunk to show: the first of those that most query words hit.
/// With no word, or no hit, that is the first chunk.
pub open spec fn is_best_chunk(cs: Seq<Seq<char>>, ws: Seq<Seq<char>>, r: Seq<char>) -> bool {
    if cs.len() == 0 {
        r.len() == 0
    } else {
        exists|i: int| #[trigger] is_first_max(chunk_scores(cs, ws), i) && r == cs[i]
    }
}

/// The first position of the greatest number.
pub fn first_max(v: &Vec<usize>) -> (i: usize)
    requires
        v@.len() > 0,
    ensures
        is_first_max(Seq::new(v@.len(), |k: int| v@[k] as nat), i as int),
{
    let mut best: usize = 0;
    let mut i: usize = 1;
    while i < v.len()
        invariant
            best < i <= v@.len(),
            forall|j: int| 0 <= j < i ==> #[trigger] v@[j] <= v@[best as int],
            forall|j: int| 0 <= j < best ==> #[trigger] v@[j] < v@[best as int],
        decreases v.len() - i,
    {
        if v[i] > v[best] {
            best = i;
        }
        i += 1;
    }
    best
}

/// The chunk of a preview that answers a query best.
pub open spec fn best_chunk_of(doc: Seq<char>, q: Seq<char>) -> Seq<char> {
    choose|r: Seq<char>| is_best_chunk(chunk_list(doc), content_words(q), r)
}

/// Returns the chunk that answers the query best.
pub fn best_chunk(doc_snippet: &str, q: &str) -> (r: String)
    ensures
        is_best_chunk(chunk_list(doc_snippet@), content_words(q@), r@),
        r@ == best_chunk_of(doc_snippet@, q@),
{
    let r = pick_chunk(doc_snippet, q);
    proof {
        lemma_best_chunk_unique(
            chunk_list(doc_snippet@),
            content_words(q@),
            r@,
            best_chunk_of(doc_snippet@, q@),
        );
    }
    r
}

fn pick_chunk(doc_snippet: &str, q: &str) -> (r: String)
    ensures
        is_best_chunk(chunk_list(doc_snippet@), content_words(q@), r@),
{
    let cs = chunks(doc_snippet);
    let ghost all = texts(cs@);
    if cs.len() == 0 {
        return String::new();
    }
    let ws = query_words(q);
    let mut scores: Vec<usize> = Vec::new();
    let mut i: usize = 0;
    while i < cs.len()
        invariant
            i <= cs@.len(),
            scores@.len() == i,
            all == texts(cs@),
            texts(ws@) == content_words(q@),
            forall|k: int|
                0 <= k < i ==> #[trigger] scores@[k] == hit_total(lowercase(all[k]), texts(ws@)),
        decreases cs.len() - i,
    {
        assert(all[i as int] == cs@[i as int]@);
        let lc = to_lowercase(cs[i].as_str());
        scores.push(hit_count(lc.as_str(), &ws));
        i += 1;
    }
    let b: usize = first_max(&scores);
    assert(Seq::new(scores@.len(), |k: int| scores@[k] as nat) =~= chunk_scores(
        all,
        content_words(q@),
    ));
    assert(all[b as int] == cs@[b as int]@);
    assert(is_first_max(chunk_scores(all, content_words(q@)), b as int));
    cs[b].clone()
}

/// There is only one chunk to show.
pub proof fn lemma_best_chunk_unique(
    cs: Seq<Seq<char>>,
    ws: Seq<Seq<char>>,
    a: Seq<char>,
    b: Seq<char>,
)
    requires
        is_best_chunk(cs, ws, a),
        is_best_chunk(cs, ws, b),
    ensures
        a == b,
{
    if cs.len() > 0 {
        let v = chunk_scores(cs, ws);
        let i = choose|i: int| #[trigger] is_first_max(v, i) && a == cs[i];
        let j = choose|j: int| #[trigger] is_first_max(v, j) && b == cs[j];
        assert(v[i] <= v[j] && v[j] <= v[i]);
    } else {
        assert(a =~= b);
    }
}

/// With no query word the first chunk is the one to show.
pub proof fn lemma_best_chunk_default(cs: Seq<Seq<char>>, r: Seq<char>)
    requires
        cs.len() > 0,
        is_best_chunk(cs, Seq::empty(), r),
    ensures
        r == cs[0],
{
    let v = chunk_scores(cs, Seq::empty());
    let i = choose|i: int| #[trigger] is_first_max(v, i) && r == cs[i];
    assert(v[0] == 0 && v[i] == 0);
}

// ── What the score and the preview tell ──────────────────────────────────────

/// An empty query gives every entry the same.
pub proof fn lemma_empty_query_scores_alike(
    name: Seq<char>,
    desc: Seq<char>,
    tags: Seq<char>,
    author: Seq<char>,
)
    ensures
        answer(name, desc, tags, author, Seq::empty()) == (1nat, 0nat),
{
}

/// A name that is the query scores above one that begins with it, this above one that holds
/// it further on, and this above one that does not hold it; the other texts being equal.
pub proof fn lemma_closer_name_scores_higher(
    same: Seq<char>,
    begun: Seq<char>,
    held: Seq<char>,
    other: Seq<char>,
    desc: Seq<char>,
    tags: Seq<char>,
    author: Seq<char>,
    q: Seq<char>,
)
    requires
        q.len() > 0,
        same == q,
        begins_with(begun, q) && begun != q,
        has_substring(held, q) && !begins_with(held, q),
        !has_substring(other, q),
    ensures
        answer(same, desc, tags, author, q).0 > answer(begun, desc, tags, author, q).0,
        answer(begun, desc, tags, author, q).0 > answer(held, desc, tags, author, q).0,
        answer(held, desc, tags, author, q).0 > answer(other, desc, tags, author, q).0,
{
    assert(held != q) by {
        if held == q {
            assert(q.take(q.len() as int) =~= q);
        }
    }
    assert(!begins_with(other, q)) by {
        if begins_with(other, q) {
            let rest = other.skip(q.len() as int);
            assert(other =~= Seq::<char>::empty() + q + rest);
            lemma_whole(q);
            lemma_substring_of_part(Seq::empty(), q, rest, q);
        }
    }
    assert(other != q) by {
        lemma_whole(q);
    }
}

/// A tag that is the query scores above tags that only hold it, and these above tags that do
/// not; the other texts being equal.
pub proof fn lemma_closer_tag_scores_higher(
    name: Seq<char>,
    desc: Seq<char>,
    exact: Seq<char>,
    held: Seq<char>,
    other: Seq<char>,
    author: Seq<char>,
    q: Seq<char>,
)
    requires
        q.len() > 0,
        exists|i: int|
            0 <= i < split(exact, ',').len() && trimmed(#[trigger] split(exact, ',')[i]) == q,
        has_substring(held, q) && forall|i: int|
            0 <= i < split(held, ',').len() ==> trimmed(#[trigger] split(held, ',')[i]) != q,
        !has_substring(other, q) && forall|i: int|
            0 <= i < split(other, ',').len() ==> trimmed(#[trigger] split(other, ',')[i]) != q,
    ensures
        answer(name, desc, exact, author, q).0 > answer(name, desc, held, author, q).0,
        answer(name, desc, held, author, q).0 > answer(name, desc, other, author, q).0,
{
    assert(has_tag(exact, q));
    assert(!has_tag(held, q));
    assert(!has_tag(other, q));
}

/// A description that holds the query scores above one that does not, and so does an author;
/// but neither as much as a tag that is the query, or as a name that holds it.
pub proof fn lemma_mention_scores_higher(
    name: Seq<char>,
    with: Seq<char>,
    without: Seq<char>,
    tags: Seq<char>,
    other: Seq<char>,
    q: Seq<char>,
)
    requires
        q.len() > 0,
        has_substring(with, q),
        !has_substring(without, q),
    ensures
        answer(name, with, tags, other, q).0 > answer(name, without, tags, other, q).0,
        answer(name, other, tags, with, q).0 > answer(name, other, tags, without, q).0,
        answer(with, without, tags, without, q).0 > answer(without, with, tags, with, q).0,
{
    assert(!begins_with(without, q)) by {
        if begins_with(without, q) {
            let rest = without.skip(q.len() as int);
            assert(without =~= Seq::<char>::empty() + q + rest);
            lemma_whole(q);
            lemma_substring_of_part(Seq::empty(), q, rest, q);
        }
    }
    assert(without != q) by {
        lemma_whole(q);
    }
}

/// Of two words of a query, each counts once where it stands in the name, in the tags or in
/// the description; a single word does not count beside the points.
pub proof fn lemma_words_of_a_query_count(
    name: Seq<char>,
    desc: Seq<char>,
    tags: Seq<char>,
    author: Seq<char>,
    v: Seq<char>,
    w: Seq<char>,
)
    requires
        v.len() > 1 && w.len() > 1,
        forall|i: int| 0 <= i < v.len() ==> !is_space(#[trigger] v[i]),
        forall|i: int| 0 <= i < w.len() ==> !is_space(#[trigger] w[i]),
    ensures
        answer(name, desc, tags, author, v).1 == 0,
        answer(name, desc, tags, author, v + seq![' '] + w).1 == (if has_substring(name, v)
            || has_substring(tags, v) || has_substring(desc, v) {
            1nat
        } else {
            0nat
        }) + (if has_substring(name, w) || has_substring(tags, w) || has_substring(desc, w) {
            1nat
        } else {
            0nat
        }),
{
    lemma_one_word(v);
    lemma_one_word(w);
    lemma_words_around_space(v, ' ', w);
    lemma_byte_len_at_least(v);
    lemma_byte_len_at_least(w);
    let one = seq![v];
    let two = seq![v, w];
    assert(words(v + seq![' '] + w) =~= two);
    assert(one.drop_last() =~= Seq::<Seq<char>>::empty());
    assert(two.drop_last() =~= one);
    assert(long_only(Seq::<Seq<char>>::empty()) =~= Seq::empty());
    assert(long_only(one) =~= one);
    assert(long_only(two) =~= two);
    assert(somewhere_total(name, tags, desc, Seq::empty()) == 0);
    assert(somewhere_total(name, tags, desc, one) == if word_somewhere(name, tags, desc, v) {
        1nat
    } else {
        0nat
    });
}

/// Words that are looked for one after the other are hit as often as each of the two lists
/// is; a single word is hit once or not at all.
pub proof fn lemma_hits_add_up(hay: Seq<char>, a: Seq<Seq<char>>, b: Seq<Seq<char>>, w: Seq<char>)
    ensures
        hit_total(hay, a + b) == hit_total(hay, a) + hit_total(hay, b),
        hit_total(hay, seq![w]) == if hits(hay, w) {
            1nat
        } else {
            0nat
        },
    decreases b.len(),
{
    assert(seq![w].drop_last() =~= Seq::<Seq<char>>::empty());
    assert(hit_total(hay, Seq::empty()) == 0);
    if b.len() == 0 {
        assert(a + b =~= a);
    } else {
        assert((a + b).drop_last() =~= a + b.drop_last());
        lemma_hits_add_up(hay, a, b.drop_last(), w);
    }
}

/// The chunks of a preview on both sides of a separator are those of the one side, then
/// those of the other; text without a separator is a chunk where it is not empty.
pub proof fn lemma_chunks_on_both_sides(a: Seq<char>, b: Seq<char>, c: Seq<char>)
    requires
        !c.contains('\u{1e}'),
    ensures
        chunk_list(a + seq!['\u{1e}'] + b) == chunk_list(a) + chunk_list(b),
        chunk_list(c) == if c.len() > 0 {
            seq![c]
        } else {
            Seq::empty()
        },
{
    lemma_split_around(a, CHUNK_SEP, b);
    lemma_filled_parts(split(a, CHUNK_SEP), split(b, CHUNK_SEP), c);
    lemma_split_none(c, CHUNK_SEP);
}

/// The chunk that is shown is one of the preview's; none is hit by more words of the query,
/// and none before it by as many.
pub proof fn lemma_shown_chunk_answers_best(doc: Seq<char>, q: Seq<char>, r: Seq<char>)
    requires
        is_best_chunk(chunk_list(doc), content_words(q), r),
        chunk_list(doc).len() > 0,
    ensures
        exists|i: int|
            0 <= i < chunk_list(doc).len() && #[trigger] chunk_list(doc)[i] == r && (forall|j: int|
                0 <= j < chunk_list(doc).len() ==> hit_total(
                    lowercase(#[trigger] chunk_list(doc)[j]),
                    content_words(q),
                ) <= hit_total(lowercase(r), content_words(q))) && (forall|j: int|
                0 <= j < i ==> hit_total(lowercase(#[trigger] chunk_list(doc)[j]), content_words(q))
                    < hit_total(lowercase(r), content_words(q))),
{
    let cs = chunk_list(doc);
    let ws = content_words(q);
    let v = chunk_scores(cs, ws);
    let i = choose|i: int| #[trigger] is_first_max(v, i) && r == cs[i];
    assert(v[i] == hit_total(lowercase(r), ws));
    assert forall|j: int| 0 <= j < cs.len() implies hit_total(lowercase(#[trigger] cs[j]), ws)
        <= hit_total(lowercase(r), ws) by {
        assert(v[j] <= v[i]);
    }
    assert forall|j: int| 0 <= j < i implies hit_total(lowercase(#[trigger] cs[j]), ws) < hit_total(
        lowercase(r),
        ws,
    ) by {
        assert(v[j] < v[i]);
    }
    assert(cs[i] == r);
}

proof fn lemma_one_row_keeps(s: Seq<char>)
    requires
        !s.contains('\t') && !s.contains('\n') && !s.contains('\r'),
    ensures
        one_row(s) == s,
    decreases s.len(),
{
    if s.len() > 0 {
        let d = s.drop_last();
        lemma_absent_in_part(s, '\t', 0, s.len() - 1);
        lemma_absent_in_part(s, '\n', 0, s.len() - 1);
        lemma_absent_in_part(s, '\r', 0, s.len() - 1);
        assert(d =~= s.subrange(0, s.len() - 1));
        lemma_one_row_keeps(d);
        assert(s[s.len() - 1] == s.last());
        assert(d.push(s.last()) =~= s);
    }
}

/// Chunks that are few, short and on one row are stored as they are.
pub proof fn lemma_fitting_chunks_are_stored(cs: Seq<Seq<char>>)
    requires
        0 < cs.len() <= 40,
        forall|i: int|
            0 <= i < cs.len() ==> 0 < (#[trigger] cs[i]).len() <= 200 && !cs[i].contains('\u{1e}')
                && !cs[i].contains('\t') && !cs[i].contains('\n') && !cs[i].contains('\r'),
    ensures
        sanitized(joined(cs, seq!['\u{1e}'])) == joined(cs, seq!['\u{1e}']),
        chunk_list(joined(cs, seq!['\u{1e}'])) == cs,
{
    lemma_split_join(cs, CHUNK_SEP);
    lemma_all_filled(cs);
    assert(stored_chunks(joined(cs, seq![CHUNK_SEP])) =~= cs) by {
        assert forall|i: int| 0 <= i < cs.len() implies stored_chunk(#[trigger] cs[i]) == cs[i] by {
            lemma_one_row_keeps(cs[i]);
        }
    }
}

proof fn lemma_all_filled(cs: Seq<Seq<char>>)
    requires
        forall|i: int| 0 <= i < cs.len() ==> (#[trigger] cs[i]).len() > 0,
    ensures
        filled(cs) == cs,
    decreases cs.len(),
{
    if cs.len() > 0 {
        let d = cs.drop_last();
        assert forall|i: int| 0 <= i < d.len() implies (#[trigger] d[i]).len() > 0 by {
            assert(d[i] == cs[i]);
        }
        lemma_all_filled(d);
        assert(cs[cs.len() - 1] == cs.last());
        assert(d.push(cs.last()) =~= cs);
    } else {
        assert(filled(cs) =~= cs);
    }
}

/// Whether a letter stands in one of the connective words.
pub open spec fn is_connective_letter(c: char) -> bool {
    c == 'a' || c == 'b' || c == 'd' || c == 'e' || c == 'f' || c == 'g' || c == 'h' || c == 'i' || c
        == 'n' || c == 'o' || c == 'r' || c == 's' || c == 't' || c == 'u' || c == 'w' || c == 'y'
}

/// A word of two characters or more that holds a character which no connective word has is
/// looked for, and a single letter is not.
pub proof fn lemma_short_words_count(w: Seq<char>, i: int, c: char)
    requires
        w.len() >= 2,
        0 <= i < w.len(),
        !is_connective_letter(w[i]),
        c <= '\u{7f}',
    ensures
        is_content_word(w),
        !is_content_word(seq![c]),
{
    lemma_byte_len_at_least(w);
    assert(seq![c].drop_last() =~= Seq::<char>::empty());
    assert(byte_len(Seq::<char>::empty()) == 0);
    assert(byte_len(seq![c]) == 1);
    if is_stopword(w) {
        lemma_letters_of_stopwords(w, i);
    }
}

#[verifier::spinoff_prover]
proof fn lemma_letters_of_stopwords(w: Seq<char>, i: int)
    requires
        is_stopword(w),
        0 <= i < w.len(),
    ensures
        is_connective_letter(w[i]),
{
    reveal_strlit("how");
    reveal_strlit("to");
    reveal_strlit("use");
    reveal_strlit("used");
    reveal_strlit("using");
    reveal_strlit("the");
    reveal_strlit("a");
    reveal_strlit("an");
    reveal_strlit("of");
    reveal_strlit("in");
    reveal_strlit("on");
    reveal_strlit("for");
    reveal_strlit("and");
    reveal_strlit("or");
    reveal_strlit("is");
    reveal_strlit("are");
    reveal_strlit("do");
    reveal_strlit("does");
    reveal_strlit("with");
    reveal_strlit("at");
    reveal_strlit("by");
    reveal_strlit("it");
    reveal_strlit("this");
    reveal_strlit("that");
    reveal_strlit("what");
    reveal_strlit("you");
    reveal_strlit("your");
    reveal_strlit("i");
}

/// A query of connective words alone is looked for as a whole.
pub proof fn lemma_connectives_are_looked_for_as_a_whole(hay: Seq<char>, q: Seq<char>)
    requires
        forall|w: Seq<char>| #[trigger] words(q).contains(w) ==> !is_content_word(w),
    ensures
        finds(hay, q) <==> has_substring(hay, trimmed(q)),
{
    let ws = content_words(q);
    lemma_content_only(words(q));
    if ws.len() > 0 {
        assert(ws.contains(ws[0]));
    }
}

/// A word of three characters or fewer is not shortened: it is hit only where it stands as it
/// is.
pub proof fn lemma_short_words_are_not_shortened(hay: Seq<char>, w: Seq<char>)
    requires
        w.len() <= 3,
        forall|i: int| 0 <= i < w.len() ==> #[trigger] w[i] <= '\u{7f}',
    ensures
        hits(hay, w) <==> has_substring(hay, w),
{
    reveal_strlit("s");
    reveal_strlit("es");
    if w.len() >= 1 {
        let stem = w.take(w.len() - 1);
        assert forall|i: int| 0 <= i < stem.len() implies #[trigger] stem[i] <= '\u{7f}' by {
            assert(stem[i] == w[i]);
        }
        lemma_plain_bytes(stem);
    }
    if w.len() >= 2 {
        let stem = w.take(w.len() - 2);
        assert forall|i: int| 0 <= i < stem.len() implies #[trigger] stem[i] <= '\u{7f}' by {
            assert(stem[i] == w[i]);
        }
        lemma_plain_bytes(stem);
    }
}

proof fn lemma_plain_bytes(w: Seq<char>)
    requires
        forall|i: int| 0 <= i < w.len() ==> #[trigger] w[i] <= '\u{7f}',
    ensures
        byte_len(w) == w.len(),
    decreases w.len(),
{
    if w.len() > 0 {
        let d = w.drop_last();
        assert forall|i: int| 0 <= i < d.len() implies #[trigger] d[i] <= '\u{7f}' by {
            assert(d[i] == w[i]);
        }
        lemma_plain_bytes(d);
        assert(w[w.len() - 1] == w.last());
    }
}

/// A single letter beside a word does not count.
pub proof fn lemma_single_letters_do_not_count(
    name: Seq<char>,
    desc: Seq<char>,
    tags: Seq<char>,
    author: Seq<char>,
    v: Seq<char>,
    c: char,
)
    requires
        v.len() > 1,
        forall|i: int| 0 <= i < v.len() ==> !is_space(#[trigger] v[i]),
        c <= '\u{7f}' && !is_space(c),
    ensures
        answer(name, desc, tags, author, v + seq![' '] + seq![c]).1 == 0,
{
    let w = seq![c];
    lemma_one_word(v);
    lemma_one_word(w);
    lemma_words_around_space(v, ' ', w);
    lemma_byte_len_at_least(v);
    lemma_plain_bytes(w);
    let one = seq![v];
    let two = seq![v, w];
    assert(words(v + seq![' '] + w) =~= two);
    assert(one.drop_last() =~= Seq::<Seq<char>>::empty());
    assert(two.drop_last() =~= one);
    assert(long_only(Seq::<Seq<char>>::empty()) =~= Seq::empty());
    assert(long_only(one) =~= one);
    assert(long_only(two) =~= one);
}

} // verus!

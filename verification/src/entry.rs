//! The directory entry of an app, and its two tab-separated forms.
use vstd::prelude::*;
use vstd::string::StringExecFns;
use crate::text::{is_space, is_trimmed, split_str_n, splitn, texts, trim, trim_end, trimmed};
use crate::text::{lemma_splitn_len, lemma_splitn_none, lemma_splitn_push, lemma_splitn_rest};
use crate::text::lemma_trim_fixed;

verus! {

/// What a directory knows of one app.
#[derive(Debug)]
pub struct App {
    pub name: String,
    pub desc: String,
    pub url: String,
    pub author: String,
    pub tags: String,
    /// A preview of the app's own indexed content: one or more chunks.
    pub doc_snippet: String,
    /// The encoded embedding of the app's text; empty until computed.
    pub vec: String,
    /// The encoded embedding of the app's own indexed content.
    pub doc_vec: String,
}

/// The text of each field of an [`App`].
#[verifier::ext_equal]
pub struct Entry {
    pub name: Seq<char>,
    pub desc: Seq<char>,
    pub url: Seq<char>,
    pub author: Seq<char>,
    pub tags: Seq<char>,
    pub doc_snippet: Seq<char>,
    pub vec: Seq<char>,
    pub doc_vec: Seq<char>,
}

impl View for App {
    type V = Entry;

    open spec fn view(&self) -> Entry {
        Entry {
            name: self.name@,
            desc: self.desc@,
            url: self.url@,
            author: self.author@,
            tags: self.tags@,
            doc_snippet: self.doc_snippet@,
            vec: self.vec@,
            doc_vec: self.doc_vec@,
        }
    }
}

/// The views of a list of apps.
pub open spec fn entries(v: Seq<App>) -> Seq<Entry> {
    Seq::new(v.len(), |i: int| v[i]@)
}

/// The `i`-th field of a row, trimmed; empty where the row has no such field.
pub open spec fn field(p: Seq<Seq<char>>, i: int) -> Seq<char> {
    if 0 <= i < p.len() {
        trimmed(p[i])
    } else {
        Seq::empty()
    }
}

/// Returns the `i`-th field of a row, trimmed.
pub fn field_of(p: &Vec<String>, i: usize) -> (r: String)
    ensures
        r@ == field(texts(p@), i as int),
{
    if i < p.len() {
        assert(texts(p@)[i as int] == p@[i as int]@);
        trim(p[i].as_str())
    } else {
        String::new()
    }
}

/// The public form: six fields, no embeddings.
pub open spec fn tsv(a: Entry) -> Seq<char> {
    a.name + "\t"@ + a.desc + "\t"@ + a.url + "\t"@ + a.author + "\t"@ + a.tags + "\t"@
        + a.doc_snippet
}

/// The wire form: the public form and the two embeddings.
pub open spec fn wire(a: Entry) -> Seq<char> {
    tsv(a) + "\t"@ + a.vec + "\t"@ + a.doc_vec
}

/// The entry in a row of fields, if the row has a name and a URL.
pub open spec fn row_entry(p: Seq<Seq<char>>) -> Option<Entry> {
    if field(p, 0).len() == 0 || field(p, 2).len() == 0 {
        None
    } else {
        Some(
            Entry {
                name: field(p, 0),
                desc: field(p, 1),
                url: field(p, 2),
                author: field(p, 3),
                tags: field(p, 4),
                doc_snippet: field(p, 5),
                vec: field(p, 6),
                doc_vec: field(p, 7),
            },
        )
    }
}

/// What a line in the public form stands for.
pub open spec fn parse_tsv(line: Seq<char>) -> Option<Entry> {
    row_entry(splitn(line, '\t', 6))
}

/// What a line in the wire form stands for.
pub open spec fn parse_wire(line: Seq<char>) -> Option<Entry> {
    row_entry(splitn(line, '\t', 8))
}

/// The view of an optional app.
pub open spec fn maybe_entry(a: Option<App>) -> Option<Entry> {
    match a {
        Some(a) => Some(a@),
        None => None,
    }
}

/// Whether two entries agree in every field that a submitter can edit.
pub open spec fn same_entry_content(a: Entry, b: Entry) -> bool {
    a.name == b.name && a.desc == b.desc && a.author == b.author && a.tags == b.tags
        && a.doc_snippet == b.doc_snippet
}

impl App {
    /// A copy of this entry.
    pub fn copy(&self) -> (r: App)
        ensures
            r@ == self@,
    {
        App {
            name: self.name.clone(),
            desc: self.desc.clone(),
            url: self.url.clone(),
            author: self.author.clone(),
            tags: self.tags.clone(),
            doc_snippet: self.doc_snippet.clone(),
            vec: self.vec.clone(),
            doc_vec: self.doc_vec.clone(),
        }
    }

    /// The public form.
    pub fn to_tsv(&self) -> (r: String)
        ensures
            r@ == tsv(self@),
    {
        let mut s = self.name.clone();
        s.append("\t");
        s.append(self.desc.as_str());
        s.append("\t");
        s.append(self.url.as_str());
        s.append("\t");
        s.append(self.author.as_str());
        s.append("\t");
        s.append(self.tags.as_str());
        s.append("\t");
        s.append(self.doc_snippet.as_str());
        s
    }

    /// The wire form.
    pub fn to_wire(&self) -> (r: String)
        ensures
            r@ == wire(self@),
    {
        let mut s = self.to_tsv();
        s.append("\t");
        s.append(self.vec.as_str());
        s.append("\t");
        s.append(self.doc_vec.as_str());
        s
    }

    /// Reads a row of fields.
    fn from_row(p: &Vec<String>) -> (r: Option<App>)
        ensures
            maybe_entry(r) == row_entry(texts(p@)),
    {
        let name = field_of(p, 0);
        let url = field_of(p, 2);
        if name.as_str().is_empty() || url.as_str().is_empty() {
            return None;
        }
        Some(
            App {
                name,
                desc: field_of(p, 1),
                url,
                author: field_of(p, 3),
                tags: field_of(p, 4),
                doc_snippet: field_of(p, 5),
                vec: field_of(p, 6),
                doc_vec: field_of(p, 7),
            },
        )
    }

    /// Reads the public form.
    pub fn from_tsv(line: &str) -> (r: Option<App>)
        ensures
            maybe_entry(r) == parse_tsv(line@),
    {
        let p = split_str_n(line, '\t', 6);
        App::from_row(&p)
    }

    /// Reads the wire form.
    pub fn from_wire(line: &str) -> (r: Option<App>)
        ensures
            maybe_entry(r) == parse_wire(line@),
    {
        let p = split_str_n(line, '\t', 8);
        App::from_row(&p)
    }

    /// Whether two entries agree in every field that a submitter can edit.
    /// Embeddings do not count: recomputed for the same text, they are no change.
    pub fn same_content(&self, other: &App) -> (r: bool)
        ensures
            r == same_entry_content(self@, other@),
    {
        self.name == other.name && self.desc == other.desc && self.author == other.author
            && self.tags == other.tags && self.doc_snippet == other.doc_snippet
    }
}

/// Whether the fields that a row separates by tabs are free of tabs and of outer
/// white space, and the two that an entry needs are there.
pub open spec fn is_clean(a: Entry) -> bool {
    &&& a.name.len() > 0 && a.url.len() > 0
    &&& is_trimmed(a.name) && is_trimmed(a.desc) && is_trimmed(a.url) && is_trimmed(a.author)
    &&& is_trimmed(a.tags) && is_trimmed(a.doc_snippet)
    &&& !a.name.contains('\t') && !a.desc.contains('\t') && !a.url.contains('\t')
    &&& !a.author.contains('\t') && !a.tags.contains('\t')
}

proof fn lemma_tsv_pieces(a: Entry, n: int)
    requires
        is_clean(a),
        !a.doc_snippet.contains('\t'),
        n >= 6,
    ensures
        splitn(tsv(a), '\t', n) == seq![a.name, a.desc, a.url, a.author, a.tags, a.doc_snippet],
{
    reveal_strlit("\t");
    assert("\t"@ =~= seq!['\t']);
    lemma_splitn_none(a.name, '\t', n);
    let s1 = a.name + "\t"@ + a.desc;
    lemma_splitn_push(a.name, '\t', n, a.desc);
    let s2 = s1 + "\t"@ + a.url;
    lemma_splitn_push(s1, '\t', n, a.url);
    let s3 = s2 + "\t"@ + a.author;
    lemma_splitn_push(s2, '\t', n, a.author);
    let s4 = s3 + "\t"@ + a.tags;
    lemma_splitn_push(s3, '\t', n, a.tags);
    lemma_splitn_push(s4, '\t', n, a.doc_snippet);
    assert(splitn(tsv(a), '\t', n) =~= seq![
        a.name,
        a.desc,
        a.url,
        a.author,
        a.tags,
        a.doc_snippet,
    ]);
}

/// The public form is the name, the description, the address, the author, the tags and the
/// preview, in this order and divided by tabs; the preview may hold more of them.
pub proof fn lemma_tsv_fields(a: Entry)
    requires
        !a.name.contains('\t') && !a.desc.contains('\t') && !a.url.contains('\t'),
        !a.author.contains('\t') && !a.tags.contains('\t'),
    ensures
        splitn(tsv(a), '\t', 6) == seq![a.name, a.desc, a.url, a.author, a.tags, a.doc_snippet],
{
    reveal_strlit("\t");
    assert("\t"@ =~= seq!['\t']);
    lemma_splitn_none(a.name, '\t', 6);
    let s1 = a.name + "\t"@ + a.desc;
    lemma_splitn_push(a.name, '\t', 6, a.desc);
    let s2 = s1 + "\t"@ + a.url;
    lemma_splitn_push(s1, '\t', 6, a.url);
    let s3 = s2 + "\t"@ + a.author;
    lemma_splitn_push(s2, '\t', 6, a.author);
    let s4 = s3 + "\t"@ + a.tags;
    lemma_splitn_push(s3, '\t', 6, a.tags);
    lemma_splitn_rest(s4, '\t', 6, a.doc_snippet);
    assert(splitn(tsv(a), '\t', 6) =~= seq![
        a.name,
        a.desc,
        a.url,
        a.author,
        a.tags,
        a.doc_snippet,
    ]);
}

/// Each field of a row is read into the field of its place, and a row is refused only where
/// its name or its address is missing.
pub proof fn lemma_row_fields(p: Seq<Seq<char>>)
    requires
        p.len() >= 8,
    ensures
        row_entry(p) is None <==> trimmed(p[0]).len() == 0 || trimmed(p[2]).len() == 0,
        row_entry(p) matches Some(e) ==> e.name == trimmed(p[0]) && e.desc == trimmed(p[1]) && e.url
            == trimmed(p[2]) && e.author == trimmed(p[3]) && e.tags == trimmed(p[4])
            && e.doc_snippet == trimmed(p[5]) && e.vec == trimmed(p[6]) && e.doc_vec == trimmed(p[7]),
{
}

/// Two entries have the same content exactly where one becomes the other by its address and
/// its embeddings.
pub proof fn lemma_same_content(a: Entry, b: Entry)
    ensures
        same_entry_content(a, b) <==> (Entry { url: b.url, vec: b.vec, doc_vec: b.doc_vec, ..a })
            == b,
{
}

/// Reading the public form of a clean entry gives back everything but the
/// embeddings, which the public form never carries.
pub proof fn lemma_tsv_round_trip(a: Entry)
    requires
        is_clean(a),
        !a.doc_snippet.contains('\t'),
    ensures
        parse_tsv(tsv(a)) == Some((Entry { vec: Seq::empty(), doc_vec: Seq::empty(), ..a })),
{
    lemma_tsv_pieces(a, 6);
    lemma_trim_fixed(a.name);
    lemma_trim_fixed(a.desc);
    lemma_trim_fixed(a.url);
    lemma_trim_fixed(a.author);
    lemma_trim_fixed(a.tags);
    lemma_trim_fixed(a.doc_snippet);
}

/// Whether all the fields of the wire form are free of tabs and of outer white space.
pub open spec fn is_wire_clean(a: Entry) -> bool {
    &&& is_clean(a)
    &&& !a.doc_snippet.contains('\t') && !a.vec.contains('\t') && !a.doc_vec.contains('\t')
    &&& is_trimmed(a.vec) && is_trimmed(a.doc_vec)
}

/// Reading the wire form of a clean entry gives back the whole entry.
pub proof fn lemma_wire_round_trip(a: Entry)
    requires
        is_wire_clean(a),
    ensures
        parse_wire(wire(a)) == Some(a),
{
    lemma_tsv_pieces(a, 8);
    reveal_strlit("\t");
    assert("\t"@ =~= seq!['\t']);
    lemma_splitn_push(tsv(a), '\t', 8, a.vec);
    lemma_splitn_push(tsv(a) + "\t"@ + a.vec, '\t', 8, a.doc_vec);
    let p = splitn(wire(a), '\t', 8);
    assert(p =~= seq![
        a.name,
        a.desc,
        a.url,
        a.author,
        a.tags,
        a.doc_snippet,
        a.vec,
        a.doc_vec,
    ]);
    lemma_trim_fixed(a.name);
    lemma_trim_fixed(a.desc);
    lemma_trim_fixed(a.url);
    lemma_trim_fixed(a.author);
    lemma_trim_fixed(a.tags);
    lemma_trim_fixed(a.doc_snippet);
    lemma_trim_fixed(a.vec);
    lemma_trim_fixed(a.doc_vec);
}

/// White space at the end of a line changes no field.
pub proof fn lemma_fields_without_trailing_space(s: Seq<char>, n: int, i: int)
    requires
        n >= 1,
    ensures
        field(splitn(trim_end(s), '\t', n), i) == field(splitn(s, '\t', n), i),
    decreases s.len(),
{
    if s.len() > 0 && is_space(s.last()) {
        let d = s.drop_last();
        let p = splitn(d, '\t', n);
        lemma_splitn_len(d, '\t', n);
        lemma_fields_without_trailing_space(d, n, i);
        if s.last() == '\t' && p.len() < n {
            assert(trimmed(Seq::<char>::empty()) =~= Seq::<char>::empty());
            assert(field(p.push(Seq::<char>::empty()), i) == field(p, i));
        } else {
            let longer = p.last().push(s.last());
            assert(longer.drop_last() =~= p.last());
            assert(trimmed(longer) == trimmed(p.last()));
            assert(field(p.drop_last().push(longer), i) == field(p, i));
        }
    }
}

/// White space at the end of a line changes nothing about the entry in it.
pub proof fn lemma_wire_without_trailing_space(s: Seq<char>)
    ensures
        parse_wire(trim_end(s)) == parse_wire(s),
{
    let p = splitn(trim_end(s), '\t', 8);
    let q = splitn(s, '\t', 8);
    assert forall|i: int| #[trigger] field(p, i) == field(q, i) by {
        lemma_fields_without_trailing_space(s, 8, i);
    }
}

/// The public form depends on no embedding.
pub proof fn lemma_tsv_without_vectors(a: Entry, b: Entry)
    requires
        same_entry_content(a, b),
        a.url == b.url,
    ensures
        tsv(a) == tsv(b),
{
}

} // verus!

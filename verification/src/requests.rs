//! What an app asks of its host.
use vstd::prelude::*;
use crate::replies::{err_reply, ok_reply};
use crate::text::{lemma_absent_in_sum, lemma_split_none, lines, lines_of, split_once, texts};

verus! {

/// Something that an app asks of its host. What is answered later carries a number.
pub enum Request {
    Get { id: i32, url: String },
    Post { id: i32, url: String, body: String },
    PostBytes { id: i32, url: String, bytes: Vec<u8> },
    Embed { id: i32, text: String },
    EmbedDoc { id: i32, text: String },
    Navigate { url: String },
}

/// The content of a [`Request`].
pub enum Ask {
    Get(i32, Seq<char>),
    Post(i32, Seq<char>, Seq<char>),
    PostBytes(i32, Seq<char>, Seq<u8>),
    Embed(i32, Seq<char>),
    EmbedDoc(i32, Seq<char>),
    Navigate(Seq<char>),
}

impl View for Request {
    type V = Ask;

    open spec fn view(&self) -> Ask {
        match *self {
            Request::Get { id, url } => Ask::Get(id, url@),
            Request::Post { id, url, body } => Ask::Post(id, url@, body@),
            Request::PostBytes { id, url, bytes } => Ask::PostBytes(id, url@, bytes@),
            Request::Embed { id, text } => Ask::Embed(id, text@),
            Request::EmbedDoc { id, text } => Ask::EmbedDoc(id, text@),
            Request::Navigate { url } => Ask::Navigate(url@),
        }
    }
}

/// The contents of requests.
pub open spec fn asks(v: Seq<Request>) -> Seq<Ask> {
    Seq::new(v.len(), |i: int| v[i]@)
}

/// Adds a request.
pub fn ask(out: &mut Vec<Request>, r: Request)
    ensures
        asks(final(out)@) == asks(old(out)@).push(r@),
{
    let ghost before = asks(out@);
    out.push(r);
    assert(asks(out@) =~= before.push(r@));
}

/// Asks for a page.
pub fn ask_get(out: &mut Vec<Request>, id: i32, url: String)
    ensures
        asks(final(out)@) == asks(old(out)@).push(Ask::Get(id, url@)),
{
    ask(out, Request::Get { id, url });
}

/// Sends a text.
pub fn ask_post(out: &mut Vec<Request>, id: i32, url: String, body: String)
    ensures
        asks(final(out)@) == asks(old(out)@).push(Ask::Post(id, url@, body@)),
{
    ask(out, Request::Post { id, url, body });
}

/// How a request ended.
pub enum Ended {
    Failed,
    Done(String),
}

/// The first line of a text; an empty one where there is none.
pub open spec fn first_line_of(s: Seq<char>) -> Seq<char> {
    if lines(s).len() > 0 {
        lines(s)[0]
    } else {
        Seq::empty()
    }
}

/// Returns the first line of a text.
pub fn first_line(s: &str) -> (r: String)
    ensures
        r@ == first_line_of(s@),
{
    let ls = lines_of(s);
    assert(texts(ls@) == lines(s@));
    if ls.len() > 0 {
        assert(texts(ls@)[0] == ls@[0]@);
        ls[0].clone()
    } else {
        String::new()
    }
}

/// What a node said about a request.
pub enum Verdict {
    Yes(String),
    No(String),
    /// Something else; the line.
    Unclear(String),
}

/// The content of a [`Verdict`].
pub enum Meaning {
    Yes(Seq<char>),
    No(Seq<char>),
    Unclear(Seq<char>),
}

impl View for Verdict {
    type V = Meaning;

    open spec fn view(&self) -> Meaning {
        match *self {
            Verdict::Yes(s) => Meaning::Yes(s@),
            Verdict::No(s) => Meaning::No(s@),
            Verdict::Unclear(s) => Meaning::Unclear(s@),
        }
    }
}

/// What the reply of a node means: "ok" or "err", a tab, and a message.
pub open spec fn meaning(body: Seq<char>) -> Meaning {
    let line = first_line_of(body);
    match crate::text::cut(line, '\t') {
        Some(p) => if p.0 == "ok"@ {
            Meaning::Yes(p.1)
        } else if p.0 == "err"@ {
            Meaning::No(p.1)
        } else {
            Meaning::Unclear(line)
        },
        None => Meaning::Unclear(line),
    }
}

/// Returns what the reply of a node means.
pub fn read_verdict(body: &str) -> (v: Verdict)
    ensures
        v@ == meaning(body@),
{
    let line = first_line(body);
    match split_once(line.as_str(), '\t') {
        Some((word, msg)) => {
            if crate::text::same(word.as_str(), "ok") {
                Verdict::Yes(msg)
            } else if crate::text::same(word.as_str(), "err") {
                Verdict::No(msg)
            } else {
                Verdict::Unclear(line)
            }
        },
        None => Verdict::Unclear(line),
    }
}

/// An app understands what a node replies: a reply that says yes, or no, is taken for it,
/// with its message.
pub proof fn lemma_replies_are_understood(m: Seq<char>)
    requires
        m.len() > 0 && !m.contains('\n'),
    ensures
        meaning(ok_reply(m)) == Meaning::Yes(m),
        meaning(err_reply(m)) == Meaning::No(m),
{
    reveal_strlit("ok\t");
    reveal_strlit("err\t");
    reveal_strlit("ok");
    reveal_strlit("err");
    let y = ok_reply(m);
    let n = err_reply(m);
    assert(!y.contains('\n')) by {
        assert(!"ok\t"@.contains('\n'));
        lemma_absent_in_sum("ok\t"@, m, '\n');
    }
    assert(!n.contains('\n')) by {
        assert(!"err\t"@.contains('\n'));
        lemma_absent_in_sum("err\t"@, m, '\n');
    }
    lemma_split_none(y, '\n');
    lemma_split_none(n, '\n');
    assert(lines(y)[0] == y);
    assert(lines(n)[0] == n);
    assert(y[2] == '\t' && y[0] == 'o' && y[1] == 'k');
    y.index_of_first_ensures('\t');
    assert(y.index_of_first('\t')->0 == 2);
    assert(y.take(2) =~= "ok"@);
    assert(y.skip(3) =~= m);
    assert(n[3] == '\t' && n[0] == 'e' && n[1] == 'r' && n[2] == 'r');
    n.index_of_first_ensures('\t');
    assert(n.index_of_first('\t')->0 == 3);
    assert(n.take(3) =~= "err"@);
    assert(n.skip(4) =~= m);
    assert("err"@[0] == 'e' && "ok"@[0] == 'o');
}

} // verus!

//! Requests that run in the background, and what a guest learns by asking.
use vstd::prelude::*;
use vstd::utf8::{encode_utf8, encode_utf8_decode_utf8, encode_utf8_valid_utf8, valid_utf8};
use crate::slots::Slots;
use crate::storage::{clip, clipped, maybe_text, text_from, utf8_text};

verus! {

/// The most bytes of a reply that a guest reads.
pub const MAX_REPLY: usize = 4194304;

/// How far a request has come.
pub enum FetchResult {
    Pending,
    Done(Vec<u8>),
    Error,
}

/// The content of a [`FetchResult`].
pub enum Fetch {
    Pending,
    Done(Seq<u8>),
    Error,
}

impl View for FetchResult {
    type V = Fetch;

    open spec fn view(&self) -> Fetch {
        match self {
            FetchResult::Pending => Fetch::Pending,
            FetchResult::Done(b) => Fetch::Done(b@),
            FetchResult::Error => Fetch::Error,
        }
    }
}

/// The requests of a guest, by the numbers it chose.
pub type Fetches = Slots<FetchResult>;

/// What a guest learns of a request.
#[derive(Debug)]
pub enum Poll {
    Pending,
    Done(Vec<u8>),
    Failed,
}

/// What a guest learns of a request whose reply is text.
#[derive(Debug)]
pub enum PollStr {
    Pending,
    Done(String),
    Failed,
}

/// What a guest can learn of a request.
pub enum Answer {
    Pending,
    Done(Seq<u8>),
    Failed,
}

/// What a guest can learn of a request whose reply is text.
pub enum TextAnswer {
    Pending,
    Done(Seq<char>),
    Failed,
}

impl View for Poll {
    type V = Answer;

    open spec fn view(&self) -> Answer {
        match self {
            Poll::Pending => Answer::Pending,
            Poll::Done(b) => Answer::Done(b@),
            Poll::Failed => Answer::Failed,
        }
    }
}

impl View for PollStr {
    type V = TextAnswer;

    open spec fn view(&self) -> TextAnswer {
        match self {
            PollStr::Pending => TextAnswer::Pending,
            PollStr::Done(s) => TextAnswer::Done(s@),
            PollStr::Failed => TextAnswer::Failed,
        }
    }
}

/// What a guest learns of request `id`: an unknown one counts as pending.
pub open spec fn answer(m: Map<i32, Fetch>, id: i32) -> Answer {
    if !m.contains_key(id) {
        Answer::Pending
    } else {
        match m[id] {
            Fetch::Pending => Answer::Pending,
            Fetch::Error => Answer::Failed,
            Fetch::Done(b) => Answer::Done(clipped(b, MAX_REPLY as int)),
        }
    }
}

/// The requests after the guest asked for `id`: an answer is given once.
pub open spec fn after_answer(m: Map<i32, Fetch>, id: i32) -> Map<i32, Fetch> {
    if answer(m, id) is Pending {
        m
    } else {
        m.remove(id)
    }
}

/// An answer whose reply is text: bytes that are not valid UTF-8 count as failed.
pub open spec fn text_answer(a: Answer) -> TextAnswer {
    match a {
        Answer::Pending => TextAnswer::Pending,
        Answer::Failed => TextAnswer::Failed,
        Answer::Done(b) => match utf8_text(b) {
            Some(s) => TextAnswer::Done(s),
            None => TextAnswer::Failed,
        },
    }
}

/// Takes note that a request has begun.
pub fn begin(fetches: &mut Fetches, id: i32)
    ensures
        final(fetches)@ == old(fetches)@.insert(id, Fetch::Pending),
{
    fetches.set(id, FetchResult::Pending);
}

/// Takes note of how a request ended: with a reply, or without.
pub fn finish(fetches: &mut Fetches, id: i32, reply: Option<Vec<u8>>)
    ensures
        final(fetches)@ == old(fetches)@.insert(
            id,
            match reply {
                Some(b) => Fetch::Done(b@),
                None => Fetch::Error,
            },
        ),
{
    match reply {
        Some(b) => fetches.set(id, FetchResult::Done(b)),
        None => fetches.set(id, FetchResult::Error),
    }
}

/// Answers a guest that asks for a request. A reply or a failure is handed out once.
pub fn poll_result(fetches: &mut Fetches, id: i32) -> (r: Poll)
    ensures
        final(fetches)@ == after_answer(old(fetches)@, id),
        r@ == answer(old(fetches)@, id),
{
    let pending = match fetches.get(id) {
        None => true,
        Some(f) => match f {
            FetchResult::Pending => true,
            _ => false,
        },
    };
    if pending {
        return Poll::Pending;
    }
    match fetches.take(id) {
        Some(FetchResult::Done(b)) => Poll::Done(clip(&b, MAX_REPLY)),
        _ => Poll::Failed,
    }
}

/// The reply to a request, if it is there.
pub fn poll(fetches: &mut Fetches, id: i32) -> (r: Option<Vec<u8>>)
    ensures
        final(fetches)@ == after_answer(old(fetches)@, id),
        match r {
            Some(b) => answer(old(fetches)@, id) == Answer::Done(b@),
            None => !(answer(old(fetches)@, id) is Done),
        },
{
    match poll_result(fetches, id) {
        Poll::Done(b) => Some(b),
        _ => None,
    }
}

/// The reply to a request as text, if it is there and valid UTF-8.
pub fn poll_str(fetches: &mut Fetches, id: i32) -> (r: Option<String>)
    ensures
        final(fetches)@ == after_answer(old(fetches)@, id),
        match r {
            Some(s) => text_answer(answer(old(fetches)@, id)) == TextAnswer::Done(s@),
            None => !(text_answer(answer(old(fetches)@, id)) is Done),
        },
{
    match poll(fetches, id) {
        Some(b) => text_from(b),
        None => None,
    }
}

/// Answers a guest that asks for a request whose reply is text.
pub fn poll_result_str(fetches: &mut Fetches, id: i32) -> (r: PollStr)
    ensures
        final(fetches)@ == after_answer(old(fetches)@, id),
        r@ == text_answer(answer(old(fetches)@, id)),
{
    match poll_result(fetches, id) {
        Poll::Pending => PollStr::Pending,
        Poll::Failed => PollStr::Failed,
        Poll::Done(b) => match text_from(b) {
            Some(s) => PollStr::Done(s),
            None => PollStr::Failed,
        },
    }
}

/// What a guest gets of a reply that it waited for.
pub fn fetch(reply: &Option<Vec<u8>>) -> (r: Option<Vec<u8>>)
    ensures
        match r {
            Some(b) => reply is Some && b@ == clipped(reply->0@, MAX_REPLY as int),
            None => reply is None,
        },
{
    match reply {
        Some(b) => Some(clip(b, MAX_REPLY)),
        None => None,
    }
}

/// What a guest gets of a reply that it waited for, as text.
pub fn fetch_str(reply: &Option<Vec<u8>>) -> (r: Option<String>)
    ensures
        maybe_text(r) == match reply {
            Some(b) => utf8_text(clipped(b@, MAX_REPLY as int)),
            None => None,
        },
{
    match fetch(reply) {
        Some(b) => text_from(b),
        None => None,
    }
}

/// A reply is handed out once: the guest that asks again hears that nothing is
/// there yet.
pub proof fn lemma_answered_once(m: Map<i32, Fetch>, id: i32)
    ensures
        answer(after_answer(m, id), id) is Pending,
{
}

/// Asking for one request changes nothing about another.
pub proof fn lemma_answers_independent(m: Map<i32, Fetch>, id: i32, other: i32)
    requires
        id != other,
    ensures
        answer(after_answer(m, id), other) == answer(m, other),
{
}

/// A request that was begun has no answer until it is finished; then its answer is the reply
/// as far as it is kept, or that there was none.
pub proof fn lemma_reply_is_the_answer(m: Map<i32, Fetch>, id: i32, reply: Seq<u8>)
    ensures
        answer(m.insert(id, Fetch::Pending), id) == Answer::Pending,
        after_answer(m.insert(id, Fetch::Pending), id).contains_key(id),
        answer(m.insert(id, Fetch::Error), id) == Answer::Failed,
        reply.len() <= 4194304 ==> answer(m.insert(id, Fetch::Done(reply)), id) == Answer::Done(
            reply,
        ),
        reply.len() > 4194304 ==> answer(m.insert(id, Fetch::Done(reply)), id) == Answer::Done(
            reply.take(4194304),
        ),
        !after_answer(m.insert(id, Fetch::Done(reply)), id).contains_key(id),
        !after_answer(m.insert(id, Fetch::Error), id).contains_key(id),
{
}

/// A reply is read as text exactly where it is text.
pub proof fn lemma_reply_is_read_as_text(s: Seq<char>, b: Seq<u8>)
    ensures
        text_answer(Answer::Done(encode_utf8(s))) == TextAnswer::Done(s),
        !valid_utf8(b) ==> text_answer(Answer::Done(b)) == TextAnswer::Failed,
        text_answer(Answer::Pending) == TextAnswer::Pending,
        text_answer(Answer::Failed) == TextAnswer::Failed,
{
    encode_utf8_valid_utf8(s);
    encode_utf8_decode_utf8(s);
}

} // verus!

//! Embeddings that a guest asks for: answered like any other request.
use vstd::prelude::*;
use crate::net::{after_answer, answer, text_answer, Fetches, PollStr, TextAnswer};

verus! {

/// The embedding that a guest asked for, if it is there.
pub fn poll_str(fetches: &mut Fetches, id: i32) -> (r: Option<String>)
    ensures
        final(fetches)@ == after_answer(old(fetches)@, id),
        match r {
            Some(s) => text_answer(answer(old(fetches)@, id)) == TextAnswer::Done(s@),
            None => !(text_answer(answer(old(fetches)@, id)) is Done),
        },
{
    crate::net::poll_str(fetches, id)
}

/// Answers a guest that asks for its embedding.
pub fn poll_result_str(fetches: &mut Fetches, id: i32) -> (r: PollStr)
    ensures
        final(fetches)@ == after_answer(old(fetches)@, id),
        r@ == text_answer(answer(old(fetches)@, id)),
{
    crate::net::poll_result_str(fetches, id)
}

} // verus!

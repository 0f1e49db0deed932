//! The replies of the server's endpoints: a word, a tab and a message.
use vstd::prelude::*;
use vstd::string::StringExecFns;

verus! {

/// The reply that says yes.
pub open spec fn ok_reply(msg: Seq<char>) -> Seq<char> {
    "ok\t"@ + msg
}

/// The reply that says no.
pub open spec fn err_reply(msg: Seq<char>) -> Seq<char> {
    "err\t"@ + msg
}

/// Returns the reply that says yes.
pub fn ok(msg: &str) -> (r: String)
    ensures
        r@ == ok_reply(msg@),
{
    let mut s = "ok\t".to_owned();
    s.append(msg);
    s
}

/// Returns the reply that says no.
pub fn err(msg: &str) -> (r: String)
    ensures
        r@ == err_reply(msg@),
{
    let mut s = "err\t".to_owned();
    s.append(msg);
    s
}

/// No reply says both.
pub proof fn lemma_replies_differ(a: Seq<char>, b: Seq<char>)
    ensures
        ok_reply(a) != err_reply(b),
{
    reveal_strlit("ok\t");
    reveal_strlit("err\t");
    assert(ok_reply(a)[0] == 'o');
    assert(err_reply(b)[0] == 'e');
}

} // verus!

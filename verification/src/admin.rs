//! The password and the sessions that guard a node's administration, and the switch for
//! semantic search.
use vstd::prelude::*;
use crate::names::{add_name, distinct, has_name, with_name};
use crate::names::lemma_with_name;
use crate::node::{is_hex_char, random_hex};
use crate::replies::{err, err_reply, ok, ok_reply};
use crate::text::{begins_with, from_utf8_lossy, is_trimmed, same, texts, trim, trimmed, utf8_lossy};
use crate::text::lemma_trim_fixed;

verus! {

// ── Password hashes ──────────────────────────────────────────────────────────

/// The name for what `bcrypt::verify` returns: whether a password is the one that a
/// hash was made of, or nothing where the hash is none.
pub uninterp spec fn bcrypt_verdict(password: Seq<char>, hash: Seq<char>) -> Option<bool>;

/// Calls `bcrypt::hash` at the default cost. The salt is random, so the hash is not
/// fixed by the password; but the password is verified against it, and it has no outer
/// white space. Whether there is one depends on the machine's source of randomness.
#[verifier::external_body]
fn bcrypt_hash(password: &str) -> (r: Option<String>)
    ensures
        r matches Some(h) ==> bcrypt_verdict(password@, h@) == Some(true) && is_trimmed(h@)
            && h@.len() > 0,
{
    bcrypt::hash(password, bcrypt::DEFAULT_COST).ok()
}

/// Calls `bcrypt::verify`, whose result depends on the password and the hash alone; the
/// error is dropped.
#[verifier::external_body]
fn bcrypt_verify(password: &str, hash: &str) -> (r: Option<bool>)
    ensures
        r == bcrypt_verdict(password@, hash@),
{
    bcrypt::verify(password, hash).ok()
}

// ── Setting the password ─────────────────────────────────────────────────────

/// The fewest characters of a password.
pub const MIN_PASSWORD: usize = 8;

/// What a request to set the password comes to.
pub enum Setup {
    /// It is refused, with this reply.
    Refused(String),
    /// This hash is to be stored.
    Store(String),
}

/// The password in a request body.
pub open spec fn password_in(body: Seq<u8>) -> Seq<char> {
    trimmed(utf8_lossy(body))
}

/// Why a password cannot be set, before it is hashed.
pub open spec fn setup_obstacle(password: Seq<char>, has_password: bool) -> Option<Seq<char>> {
    if password.len() < MIN_PASSWORD {
        Some("password must be at least 8 characters"@)
    } else if has_password {
        Some("an admin password is already set"@)
    } else {
        None
    }
}

/// Whether an answer is what a request to set a password comes to, given its hash.
pub open spec fn is_setup(
    r: Setup,
    password: Seq<char>,
    has_password: bool,
    hashed: Option<Seq<char>>,
) -> bool {
    match setup_obstacle(password, has_password) {
        Some(m) => r matches Setup::Refused(x) && x@ == err_reply(m),
        None => match hashed {
            Some(h) => r matches Setup::Store(x) && x@ == h,
            None => r matches Setup::Refused(x) && x@ == err_reply("could not hash password"@),
        },
    }
}

/// Decides on a request to set the password, given its hash.
pub fn setup_given(password: &str, has_password: bool, hashed: Option<String>) -> (r: Setup)
    ensures
        is_setup(
            r,
            password@,
            has_password,
            match hashed {
                Some(h) => Some(h@),
                None => None,
            },
        ),
{
    if password.unicode_len() < MIN_PASSWORD {
        return Setup::Refused(err("password must be at least 8 characters"));
    }
    if has_password {
        return Setup::Refused(err("an admin password is already set"));
    }
    match hashed {
        Some(h) => Setup::Store(h),
        None => Setup::Refused(err("could not hash password")),
    }
}

/// Decides on a request to set the password: once, and not too short. The password is
/// hashed only where nothing stands in the way.
pub fn setup(body: &Vec<u8>, has_password: bool) -> (r: Setup)
    ensures
        exists|hashed: Option<Seq<char>>|
            #![trigger is_setup(r, password_in(body@), has_password, hashed)]
            is_setup(r, password_in(body@), has_password, hashed) && (hashed matches Some(h)
                ==> bcrypt_verdict(password_in(body@), h) == Some(true) && is_trimmed(h)),
{
    let raw = from_utf8_lossy(body);
    let password = trim(raw.as_str());
    if password.as_str().unicode_len() < MIN_PASSWORD || has_password {
        let r = setup_given(password.as_str(), has_password, None);
        assert(is_setup(r, password_in(body@), has_password, None));
        return r;
    }
    let hashed = bcrypt_hash(password.as_str());
    let ghost h = match &hashed {
        Some(h) => Some(h@),
        None => None,
    };
    let r = setup_given(password.as_str(), has_password, hashed);
    assert(is_setup(r, password_in(body@), has_password, h));
    r
}

// ── Sessions ─────────────────────────────────────────────────────────────────

/// How many digits a session's token has.
pub const TOKEN_LEN: usize = 32;

/// Whether a token is one of those that were handed out. The empty one never is.
pub open spec fn is_session(sessions: Seq<Seq<char>>, token: Seq<char>) -> bool {
    token.len() > 0 && sessions.contains(token)
}

/// Whether a token is one of those that were handed out.
pub fn authorized(sessions: &Vec<String>, token: &str) -> (r: bool)
    ensures
        r == is_session(texts(sessions@), token@),
{
    !token.is_empty() && has_name(sessions, token)
}

/// Hands out a token.
pub fn grant(sessions: &mut Vec<String>, token: String) -> (reply: String)
    requires
        distinct(texts(old(sessions)@)),
    ensures
        texts(final(sessions)@) == with_name(texts(old(sessions)@), token@),
        distinct(texts(final(sessions)@)),
        reply@ == ok_reply(token@),
{
    proof {
        lemma_with_name(texts(sessions@), token@);
    }
    let reply = ok(token.as_str());
    let _ = add_name(sessions, token);
    reply
}

/// Whether a reply hands out a fresh token, and the sessions are those before with it.
pub open spec fn granted(before: Seq<Seq<char>>, after: Seq<Seq<char>>, reply: Seq<char>) -> bool {
    exists|token: Seq<char>|
        #![trigger with_name(before, token)]
        after == with_name(before, token) && reply == ok_reply(token) && token.len() == TOKEN_LEN
            && (forall|i: int| 0 <= i < token.len() ==> is_hex_char(#[trigger] token[i]))
}

/// Hands out a fresh token.
pub fn grant_fresh(sessions: &mut Vec<String>) -> (reply: String)
    requires
        distinct(texts(old(sessions)@)),
    ensures
        granted(texts(old(sessions)@), texts(final(sessions)@), reply@),
        distinct(texts(final(sessions)@)),
{
    let ghost before = texts(sessions@);
    let token = random_hex(TOKEN_LEN);
    let ghost t = token@;
    let reply = grant(sessions, token);
    assert(texts(sessions@) == with_name(before, t));
    reply
}

/// Goes on with setting the password, once it is known whether the hash was stored.
pub fn setup_stored(sessions: &mut Vec<String>, stored: bool) -> (reply: String)
    requires
        distinct(texts(old(sessions)@)),
    ensures
        distinct(texts(final(sessions)@)),
        stored ==> granted(texts(old(sessions)@), texts(final(sessions)@), reply@),
        !stored ==> texts(final(sessions)@) == texts(old(sessions)@) && reply@ == err_reply(
            "could not save password"@,
        ),
{
    if !stored {
        return err("could not save password");
    }
    grant_fresh(sessions)
}

/// Whether a login is let in: a password is set, and this is it.
pub open spec fn lets_in(password: Seq<char>, stored: Option<Seq<char>>) -> bool {
    stored matches Some(h) && bcrypt_verdict(password, trimmed(h)) == Some(true)
}

/// Decides on a login, given what checking the password said.
pub fn login_given(
    sessions: &mut Vec<String>,
    has_password: bool,
    verdict: Option<bool>,
) -> (reply: String)
    requires
        distinct(texts(old(sessions)@)),
    ensures
        distinct(texts(final(sessions)@)),
        has_password && verdict == Some(true) ==> granted(
            texts(old(sessions)@),
            texts(final(sessions)@),
            reply@,
        ),
        !(has_password && verdict == Some(true)) ==> texts(final(sessions)@) == texts(
            old(sessions)@,
        ) && reply@ == err_reply(
            if has_password {
                "wrong password"@
            } else {
                "no admin password set yet"@
            },
        ),
{
    if !has_password {
        return err("no admin password set yet");
    }
    match verdict {
        Some(true) => grant_fresh(sessions),
        _ => err("wrong password"),
    }
}

/// Decides on a login. `stored` is what the file with the hash holds.
pub fn login(sessions: &mut Vec<String>, body: &Vec<u8>, stored: &Option<String>) -> (reply: String)
    requires
        distinct(texts(old(sessions)@)),
    ensures
        distinct(texts(final(sessions)@)),
        ({
            let s = match stored {
                Some(h) => Some(h@),
                None => None,
            };
            if lets_in(password_in(body@), s) {
                granted(texts(old(sessions)@), texts(final(sessions)@), reply@)
            } else {
                texts(final(sessions)@) == texts(old(sessions)@) && reply@ == err_reply(
                    if s is Some {
                        "wrong password"@
                    } else {
                        "no admin password set yet"@
                    },
                )
            }
        }),
{
    let raw = from_utf8_lossy(body);
    let password = trim(raw.as_str());
    match stored {
        None => login_given(sessions, false, None),
        Some(h) => {
            let verdict = bcrypt_verify(password.as_str(), trim(h.as_str()).as_str());
            login_given(sessions, true, verdict)
        },
    }
}

/// The reply to a request without a session.
pub fn unauthorized() -> (r: String)
    ensures
        r@ == "unauthorized"@,
{
    "unauthorized".to_owned()
}

/// The reply that says whether a password is set.
pub fn status_reply(has_password: bool) -> (r: String)
    ensures
        r@ == if has_password {
            "1"@
        } else {
            "0"@
        },
{
    if has_password {
        "1".to_owned()
    } else {
        "0".to_owned()
    }
}

/// A token that was handed out is let through, and so are all that were before.
pub proof fn lemma_granted_is_session(
    before: Seq<Seq<char>>,
    token: Seq<char>,
    other: Seq<char>,
)
    requires
        distinct(before),
        token.len() > 0,
    ensures
        is_session(with_name(before, token), token),
        is_session(before, other) ==> is_session(with_name(before, token), other),
        other != token && !is_session(before, other) ==> !is_session(with_name(before, token), other),
{
    lemma_with_name(before, token);
}

/// Nobody is let through before a token was handed out.
pub proof fn lemma_no_session_at_first(token: Seq<char>)
    ensures
        !is_session(Seq::empty(), token),
{
}

/// Whoever set the password is let in with it.
pub proof fn lemma_own_password_lets_in(password: Seq<char>, hash: Seq<char>)
    requires
        bcrypt_verdict(password, hash) == Some(true),
        is_trimmed(hash),
    ensures
        lets_in(password, Some(hash)),
{
    lemma_trim_fixed(hash);
}

/// A password is set once: with one in place every request is refused.
pub proof fn lemma_password_is_set_once(r: Setup, password: Seq<char>, hashed: Option<Seq<char>>)
    requires
        is_setup(r, password, true, hashed),
    ensures
        r is Refused,
{
}

// ── The switch for semantic search ───────────────────────────────────────────

/// Whether semantic search is on when a node starts: unless its file says otherwise.
pub fn ai_at_start(file: &Option<String>) -> (on: bool)
    ensures
        on == match file {
            Some(s) => trimmed(s@) != "0"@,
            None => true,
        },
{
    match file {
        Some(s) => !same(trim(s.as_str()).as_str(), "0"),
        None => true,
    }
}

/// What a request to flip the switch asks for.
pub open spec fn switch_asked(body: Seq<char>) -> Option<bool> {
    if trimmed(body) == "1"@ {
        Some(true)
    } else if trimmed(body) == "0"@ {
        Some(false)
    } else {
        None
    }
}

/// Returns what a request to flip the switch asks for.
pub fn read_switch(body: &str) -> (r: Option<bool>)
    ensures
        r == switch_asked(body@),
{
    let t = trim(body);
    if same(t.as_str(), "1") {
        Some(true)
    } else if same(t.as_str(), "0") {
        Some(false)
    } else {
        None
    }
}

/// Flips the switch. Returns the reply, and what to store in the switch's file.
pub fn set_ai(on: &mut bool, body: &Vec<u8>) -> (r: (String, Option<String>))
    ensures
        match switch_asked(utf8_lossy(body@)) {
            None => *final(on) == *old(on) && r.0@ == err_reply("expected \"1\" or \"0\""@)
                && r.1 is None,
            Some(b) => *final(on) == b && r.0@ == ok_reply(
                if b {
                    "AI enabled"@
                } else {
                    "AI disabled"@
                },
            ) && r.1 is Some && r.1->0@ == if b {
                "1"@
            } else {
                "0"@
            },
        },
{
    let raw = from_utf8_lossy(body);
    match read_switch(raw.as_str()) {
        None => (err("expected \"1\" or \"0\""), None),
        Some(b) => {
            *on = b;
            if b {
                (ok("AI enabled"), Some("1".to_owned()))
            } else {
                (ok("AI disabled"), Some("0".to_owned()))
            }
        },
    }
}

/// The reply that says whether the switch is on.
pub fn ai_reply(on: bool) -> (r: String)
    ensures
        r@ == if on {
            "1"@
        } else {
            "0"@
        },
{
    if on {
        "1".to_owned()
    } else {
        "0".to_owned()
    }
}

/// The text to embed: none while the switch is off.
pub fn to_embed(on: bool, text: String) -> (r: Option<String>)
    ensures
        match r {
            Some(t) => on && t@ == text@,
            None => !on,
        },
{
    if on {
        Some(text)
    } else {
        None
    }
}

/// What flipping the switch stores is what the node starts with.
pub proof fn lemma_switch_survives_restart(b: bool)
    ensures
        b == (trimmed(
            if b {
                "1"@
            } else {
                "0"@
            },
        ) != "0"@),
{
    reveal_strlit("1");
    reveal_strlit("0");
    lemma_trim_fixed("1"@);
    lemma_trim_fixed("0"@);
    assert("1"@[0] != "0"@[0]);
}

// ── Which routes are guarded ─────────────────────────────────────────────────

/// The routes that need a session.
pub open spec fn is_guarded(path: Seq<char>) -> bool {
    ||| path == "/api/mine"@ || path == "/api/peers"@ || path == "/api/peers/active"@
    ||| path == "/api/revoke"@ || path == "/api/peer/connect"@ || path == "/api/peer/remove"@
    ||| path == "/api/directory"@ || path == "/api/directory/publish"@
    ||| path == "/api/directory/unpublish"@ || path == "/api/directory/refresh"@
    ||| path == "/api/admin/ai"@
}

/// Whether a route needs a session.
pub fn guarded(path: &str) -> (r: bool)
    ensures
        r == is_guarded(path@),
{
    same(path, "/api/mine") || same(path, "/api/peers") || same(path, "/api/peers/active") || same(
        path,
        "/api/revoke",
    ) || same(path, "/api/peer/connect") || same(path, "/api/peer/remove") || same(
        path,
        "/api/directory",
    ) || same(path, "/api/directory/publish") || same(path, "/api/directory/unpublish") || same(
        path,
        "/api/directory/refresh",
    ) || same(path, "/api/admin/ai")
}

/// Whether a request is served: any request for an open route, and one with a session
/// for a guarded one.
pub fn admits(path: &str, sessions: &Vec<String>, token: &str) -> (r: bool)
    ensures
        r == (!is_guarded(path@) || is_session(texts(sessions@), token@)),
{
    !guarded(path) || authorized(sessions, token)
}

/// Whether a route is the operator's: what was published here, the peers, the directory,
/// delisting and the switch of the embeddings.
pub open spec fn is_for_the_operator(path: Seq<char>) -> bool {
    ||| begins_with(path, "/api/peer"@) || begins_with(path, "/api/directory"@)
    ||| path == "/api/mine"@ || path == "/api/revoke"@ || path == "/api/admin/ai"@
}

/// Nothing but what is the operator's needs a session: each of the operator's routes does,
/// and what an app asks of a node on behalf of anyone does not.
pub proof fn lemma_only_the_operator_needs_a_session(path: Seq<char>)
    ensures
        is_guarded(path) ==> is_for_the_operator(path),
        is_guarded("/api/mine"@),
        is_guarded("/api/peers"@),
        is_guarded("/api/peers/active"@),
        is_guarded("/api/revoke"@),
        is_guarded("/api/peer/connect"@),
        is_guarded("/api/peer/remove"@),
        is_guarded("/api/directory"@),
        is_guarded("/api/directory/publish"@),
        is_guarded("/api/directory/unpublish"@),
        is_guarded("/api/directory/refresh"@),
        is_guarded("/api/admin/ai"@),
        !is_guarded("/api/apps"@),
        !is_guarded("/api/search"@),
        !is_guarded("/api/search/debug"@),
        !is_guarded("/api/submit"@),
        !is_guarded("/api/upload"@),
        !is_guarded("/api/stats"@),
        !is_guarded("/api/reviews"@),
        !is_guarded("/api/rate"@),
        !is_guarded("/api/open"@),
        !is_guarded("/api/admin/status"@),
        !is_guarded("/api/admin/setup"@),
        !is_guarded("/api/admin/login"@),
{
    reveal_strlit("/api/peer");
    reveal_strlit("/api/directory");
    reveal_strlit("/api/mine");
    reveal_strlit("/api/peers");
    reveal_strlit("/api/peers/active");
    reveal_strlit("/api/revoke");
    reveal_strlit("/api/peer/connect");
    reveal_strlit("/api/peer/remove");
    reveal_strlit("/api/directory/publish");
    reveal_strlit("/api/directory/unpublish");
    reveal_strlit("/api/directory/refresh");
    reveal_strlit("/api/admin/ai");
    lemma_begins(path, "/api/peer"@, "/api/peers"@);
    lemma_begins(path, "/api/peer"@, "/api/peers/active"@);
    lemma_begins(path, "/api/peer"@, "/api/peer/connect"@);
    lemma_begins(path, "/api/peer"@, "/api/peer/remove"@);
    lemma_begins(path, "/api/directory"@, "/api/directory"@);
    lemma_begins(path, "/api/directory"@, "/api/directory/publish"@);
    lemma_begins(path, "/api/directory"@, "/api/directory/unpublish"@);
    lemma_begins(path, "/api/directory"@, "/api/directory/refresh"@);
    reveal_strlit("/api/apps");
    reveal_strlit("/api/search");
    reveal_strlit("/api/search/debug");
    reveal_strlit("/api/submit");
    reveal_strlit("/api/upload");
    reveal_strlit("/api/stats");
    reveal_strlit("/api/reviews");
    reveal_strlit("/api/rate");
    reveal_strlit("/api/open");
    reveal_strlit("/api/admin/status");
    reveal_strlit("/api/admin/setup");
    reveal_strlit("/api/admin/login");
    assert("/api/apps"@[5] == 'a' && "/api/search"@[5] == 's' && "/api/search/debug"@[5] == 's');
    assert("/api/submit"@[5] == 's' && "/api/upload"@[5] == 'u' && "/api/stats"@[5] == 's');
    assert("/api/reviews"@.len() == 12 && "/api/rate"@.len() == 9 && "/api/open"@.len() == 9);
    assert("/api/admin/status"@.len() == 17 && "/api/admin/setup"@.len() == 16);
    assert("/api/rate"@[5] == 'r' && "/api/open"@[5] == 'o' && "/api/mine"@[5] == 'm');
    assert("/api/admin/status"@[5] == 'a' && "/api/admin/setup"@[5] == 'a');
    assert("/api/admin/login"@[5] == 'a' && "/api/peer/remove"@[5] == 'p');
    assert("/api/peers/active"@[5] == 'p' && "/api/peer/connect"@[5] == 'p');
    assert("/api/admin/login"@.len() == 16 && "/api/admin/ai"@.len() == 13);
}

proof fn lemma_begins(path: Seq<char>, start: Seq<char>, whole: Seq<char>)
    requires
        start.len() <= whole.len(),
        forall|i: int| 0 <= i < start.len() ==> start[i] == whole[i],
    ensures
        path == whole ==> begins_with(path, start),
{
    if path == whole {
        assert(path.subrange(0, start.len() as int) =~= start);
    }
}

/// Whoever is let in gets a new session of thirty-two hexadecimal digits, by which they are
/// known from then on, and every session from before stays.
pub proof fn lemma_session_is_granted(before: Seq<Seq<char>>, after: Seq<Seq<char>>, reply: Seq<char>)
    requires
        granted(before, after, reply),
    ensures
        ({
            let token = reply.skip(3);
            &&& reply == ok_reply(token)
            &&& token.len() == 32
            &&& forall|i: int|
                0 <= i < token.len() ==> '0' <= #[trigger] token[i] <= '9' || 'a' <= token[i] <= 'f'
            &&& is_session(after, token)
            &&& forall|t: Seq<char>| is_session(before, t) ==> #[trigger] is_session(after, t)
            &&& forall|t: Seq<char>|
                t != token && !is_session(before, t) ==> !(#[trigger] is_session(after, t))
        }),
{
    let token = choose|token: Seq<char>|
        #![trigger with_name(before, token)]
        after == with_name(before, token) && reply == ok_reply(token) && token.len() == TOKEN_LEN
            && (forall|i: int| 0 <= i < token.len() ==> is_hex_char(#[trigger] token[i]));
    reveal_strlit("ok\t");
    assert(reply.skip(3) =~= token);
    assert(after.contains(token)) by {
        if !before.contains(token) {
            assert(after[after.len() - 1] == token);
        }
    }
    assert forall|t: Seq<char>| is_session(before, t) implies #[trigger] is_session(after, t) by {
        let i = choose|i: int| 0 <= i < before.len() && before[i] == t;
        assert(after[i] == t);
    }
    assert forall|t: Seq<char>| t != token && !is_session(before, t) implies !(
    #[trigger] is_session(after, t)) by {
        if is_session(after, t) {
            let i = choose|i: int| 0 <= i < after.len() && after[i] == t;
            if i < before.len() {
                assert(before[i] == t);
            }
        }
    }
}

} // verus!

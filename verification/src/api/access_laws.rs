//! Who is let in: what logins, sessions and keys do for requests.
use vstd::prelude::*;
use vstd::string::*;

use crate::api::auth::{
    argon2_accepts, credential, elapsed, hex_text, live_sessions, login_refusal, refilled, session_valid, LOGIN_BURST,
    SESSION_TTL, TOKEN,
};
use crate::api::middleware::{may_pass, sessions_after};
use crate::api::settings::{empty_password, hash_for, SettingsPatch};
use crate::config::secret;
use crate::error::Result;
use crate::lru_cache::later;
use crate::text;
use crate::text::{flat_map, trim};

verus! {

/// A request passes exactly if nothing is asked for, or if it carries the token of a session
/// that has not ended where a password is set, or the right key where a key is set.
pub proof fn requests_pass_with_a_credential(
    password: Option<Seq<char>>,
    key: Option<Seq<char>>,
    sessions: Map<Seq<char>, u64>,
    token: Option<Seq<char>>,
    provided: Option<Seq<char>>,
    now: u64,
)
    ensures
        password is None && key is None ==> may_pass(password, key, sessions, token, provided, now),
        password is Some && (token matches Some(t) && sessions.dom().contains(t) && now < sessions[t]) ==> may_pass(
            password,
            key,
            sessions,
            token,
            provided,
            now,
        ),
        key is Some && provided == key ==> may_pass(password, key, sessions, token, provided, now),
        (password is Some || key is Some) && (key is None || provided != key) && (password is None || token is None
            || !sessions.dom().contains(token->0) || sessions[token->0] <= now) ==> !may_pass(
            password,
            key,
            sessions,
            token,
            provided,
            now,
        ),
{
}

/// A request with a token that has ended forgets that session and no other; any other
/// request leaves the sessions as they are.
pub proof fn ended_sessions_are_forgotten(
    sessions: Map<Seq<char>, u64>,
    password_set: bool,
    token: Option<Seq<char>>,
    now: u64,
    other: Seq<char>,
)
    ensures
        ({
            let after = sessions_after(sessions, password_set, token, now);
            &&& token != Some(other) || !password_set || (sessions.dom().contains(other) && sessions[other] > now)
                ==> after.dom().contains(other) == sessions.dom().contains(other) && (sessions.dom().contains(other)
                ==> after[other] == sessions[other])
            &&& password_set && token == Some(other) && sessions.dom().contains(other) && sessions[other] <= now
                ==> !after.dom().contains(other)
        }),
        ({
            let live = live_sessions(sessions, now);
            &&& live.dom().contains(other) <==> sessions.dom().contains(other) && now < sessions[other]
            &&& live.dom().contains(other) ==> live[other] == sessions[other]
        }),
        session_valid(sessions, token, now) <==> token is Some && sessions.dom().contains(token->0) && now
            < sessions[token->0],
{
}

/// A credential comes from the header of its own, and else from a bearer authorization.
pub proof fn credentials_come_from_headers(own: Option<Seq<char>>, t: Seq<char>, other: Seq<char>)
    ensures
        own is Some ==> credential(own, Some("Bearer "@ + t)) == own && credential(own, None) == own,
        credential(None, Some("Bearer "@ + t)) == Some(t),
        credential(None, None) is None,
        !"Bearer "@.is_prefix_of(other) ==> credential(None, Some(other)) is None,
{
    reveal_strlit("Bearer ");
    let a = "Bearer "@ + t;
    assert(a.subrange(0, 7) =~= "Bearer "@);
    assert(a.skip(7) =~= t);
}

/// A full allowance is ten attempts, and five come back in a second: after a pause of
/// `nanos` nanoseconds there are as many as before and those, but no more than ten. An
/// attempt counts a thousand million.
pub proof fn attempts_come_back(level: u64, nanos: nat, from: u64, to: u64)
    requires
        level <= 10_000_000_000,
    ensures
        level + nanos * 5 <= 10_000_000_000 ==> refilled(level, nanos) == level + nanos * 5,
        level + nanos * 5 > 10_000_000_000 ==> refilled(level, nanos) == 10_000_000_000,
        from <= to ==> elapsed(from, to) == to - from,
        to < from ==> elapsed(from, to) == 0,
        LOGIN_BURST == 10 && TOKEN == 1_000_000_000,
{
}

/// A login is refused to whoever tries too often, where no password is set, and for a
/// wrong password, each with its own error; with the right password it is not refused.
pub proof fn logins_are_refused_for_a_reason(may_try: bool, hash: Option<Seq<char>>, password: Seq<char>, r: Result<()>)
    requires
        login_refusal(may_try, hash, password, r),
    ensures
        r is Ok <==> may_try && (hash matches Some(h) && argon2_accepts(password, h)),
        !may_try ==> r is Err && r->Err_0 is RateLimited,
        may_try && hash is None ==> r is Err && r->Err_0 is Config,
        may_try && (hash matches Some(h) && !argon2_accepts(password, h)) ==> r is Err && r->Err_0 is Unauthorized,
{
}

/// A secret is set where it is there and not blank, and counts without blanks around it.
pub proof fn blank_secrets_are_none(s: Option<Seq<char>>)
    ensures
        s is None ==> secret(s) is None,
        s matches Some(t) ==> (trim(t).len() == 0 ==> secret(s) is None) && (trim(t).len() > 0 ==> secret(s) == Some(
            trim(t),
        )),
{
}

/// Bytes are written with two digits each, the high one first, in lower case.
pub proof fn bytes_are_written_in_hexadecimal(bytes: Seq<u8>, i: int)
    requires
        0 <= i < bytes.len(),
    ensures
        hex_text(bytes).len() == 2 * bytes.len(),
        hex_text(bytes)[2 * i] == "0123456789abcdef"@[bytes[i] as int / 16],
        hex_text(bytes)[2 * i + 1] == "0123456789abcdef"@[bytes[i] as int % 16],
    decreases bytes.len(),
{
    let f = |b: u8| crate::clients::hex2(b);
    let t = bytes.drop_last();
    let last = bytes.last();
    assert(hex_text(bytes) == flat_map(t, f) + f(last));
    lemma_hex_len(t);
    lemma_digits((last / 16) as nat);
    lemma_digits((last % 16) as nat);
    if i < t.len() {
        bytes_are_written_in_hexadecimal(t, i);
        assert(t[i] == bytes[i]);
    }
}

proof fn lemma_hex_len(bytes: Seq<u8>)
    ensures
        hex_text(bytes).len() == 2 * bytes.len(),
    decreases bytes.len(),
{
    if bytes.len() > 0 {
        lemma_hex_len(bytes.drop_last());
    }
}

proof fn lemma_digits(d: nat)
    requires
        d < 16,
    ensures
        text::digit_char(d) == "0123456789abcdef"@[d as int],
{
    reveal_strlit("0123456789abcdef");
    let s = "0123456789abcdef"@;
    assert(s[0] == '0' && s[1] == '1' && s[2] == '2' && s[3] == '3' && s[4] == '4' && s[5] == '5' && s[6] == '6');
    assert(s[7] == '7' && s[8] == '8' && s[9] == '9' && s[10] == 'a' && s[11] == 'b' && s[12] == 'c' && s[13] == 'd');
    assert(s[14] == 'e' && s[15] == 'f');
}

/// A new password is kept as a hash that accepts it; without a password none is kept, and
/// where the password is not changed neither is the hash.
pub proof fn new_passwords_are_accepted(p: SettingsPatch, hash: Option<Option<Seq<char>>>)
    requires
        hash_for(p, hash),
    ensures
        p.password is None ==> hash is None,
        p.password is Some && p.password->0 is None ==> hash is Some && hash->0 is None,
        p.password is Some && p.password->0 is Some ==> hash is Some && hash->0 is Some && argon2_accepts(
            p.password->0->0@,
            hash->0->0,
        ),
        empty_password(p) <==> p.password is Some && p.password->0 is Some && p.password->0->0@.len() == 0,
{
}

/// A session that was opened is valid for a day, and no longer; opening it ends no other
/// session that has not ended, and forgets those that have.
pub proof fn sessions_last_a_day(
    sessions: Map<Seq<char>, u64>,
    token: Seq<char>,
    opened: u64,
    now: u64,
    other: Seq<char>,
)
    requires
        opened + 24 * 3600 * 1_000_000_000 <= u64::MAX,
        opened <= now,
        other != token,
    ensures
        ({
            let m = live_sessions(sessions.insert(token, later(opened, SESSION_TTL)), opened);
            &&& session_valid(m, Some(token), now) <==> now < opened + 24 * 3600 * 1_000_000_000
            &&& session_valid(m, Some(other), now) == session_valid(sessions, Some(other), now)
            &&& !session_valid(m, None, now)
            &&& m.dom().contains(other) <==> sessions.dom().contains(other) && sessions[other] > opened
        }),
{
}

}

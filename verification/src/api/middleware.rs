//! Who may use the interface.
use subtle::ConstantTimeEq;
use vstd::prelude::*;
use vstd::string::*;

use crate::api::auth;
use crate::api::auth::{credential, opt_str, session_valid, Sessions};
use crate::config::{opt_text, secret, ApiConfig};

verus! {

/// `ConstantTimeEq::ct_eq` of `subtle` compares two byte slices in a time that does
/// not depend on what they hold.
#[verifier::external_body]
fn constant_time_eq(a: &[u8], b: &[u8]) -> (r: bool)
    ensures
        r == (a@ == b@),
{
    a.ct_eq(b).into()
}

/// The key of a request: from the header `X-Api-Key`, or else from a bearer
/// authorization.
pub fn extract_api_key(x_api_key: Option<&str>, authorization: Option<&str>) -> (r: Option<String>)
    ensures
        opt_text(r) == credential(opt_str(x_api_key), opt_str(authorization)),
{
    auth::extract_credential(x_api_key, authorization)
}

/// The request may pass: nothing protects the interface, or a password is set and the
/// request belongs to a valid session, or a key is set and the request has it.
pub open spec fn may_pass(
    password: Option<Seq<char>>,
    key: Option<Seq<char>>,
    sessions: Map<Seq<char>, u64>,
    token: Option<Seq<char>>,
    provided: Option<Seq<char>>,
    now: u64,
) -> bool {
    ||| password is None && key is None
    ||| password is Some && session_valid(sessions, token, now)
    ||| key is Some && provided == key
}

/// The sessions after a request: one that has ended is removed when it is used.
pub open spec fn sessions_after(
    sessions: Map<Seq<char>, u64>,
    password_set: bool,
    token: Option<Seq<char>>,
    now: u64,
) -> Map<Seq<char>, u64> {
    if password_set && token is Some && !session_valid(sessions, token, now) {
        sessions.remove(token->0)
    } else {
        sessions
    }
}

/// Whether a request may pass.
pub fn require_api_key(
    api: &ApiConfig,
    sessions: &mut Sessions,
    x_session_token: Option<&str>,
    x_api_key: Option<&str>,
    authorization: Option<&str>,
    now: u64,
) -> (r: bool)
    ensures
        r == may_pass(
            secret(opt_text(api.password_hash)),
            secret(opt_text(api.api_key)),
            old(sessions)@,
            credential(opt_str(x_session_token), opt_str(authorization)),
            credential(opt_str(x_api_key), opt_str(authorization)),
            now,
        ),
        final(sessions)@ == sessions_after(
            old(sessions)@,
            secret(opt_text(api.password_hash)) is Some,
            credential(opt_str(x_session_token), opt_str(authorization)),
            now,
        ),
{
    let password_set = api.has_password();
    let key = api.api_key();
    if !password_set && key.is_none() {
        return true;
    }
    if password_set {
        let token = auth::extract_session_token(x_session_token, authorization);
        let valid = match &token {
            Some(t) => sessions.is_authenticated(Some(t.as_str()), now),
            None => false,
        };
        if valid {
            return true;
        }
    }
    if let Some(expected) = &key {
        if let Some(provided) = extract_api_key(x_api_key, authorization) {
            let a = provided.as_str().as_bytes();
            let b = expected.as_str().as_bytes();
            proof {
                vstd::utf8::encode_utf8_decode_utf8(provided@);
                vstd::utf8::encode_utf8_decode_utf8(expected@);
            }
            if constant_time_eq(a, b) {
                return true;
            }
        }
    }
    false
}

}

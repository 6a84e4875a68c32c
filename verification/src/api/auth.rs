//! Passwords, sessions, and the limit on login attempts.
use argon2::password_hash::{PasswordHash, PasswordHasher, PasswordVerifier, SaltString};
use argon2::Argon2;
use dashmap::DashMap;
use vstd::prelude::*;
use vstd::slice::*;
use vstd::string::*;

use crate::clients;
use crate::clients::hex2;
use crate::config::{opt_text, secret, ApiConfig};
use crate::error::{config_error, FeriteError, Result};
use crate::lru_cache;
use crate::lru_cache::later;
use crate::random;
use crate::text;
use crate::text::flat_map;

verus! {

/// For how many seconds a session lasts.
pub const SESSION_TTL: u64 = 86400;

/// How many login attempts are possible at once.
pub const LOGIN_BURST: u64 = 10;

/// How many login attempts become possible again in a second.
pub const LOGIN_REFILL_PER_SEC: u64 = 5;

/// One token, in the units in which they are counted. In a nanosecond as many units
/// are added as tokens in a second.
pub const TOKEN: u64 = 1_000_000_000;

/// The limit on login attempts: each takes a token, and tokens come back with time,
/// up to a number.
#[derive(Debug)]
pub struct TokenBucket {
    level: u64,
    last_refill: u64,
}

/// What a bucket holds after a time without attempts.
pub open spec fn refilled(level: u64, elapsed: nat) -> nat {
    let sum = level + elapsed * LOGIN_REFILL_PER_SEC;
    if sum < LOGIN_BURST * TOKEN {
        sum as nat
    } else {
        (LOGIN_BURST * TOKEN) as nat
    }
}

/// The time between two points; none where the second is not later.
pub open spec fn elapsed(from: u64, to: u64) -> nat {
    if to > from {
        (to - from) as nat
    } else {
        0
    }
}

impl TokenBucket {
    /// How much the bucket holds.
    pub closed spec fn level(&self) -> u64 {
        self.level
    }

    /// When it was last filled.
    pub closed spec fn last_refill(&self) -> u64 {
        self.last_refill
    }

    /// A full bucket.
    pub fn full(now: u64) -> (r: TokenBucket)
        ensures
            r.level() == LOGIN_BURST * TOKEN,
            r.last_refill() == now,
    {
        TokenBucket { level: LOGIN_BURST * TOKEN, last_refill: now }
    }

    /// Fills the bucket for the time that has passed, and takes a token if there is one.
    pub fn try_take(&mut self, now: u64) -> (r: bool)
        ensures
            ({
                let have = refilled(old(self).level(), elapsed(old(self).last_refill(), now));
                &&& r == (have >= TOKEN)
                &&& final(self).level() == (if r {
                    have - TOKEN
                } else {
                    have as int
                })
            }),
            final(self).last_refill() == now,
    {
        let passed: u64 = if now > self.last_refill {
            now - self.last_refill
        } else {
            0
        };
        let sum: u128 = self.level as u128 + passed as u128 * LOGIN_REFILL_PER_SEC as u128;
        let have: u64 = if sum < (LOGIN_BURST * TOKEN) as u128 {
            sum as u64
        } else {
            LOGIN_BURST * TOKEN
        };
        self.last_refill = now;
        if have >= TOKEN {
            self.level = have - TOKEN;
            true
        } else {
            self.level = have;
            false
        }
    }
}

/// A bucket that was drained lets at most as many attempts pass as tokens came back.
pub proof fn attempts_are_limited(level: u64, passed: nat)
    requires
        level <= LOGIN_BURST * TOKEN,
    ensures
        refilled(level, passed) <= LOGIN_BURST * TOKEN,
        refilled(level, passed) <= level + passed * LOGIN_REFILL_PER_SEC,
        refilled(level, passed) >= level,
{
    assert(passed * LOGIN_REFILL_PER_SEC >= 0) by (nonlinear_arith)
        requires
            passed >= 0,
    ;
}

/// Why a password could not be hashed.
#[derive(Debug)]
pub enum HashFault {
    /// The salt cannot be used.
    Salt(String),
    /// Hashing failed.
    Hash(String),
}

/// The text of the hash of a password with a salt, or why there is none: whether it is
/// the salt that cannot be used, and the reason in words.
pub uninterp spec fn argon2_phc(password: Seq<char>, salt: Seq<u8>) -> core::result::Result<Seq<char>, (bool, Seq<char>)>;

/// The hash accepts the password.
pub uninterp spec fn argon2_accepts(password: Seq<char>, hash: Seq<char>) -> bool;

/// The text of a hash, or why none was made.
pub open spec fn hash_view(r: core::result::Result<String, HashFault>) -> core::result::Result<
    Seq<char>,
    (bool, Seq<char>),
> {
    match r {
        Ok(h) => Ok(h@),
        Err(HashFault::Salt(m)) => Err((true, m@)),
        Err(HashFault::Hash(m)) => Err((false, m@)),
    }
}

/// What is said where a password could not be hashed.
pub open spec fn hash_fault_text(fault: (bool, Seq<char>)) -> Seq<char> {
    if fault.0 {
        "password salt encode failed: "@ + fault.1
    } else {
        "password hash failed: "@ + fault.1
    }
}

/// The result is that of hashing the password with the salt.
pub open spec fn hashed_with(r: Result<String>, password: Seq<char>, salt: Seq<u8>) -> bool {
    match r {
        Ok(h) => argon2_phc(password, salt) == Ok::<Seq<char>, (bool, Seq<char>)>(h@),
        Err(e) => argon2_phc(password, salt) matches Err(f) && config_error(e, hash_fault_text(f)),
    }
}

/// The error says that a password could not be hashed.
pub open spec fn hashing_failed(e: FeriteError) -> bool {
    e matches FeriteError::Config(m) && ("password salt encode failed: "@.is_prefix_of(m@)
        || "password hash failed: "@.is_prefix_of(m@))
}

/// The error says that there are no random bytes.
pub open spec fn no_random(e: FeriteError) -> bool {
    e matches FeriteError::Internal(m) && m@ == "secure random generation failed"@
}

/// `SaltString::encode_b64` and `Argon2::hash_password` make the hash of a password
/// with a salt, as text. The password verifies against it. Hash and reason of failure
/// follow from the two alone; the words of the reason are left open. A salt of less
/// than three bytes makes it panic.
#[verifier::external_body]
pub(crate) fn argon2_hash(password: &str, salt: &[u8]) -> (r: core::result::Result<String, HashFault>)
    requires
        salt@.len() >= 3,
    ensures
        hash_view(r) == argon2_phc(password@, salt@),
        r matches Ok(h) ==> argon2_accepts(password@, h@),
{
    let salt = SaltString::encode_b64(salt).map_err(|e| HashFault::Salt(e.to_string()))?;
    let hash = Argon2::default().hash_password(password.as_bytes(), &salt);
    hash.map(|h| h.to_string()).map_err(|e| HashFault::Hash(e.to_string()))
}

/// `PasswordHash::new` reads the text of a hash and `Argon2::verify_password` checks a
/// password against it. A text that is no hash accepts nothing. How much memory the
/// check takes is written in the hash.
#[verifier::external_body]
pub(crate) fn argon2_verify(password: &str, hash: &str) -> (r: bool)
    ensures
        r == argon2_accepts(password@, hash@),
{
    match PasswordHash::new(hash) {
        Ok(parsed) => Argon2::default().verify_password(password.as_bytes(), &parsed).is_ok(),
        Err(_) => false,
    }
}

fn hash_fault(label: &str, message: &str) -> (r: FeriteError)
    ensures
        config_error(r, label@ + message@),
        r matches FeriteError::Config(m) && label@.is_prefix_of(m@),
{
    let mut m = String::new();
    m.append(label);
    m.append(message);
    assert(m@ =~= label@ + message@);
    FeriteError::Config(m)
}

/// Hashes a password with a salt.
pub fn hash_with_salt(password: &str, salt: &[u8]) -> (r: Result<String>)
    requires
        salt@.len() >= 3,
    ensures
        hashed_with(r, password@, salt@),
        match r {
            Ok(h) => argon2_accepts(password@, h@),
            Err(e) => hashing_failed(e),
        },
{
    match argon2_hash(password, salt) {
        Ok(h) => Ok(h),
        Err(HashFault::Salt(m)) => Err(hash_fault("password salt encode failed: ", m.as_str())),
        Err(HashFault::Hash(m)) => Err(hash_fault("password hash failed: ", m.as_str())),
    }
}

/// Random bytes, or the error that there are none.
fn fill_random(n: usize) -> (r: Result<Vec<u8>>)
    requires
        n <= 0x7fff_ffff,
    ensures
        match r {
            Ok(v) => v@.len() == n,
            Err(e) => no_random(e),
        },
{
    match random::random_bytes(n) {
        Some(v) => Ok(v),
        None => Err(FeriteError::Internal("secure random generation failed".to_string())),
    }
}

/// Hashes a password with a random salt of 16 bytes. The password verifies against
/// the hash.
pub fn hash_password(password: &str) -> (r: Result<String>)
    ensures
        match r {
            Ok(h) => argon2_accepts(password@, h@),
            Err(e) => hashing_failed(e) || no_random(e),
        },
        (r matches Err(e) && no_random(e)) || exists|salt: Seq<u8>|
            salt.len() == 16 && #[trigger] hashed_with(r, password@, salt),
{
    match fill_random(16) {
        Ok(salt) => {
            let r = hash_with_salt(password, salt.as_slice());
            assert(hashed_with(r, password@, salt@));
            r
        },
        Err(e) => Err(e),
    }
}

/// Whether a hash accepts a password.
pub fn verify_password(password: &str, hash: &str) -> (r: bool)
    ensures
        r == argon2_accepts(password@, hash@),
{
    argon2_verify(password, hash)
}

/// The token of a bearer authorization.
pub open spec fn bearer(authorization: Option<Seq<char>>) -> Option<Seq<char>> {
    match authorization {
        Some(a) if "Bearer "@.is_prefix_of(a) => Some(a.skip(7)),
        _ => None,
    }
}

/// The credential in a header of its own, or else in a bearer authorization.
pub open spec fn credential(own: Option<Seq<char>>, authorization: Option<Seq<char>>) -> Option<Seq<char>> {
    match own {
        Some(t) => Some(t),
        None => bearer(authorization),
    }
}

/// The text that an optional reference points to.
pub open spec fn opt_str(s: Option<&str>) -> Option<Seq<char>> {
    match s {
        Some(t) => Some(t@),
        None => None,
    }
}

pub(crate) fn extract_credential(own: Option<&str>, authorization: Option<&str>) -> (r: Option<String>)
    ensures
        opt_text(r) == credential(opt_str(own), opt_str(authorization)),
{
    if let Some(t) = own {
        return Some(t.to_string());
    }
    if let Some(a) = authorization {
        let cs = text::chars_of(a);
        if text::starts_with(cs.as_slice(), "Bearer ") {
            proof {
                reveal_strlit("Bearer ");
            }
            let rest = slice_subrange(cs.as_slice(), 7, cs.len());
            assert(rest@ =~= a@.skip(7));
            return Some(text::string_of(rest));
        }
    }
    None
}

/// The session token of a request: from the header `X-Session-Token`, or else from a
/// bearer authorization.
pub fn extract_session_token(x_session_token: Option<&str>, authorization: Option<&str>) -> (r: Option<String>)
    ensures
        opt_text(r) == credential(opt_str(x_session_token), opt_str(authorization)),
{
    extract_credential(x_session_token, authorization)
}

/// The sessions and when each ends.
pub uninterp spec fn session_entries(s: DashMap<String, u64>) -> Map<Seq<char>, u64>;

/// No sessions.
pub open spec fn no_sessions() -> Map<Seq<char>, u64> {
    Map::empty()
}

/// When a session ends, if there is one.
pub open spec fn session_end(m: Map<Seq<char>, u64>, token: Seq<char>) -> Option<u64> {
    if m.dom().contains(token) {
        Some(m[token])
    } else {
        None
    }
}

/// The sessions that have not ended.
pub open spec fn live_sessions(m: Map<Seq<char>, u64>, now: u64) -> Map<Seq<char>, u64> {
    m.restrict(Set::new(|t: Seq<char>| m.dom().contains(t) && m[t] > now))
}

/// Whether a session that ends at `expiry` has not ended.
pub fn is_live(expiry: u64, now: u64) -> (r: bool)
    ensures
        r == (expiry > now),
{
    expiry > now
}

/// `DashMap::new` makes an empty map.
#[verifier::external_body]
fn session_map_new() -> (r: DashMap<String, u64>)
    ensures
        session_entries(r) == no_sessions(),
{
    DashMap::new()
}

/// `DashMap::insert` puts a value in place of an earlier one for its key.
#[verifier::external_body]
fn session_map_insert(s: &mut DashMap<String, u64>, token: String, expiry: u64)
    ensures
        session_entries(*final(s)) == session_entries(*old(s)).insert(token@, expiry),
{
    s.insert(token, expiry);
}

/// `DashMap::get` finds the value for a key; this hands out a copy.
#[verifier::external_body]
fn session_map_get(s: &DashMap<String, u64>, token: &str) -> (r: Option<u64>)
    ensures
        r == session_end(session_entries(*s), token@),
{
    s.get(token).map(|e| *e.value())
}

/// `DashMap::remove` removes the value for a key, if there is one.
#[verifier::external_body]
fn session_map_remove(s: &mut DashMap<String, u64>, token: &str)
    ensures
        session_entries(*final(s)) == session_entries(*old(s)).remove(token@),
{
    s.remove(token);
}

/// `DashMap::retain` keeps the entries that a test accepts, here the sessions that
/// have not ended.
#[verifier::external_body]
fn session_map_retain(s: &mut DashMap<String, u64>, now: u64)
    ensures
        session_entries(*final(s)) == live_sessions(session_entries(*old(s)), now),
{
    s.retain(|_, expiry| is_live(*expiry, now));
}

/// The sessions that logins have opened.
pub struct Sessions {
    inner: DashMap<String, u64>,
}

impl View for Sessions {
    type V = Map<Seq<char>, u64>;

    closed spec fn view(&self) -> Map<Seq<char>, u64> {
        session_entries(self.inner)
    }
}

/// The token opens a session that has not ended.
pub open spec fn session_valid(m: Map<Seq<char>, u64>, token: Option<Seq<char>>, now: u64) -> bool {
    token is Some && m.dom().contains(token->0) && m[token->0] > now
}

impl Sessions {
    /// No sessions.
    pub fn new() -> (r: Sessions)
        ensures
            r@ == no_sessions(),
    {
        Sessions { inner: session_map_new() }
    }

    /// Opens a session with a token.
    pub fn insert(&mut self, token: String, expiry: u64)
        ensures
            final(self)@ == old(self)@.insert(token@, expiry),
    {
        session_map_insert(&mut self.inner, token, expiry);
    }

    /// Whether there is a session with a token, ended or not.
    pub fn contains(&self, token: &str) -> (r: bool)
        ensures
            r == self@.dom().contains(token@),
    {
        session_map_get(&self.inner, token).is_some()
    }

    /// Whether a token opens a session that has not ended. A session that has ended
    /// is removed.
    pub fn is_authenticated(&mut self, token: Option<&str>, now: u64) -> (r: bool)
        ensures
            r == session_valid(old(self)@, opt_str(token), now),
            final(self)@ == (if r || token is None {
                old(self)@
            } else {
                old(self)@.remove(token->0@)
            }),
    {
        let t = match token {
            Some(t) => t,
            None => return false,
        };
        let ghost m = self@;
        match session_map_get(&self.inner, t) {
            Some(expiry) => if is_live(expiry, now) {
                true
            } else {
                session_map_remove(&mut self.inner, t);
                false
            },
            None => {
                assert(m.remove(t@) =~= m);
                false
            },
        }
    }

    /// Ends a session.
    pub fn remove(&mut self, token: &str)
        ensures
            final(self)@ == old(self)@.remove(token@),
    {
        session_map_remove(&mut self.inner, token);
    }

    /// Removes the sessions that have ended.
    pub fn evict_ended(&mut self, now: u64)
        ensures
            final(self)@ == live_sessions(old(self)@, now),
    {
        session_map_retain(&mut self.inner, now);
    }
}

/// A login.
#[derive(Debug)]
pub struct LoginRequest {
    pub password: String,
}

/// Bytes in hexadecimal, with small letters.
pub open spec fn hex_text(bytes: Seq<u8>) -> Seq<char> {
    flat_map(bytes, |b: u8| hex2(b))
}

/// Bytes in hexadecimal, with small letters.
pub fn to_lower_hex(bytes: &[u8]) -> (r: String)
    ensures
        r@ == hex_text(bytes@),
{
    let ghost f = |b: u8| hex2(b);
    let mut out = String::new();
    let mut i: usize = 0;
    assert(flat_map(bytes@.take(0), f) =~= Seq::<char>::empty());
    while i < bytes.len()
        invariant
            i <= bytes@.len(),
            f == (|b: u8| hex2(b)),
            out@ == flat_map(bytes@.take(i as int), f),
        decreases bytes@.len() - i,
    {
        proof {
            assert(bytes@.take(i + 1) =~= bytes@.take(i as int).push(bytes@[i as int]));
            text::lemma_flat_map_push(bytes@.take(i as int), bytes@[i as int], f);
        }
        clients::push_hex2(&mut out, bytes[i]);
        i = i + 1;
    }
    assert(bytes@.take(bytes@.len() as int) =~= bytes@);
    out
}

/// A session token: 32 random bytes in hexadecimal.
pub fn generate_session_token() -> (r: Result<String>)
    ensures
        match r {
            Ok(t) => exists|b: Seq<u8>| b.len() == 32 && t@ == #[trigger] hex_text(b),
            Err(e) => e matches FeriteError::Internal(m) && m@ == "secure random generation failed"@,
        },
{
    match fill_random(32) {
        Ok(b) => Ok(to_lower_hex(b.as_slice())),
        Err(e) => Err(e),
    }
}

/// What a login is answered before a session is opened: that there are too many
/// attempts, that no password is set, that the password is wrong, or nothing.
pub open spec fn login_refusal(may_try: bool, hash: Option<Seq<char>>, password: Seq<char>, r: Result<()>) -> bool {
    if !may_try {
        r matches Err(e) && e is RateLimited
    } else {
        match hash {
            None => r matches Err(e) && config_error(e, "no password configured; set one with `ferrite passwd`"@),
            Some(h) => if argon2_accepts(password, h) {
                r is Ok
            } else {
                r matches Err(e) && e is Unauthorized
            },
        }
    }
}

/// Checks a login. Nothing is hashed where there are too many attempts.
pub fn check_login(may_try: bool, api: &ApiConfig, password: &str) -> (r: Result<()>)
    ensures
        login_refusal(may_try, secret(opt_text(api.password_hash)), password@, r),
{
    if !may_try {
        return Err(FeriteError::RateLimited);
    }
    match api.password_hash() {
        None => Err(FeriteError::Config("no password configured; set one with `ferrite passwd`".to_string())),
        Some(hash) => if verify_password(password, hash.as_str()) {
            Ok(())
        } else {
            Err(FeriteError::Unauthorized)
        },
    }
}

/// Opens a session with a token, and removes sessions that have ended.
pub fn open_session(sessions: &mut Sessions, token: String, now: u64)
    ensures
        final(sessions)@ == live_sessions(old(sessions)@.insert(token@, later(now, SESSION_TTL)), now),
{
    sessions.insert(token, lru_cache::after_secs(now, SESSION_TTL));
    sessions.evict_ended(now);
}

/// Logs in: takes an attempt, checks the password, and opens a session under a
/// random token, which is returned.
pub fn login(
    bucket: &mut TokenBucket,
    sessions: &mut Sessions,
    api: &ApiConfig,
    body: &LoginRequest,
    now: u64,
) -> (r: Result<String>)
    ensures
        ({
            let may_try = refilled(old(bucket).level(), elapsed(old(bucket).last_refill(), now)) >= TOKEN;
            let hash = secret(opt_text(api.password_hash));
            let right = may_try && hash is Some && argon2_accepts(body.password@, hash->0);
            match r {
                Ok(t) => {
                    &&& right
                    &&& final(sessions)@ == live_sessions(
                        old(sessions)@.insert(t@, later(now, SESSION_TTL)),
                        now,
                    )
                    &&& exists|b: Seq<u8>| b.len() == 32 && t@ == #[trigger] hex_text(b)
                },
                Err(e) => {
                    &&& final(sessions)@ == old(sessions)@
                    &&& right ==> (e matches FeriteError::Internal(m) && m@ == "secure random generation failed"@)
                    &&& !right ==> login_refusal(may_try, hash, body.password@, Err(e))
                },
            }
        }),
        final(bucket).last_refill() == now,
        ({
            let have = refilled(old(bucket).level(), elapsed(old(bucket).last_refill(), now));
            final(bucket).level() == (if have >= TOKEN {
                have - TOKEN
            } else {
                have as int
            })
        }),
{
    let may_try = bucket.try_take(now);
    match check_login(may_try, api, body.password.as_str()) {
        Err(e) => return Err(e),
        Ok(()) => {},
    }
    match generate_session_token() {
        Ok(t) => {
            open_session(sessions, t.clone(), now);
            Ok(t)
        },
        Err(e) => Err(e),
    }
}

/// Whether a caller is logged in: its status, whether it is, and whether a password
/// is set at all.
pub fn check_auth(api: &ApiConfig, session: bool) -> (r: (u16, bool, bool))
    ensures
        ({
            let password_set = secret(opt_text(api.password_hash)) is Some;
            &&& r.1 == (!password_set || session)
            &&& r.2 == password_set
            &&& r.0 == (if r.1 {
                200
            } else {
                401int
            })
        }),
{
    if !api.has_password() {
        (200, true, false)
    } else if session {
        (200, true, true)
    } else {
        (401, false, true)
    }
}

/// A session that was just opened is valid until it ends.
pub proof fn opened_sessions_are_valid(m: Map<Seq<char>, u64>, token: Seq<char>, opened: u64, now: u64)
    requires
        now < later(opened, SESSION_TTL),
        opened < later(opened, SESSION_TTL),
    ensures
        session_valid(live_sessions(m.insert(token, later(opened, SESSION_TTL)), opened), Some(token), now),
{
}

/// A session that was ended is not valid.
pub proof fn ended_sessions_are_invalid(m: Map<Seq<char>, u64>, token: Seq<char>, now: u64)
    ensures
        !session_valid(m.remove(token), Some(token), now),
{
}

}

//! The values that queries and responses are described with.
use vstd::prelude::*;
use vstd::string::*;

verus! {

/// How a query was resolved.
#[derive(Debug, Clone, Copy, PartialEq, Eq, Structural)]
pub enum QueryStatus {
    /// Passed on to a resolver.
    Upstream,
    /// Answered from the cache.
    Cached,
    /// Blocked.
    Blocked,
    /// Answered by the program itself.
    Allowed,
}

impl QueryStatus {
    /// The status as a word.
    pub open spec fn word(self) -> Seq<char> {
        match self {
            QueryStatus::Upstream => "upstream"@,
            QueryStatus::Cached => "cached"@,
            QueryStatus::Blocked => "blocked"@,
            QueryStatus::Allowed => "allowed"@,
        }
    }

    /// The status as a word.
    pub fn as_str(&self) -> (r: &'static str)
        ensures
            r@ == self.word(),
    {
        match self {
            QueryStatus::Upstream => "upstream",
            QueryStatus::Cached => "cached",
            QueryStatus::Blocked => "blocked",
            QueryStatus::Allowed => "allowed",
        }
    }
}

/// A completed query, as it is logged and shown.
#[derive(Debug)]
pub struct QueryEntry {
    /// Increases with every query of the process.
    pub id: u64,
    /// When the query arrived, in milliseconds since 1970.
    pub timestamp: i64,
    pub domain: String,
    pub query_type: u16,
    pub client_ip: String,
    /// The device behind the address; set when the entry is stored.
    pub device: String,
    pub status: QueryStatus,
    pub latency_ms: u32,
    /// The resolver that answered, if one did.
    pub upstream: Option<String>,
    /// The response code that the client got.
    pub rcode: u8,
}

impl Clone for QueryEntry {
    fn clone(&self) -> (r: QueryEntry)
        ensures
            r == *self,
    {
        let upstream = match &self.upstream {
            Some(u) => Some(u.clone()),
            None => None,
        };
        QueryEntry {
            id: self.id,
            timestamp: self.timestamp,
            domain: self.domain.clone(),
            query_type: self.query_type,
            client_ip: self.client_ip.clone(),
            device: self.device.clone(),
            status: self.status,
            latency_ms: self.latency_ms,
            upstream,
            rcode: self.rcode,
        }
    }
}

/// A response and for how many seconds it is valid.
#[derive(Debug)]
pub struct DnsResponse {
    pub bytes: Vec<u8>,
    pub ttl: u32,
}

/// The big-endian 16-bit number at an index of a message.
pub open spec fn be16(msg: Seq<u8>, i: int) -> int {
    msg[i] * 256 + msg[i + 1]
}

/// The index behind the name that starts at `i`: behind its empty label. None for
/// a name that does not end inside the message or holds a compression pointer.
pub open spec fn name_end(msg: Seq<u8>, i: int) -> Option<int>
    decreases msg.len() - i,
{
    if i < 0 || i >= msg.len() {
        None
    } else if msg[i] == 0 {
        Some(i + 1)
    } else if msg[i] >= 64 || i + 1 + msg[i] > msg.len() {
        None
    } else {
        name_end(msg, i + 1 + msg[i])
    }
}

/// The index behind the question that starts at `i`: behind its name, type and
/// class. None for a question that is not complete.
pub open spec fn question_end_from(msg: Seq<u8>, i: int) -> Option<int> {
    match name_end(msg, i) {
        Some(j) if j + 4 <= msg.len() => Some(j + 4),
        _ => None,
    }
}

/// The index behind `n` questions, the first of which starts at `i`.
pub open spec fn questions_end(msg: Seq<u8>, i: int, n: int) -> Option<int>
    decreases n,
{
    if n <= 0 {
        Some(i)
    } else {
        match question_end_from(msg, i) {
            Some(j) => questions_end(msg, j, n - 1),
            None => None,
        }
    }
}

/// The index behind the first question of a message. None without a question that
/// is complete.
pub open spec fn first_question_end(msg: Seq<u8>) -> Option<int> {
    if msg.len() < 12 || be16(msg, 4) == 0 {
        None
    } else {
        question_end_from(msg, 12)
    }
}

/// The index behind all the questions that a message announces. None without a
/// question, or where one of them is not complete.
pub open spec fn question_section_end(msg: Seq<u8>) -> Option<int> {
    if msg.len() < 12 || be16(msg, 4) == 0 {
        None
    } else {
        questions_end(msg, 12, be16(msg, 4))
    }
}

fn question_after(msg: &[u8], start: usize) -> (r: Option<usize>)
    requires
        start <= msg@.len(),
    ensures
        match r {
            Some(e) => question_end_from(msg@, start as int) == Some(e as int) && start < e <= msg@.len(),
            None => question_end_from(msg@, start as int) is None,
        },
{
    let mut i: usize = start;
    loop
        invariant
            start <= i <= msg@.len(),
            name_end(msg@, start as int) == name_end(msg@, i as int),
        decreases msg@.len() - i,
    {
        if i >= msg.len() {
            return None;
        }
        let len: usize = msg[i] as usize;
        if len == 0 {
            if msg.len() - i >= 5 {
                return Some(i + 5);
            }
            return None;
        }
        if len >= 64 {
            return None;
        }
        if len > msg.len() - i - 1 {
            return None;
        }
        i = i + 1 + len;
    }
}

/// The index behind the first question of a message.
pub fn question_end(msg: &[u8]) -> (r: Option<usize>)
    ensures
        match r {
            Some(e) => first_question_end(msg@) == Some(e as int) && 12 < e <= msg@.len(),
            None => first_question_end(msg@) is None,
        },
{
    if msg.len() < 12 {
        return None;
    }
    if msg[4] == 0 && msg[5] == 0 {
        return None;
    }
    question_after(msg, 12)
}

/// The index behind all the questions of a message.
pub fn section_end(msg: &[u8]) -> (r: Option<usize>)
    ensures
        match r {
            Some(e) => question_section_end(msg@) == Some(e as int) && 12 < e <= msg@.len(),
            None => question_section_end(msg@) is None,
        },
{
    if msg.len() < 12 {
        return None;
    }
    let mut left: usize = (msg[4] as usize) * 256 + msg[5] as usize;
    if left == 0 {
        return None;
    }
    let mut end: usize = 12;
    while left > 0
        invariant
            12 <= end <= msg@.len(),
            left == 0 ==> 12 < end,
            be16(msg@, 4) != 0,
            question_section_end(msg@) == questions_end(msg@, end as int, left as int),
        decreases left,
    {
        match question_after(msg, end) {
            Some(e) => {
                end = e;
            },
            None => {
                return None;
            },
        }
        left = left - 1;
    }
    Some(end)
}

}

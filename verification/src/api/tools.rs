//! Tools for the network: lookups of any record type, WHOIS, and what is asked of
//! the hosts and egresses that connections are tried to.
use vstd::prelude::*;
use vstd::hash_map::StringHashMap;
use vstd::slice::*;
use vstd::string::*;
use vstd::utf8::encode_utf8;

use crate::clients;
use crate::clients::ptr_domain;
use crate::dns::message;
use crate::dns::message::{
    dns_lookup, dns_shown, is_question, QuestionError, QuestionErrorView, ShownMessage, ShownView,
};
use crate::dns::qtype;
use crate::error::{config_error, FeriteError, Result};
use crate::ip;
use crate::ip::ip_of_text;
use crate::text;
use crate::text::{
    after, before, char_texts, contains_text, count_where, first_found, is_ctl, is_ws, lines, lower, text_position, trim,
    upper,
};

verus! {

/// The port of WHOIS servers.
pub const WHOIS_PORT: u16 = 43;

/// How much of a WHOIS answer is read.
pub const WHOIS_MAX: usize = 262144;

/// How much of a trace is read.
pub const TRACE_MAX: usize = 65536;

/// How large a datagram is accepted when signatures are asked for.
pub const DNSSEC_PAYLOAD: u16 = 1232;

/// What to look up.
#[derive(Debug)]
pub struct ResolveParams {
    pub name: String,
    /// The record type; `A` where nothing is said.
    pub rtype: Option<String>,
}

/// What to ask WHOIS servers for.
#[derive(Debug)]
pub struct WhoisParams {
    pub query: String,
}

/// The egress to test; none for a direct connection.
#[derive(Debug)]
pub struct EgressCheckParams {
    pub egress: Option<String>,
}

/// The host whose certificates are looked at.
#[derive(Debug)]
pub struct CertParams {
    pub host: String,
    /// 443 where nothing is said.
    pub port: Option<u16>,
    pub egress: Option<String>,
}

/// The host and port that a connection is tried to.
#[derive(Debug)]
pub struct TcpProbeParams {
    pub host: String,
    pub port: u16,
    pub egress: Option<String>,
}

/// The number of a record type that can be looked up.
pub open spec fn rtype_number(s: Seq<char>) -> Option<u16> {
    if s == "A"@ {
        Some(qtype::A)
    } else if s == "AAAA"@ {
        Some(qtype::AAAA)
    } else if s == "CNAME"@ {
        Some(qtype::CNAME)
    } else if s == "MX"@ {
        Some(qtype::MX)
    } else if s == "TXT"@ {
        Some(qtype::TXT)
    } else if s == "NS"@ {
        Some(qtype::NS)
    } else if s == "SOA"@ {
        Some(qtype::SOA)
    } else if s == "PTR"@ {
        Some(qtype::PTR)
    } else if s == "SRV"@ {
        Some(qtype::SRV)
    } else if s == "CAA"@ {
        Some(qtype::CAA)
    } else {
        None
    }
}

/// The number of a record type that can be looked up.
pub fn parse_rtype(s: &str) -> (r: Option<u16>)
    ensures
        r == rtype_number(s@),
{
    if text::str_same(s, "A") {
        Some(qtype::A)
    } else if text::str_same(s, "AAAA") {
        Some(qtype::AAAA)
    } else if text::str_same(s, "CNAME") {
        Some(qtype::CNAME)
    } else if text::str_same(s, "MX") {
        Some(qtype::MX)
    } else if text::str_same(s, "TXT") {
        Some(qtype::TXT)
    } else if text::str_same(s, "NS") {
        Some(qtype::NS)
    } else if text::str_same(s, "SOA") {
        Some(qtype::SOA)
    } else if text::str_same(s, "PTR") {
        Some(qtype::PTR)
    } else if text::str_same(s, "SRV") {
        Some(qtype::SRV)
    } else if text::str_same(s, "CAA") {
        Some(qtype::CAA)
    } else {
        None
    }
}

/// A name to look up: not empty, at most 253 bytes.
pub open spec fn fits_name(s: Seq<char>) -> bool {
    s.len() > 0 && encode_utf8(s).len() <= 253
}

/// The record type as it was asked for, in capitals.
pub open spec fn asked_type(p: ResolveParams) -> Seq<char> {
    upper(match p.rtype {
        Some(t) => t@,
        None => "A"@,
    })
}

/// A lookup that can be made.
#[derive(Debug)]
pub struct NameLookup {
    pub name: String,
    /// The record type as text and as a number.
    pub rtype: String,
    pub qtype: u16,
}

/// What the parameters ask to look up, or what is wrong with them.
pub open spec fn lookup_outcome(p: ResolveParams, r: Result<NameLookup>) -> bool {
    if !fits_name(trim(p.name@)) {
        r matches Err(e) && config_error(e, "name is empty or too long"@)
    } else {
        match rtype_number(asked_type(p)) {
            Some(t) => match r {
                Ok(l) => l.name@ == trim(p.name@) && l.rtype@ == asked_type(p) && l.qtype == t,
                Err(_) => false,
            },
            None => r matches Err(e) && config_error(e, "unsupported record type '"@ + asked_type(p) + "'"@),
        }
    }
}

fn trimmed_string(s: &str) -> (r: String)
    ensures
        r@ == trim(s@),
{
    let cs = text::chars_of(s);
    text::string_of(text::trimmed(cs.as_slice()))
}

fn byte_len(s: &str) -> (r: usize)
    ensures
        r == encode_utf8(s@).len(),
        r > 0 <==> s@.len() > 0,
{
    let b = s.as_bytes();
    proof {
        vstd::utf8::encode_utf8_decode_utf8(s@);
        if s@.len() > 0 {
            vstd::utf8::encode_utf8_first_scalar(s@);
        }
    }
    b.len()
}

/// Reads what to look up.
pub fn check_lookup(params: &ResolveParams) -> (r: Result<NameLookup>)
    ensures
        lookup_outcome(*params, r),
{
    let name = trimmed_string(params.name.as_str());
    let n = byte_len(name.as_str());
    if n == 0 || n > 253 {
        return Err(FeriteError::Config("name is empty or too long".to_string()));
    }
    let cs = match &params.rtype {
        Some(t) => text::chars_of(t.as_str()),
        None => text::chars_of("A"),
    };
    let up = text::to_upper(cs.as_slice());
    let rtype = text::string_of(up.as_slice());
    match parse_rtype(rtype.as_str()) {
        Some(qtype) => Ok(NameLookup { name, rtype, qtype }),
        None => {
            let mut m = String::new();
            m.append("unsupported record type '");
            m.append(rtype.as_str());
            m.append("'");
            assert(m@ =~= "unsupported record type '"@ + rtype@ + "'"@);
            Err(FeriteError::Config(m))
        },
    }
}

/// The name that is asked for: for a pointer, an address stands for its
/// reverse-DNS name.
pub open spec fn asked_name(name: Seq<char>, qtype: u16) -> Seq<char> {
    if qtype == qtype::PTR {
        match ip_of_text(name) {
            Some(a) => ptr_domain(a),
            None => name,
        }
    } else {
        name
    }
}

/// The name that is asked for: for a pointer, an address stands for its
/// reverse-DNS name.
pub fn lookup_name(name: &str, qtype: u16) -> (r: String)
    ensures
        r@ == asked_name(name@, qtype),
{
    if qtype == qtype::PTR {
        if let Some(a) = ip::parse_ip_text(name) {
            return clients::ip_to_ptr_domain(&a);
        }
    }
    name.to_string()
}

/// What becomes of an encoded query, or of the reason why there is none.
pub open spec fn question_outcome(
    name: Seq<char>,
    made: core::result::Result<Seq<u8>, QuestionErrorView>,
    r: Result<Vec<u8>>,
) -> bool {
    match made {
        Ok(b) => r matches Ok(v) && v@ == b,
        Err(QuestionErrorView::Name(m)) => r matches Err(e) && config_error(e, "invalid name '"@ + name + "': "@ + m),
        Err(QuestionErrorView::Encode(m)) => r matches Err(FeriteError::Dns(t)) && t@ == "encode query: "@ + m,
    }
}

/// The outcome of making a query.
pub fn question_result(name: &str, made: core::result::Result<Vec<u8>, QuestionError>) -> (r: Result<Vec<u8>>)
    ensures
        question_outcome(name@, message::lookup_view(made), r),
{
    match made {
        Ok(v) => Ok(v),
        Err(QuestionError::Name(m)) => {
            let mut t = String::new();
            t.append("invalid name '");
            t.append(name);
            t.append("': ");
            t.append(m.as_str());
            assert(t@ =~= "invalid name '"@ + name@ + "': "@ + m@);
            Err(FeriteError::Config(t))
        },
        Err(QuestionError::Encode(m)) => {
            let mut t = String::new();
            t.append("encode query: ");
            t.append(m.as_str());
            assert(t@ =~= "encode query: "@ + m@);
            Err(FeriteError::Dns(t))
        },
    }
}

/// The query of a lookup.
pub fn resolve_query(lookup: &NameLookup) -> (r: Result<Vec<u8>>)
    ensures
        question_outcome(
            asked_name(lookup.name@, lookup.qtype),
            dns_lookup(asked_name(lookup.name@, lookup.qtype), lookup.qtype, 0, None),
            r,
        ),
        r matches Ok(v) ==> is_question(v@, lookup.qtype, 0, true),
{
    let name = lookup_name(lookup.name.as_str(), lookup.qtype);
    let made = message::encode_lookup(name.as_str(), lookup.qtype, 0, None);
    question_result(name.as_str(), made)
}

/// The query of a lookup that asks for signatures.
pub fn dnssec_query(lookup: &NameLookup) -> (r: Result<Vec<u8>>)
    ensures
        question_outcome(
            lookup.name@,
            dns_lookup(lookup.name@, lookup.qtype, 0, Some((DNSSEC_PAYLOAD, true))),
            r,
        ),
        r matches Ok(v) ==> is_question(v@, lookup.qtype, 0, true),
{
    let made = message::encode_lookup(lookup.name.as_str(), lookup.qtype, 0, Some((DNSSEC_PAYLOAD, true)));
    question_result(lookup.name.as_str(), made)
}

/// What becomes of a response, or of the reason why it is none.
pub open spec fn answer_outcome(read: core::result::Result<ShownView, Seq<char>>, r: Result<ShownMessage>) -> bool {
    match read {
        Ok(m) => r matches Ok(v) && v@ == m,
        Err(e) => r matches Err(FeriteError::Dns(t)) && t@ == "decode response: "@ + e,
    }
}

/// The outcome of reading a response.
pub fn answer_result(read: core::result::Result<ShownMessage, String>) -> (r: Result<ShownMessage>)
    ensures
        answer_outcome(message::shown_view(read), r),
{
    match read {
        Ok(m) => Ok(m),
        Err(e) => {
            let mut t = String::new();
            t.append("decode response: ");
            t.append(e.as_str());
            assert(t@ =~= "decode response: "@ + e@);
            Err(FeriteError::Dns(t))
        },
    }
}

/// Reads a response to show it.
pub fn read_answer(bytes: &[u8]) -> (r: Result<ShownMessage>)
    ensures
        answer_outcome(dns_shown(bytes@), r),
{
    let read = message::decode_shown(bytes);
    answer_result(read)
}

/// How many signatures a response holds.
pub fn signature_count(m: &ShownMessage) -> (r: usize)
    ensures
        r == count_where(m@.types, |t: u16| t == qtype::RRSIG),
{
    let ghost f = |t: u16| t == qtype::RRSIG;
    let mut n: usize = 0;
    let mut i: usize = 0;
    while i < m.types.len()
        invariant
            i <= m.types@.len(),
            f == (|t: u16| t == qtype::RRSIG),
            n <= i,
            n == count_where(m.types@.take(i as int), f),
        decreases m.types@.len() - i,
    {
        proof {
            assert(m.types@.take(i + 1) =~= m.types@.take(i as int).push(m.types@[i as int]));
            text::lemma_count_where_push(m.types@.take(i as int), m.types@[i as int], f);
        }
        if m.types[i] == qtype::RRSIG {
            n = n + 1;
        }
        i = i + 1;
    }
    assert(m.types@.take(m.types@.len() as int) =~= m.types@);
    n
}

/// The text is one token: no white space and no control character in it.
pub open spec fn one_token(s: Seq<char>) -> bool {
    forall|i: int| 0 <= i < s.len() ==> !is_ws(#[trigger] s[i]) && !is_ctl(s[i])
}

fn is_token(s: &[char]) -> (r: bool)
    ensures
        r == one_token(s@),
{
    let mut i: usize = 0;
    while i < s.len()
        invariant
            i <= s@.len(),
            forall|j: int| 0 <= j < i ==> !is_ws(#[trigger] s@[j]) && !is_ctl(s@[j]),
        decreases s@.len() - i,
    {
        if text::is_whitespace(s[i]) || text::is_control(s[i]) {
            assert(is_ws(s@[i as int]) || is_ctl(s@[i as int]));
            return false;
        }
        i = i + 1;
    }
    true
}

/// The query for WHOIS servers: one token of at most 255 bytes.
pub fn check_whois(params: &WhoisParams) -> (r: Result<String>)
    ensures
        ({
            let q = trim(params.query@);
            if q.len() > 0 && encode_utf8(q).len() <= 255 && one_token(q) {
                r matches Ok(s) && s@ == q
            } else {
                r matches Err(e) && config_error(e, "invalid whois query (single token, no whitespace)"@)
            }
        }),
{
    let query = trimmed_string(params.query.as_str());
    let n = byte_len(query.as_str());
    let cs = text::chars_of(query.as_str());
    if n == 0 || n > 255 || !is_token(cs.as_slice()) {
        return Err(FeriteError::Config("invalid whois query (single token, no whitespace)".to_string()));
    }
    Ok(query)
}

/// What is sent to a WHOIS server.
pub fn whois_request(query: &str) -> (r: String)
    ensures
        r@ == query@ + "\r\n"@,
{
    let mut s = query.to_string();
    s.append("\r\n");
    s
}

/// The first WHOIS server, which knows the others.
pub fn iana_whois() -> (r: &'static str)
    ensures
        r@ == "whois.iana.org"@,
{
    "whois.iana.org"
}

/// What stands behind a prefix, trimmed, if it is not empty.
pub open spec fn behind(line: Seq<char>, prefix: Seq<char>) -> Option<Seq<char>> {
    if prefix.is_prefix_of(line) && trim(line.skip(prefix.len() as int)).len() > 0 {
        Some(trim(line.skip(prefix.len() as int)))
    } else {
        None
    }
}

/// The server that a line refers to.
pub open spec fn referral_line(line: Seq<char>) -> Option<Seq<char>> {
    let l = lower(trim(line));
    match behind(l, "refer:"@) {
        Some(s) => Some(s),
        None => behind(l, "whois:"@),
    }
}

/// The server that a WHOIS answer refers to: that of the first line which names one.
pub open spec fn referral(answer: Seq<char>) -> Option<Seq<char>> {
    first_found(lines(answer), |l: Seq<char>| referral_line(l))
}

fn text_behind(line: &[char], prefix: &str) -> (r: Option<String>)
    ensures
        (match r {
            Some(s) => Some(s@),
            None => None,
        }) == behind(line@, prefix@),
{
    if !text::starts_with(line, prefix) {
        return None;
    }
    let p = text::chars_of(prefix);
    let rest = text::trimmed(slice_subrange(line, p.len(), line.len()));
    assert(line@.subrange(p@.len() as int, line@.len() as int) =~= line@.skip(prefix@.len() as int));
    if rest.len() == 0 {
        return None;
    }
    Some(text::string_of(rest))
}

/// The server that a WHOIS answer refers to.
pub fn parse_referral(answer: &str) -> (r: Option<String>)
    ensures
        (match r {
            Some(s) => Some(s@),
            None => None,
        }) == referral(answer@),
{
    let cs = text::chars_of(answer);
    let ls = text::split_lines(cs.as_slice());
    let ghost lv = char_texts(ls@);
    let ghost f = |l: Seq<char>| referral_line(l);
    let mut i: usize = 0;
    while i < ls.len()
        invariant
            i <= ls@.len(),
            lv == char_texts(ls@),
            lv == lines(answer@),
            f == (|l: Seq<char>| referral_line(l)),
            first_found(lv.take(i as int), f) is None,
        decreases ls@.len() - i,
    {
        proof {
            assert(lv.take(i + 1) =~= lv.take(i as int).push(ls@[i as int]@));
            text::lemma_first_found_push(lv.take(i as int), ls@[i as int]@, f);
            text::lemma_first_found_prefix(lv.take(i + 1), lv.skip(i + 1), f);
            assert(lv.take(i + 1) + lv.skip(i + 1) =~= lv);
        }
        let low = text::to_lower(text::trimmed(ls[i].as_slice()));
        let server = text_behind(low.as_slice(), "refer:");
        if server.is_some() {
            return server;
        }
        let server = text_behind(low.as_slice(), "whois:");
        if server.is_some() {
            return server;
        }
        i = i + 1;
    }
    assert(lv.take(lv.len() as int) =~= lv);
    None
}

/// Which server has answered, and what: the one referred to, or the first one where
/// there is no other or it did not answer.
pub fn whois_answer(first: String, server: Option<String>, reply: Option<String>) -> (r: (String, String))
    ensures
        match (server, reply) {
            (Some(s), Some(t)) => r.0@ == s@ && r.1@ == t@,
            _ => r.0@ == "whois.iana.org"@ && r.1@ == first@,
        },
{
    match (server, reply) {
        (Some(s), Some(t)) => (s, t),
        _ => (iana_whois().to_string(), first),
    }
}

/// Whether a host can be connected to by this name: one token of at most 253 bytes.
pub fn validate_host(host: &str) -> (r: Result<()>)
    ensures
        if fits_name(host@) && one_token(host@) {
            r is Ok
        } else {
            r matches Err(e) && config_error(e, "invalid host (single token, no whitespace)"@)
        },
{
    let n = byte_len(host);
    let cs = text::chars_of(host);
    if n == 0 || n > 253 || !is_token(cs.as_slice()) {
        return Err(FeriteError::Config("invalid host (single token, no whitespace)".to_string()));
    }
    Ok(())
}

/// The egress that is asked for: trimmed, and none where that is empty.
pub fn chosen_egress(egress: &Option<String>) -> (r: Option<String>)
    ensures
        match egress {
            Some(e) => if trim(e@).len() > 0 {
                r is Some && r->0@ == trim(e@)
            } else {
                r is None
            },
            None => r is None,
        },
{
    match egress {
        Some(e) => {
            let cs = text::chars_of(e.as_str());
            let t = text::trimmed(cs.as_slice());
            if t.len() > 0 {
                Some(text::string_of(t))
            } else {
                None
            }
        },
        None => None,
    }
}

/// The error that there is no such egress.
pub fn unknown_egress(id: &str) -> (r: FeriteError)
    ensures
        config_error(r, "unknown egress '"@ + id@ + "'"@),
{
    let mut m = String::new();
    m.append("unknown egress '");
    m.append(id);
    m.append("'");
    assert(m@ =~= "unknown egress '"@ + id@ + "'"@);
    FeriteError::Config(m)
}

/// The body of a response: the part behind the first empty line, up to the next; or
/// everything where there is none.
pub open spec fn trace_body(raw: Seq<char>) -> Seq<char> {
    let sep = "\r\n\r\n"@;
    if contains_text(raw, sep) {
        let rest = raw.skip(text_position(raw, sep) as int + sep.len());
        if contains_text(rest, sep) {
            rest.take(text_position(rest, sep) as int)
        } else {
            rest
        }
    } else {
        raw
    }
}

/// The values that lines give to keys: what stands before and behind the first `=`,
/// trimmed. A later line counts.
pub open spec fn trace_values(ls: Seq<Seq<char>>) -> Map<Seq<char>, Seq<char>>
    decreases ls.len(),
{
    if ls.len() == 0 {
        Map::empty()
    } else {
        match after(ls.last(), '=') {
            Some(v) => trace_values(ls.drop_last()).insert(trim(before(ls.last(), '=')), trim(v)),
            None => trace_values(ls.drop_last()),
        }
    }
}

/// The map holds these texts.
pub open spec fn holds_texts(m: Map<Seq<char>, String>, t: Map<Seq<char>, Seq<char>>) -> bool {
    &&& m.dom() == t.dom()
    &&& forall|k: Seq<char>| #[trigger] m.dom().contains(k) ==> m[k]@ == t[k]
}

/// Reads a trace: an HTTP response whose body has one `key=value` on each line.
pub fn parse_trace(raw: &str) -> (r: StringHashMap<String>)
    ensures
        holds_texts(r@, trace_values(lines(trace_body(raw@)))),
{
    let cs = text::chars_of(raw);
    let s = cs.as_slice();
    let n = s.len();
    proof {
        reveal_strlit("\r\n\r\n");
        assert("\r\n\r\n"@.len() == 4);
    }
    let body = match text::find_text(s, "\r\n\r\n") {
        Some(p) => {
            assert(p + 4 <= n);
            let rest = slice_subrange(s, p + 4, n);
            assert(rest@ =~= s@.skip(p + 4));
            match text::find_text(rest, "\r\n\r\n") {
                Some(q) => {
                    let b = slice_subrange(rest, 0, q);
                    assert(b@ =~= rest@.take(q as int));
                    b
                },
                None => rest,
            }
        },
        None => s,
    };
    let ls = text::split_lines(body);
    let ghost lv = char_texts(ls@);
    let mut out: StringHashMap<String> = StringHashMap::new();
    let mut i: usize = 0;
    assert(holds_texts(out@, trace_values(lv.take(0))));
    while i < ls.len()
        invariant
            i <= ls@.len(),
            lv == char_texts(ls@),
            holds_texts(out@, trace_values(lv.take(i as int))),
        decreases ls@.len() - i,
    {
        proof {
            assert(lv.take(i + 1).drop_last() =~= lv.take(i as int));
            assert(lv.take(i + 1).last() == ls@[i as int]@);
        }
        let line = ls[i].as_slice();
        if let Some(v) = text::part_after(line, '=') {
            let k = text::string_of(text::trimmed(text::part_before(line, '=')));
            let v = text::string_of(text::trimmed(v));
            let ghost t = trace_values(lv.take(i as int));
            out.insert(k, v);
            assert(out@.dom() =~= t.insert(k@, v@).dom());
        }
        i = i + 1;
    }
    assert(lv.take(lv.len() as int) =~= lv);
    out
}

}

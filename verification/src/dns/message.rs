//! DNS messages as plain values. The wire format is read and written by
//! `hickory_proto`.
use std::str::FromStr;

use hickory_proto::op::{Edns, Message, MessageType, OpCode, Query};
use hickory_proto::rr::{Name, RData, Record};
use hickory_proto::serialize::binary::{BinDecodable, BinEncodable};
use vstd::prelude::*;
use vstd::slice::*;
use vstd::string::*;

use crate::dns::types::be16;

verus! {

/// A question: the name in lower case, and the type.
#[derive(Debug)]
pub struct WireQuestion {
    pub name: String,
    pub qtype: u16,
}

/// The data of a record, as far as it is looked into.
#[derive(Debug)]
pub enum WireData {
    /// An alias for the named domain.
    Cname(String),
    /// The name that a pointer leads to.
    Ptr(String),
    /// The MINIMUM field of a zone's start of authority.
    Soa(u32),
    /// Anything else.
    Other,
}

/// A record: how many seconds it is valid, and its data.
#[derive(Debug)]
pub struct WireRecord {
    pub ttl: u32,
    pub data: WireData,
}

/// The header of a message, its questions, and how its records are divided.
#[derive(Debug)]
pub struct WireHead {
    pub id: u16,
    pub op_code: u8,
    pub recursion_desired: bool,
    pub response_code: u16,
    /// How large a datagram the sender accepts.
    pub max_payload: u16,
    pub questions: Vec<WireQuestion>,
    /// How many records are answers.
    pub answers: usize,
    /// How many records after the answers name authorities.
    pub authorities: usize,
}

/// A question as a plain value.
pub ghost struct QuestionView {
    pub name: Seq<char>,
    pub qtype: u16,
}

/// The data of a record as a plain value.
pub ghost enum DataView {
    Cname(Seq<char>),
    Ptr(Seq<char>),
    Soa(u32),
    Other,
}

/// A record as a plain value.
pub ghost struct RecordView {
    pub ttl: u32,
    pub data: DataView,
}

/// A message without its records, as a plain value.
pub ghost struct HeadView {
    pub id: u16,
    pub op_code: u8,
    pub recursion_desired: bool,
    pub response_code: u16,
    pub max_payload: u16,
    pub questions: Seq<QuestionView>,
    pub answers: nat,
    pub authorities: nat,
}

impl View for WireQuestion {
    type V = QuestionView;

    open spec fn view(&self) -> QuestionView {
        QuestionView { name: self.name@, qtype: self.qtype }
    }
}

impl View for WireData {
    type V = DataView;

    open spec fn view(&self) -> DataView {
        match *self {
            WireData::Cname(n) => DataView::Cname(n@),
            WireData::Ptr(n) => DataView::Ptr(n@),
            WireData::Soa(m) => DataView::Soa(m),
            WireData::Other => DataView::Other,
        }
    }
}

impl View for WireRecord {
    type V = RecordView;

    open spec fn view(&self) -> RecordView {
        RecordView { ttl: self.ttl, data: self.data@ }
    }
}

impl View for WireHead {
    type V = HeadView;

    open spec fn view(&self) -> HeadView {
        HeadView {
            id: self.id,
            op_code: self.op_code,
            recursion_desired: self.recursion_desired,
            response_code: self.response_code,
            max_payload: self.max_payload,
            questions: self.questions@.map_values(|q: WireQuestion| q@),
            answers: self.answers as nat,
            authorities: self.authorities as nat,
        }
    }
}

/// The records of a list as plain values.
pub open spec fn record_views(v: Seq<WireRecord>) -> Seq<RecordView> {
    v.map_values(|r: WireRecord| r@)
}

/// The head of the message that a byte sequence encodes; none where the bytes are
/// no message.
pub uninterp spec fn dns_head(bytes: Seq<u8>) -> Option<HeadView>;

/// The records of the message that a byte sequence encodes, section by section:
/// answers, authorities, additional records.
pub uninterp spec fn dns_records(bytes: Seq<u8>) -> Option<Seq<RecordView>>;

/// The head, as far as it was read.
pub open spec fn head_view(r: Option<WireHead>) -> Option<HeadView> {
    match r {
        Some(h) => Some(h@),
        None => None,
    }
}

/// The records, as far as they were read.
pub open spec fn records_view(r: Option<Vec<WireRecord>>) -> Option<Seq<RecordView>> {
    match r {
        Some(v) => Some(record_views(v@)),
        None => None,
    }
}

/// There are as many records as the head says, or more.
pub open spec fn sections_fit(head: Option<HeadView>, records: Option<Seq<RecordView>>) -> bool {
    match (head, records) {
        (Some(h), Some(r)) => h.answers + h.authorities <= r.len(),
        (None, None) => true,
        _ => false,
    }
}

/// `Message::from_bytes` of `hickory_proto` reads a message. This hands out its
/// header fields, its questions with their names in ASCII lower case, and the
/// numbers of answers and authorities; `Message::max_payload` is never below 512.
#[verifier::external_body]
pub(crate) fn decode_head(bytes: &[u8]) -> (r: Option<WireHead>)
    ensures
        head_view(r) == dns_head(bytes@),
        r matches Some(h) ==> h.max_payload >= 512,
{
    let m = Message::from_bytes(bytes).ok()?;
    Some(WireHead {
        id: m.metadata.id,
        op_code: m.metadata.op_code.into(),
        recursion_desired: m.metadata.recursion_desired,
        response_code: m.metadata.response_code.into(),
        max_payload: m.max_payload(),
        answers: m.answers.len(),
        authorities: m.authorities.len(),
        questions: m.queries.iter().map(|q| WireQuestion { name: q.name().to_lowercase().to_utf8(), qtype: q.query_type().into() }).collect(),
    })
}

/// `Message::from_bytes` of `hickory_proto` reads a message. This hands out its
/// records: `Message::all_sections` goes through the answers, the authorities and
/// the additional records in this order.
#[verifier::external_body]
pub(crate) fn decode_records(bytes: &[u8]) -> (r: Option<Vec<WireRecord>>)
    ensures
        records_view(r) == dns_records(bytes@),
        sections_fit(dns_head(bytes@), records_view(r)),
{
    let m = Message::from_bytes(bytes).ok()?;
    Some(m.all_sections().map(|r| WireRecord {
        ttl: r.ttl,
        data: match &r.data {
            RData::CNAME(n) => WireData::Cname(n.0.to_utf8()),
            RData::PTR(n) => WireData::Ptr(n.0.to_utf8()),
            RData::SOA(s) => WireData::Soa(s.minimum),
            _ => WireData::Other,
        },
    }).collect())
}

/// The header of a response that is made from a query.
#[derive(Debug, Clone, Copy)]
pub struct ReplyHead {
    pub id: u16,
    pub authoritative: bool,
    pub recursion_desired: bool,
    pub recursion_available: bool,
    pub response_code: u16,
}

/// The encoded response with the given header and the questions of a query.
pub uninterp spec fn dns_reply(query: Seq<u8>, head: ReplyHead) -> Option<Seq<u8>>;

/// The bytes start with the given header: a response to a standard query, with no
/// records, and with the low bits of the response code.
pub open spec fn has_reply_head(bytes: Seq<u8>, head: ReplyHead) -> bool {
    &&& bytes.len() >= 12
    &&& be16(bytes, 0) == head.id
    &&& bytes[2] == 128 + (if head.authoritative { 4int } else { 0 }) + (if head.recursion_desired { 1int } else { 0 })
    &&& bytes[3] == (if head.recursion_available { 128int } else { 0 }) + head.response_code as int % 16
    &&& forall|i: int| 6 <= i < 12 ==> #[trigger] bytes[i] == 0
}

/// The byte view of an optional buffer.
pub open spec fn bytes_view(r: Option<Vec<u8>>) -> Option<Seq<u8>> {
    match r {
        Some(v) => Some(v@),
        None => None,
    }
}

/// A response read back: the questions are those of the query.
pub open spec fn repeats_questions(query: Seq<u8>, reply: Seq<u8>) -> bool {
    match (dns_head(query), dns_head(reply)) {
        (Some(q), Some(r)) => r.questions == q.questions,
        _ => false,
    }
}

/// `Message::response`, `Message::add_queries` and `Message::to_bytes` of
/// `hickory_proto` make a response to a standard query with the questions of
/// another message, and encode it: the fixed header first, then the questions,
/// which read back as they were. Whether it can be encoded at all is left open.
#[verifier::external_body]
pub(crate) fn encode_reply(query: &[u8], head: ReplyHead) -> (r: Option<Vec<u8>>)
    ensures
        bytes_view(r) == dns_reply(query@, head),
        r matches Some(v) ==> has_reply_head(v@, head) && repeats_questions(query@, v@),
{
    let q = Message::from_bytes(query).ok()?;
    let mut m = Message::response(head.id, OpCode::Query);
    m.metadata.authoritative = head.authoritative;
    m.metadata.recursion_desired = head.recursion_desired;
    m.metadata.recursion_available = head.recursion_available;
    m.metadata.response_code = head.response_code.into();
    m.add_queries(q.queries);
    m.to_bytes().ok()
}

/// The encoding of a message after its id and the lifetimes of its records were
/// replaced.
pub uninterp spec fn dns_rewritten(bytes: Seq<u8>, id: u16, ttls: Seq<u32>) -> Option<Seq<u8>>;

/// The message starts with the id, and a record of it that can be read back has
/// one of the lifetimes.
pub open spec fn has_lifetimes(bytes: Seq<u8>, id: u16, ttls: Seq<u32>) -> bool {
    &&& bytes.len() >= 12
    &&& be16(bytes, 0) == id
    &&& match dns_records(bytes) {
        Some(records) => forall|i: int| 0 <= i < records.len() ==> ttls.contains((#[trigger] records[i]).ttl),
        None => true,
    }
}

/// `Message::from_bytes` and `Message::to_bytes` of `hickory_proto` read a message
/// and encode it again, here with another id and with one lifetime for each of its
/// records, section by section. The encoding starts with the id, and every record
/// carries the lifetime that it was given. What else the encoding holds is left
/// open, and whether it succeeds.
#[verifier::external_body]
pub(crate) fn encode_rewritten(bytes: &[u8], id: u16, ttls: &[u32]) -> (r: Option<Vec<u8>>)
    requires
        dns_records(bytes@) matches Some(records) ==> records.len() == ttls@.len(),
    ensures
        bytes_view(r) == dns_rewritten(bytes@, id, ttls@),
        r matches Some(v) ==> has_lifetimes(v@, id, ttls@),
        dns_head(bytes@) is None ==> r is None,
{
    let mut m = Message::from_bytes(bytes).ok()?;
    m.metadata.id = id;
    let records = m.answers.iter_mut().chain(&mut m.authorities).chain(&mut m.additionals);
    for (record, ttl) in records.zip(ttls) {
        record.ttl = *ttl;
    }
    m.to_bytes().ok()
}

/// The encoded query for one name and type.
pub uninterp spec fn dns_question(name: Seq<char>, qtype: u16, id: u16, recursion_desired: bool) -> Option<Seq<u8>>;

/// The bytes are a query with one question of this type.
pub open spec fn is_question(bytes: Seq<u8>, qtype: u16, id: u16, recursion_desired: bool) -> bool {
    match dns_head(bytes) {
        Some(h) => {
            &&& h.id == id
            &&& h.op_code == 0
            &&& h.recursion_desired == recursion_desired
            &&& h.questions.len() == 1
            &&& h.questions[0].qtype == qtype
            &&& h.answers == 0
        },
        None => false,
    }
}

/// `Name::from_ascii`, `Query::query` and `Message::to_bytes` of `hickory_proto` make
/// a query for a name and encode it. What is encoded reads back with this id and
/// type. Whether the name is one, and how it is encoded, is left open.
#[verifier::external_body]
pub(crate) fn encode_question(name: &str, qtype: u16, id: u16, recursion_desired: bool) -> (r: Option<Vec<u8>>)
    ensures
        bytes_view(r) == dns_question(name@, qtype, id, recursion_desired),
        r matches Some(v) ==> is_question(v@, qtype, id, recursion_desired),
{
    let name = Name::from_ascii(name).ok()?;
    let mut m = Message::new(id, MessageType::Query, OpCode::Query);
    m.metadata.recursion_desired = recursion_desired;
    m.add_query(Query::query(name, qtype.into()));
    m.to_bytes().ok()
}

/// Why a query could not be made, with the reason as text.
#[derive(Debug)]
pub enum QuestionError {
    /// The name is none.
    Name(String),
    /// The query cannot be encoded.
    Encode(String),
}

/// Why a query could not be made, as a plain value.
pub ghost enum QuestionErrorView {
    Name(Seq<char>),
    Encode(Seq<char>),
}

/// The encoded query for one name and type, or why there is none. `edns` is the size
/// of datagrams that are accepted, and whether signatures are asked for.
pub uninterp spec fn dns_lookup(
    name: Seq<char>,
    qtype: u16,
    id: u16,
    edns: Option<(u16, bool)>,
) -> core::result::Result<Seq<u8>, QuestionErrorView>;

/// A query or the reason why there is none, as a plain value.
pub open spec fn lookup_view(r: core::result::Result<Vec<u8>, QuestionError>) -> core::result::Result<
    Seq<u8>,
    QuestionErrorView,
> {
    match r {
        Ok(v) => Ok(v@),
        Err(QuestionError::Name(m)) => Err(QuestionErrorView::Name(m@)),
        Err(QuestionError::Encode(m)) => Err(QuestionErrorView::Encode(m@)),
    }
}

/// `Name::from_str`, `Query::query`, `Edns::set_max_payload`, `Edns::set_dnssec_ok` and
/// `Message::to_bytes` of `hickory_proto` make a recursive query for a name and encode
/// it, with the given payload size and signature bit where there are any. What is encoded
/// reads back with this id and type. Which names are refused, and in what words, is
/// left open.
#[verifier::external_body]
pub(crate) fn encode_lookup(name: &str, qtype: u16, id: u16, edns: Option<(u16, bool)>) -> (r: core::result::Result<
    Vec<u8>,
    QuestionError,
>)
    ensures
        lookup_view(r) == dns_lookup(name@, qtype, id, edns),
        r matches Ok(v) ==> is_question(v@, qtype, id, true),
{
    let name = Name::from_str(name).map_err(|e| QuestionError::Name(e.to_string()))?;
    let mut m = Message::new(id, MessageType::Query, OpCode::Query);
    m.metadata.recursion_desired = true;
    m.add_query(Query::query(name, qtype.into()));
    m.edns = edns.map(|(payload, signatures)| {
        let mut e = Edns::new();
        e.set_max_payload(payload);
        e.set_dnssec_ok(signatures);
        e
    });
    m.to_bytes().map_err(|e| QuestionError::Encode(e.to_string()))
}

/// A record as it is shown.
#[derive(Debug)]
pub struct ShownRecord {
    pub name: String,
    pub rtype: String,
    pub ttl: u32,
    pub data: String,
}

/// A response as it is shown.
#[derive(Debug)]
pub struct ShownMessage {
    pub response_code: String,
    /// The resolver has checked the signatures.
    pub authenticated: bool,
    pub answers: Vec<ShownRecord>,
    /// The types of the records of all sections.
    pub types: Vec<u16>,
}

/// A record as it is shown, as a plain value.
pub ghost struct ShownRecordView {
    pub name: Seq<char>,
    pub rtype: Seq<char>,
    pub ttl: u32,
    pub data: Seq<char>,
}

/// A response as it is shown, as a plain value.
pub ghost struct ShownView {
    pub response_code: Seq<char>,
    pub authenticated: bool,
    pub answers: Seq<ShownRecordView>,
    pub types: Seq<u16>,
}

impl View for ShownMessage {
    type V = ShownView;

    open spec fn view(&self) -> ShownView {
        ShownView {
            response_code: self.response_code@,
            authenticated: self.authenticated,
            answers: self.answers@.map_values(
                |r: ShownRecord| ShownRecordView { name: r.name@, rtype: r.rtype@, ttl: r.ttl, data: r.data@ },
            ),
            types: self.types@,
        }
    }
}

/// The response that a byte sequence encodes, as it is shown, or why it is none.
pub uninterp spec fn dns_shown(bytes: Seq<u8>) -> core::result::Result<ShownView, Seq<char>>;

/// A response or the reason why there is none, as a plain value.
pub open spec fn shown_view(r: core::result::Result<ShownMessage, String>) -> core::result::Result<ShownView, Seq<char>> {
    match r {
        Ok(m) => Ok(m@),
        Err(e) => Err(e@),
    }
}

/// `Message::from_bytes` of `hickory_proto` reads a message, and the `Display` of its
/// parts shows it: the response code as its variant is called, the records with
/// their names, types and data. In what words is left open.
#[verifier::external_body]
pub(crate) fn decode_shown(bytes: &[u8]) -> (r: core::result::Result<ShownMessage, String>)
    ensures
        shown_view(r) == dns_shown(bytes@),
{
    let m = Message::from_bytes(bytes).map_err(|e| e.to_string())?;
    Ok(ShownMessage {
        response_code: format!("{:?}", m.metadata.response_code),
        authenticated: m.metadata.authentic_data,
        types: m.all_sections().map(|r| r.record_type().into()).collect(),
        answers: m.answers.iter().map(|r: &Record| ShownRecord {
            name: r.name.to_utf8(),
            rtype: r.record_type().to_string(),
            ttl: r.ttl,
            data: r.data.to_string(),
        }).collect(),
    })
}

}

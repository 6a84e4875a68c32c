//! How names of clients are found: what is asked, in which order, and what becomes
//! of the answers.
use vstd::prelude::*;
use vstd::slice::*;
use vstd::string::*;

use crate::clients;
use crate::clients::registry::{
    fresh, mac_behind, name_in, name_slot, ClientRegistry, RegistryView, RESOLVE_TTL,
};
use crate::clients::table::mac_key;
use crate::clients::{link_local, mac_view};
use crate::dns::message;
use crate::dns::message::{
    bytes_view, dns_head, dns_question, dns_records, is_question, record_views, DataView, RecordView, WireData,
};
use crate::dns::qtype;
use crate::ip::{IpAddr, Ipv4};
use crate::lru_cache::later;
use crate::random;
use crate::text;
use crate::text::{lower, trim_end_char};

verus! {

/// Local suffixes that are not shown.
pub open spec fn local_suffixes() -> Seq<Seq<char>> {
    seq![".localdomain"@, ".home.arpa"@, ".local"@, ".home"@, ".lan"@, ".internal"@]
}

/// The host before a suffix; none where that leaves nothing.
pub open spec fn host_before(name: Seq<char>, suffix: Seq<char>) -> Option<Seq<char>> {
    if suffix.is_suffix_of(name) && name.len() > suffix.len() {
        Some(name.take(name.len() - suffix.len()))
    } else {
        None
    }
}

/// A host name without its local suffix.
pub open spec fn shown_name(name: Seq<char>) -> Seq<char> {
    match text::first_found(local_suffixes(), |s: Seq<char>| host_before(name, s)) {
        Some(h) => h,
        None => name,
    }
}

fn strip_local(cs: &Vec<char>, suffix: &str) -> (r: Option<String>)
    ensures
        (match r {
            Some(h) => Some(h@),
            None => None,
        }) == host_before(cs@, suffix@),
{
    let s = text::chars_of(suffix);
    if cs.len() <= s.len() || !text::ends_with(cs.as_slice(), suffix) {
        return None;
    }
    let host = slice_subrange(cs.as_slice(), 0, cs.len() - s.len());
    assert(host@ =~= cs@.take(cs@.len() - suffix@.len()));
    Some(text::string_of(host))
}

/// Strips the first of the local suffixes that a host name ends with.
pub fn normalize_hostname(name: &str) -> (r: String)
    ensures
        r@ == shown_name(name@),
{
    let cs = text::chars_of(name);
    let ghost f = |s: Seq<char>| host_before(name@, s);
    let ghost all = local_suffixes();
    proof {
        assert(all.take(0) =~= Seq::<Seq<char>>::empty());
        assert(all.take(1) =~= all.take(0).push(all[0]));
        assert(all.take(2) =~= all.take(1).push(all[1]));
        assert(all.take(3) =~= all.take(2).push(all[2]));
        assert(all.take(4) =~= all.take(3).push(all[3]));
        assert(all.take(5) =~= all.take(4).push(all[4]));
        assert(all =~= all.take(5).push(all[5]));
        text::lemma_first_found_push(all.take(0), all[0], f);
        text::lemma_first_found_push(all.take(1), all[1], f);
        text::lemma_first_found_push(all.take(2), all[2], f);
        text::lemma_first_found_push(all.take(3), all[3], f);
        text::lemma_first_found_push(all.take(4), all[4], f);
        text::lemma_first_found_push(all.take(5), all[5], f);
    }
    if let Some(h) = strip_local(&cs, ".localdomain") {
        return h;
    }
    if let Some(h) = strip_local(&cs, ".home.arpa") {
        return h;
    }
    if let Some(h) = strip_local(&cs, ".local") {
        return h;
    }
    if let Some(h) = strip_local(&cs, ".home") {
        return h;
    }
    if let Some(h) = strip_local(&cs, ".lan") {
        return h;
    }
    if let Some(h) = strip_local(&cs, ".internal") {
        return h;
    }
    name.to_string()
}

/// The id that two random bytes make, the higher one first; none without the bytes.
pub open spec fn id_of_bytes(bytes: Option<Seq<u8>>) -> Option<u16> {
    match bytes {
        Some(b) => Some((b[0] * 256 + b[1]) as u16),
        None => None,
    }
}

/// Makes an id for a query out of two random bytes, if there are any.
pub fn query_id(bytes: Option<Vec<u8>>) -> (r: Option<u16>)
    requires
        bytes matches Some(b) ==> b@.len() == 2,
    ensures
        r == id_of_bytes(bytes_view(bytes)),
{
    match bytes {
        Some(b) => Some((b[0] as u16) * 256 + b[1] as u16),
        None => None,
    }
}

/// A random id for a query; none where there is no randomness. Which bytes the id is
/// made of, and whether there are any, is left to the system's generator.
pub fn random_query_id() -> (r: Option<u16>)
    ensures
        exists|bytes: Option<Seq<u8>>|
            (bytes matches Some(b) ==> b.len() == 2) && r == #[trigger] id_of_bytes(bytes),
{
    let bytes = random::random_bytes(2);
    query_id(bytes)
}

/// The query for the name that a reverse-lookup domain leads to.
pub fn ptr_query(ptr_domain: &str, id: u16) -> (r: Option<Vec<u8>>)
    ensures
        bytes_view(r) == dns_question(ptr_domain@, qtype::PTR, id, true),
        r matches Some(v) ==> is_question(v@, qtype::PTR, id, true),
{
    message::encode_question(ptr_domain, qtype::PTR, id, true)
}

/// The query for the name that a reverse-lookup domain leads to, under a random id.
pub fn build_ptr_query(ptr_domain: &str) -> (r: Option<Vec<u8>>)
    ensures
        r matches Some(v) ==> exists|id: u16|
            Some(v@) == #[trigger] dns_question(ptr_domain@, qtype::PTR, id, true) && is_question(
                v@,
                qtype::PTR,
                id,
                true,
            ),
{
    match random_query_id() {
        Some(id) => ptr_query(ptr_domain, id),
        None => None,
    }
}

/// A name as a pointer gives it: in lower case and without dots at its end. None for
/// the root.
pub open spec fn pointed_name(n: Seq<char>) -> Option<Seq<char>> {
    let t = trim_end_char(n, '.');
    if t.len() > 0 {
        Some(lower(t))
    } else {
        None
    }
}

/// The first name that a pointer among the records from `i` to `end` leads to.
pub open spec fn first_pointed(records: Seq<RecordView>, i: int, end: int) -> Option<Seq<char>>
    decreases end - i,
{
    if i >= end {
        None
    } else {
        match records[i].data {
            DataView::Ptr(n) if pointed_name(n) is Some => pointed_name(n),
            _ => first_pointed(records, i + 1, end),
        }
    }
}

/// The name that an answer to a reverse lookup gives.
pub open spec fn ptr_name(bytes: Seq<u8>) -> Option<Seq<char>> {
    match (dns_head(bytes), dns_records(bytes)) {
        (Some(h), Some(records)) => first_pointed(records, 0, h.answers as int),
        _ => None,
    }
}

/// The name that an answer to a reverse lookup gives.
pub fn parse_ptr_response(bytes: &[u8]) -> (r: Option<String>)
    ensures
        (match r {
            Some(n) => Some(n@),
            None => None,
        }) == ptr_name(bytes@),
{
    let head = match message::decode_head(bytes) {
        Some(h) => h,
        None => return None,
    };
    let records = match message::decode_records(bytes) {
        Some(v) => v,
        None => return None,
    };
    let ghost rv = record_views(records@);
    let mut i: usize = 0;
    while i < head.answers
        invariant
            i <= head.answers <= records@.len(),
            rv == record_views(records@),
            ptr_name(bytes@) == first_pointed(rv, i as int, head.answers as int),
        decreases head.answers - i,
    {
        assert(rv[i as int] == records@[i as int]@);
        if let WireData::Ptr(n) = &records[i].data {
            let cs = text::chars_of(n.as_str());
            let t = text::trimmed_end_char(cs.as_slice(), '.');
            if t.len() > 0 {
                return Some(text::lowered(t));
            }
        }
        i = i + 1;
    }
    None
}

/// What is to be asked next.
#[derive(Debug, Clone, Copy)]
pub enum Lookup {
    /// A resolver, for the name of an address.
    Ptr(IpAddr),
    /// The local network, for the name of an address.
    Mdns(IpAddr),
    /// The neighbour table, for the IPv4 address of a device.
    Ipv4Of([u8; 6]),
}

/// What was answered. None stands for no answer.
#[derive(Debug)]
pub enum LookupAnswer {
    Name(Option<String>),
    Address(Option<Ipv4>),
}

/// Where looking for a name stands.
#[derive(Debug, Clone, Copy)]
pub struct Search {
    /// What was asked last.
    pub asked: Lookup,
    /// The device that the name is for.
    pub device: Option<[u8; 6]>,
}

/// How looking for a name goes on.
#[derive(Debug)]
pub enum Progress {
    /// Something is to be asked.
    Ask(Search),
    /// The name was found, or there is none.
    Done(Option<String>),
}

/// The start of a search. For an address of the local link the name of the device
/// behind it is taken where it is fresh, and else the local network is asked; for
/// any other address a resolver is asked.
pub open spec fn starts(v: RegistryView, a: IpAddr, device: Option<[u8; 6]>, now: u64, p: Progress) -> bool {
    if a is V6 && link_local(a->V6_0) {
        let m = mac_behind(v, a);
        if m is Some && fresh(v.mac_names, mac_key(m->0), now) && name_in(v.mac_names, mac_key(m->0)) is Some {
            match p {
                Progress::Done(Some(n)) => Some(n@) == name_in(v.mac_names, mac_key(m->0)),
                _ => false,
            }
        } else {
            match p {
                Progress::Ask(s) => s.asked == Lookup::Mdns(a) && mac_view(s.device) == m,
                _ => false,
            }
        }
    } else {
        match p {
            Progress::Ask(s) => s.asked == Lookup::Ptr(a) && s.device == device,
            _ => false,
        }
    }
}

/// The registry with a name that was found for a device.
pub open spec fn with_found(v: RegistryView, device: Option<Seq<u8>>, name: Seq<char>, now: u64) -> RegistryView {
    match device {
        Some(m) => RegistryView {
            mac_names: v.mac_names.insert(mac_key(m), name_slot(Some(name), later(now, RESOLVE_TTL))),
            ..v
        },
        None => v,
    }
}

/// The name of the device is new and is to be stored.
pub open spec fn new_name(v: RegistryView, device: Option<Seq<u8>>, name: Seq<char>) -> bool {
    device is Some && name_in(v.mac_names, mac_key(device->0)) != Some(name)
}

/// The name that was answered.
pub open spec fn answered_name(a: LookupAnswer) -> Option<Seq<char>> {
    match a {
        LookupAnswer::Name(Some(n)) => Some(n@),
        _ => None,
    }
}

/// The address that was answered.
pub open spec fn answered_address(a: LookupAnswer) -> Option<Ipv4> {
    match a {
        LookupAnswer::Address(a) => a,
        _ => None,
    }
}

/// How a search goes on after an answer: a name ends it. Without one, the local
/// network is asked after the resolver. After the local network was asked for an
/// address of the local link, the neighbour table is asked for the device's IPv4
/// address, whose name is then looked for in its place.
pub open spec fn goes_on(s: Search, answer: LookupAnswer, p: Progress) -> bool {
    match s.asked {
        Lookup::Ptr(a) => match answered_name(answer) {
            Some(n) => finds(p, n),
            None => match p {
                Progress::Ask(t) => t.asked == Lookup::Mdns(a) && t.device == s.device,
                _ => false,
            },
        },
        Lookup::Mdns(a) => match answered_name(answer) {
            Some(n) => finds(p, n),
            None => if a is V6 && link_local(a->V6_0) && s.device is Some {
                match p {
                    Progress::Ask(t) => t.asked == Lookup::Ipv4Of(s.device->0) && t.device == s.device,
                    _ => false,
                }
            } else {
                p == Progress::Done(None)
            },
        },
        Lookup::Ipv4Of(m) => match answered_address(answer) {
            Some(b) => match p {
                Progress::Ask(t) => t.asked == Lookup::Ptr(IpAddr::V4(b)) && t.device == s.device,
                _ => false,
            },
            None => p == Progress::Done(None),
        },
    }
}

/// The search ends with this name, without its local suffix.
pub open spec fn finds(p: Progress, raw: Seq<char>) -> bool {
    match p {
        Progress::Done(Some(n)) => n@ == shown_name(raw),
        _ => false,
    }
}

/// Starts looking for the name of an address.
pub fn start_search(registry: &ClientRegistry, ip: IpAddr, device: Option<[u8; 6]>, now: u64) -> (r: Progress)
    ensures
        starts(registry@, ip, device, now, r),
{
    if let IpAddr::V6(v6) = ip {
        if clients::is_link_local_v6(&v6) {
            let m = registry.mac_for_ip(&ip);
            if let Some(mac) = m {
                if let Some(n) = registry.fresh_mac_name(&mac, now) {
                    return Progress::Done(Some(n));
                }
            }
            return Progress::Ask(Search { asked: Lookup::Mdns(ip), device: m });
        }
    }
    Progress::Ask(Search { asked: Lookup::Ptr(ip), device })
}

/// A name was found. It is kept for the device, if that is known. The second part
/// says whether it is to be stored.
fn found_name(registry: &mut ClientRegistry, s: &Search, raw: &str, now: u64) -> (r: (Progress, bool))
    requires
        old(registry).wf(),
    ensures
        final(registry).wf(),
        finds(r.0, raw@),
        final(registry)@ == with_found(old(registry)@, mac_view(s.device), shown_name(raw@), now),
        r.1 == new_name(old(registry)@, mac_view(s.device), shown_name(raw@)),
{
    let name = normalize_hostname(raw);
    let mut store = false;
    if let Some(m) = &s.device {
        store = registry.cache_mac(m, name.as_str(), now);
    }
    (Progress::Done(Some(name)), store)
}

/// Goes on looking for a name after an answer. The second part says whether the name
/// of the device is new and is to be stored.
pub fn continue_search(registry: &mut ClientRegistry, s: Search, answer: LookupAnswer, now: u64) -> (r: (Progress, bool))
    requires
        old(registry).wf(),
    ensures
        final(registry).wf(),
        goes_on(s, answer, r.0),
        ({
            let named = !(s.asked is Ipv4Of) && answered_name(answer) is Some;
            let name = shown_name(answered_name(answer)->0);
            &&& named ==> final(registry)@ == with_found(old(registry)@, mac_view(s.device), name, now) && r.1
                == new_name(old(registry)@, mac_view(s.device), name)
            &&& !named ==> final(registry)@ == old(registry)@ && !r.1
        }),
{
    match s.asked {
        Lookup::Ptr(a) => {
            if let LookupAnswer::Name(Some(raw)) = &answer {
                return found_name(registry, &s, raw.as_str(), now);
            }
            (Progress::Ask(Search { asked: Lookup::Mdns(a), device: s.device }), false)
        },
        Lookup::Mdns(a) => {
            if let LookupAnswer::Name(Some(raw)) = &answer {
                return found_name(registry, &s, raw.as_str(), now);
            }
            if let IpAddr::V6(v6) = a {
                if clients::is_link_local_v6(&v6) {
                    if let Some(m) = s.device {
                        return (Progress::Ask(Search { asked: Lookup::Ipv4Of(m), device: s.device }), false);
                    }
                }
            }
            (Progress::Done(None), false)
        },
        Lookup::Ipv4Of(_) => {
            if let LookupAnswer::Address(Some(b)) = answer {
                return (Progress::Ask(Search { asked: Lookup::Ptr(IpAddr::V4(b)), device: s.device }), false);
            }
            (Progress::Done(None), false)
        },
    }
}

}

//! The tables of the client registry, kept by the `dashmap` crate.
use dashmap::{DashMap, DashSet};
use vstd::prelude::*;
use vstd::string::*;

use crate::ip::{IpAddr, Ipv4, Ipv6};

verus! {

/// What a table is looked up by: an address or a hardware address, in numbers. The
/// first number tells which.
pub type ClientKey = (u16, u16, u16, u16, u16, u16, u16, u16, u16);

/// The key of an address.
pub open spec fn ip_key(a: IpAddr) -> ClientKey {
    match a {
        IpAddr::V4(v) => (4, v.a as u16, v.b as u16, v.c as u16, v.d as u16, 0, 0, 0, 0),
        IpAddr::V6(v) => (6, v.s0, v.s1, v.s2, v.s3, v.s4, v.s5, v.s6, v.s7),
    }
}

/// The address that a key stands for.
pub open spec fn key_ip(k: ClientKey) -> IpAddr {
    if k.0 == 4 {
        IpAddr::V4(Ipv4 { a: k.1 as u8, b: k.2 as u8, c: k.3 as u8, d: k.4 as u8 })
    } else {
        IpAddr::V6(Ipv6 { s0: k.1, s1: k.2, s2: k.3, s3: k.4, s4: k.5, s5: k.6, s6: k.7, s7: k.8 })
    }
}

/// The key of a hardware address.
pub open spec fn mac_key(m: Seq<u8>) -> ClientKey {
    (48, m[0] as u16, m[1] as u16, m[2] as u16, m[3] as u16, m[4] as u16, m[5] as u16, 0, 0)
}

/// The hardware address that a key stands for.
pub open spec fn key_mac(k: ClientKey) -> Seq<u8> {
    seq![k.1 as u8, k.2 as u8, k.3 as u8, k.4 as u8, k.5 as u8, k.6 as u8]
}

/// An address is known by its key.
pub proof fn ip_keys_are_faithful(a: IpAddr)
    ensures
        key_ip(ip_key(a)) == a,
{
}

/// A hardware address is known by its key.
pub proof fn mac_keys_are_faithful(m: Seq<u8>)
    requires
        m.len() == 6,
    ensures
        key_mac(mac_key(m)) == m,
{
    assert(key_mac(mac_key(m)) =~= m);
}

/// The key of an address.
pub fn key_of_ip(a: &IpAddr) -> (r: ClientKey)
    ensures
        r == ip_key(*a),
{
    match a {
        IpAddr::V4(v) => (4, v.a as u16, v.b as u16, v.c as u16, v.d as u16, 0, 0, 0, 0),
        IpAddr::V6(v) => (6, v.s0, v.s1, v.s2, v.s3, v.s4, v.s5, v.s6, v.s7),
    }
}

/// The address that a key stands for.
pub fn ip_of_key(k: &ClientKey) -> (r: IpAddr)
    ensures
        r == key_ip(*k),
{
    if k.0 == 4 {
        IpAddr::V4(Ipv4 { a: k.1 as u8, b: k.2 as u8, c: k.3 as u8, d: k.4 as u8 })
    } else {
        IpAddr::V6(Ipv6 { s0: k.1, s1: k.2, s2: k.3, s3: k.4, s4: k.5, s5: k.6, s6: k.7, s7: k.8 })
    }
}

/// The key of a hardware address.
pub fn key_of_mac(m: &[u8; 6]) -> (r: ClientKey)
    ensures
        r == mac_key(m@),
{
    (48, m[0] as u16, m[1] as u16, m[2] as u16, m[3] as u16, m[4] as u16, m[5] as u16, 0, 0)
}

/// The hardware address that a key stands for.
pub fn mac_of_key(k: &ClientKey) -> (r: [u8; 6])
    ensures
        r@ == key_mac(*k),
{
    let m: [u8; 6] = [k.1 as u8, k.2 as u8, k.3 as u8, k.4 as u8, k.5 as u8, k.6 as u8];
    assert(m@ =~= key_mac(*k));
    m
}

/// What a table holds for a key. Each table uses the fields that it needs.
#[derive(Debug)]
pub struct Slot {
    pub name: Option<String>,
    pub mac: [u8; 6],
    pub expires_at: u64,
}

/// A slot as a plain value.
pub ghost struct SlotView {
    pub name: Option<Seq<char>>,
    pub mac: Seq<u8>,
    pub expires_at: u64,
}

impl View for Slot {
    type V = SlotView;

    open spec fn view(&self) -> SlotView {
        SlotView {
            name: match self.name {
                Some(n) => Some(n@),
                None => None,
            },
            mac: self.mac@,
            expires_at: self.expires_at,
        }
    }
}

impl Clone for Slot {
    fn clone(&self) -> (r: Slot)
        ensures
            r@ == self@,
    {
        let name = match &self.name {
            Some(n) => Some(n.clone()),
            None => None,
        };
        Slot { name, mac: self.mac, expires_at: self.expires_at }
    }
}

/// A map of the `dashmap` crate.
#[verifier::external_type_specification]
#[verifier::external_body]
#[verifier::reject_recursive_types(K)]
#[verifier::reject_recursive_types(V)]
#[verifier::reject_recursive_types(S)]
pub struct ExDashMap<K, V, S>(DashMap<K, V, S>);

/// A set of the `dashmap` crate.
#[verifier::external_type_specification]
#[verifier::external_body]
#[verifier::reject_recursive_types(K)]
#[verifier::reject_recursive_types(S)]
pub struct ExDashSet<K, S>(DashSet<K, S>);

/// What a map holds.
pub uninterp spec fn table_entries(t: DashMap<ClientKey, Slot>) -> Map<ClientKey, SlotView>;

/// What a set holds.
pub uninterp spec fn set_members(s: DashSet<ClientKey>) -> Set<ClientKey>;

/// A map without entries.
pub open spec fn no_entries() -> Map<ClientKey, SlotView> {
    Map::empty()
}

/// What is found in a map.
pub open spec fn looked_up(m: Map<ClientKey, SlotView>, k: ClientKey) -> Option<SlotView> {
    if m.dom().contains(k) {
        Some(m[k])
    } else {
        None
    }
}

/// The view of an optional slot.
pub open spec fn slot_view(s: Option<Slot>) -> Option<SlotView> {
    match s {
        Some(x) => Some(x@),
        None => None,
    }
}

/// The list holds each entry of the map once, in some order.
pub open spec fn lists(v: Seq<(ClientKey, Slot)>, m: Map<ClientKey, SlotView>) -> bool {
    &&& forall|i: int| 0 <= i < v.len() ==> m.dom().contains((#[trigger] v[i]).0) && m[v[i].0] == v[i].1@
    &&& forall|i: int, j: int| 0 <= i < j < v.len() ==> (#[trigger] v[i]).0 != (#[trigger] v[j]).0
    &&& forall|k: ClientKey| #[trigger] m.dom().contains(k) ==> exists|i: int| 0 <= i < v.len() && (#[trigger] v[i]).0 == k
}

/// `DashMap::new` makes an empty map.
#[verifier::external_body]
pub(crate) fn table_new() -> (r: DashMap<ClientKey, Slot>)
    ensures
        table_entries(r) == no_entries(),
{
    DashMap::new()
}

/// `DashMap::insert` puts a value in place of an earlier one for its key.
#[verifier::external_body]
pub(crate) fn table_insert(t: &mut DashMap<ClientKey, Slot>, k: ClientKey, slot: Slot)
    ensures
        table_entries(*final(t)) == table_entries(*old(t)).insert(k, slot@),
{
    t.insert(k, slot);
}

/// `DashMap::get` finds the value for a key; this hands out a copy.
#[verifier::external_body]
pub(crate) fn table_get(t: &DashMap<ClientKey, Slot>, k: ClientKey) -> (r: Option<Slot>)
    ensures
        slot_view(r) == looked_up(table_entries(*t), k),
{
    t.get(&k).map(|e| e.value().clone())
}

/// `DashMap::remove` removes the value for a key, if there is one.
#[verifier::external_body]
pub(crate) fn table_remove(t: &mut DashMap<ClientKey, Slot>, k: ClientKey)
    ensures
        table_entries(*final(t)) == table_entries(*old(t)).remove(k),
{
    t.remove(&k);
}

/// `DashMap::len` counts the entries.
#[verifier::external_body]
pub(crate) fn table_len(t: &DashMap<ClientKey, Slot>) -> (r: usize)
    ensures
        r == table_entries(*t).dom().len(),
{
    t.len()
}

/// `DashMap::clear` removes all entries.
#[verifier::external_body]
pub(crate) fn table_clear(t: &mut DashMap<ClientKey, Slot>)
    ensures
        table_entries(*final(t)) == no_entries(),
{
    t.clear();
}

/// `DashMap::iter` goes through all entries, in no order that is promised; this
/// hands out copies.
#[verifier::external_body]
pub(crate) fn table_list(t: &DashMap<ClientKey, Slot>) -> (r: Vec<(ClientKey, Slot)>)
    ensures
        lists(r@, table_entries(*t)),
{
    t.iter().map(|e| (*e.key(), e.value().clone())).collect()
}

/// `DashSet::new` makes an empty set.
#[verifier::external_body]
pub(crate) fn set_new() -> (r: DashSet<ClientKey>)
    ensures
        set_members(r) == Set::<ClientKey>::empty(),
{
    DashSet::new()
}

/// `DashSet::insert` adds a member and says whether it is a new one.
#[verifier::external_body]
pub(crate) fn set_insert(s: &mut DashSet<ClientKey>, k: ClientKey) -> (r: bool)
    ensures
        r == !set_members(*old(s)).contains(k),
        set_members(*final(s)) == set_members(*old(s)).insert(k),
{
    s.insert(k)
}

/// `DashSet::remove` removes a member, if it is one.
#[verifier::external_body]
pub(crate) fn set_remove(s: &mut DashSet<ClientKey>, k: ClientKey)
    ensures
        set_members(*final(s)) == set_members(*old(s)).remove(k),
{
    s.remove(&k);
}

}

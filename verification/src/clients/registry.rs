//! The registry of clients: what is known of names, aliases and hardware addresses.
use dashmap::{DashMap, DashSet};
use vstd::prelude::*;
use vstd::slice::*;
use vstd::string::*;

use crate::clients;
use crate::clients::mac;
use crate::clients::mac::{eui64_mac, neighbor_views};
use crate::clients::table;
use crate::clients::table::{
    ip_key, key_ip, key_mac, lists, looked_up, mac_key, set_members, table_entries, ClientKey, Slot, SlotView,
};
use crate::clients::{client_ip, mac_of_text, mac_text, mac_view, unmapped, DeviceInfo};
use crate::ip;
use crate::ip::{ip_text, IpAddr};
use crate::lru_cache;
use crate::lru_cache::later;
use crate::text;
use crate::text::texts;

verus! {

/// For how many seconds a resolved name is fresh.
pub const RESOLVE_TTL: u64 = 1800;

/// For how many seconds nothing is tried again after no name was found.
pub const MISS_TTL: u64 = 30;

/// What the registry knows.
pub ghost struct RegistryView {
    /// Names that were found for addresses, or that none was found.
    pub found: Map<ClientKey, SlotView>,
    /// Names that were given to addresses.
    pub ip_aliases: Map<ClientKey, SlotView>,
    /// Names that were given to hardware addresses.
    pub mac_aliases: Map<ClientKey, SlotView>,
    /// Names that were found for hardware addresses.
    pub mac_names: Map<ClientKey, SlotView>,
    /// The hardware addresses behind addresses.
    pub bindings: Map<ClientKey, SlotView>,
    /// The addresses that are being resolved.
    pub in_flight: Set<ClientKey>,
    /// When the bindings were last confirmed, in seconds since 1970.
    pub last_touch: i64,
}

/// A name in a table.
pub open spec fn name_in(m: Map<ClientKey, SlotView>, k: ClientKey) -> Option<Seq<char>> {
    match looked_up(m, k) {
        Some(s) => s.name,
        None => None,
    }
}

/// The hardware address that an address is bound to.
pub open spec fn bound_mac(m: Map<ClientKey, SlotView>, a: IpAddr) -> Option<Seq<u8>> {
    match looked_up(m, ip_key(a)) {
        Some(s) => Some(s.mac),
        None => None,
    }
}

/// The hardware address behind an address: the one inside it, or else the one it
/// is bound to.
pub open spec fn mac_behind(v: RegistryView, a: IpAddr) -> Option<Seq<u8>> {
    match a {
        IpAddr::V6(x) => match eui64_mac(x) {
            Some(m) => Some(m),
            None => bound_mac(v.bindings, a),
        },
        IpAddr::V4(_) => bound_mac(v.bindings, a),
    }
}

/// The name of a device: the one that it was given, or else the one that was found.
pub open spec fn device_name(v: RegistryView, m: Seq<u8>) -> Option<Seq<char>> {
    match name_in(v.mac_aliases, mac_key(m)) {
        Some(n) => Some(n),
        None => name_in(v.mac_names, mac_key(m)),
    }
}

/// The name of an address: the one that it was given, that of the device behind it,
/// or the one that was found for it.
pub open spec fn name_of(v: RegistryView, a: IpAddr) -> Option<Seq<char>> {
    let found = name_in(v.found, ip_key(a));
    match name_in(v.ip_aliases, ip_key(a)) {
        Some(n) => Some(n),
        None => match mac_behind(v, a) {
            Some(m) => match device_name(v, m) {
                Some(n) => Some(n),
                None => found,
            },
            None => found,
        },
    }
}

/// The address or the device behind it was given a name.
pub open spec fn aliased(v: RegistryView, a: IpAddr) -> bool {
    v.ip_aliases.dom().contains(ip_key(a)) || (mac_behind(v, a) is Some && v.mac_aliases.dom().contains(
        mac_key(mac_behind(v, a)->0),
    ))
}

/// There is an entry that has not expired.
pub open spec fn fresh(m: Map<ClientKey, SlotView>, k: ClientKey, now: u64) -> bool {
    m.dom().contains(k) && now < m[k].expires_at
}

/// The name of the address is to be looked for: none was given, and what was found
/// has expired.
pub open spec fn stale(v: RegistryView, a: IpAddr, now: u64) -> bool {
    &&& !aliased(v, a)
    &&& !(mac_behind(v, a) is Some && fresh(v.mac_names, mac_key(mac_behind(v, a)->0), now))
    &&& !fresh(v.found, ip_key(a), now)
}

/// All keys stand for addresses.
pub open spec fn ip_keyed(m: Map<ClientKey, SlotView>) -> bool {
    forall|k: ClientKey| #[trigger] m.dom().contains(k) ==> k == ip_key(key_ip(k))
}

/// All keys stand for hardware addresses, and every entry has a name.
pub open spec fn mac_keyed(m: Map<ClientKey, SlotView>) -> bool {
    forall|k: ClientKey| #[trigger] m.dom().contains(k) ==> k == mac_key(key_mac(k)) && m[k].name is Some
}

/// Every entry has a name.
pub open spec fn all_named(m: Map<ClientKey, SlotView>) -> bool {
    forall|k: ClientKey| #[trigger] m.dom().contains(k) ==> m[k].name is Some
}

/// Every entry has a hardware address.
pub open spec fn all_bound(m: Map<ClientKey, SlotView>) -> bool {
    forall|k: ClientKey| #[trigger] m.dom().contains(k) ==> m[k].mac.len() == 6
}

/// A table entry with a name.
pub open spec fn name_slot(name: Option<Seq<char>>, expires_at: u64) -> SlotView {
    SlotView { name, mac: seq![0, 0, 0, 0, 0, 0], expires_at }
}

/// A table entry with a hardware address.
pub open spec fn mac_slot(m: Seq<u8>) -> SlotView {
    SlotView { name: None, mac: m, expires_at: 0 }
}

fn slot_of_name(name: Option<String>, expires_at: u64) -> (r: Slot)
    ensures
        r@ == name_slot(
            match name {
                Some(n) => Some(n@),
                None => None,
            },
            expires_at,
        ),
{
    let mac: [u8; 6] = [0, 0, 0, 0, 0, 0];
    assert(mac@ =~= seq![0u8, 0, 0, 0, 0, 0]);
    Slot { name, mac, expires_at }
}

fn slot_of_mac(mac: [u8; 6]) -> (r: Slot)
    ensures
        r@ == mac_slot(mac@),
{
    Slot { name: None, mac, expires_at: 0 }
}

/// The registry after a stored alias was taken over. Keys that name no client are
/// passed over.
pub open spec fn with_alias(v: RegistryView, key: Seq<char>, kind: Seq<char>, name: Seq<char>) -> RegistryView {
    if kind == "mac"@ {
        match mac_of_text(key) {
            Some(m) => RegistryView {
                mac_aliases: v.mac_aliases.insert(mac_key(m), name_slot(Some(name), 0)),
                ..v
            },
            None => v,
        }
    } else {
        match client_ip(key) {
            Some(a) => RegistryView {
                ip_aliases: v.ip_aliases.insert(ip_key(unmapped(a)), name_slot(Some(name), 0)),
                ..v
            },
            None => v,
        }
    }
}

/// The registry after stored aliases were taken over.
pub open spec fn with_aliases(v: RegistryView, rows: Seq<(String, String, String)>) -> RegistryView
    decreases rows.len(),
{
    if rows.len() == 0 {
        v
    } else {
        with_alias(with_aliases(v, rows.drop_last()), rows.last().0@, rows.last().1@, rows.last().2@)
    }
}

/// The registry after a stored device was taken over: its name counts as expired.
pub open spec fn with_device(v: RegistryView, key: Seq<char>, name: Option<String>, now: u64) -> RegistryView {
    match (mac_of_text(key), name) {
        (Some(m), Some(n)) => RegistryView {
            mac_names: v.mac_names.insert(mac_key(m), name_slot(Some(n@), now)),
            ..v
        },
        _ => v,
    }
}

/// The registry after stored devices were taken over.
pub open spec fn with_devices(v: RegistryView, rows: Seq<(String, Option<String>)>, now: u64) -> RegistryView
    decreases rows.len(),
{
    if rows.len() == 0 {
        v
    } else {
        with_device(with_devices(v, rows.drop_last(), now), rows.last().0@, rows.last().1, now)
    }
}

/// The registry after a stored binding was taken over.
pub open spec fn with_binding(v: RegistryView, key: Seq<char>, m: Seq<char>) -> RegistryView {
    match (client_ip(key), mac_of_text(m)) {
        (Some(a), Some(b)) => RegistryView { bindings: v.bindings.insert(ip_key(unmapped(a)), mac_slot(b)), ..v },
        _ => v,
    }
}

/// The registry after stored bindings were taken over.
pub open spec fn with_bindings(v: RegistryView, rows: Seq<(String, String)>) -> RegistryView
    decreases rows.len(),
{
    if rows.len() == 0 {
        v
    } else {
        with_binding(with_bindings(v, rows.drop_last()), rows.last().0@, rows.last().1@)
    }
}

/// A registry that knows nothing.
pub open spec fn empty_registry() -> RegistryView {
    RegistryView {
        found: Map::empty(),
        ip_aliases: Map::empty(),
        mac_aliases: Map::empty(),
        mac_names: Map::empty(),
        bindings: Map::empty(),
        in_flight: Set::empty(),
        last_touch: 0,
    }
}

/// Rows of a listing of aliases: key, kind and name.
pub open spec fn alias_rows(v: Seq<(String, &'static str, String)>) -> Seq<(Seq<char>, Seq<char>, Option<Seq<char>>)> {
    v.map_values(|r: (String, &'static str, String)| (r.0@, r.1@, Some(r.2@)))
}

/// The rows for aliases of addresses.
pub open spec fn ip_alias_rows(a: Seq<(ClientKey, Slot)>) -> Seq<(Seq<char>, Seq<char>, Option<Seq<char>>)> {
    a.map_values(|e: (ClientKey, Slot)| (ip_text(key_ip(e.0)), "ip"@, e.1@.name))
}

/// The rows for aliases of hardware addresses.
pub open spec fn mac_alias_rows(a: Seq<(ClientKey, Slot)>) -> Seq<(Seq<char>, Seq<char>, Option<Seq<char>>)> {
    a.map_values(|e: (ClientKey, Slot)| (mac_text(key_mac(e.0)), "mac"@, e.1@.name))
}

/// The rows are those of all aliases, first of addresses and then of hardware
/// addresses, each in some order.
pub open spec fn lists_aliases(v: RegistryView, rows: Seq<(Seq<char>, Seq<char>, Option<Seq<char>>)>) -> bool {
    exists|a: Seq<(ClientKey, Slot)>, b: Seq<(ClientKey, Slot)>|
        lists(a, v.ip_aliases) && lists(b, v.mac_aliases) && rows == #[trigger] ip_alias_rows(a)
            + #[trigger] mac_alias_rows(b)
}

/// The addresses bound to a hardware address, in the order of the list.
pub open spec fn bound_texts(a: Seq<(ClientKey, Slot)>, m: Seq<u8>) -> Seq<Seq<char>> {
    a.filter(|e: (ClientKey, Slot)| e.1@.mac == m).map_values(|e: (ClientKey, Slot)| ip_text(key_ip(e.0)))
}

/// The texts are the addresses of a device: for a hardware address all addresses
/// bound to it, in some order, and for an address itself.
pub open spec fn device_ips(v: RegistryView, device: Seq<char>, t: Seq<Seq<char>>) -> bool {
    match mac_of_text(device) {
        Some(m) => exists|a: Seq<(ClientKey, Slot)>| lists(a, v.bindings) && t == #[trigger] bound_texts(a, m),
        None => match client_ip(device) {
            Some(a) => t == seq![ip_text(unmapped(a))],
            None => t == Seq::<Seq<char>>::empty(),
        },
    }
}

/// A device as it is described.
pub open spec fn describes(v: RegistryView, device: Seq<char>, d: DeviceInfo) -> bool {
    let name = match d.name {
        Some(n) => Some(n@),
        None => None,
    };
    match mac_of_text(device) {
        Some(m) => {
            &&& name == device_name(v, m)
            &&& device_ips(v, device, texts(d.ips@))
            &&& texts(d.macs@) == seq![mac_text(m)]
            &&& d.is_alias == v.mac_aliases.dom().contains(mac_key(m))
        },
        None => match client_ip(device) {
            Some(a) => {
                let u = unmapped(a);
                &&& name == name_of(v, u)
                &&& texts(d.ips@) == seq![ip_text(u)]
                &&& texts(d.macs@) == (match mac_behind(v, u) {
                    Some(m) => seq![mac_text(m)],
                    None => seq![],
                })
                &&& d.is_alias == aliased(v, u)
            },
            None => {
                &&& name is None
                &&& texts(d.ips@) == seq![device]
                &&& d.macs@.len() == 0
                &&& !d.is_alias
            },
        },
    }
}

/// Whether a name is looked for now, and the registry from then on.
pub open spec fn triggered_one(v: RegistryView, a: IpAddr, now: u64) -> (RegistryView, bool) {
    let u = unmapped(a);
    if stale(v, u, now) && !v.in_flight.contains(ip_key(u)) {
        (RegistryView { in_flight: v.in_flight.insert(ip_key(u)), ..v }, true)
    } else {
        (v, false)
    }
}

/// The addresses whose names are looked for now, and the registry from then on.
pub open spec fn triggered(v: RegistryView, t: Seq<Seq<char>>, now: u64) -> (RegistryView, Seq<IpAddr>)
    decreases t.len(),
{
    if t.len() == 0 {
        (v, seq![])
    } else {
        let (w, done) = triggered(v, t.drop_last(), now);
        match client_ip(t.last()) {
            Some(a) => {
                let (x, yes) = triggered_one(w, a, now);
                if yes {
                    (x, done.push(unmapped(a)))
                } else {
                    (x, done)
                }
            },
            None => (w, done),
        }
    }
}

/// Looking for names changes nothing but what is being looked for.
pub proof fn lookups_change_no_name(v: RegistryView, t: Seq<Seq<char>>, now: u64)
    ensures
        triggered(v, t, now).0 == (RegistryView { in_flight: triggered(v, t, now).0.in_flight, ..v }),
        forall|a: IpAddr| #[trigger] name_of(triggered(v, t, now).0, a) == name_of(v, a),
        forall|a: IpAddr| #[trigger] mac_behind(triggered(v, t, now).0, a) == mac_behind(v, a),
    decreases t.len(),
{
    if t.len() > 0 {
        lookups_change_no_name(v, t.drop_last(), now);
    }
}

/// Looking for the names of two lists one after the other is looking for all of them.
pub proof fn lookups_add_up(v: RegistryView, t: Seq<Seq<char>>, more: Seq<Seq<char>>, now: u64)
    ensures
        triggered(v, t + more, now) == (
            triggered(triggered(v, t, now).0, more, now).0,
            triggered(v, t, now).1 + triggered(triggered(v, t, now).0, more, now).1,
        ),
    decreases more.len(),
{
    let w = triggered(v, t, now).0;
    if more.len() == 0 {
        assert(t + more =~= t);
        assert(triggered(v, t, now).1 + Seq::<IpAddr>::empty() =~= triggered(v, t, now).1);
    } else {
        let rest = more.drop_last();
        lookups_add_up(v, t, rest, now);
        assert((t + more).drop_last() =~= t + rest);
        assert((t + more).last() == more.last());
        let done = triggered(v, t, now).1 + triggered(w, rest, now).1;
        if client_ip(more.last()) is Some {
            let a = unmapped(client_ip(more.last())->0);
            assert(done.push(a) =~= triggered(v, t, now).1 + triggered(w, rest, now).1.push(a));
        }
    }
}

/// The bindings after a neighbour was seen, and whether that is new.
pub open spec fn bound_after(m: Map<ClientKey, SlotView>, a: IpAddr, h: Seq<u8>) -> (Map<ClientKey, SlotView>, bool) {
    if bound_mac(m, a) == Some(h) {
        (m, false)
    } else {
        (m.insert(ip_key(a), mac_slot(h)), true)
    }
}

/// The bindings after neighbours were seen, and what of it is new.
pub open spec fn mirrored(m: Map<ClientKey, SlotView>, pairs: Seq<(IpAddr, Seq<u8>)>) -> (
    Map<ClientKey, SlotView>,
    Seq<(IpAddr, Seq<u8>)>,
)
    decreases pairs.len(),
{
    if pairs.len() == 0 {
        (m, seq![])
    } else {
        let (n, fresh) = mirrored(m, pairs.drop_last());
        let u = unmapped(pairs.last().0);
        let (after, new) = bound_after(n, u, pairs.last().1);
        if new {
            (after, fresh.push((u, pairs.last().1)))
        } else {
            (after, fresh)
        }
    }
}

/// The bindings without those of the given addresses.
pub open spec fn unbound(m: Map<ClientKey, SlotView>, deleted: Seq<Seq<char>>) -> Map<ClientKey, SlotView>
    decreases deleted.len(),
{
    if deleted.len() == 0 {
        m
    } else {
        let n = unbound(m, deleted.drop_last());
        match client_ip(deleted.last()) {
            Some(a) => n.remove(ip_key(unmapped(a))),
            None => n,
        }
    }
}

/// The entries that have not expired.
pub open spec fn unexpired_slots(m: Map<ClientKey, SlotView>, now: u64) -> Map<ClientKey, SlotView> {
    m.restrict(Set::new(|k: ClientKey| m.dom().contains(k) && m[k].expires_at > now))
}

/// The names of clients and what is known of the devices behind addresses.
///
/// The name of an address is, in this order: the alias of the address, the alias of
/// the device behind it, the name that was found for that device, and the name that
/// was found for the address.
pub struct ClientRegistry {
    found: DashMap<ClientKey, Slot>,
    ip_aliases: DashMap<ClientKey, Slot>,
    mac_aliases: DashMap<ClientKey, Slot>,
    mac_names: DashMap<ClientKey, Slot>,
    bindings: DashMap<ClientKey, Slot>,
    in_flight: DashSet<ClientKey>,
    last_touch: i64,
}

impl View for ClientRegistry {
    type V = RegistryView;

    closed spec fn view(&self) -> RegistryView {
        RegistryView {
            found: table_entries(self.found),
            ip_aliases: table_entries(self.ip_aliases),
            mac_aliases: table_entries(self.mac_aliases),
            mac_names: table_entries(self.mac_names),
            bindings: table_entries(self.bindings),
            in_flight: set_members(self.in_flight),
            last_touch: self.last_touch,
        }
    }
}

impl ClientRegistry {
    /// The tables hold what they are for.
    pub open spec fn wf(&self) -> bool {
        let v = self@;
        &&& ip_keyed(v.found)
        &&& ip_keyed(v.ip_aliases) && all_named(v.ip_aliases)
        &&& mac_keyed(v.mac_aliases)
        &&& mac_keyed(v.mac_names)
        &&& ip_keyed(v.bindings) && all_bound(v.bindings)
    }

    /// A registry with what was stored: aliases by key and kind, devices with their
    /// last known names, and bindings of addresses to hardware addresses. What names
    /// no client is passed over.
    pub fn new(
        aliases: &Vec<(String, String, String)>,
        devices: &Vec<(String, Option<String>)>,
        bindings: &Vec<(String, String)>,
        now: u64,
    ) -> (r: ClientRegistry)
        ensures
            r.wf(),
            r@ == with_bindings(with_devices(with_aliases(empty_registry(), aliases@), devices@, now), bindings@),
    {
        let mut reg = ClientRegistry {
            found: table::table_new(),
            ip_aliases: table::table_new(),
            mac_aliases: table::table_new(),
            mac_names: table::table_new(),
            bindings: table::table_new(),
            in_flight: table::set_new(),
            last_touch: 0,
        };
        assert(reg@ == empty_registry());
        let mut i: usize = 0;
        while i < aliases.len()
            invariant
                i <= aliases@.len(),
                reg.wf(),
                reg@ == with_aliases(empty_registry(), aliases@.take(i as int)),
            decreases aliases@.len() - i,
        {
            proof {
                assert(aliases@.take(i + 1).drop_last() =~= aliases@.take(i as int));
            }
            reg.load_alias(aliases[i].0.as_str(), aliases[i].1.as_str(), aliases[i].2.as_str());
            i = i + 1;
        }
        assert(aliases@.take(aliases@.len() as int) =~= aliases@);
        let ghost a = reg@;
        let mut j: usize = 0;
        while j < devices.len()
            invariant
                j <= devices@.len(),
                reg.wf(),
                reg@ == with_devices(a, devices@.take(j as int), now),
            decreases devices@.len() - j,
        {
            proof {
                assert(devices@.take(j + 1).drop_last() =~= devices@.take(j as int));
            }
            reg.load_device(devices[j].0.as_str(), &devices[j].1, now);
            j = j + 1;
        }
        assert(devices@.take(devices@.len() as int) =~= devices@);
        let ghost b = reg@;
        let mut n: usize = 0;
        while n < bindings.len()
            invariant
                n <= bindings@.len(),
                reg.wf(),
                reg@ == with_bindings(b, bindings@.take(n as int)),
            decreases bindings@.len() - n,
        {
            proof {
                assert(bindings@.take(n + 1).drop_last() =~= bindings@.take(n as int));
            }
            reg.load_binding(bindings[n].0.as_str(), bindings[n].1.as_str());
            n = n + 1;
        }
        assert(bindings@.take(bindings@.len() as int) =~= bindings@);
        reg
    }

    fn load_alias(&mut self, key: &str, kind: &str, name: &str)
        requires
            old(self).wf(),
        ensures
            final(self).wf(),
            final(self)@ == with_alias(old(self)@, key@, kind@, name@),
    {
        if text::str_same(kind, "mac") {
            if let Some(m) = clients::parse_mac(key) {
                proof {
                    table::mac_keys_are_faithful(m@);
                }
                table::table_insert(&mut self.mac_aliases, table::key_of_mac(&m), slot_of_name(Some(name.to_string()), 0));
            }
        } else {
            if let Some(a) = clients::parse_ip(key) {
                let u = clients::unmap_v4(a);
                proof {
                    table::ip_keys_are_faithful(u);
                }
                table::table_insert(&mut self.ip_aliases, table::key_of_ip(&u), slot_of_name(Some(name.to_string()), 0));
            }
        }
    }

    fn load_device(&mut self, key: &str, name: &Option<String>, now: u64)
        requires
            old(self).wf(),
        ensures
            final(self).wf(),
            final(self)@ == with_device(old(self)@, key@, *name, now),
    {
        if let Some(m) = clients::parse_mac(key) {
            if let Some(n) = name {
                proof {
                    table::mac_keys_are_faithful(m@);
                }
                table::table_insert(&mut self.mac_names, table::key_of_mac(&m), slot_of_name(Some(n.clone()), now));
            }
        }
    }

    fn load_binding(&mut self, key: &str, mac: &str)
        requires
            old(self).wf(),
        ensures
            final(self).wf(),
            final(self)@ == with_binding(old(self)@, key@, mac@),
    {
        if let Some(a) = clients::parse_ip(key) {
            if let Some(m) = clients::parse_mac(mac) {
                let u = clients::unmap_v4(a);
                proof {
                    table::ip_keys_are_faithful(u);
                }
                table::table_insert(&mut self.bindings, table::key_of_ip(&u), slot_of_mac(m));
            }
        }
    }

    /// How many names of addresses and how many bindings are held.
    pub fn cache_sizes(&self) -> (r: (usize, usize))
        ensures
            r.0 == self@.found.dom().len(),
            r.1 == self@.bindings.dom().len(),
    {
        (table::table_len(&self.found), table::table_len(&self.bindings))
    }

    /// The best name that is known for an address.
    pub fn get_name(&self, ip: IpAddr) -> (r: Option<String>)
        ensures
            (match r {
                Some(n) => Some(n@),
                None => None,
            }) == name_of(self@, unmapped(ip)),
    {
        let u = clients::unmap_v4(ip);
        let key = table::key_of_ip(&u);
        if let Some(s) = table::table_get(&self.ip_aliases, key) {
            if s.name.is_some() {
                return s.name;
            }
        }
        if let Some(m) = self.mac_for_ip(&u) {
            let name = self.name_for_mac(&m);
            if name.is_some() {
                return name;
            }
        }
        match table::table_get(&self.found, key) {
            Some(s) => s.name,
            None => None,
        }
    }

    fn name_for_mac(&self, m: &[u8; 6]) -> (r: Option<String>)
        ensures
            (match r {
                Some(n) => Some(n@),
                None => None,
            }) == device_name(self@, m@),
    {
        let key = table::key_of_mac(m);
        if let Some(s) = table::table_get(&self.mac_aliases, key) {
            if s.name.is_some() {
                return s.name;
            }
        }
        match table::table_get(&self.mac_names, key) {
            Some(s) => s.name,
            None => None,
        }
    }

    /// The hardware address behind an address.
    pub fn mac_for_ip(&self, ip: &IpAddr) -> (r: Option<[u8; 6]>)
        ensures
            mac_view(r) == mac_behind(self@, *ip),
    {
        if let IpAddr::V6(v6) = ip {
            let m = mac::extract_eui64_mac(v6);
            if m.is_some() {
                return m;
            }
        }
        match table::table_get(&self.bindings, table::key_of_ip(ip)) {
            Some(s) => Some(s.mac),
            None => None,
        }
    }

    /// The hardware address behind an address, as text.
    pub fn get_mac(&self, ip: IpAddr) -> (r: Option<String>)
        ensures
            match mac_behind(self@, unmapped(ip)) {
                Some(m) => r is Some && r->0@ == mac_text(m),
                None => r is None,
            },
    {
        let u = clients::unmap_v4(ip);
        match self.mac_for_ip(&u) {
            Some(m) => Some(clients::format_mac(&m)),
            None => None,
        }
    }

    fn is_stale(&self, u: &IpAddr, now: u64) -> (r: bool)
        ensures
            r == stale(self@, *u, now),
    {
        let key = table::key_of_ip(u);
        if table::table_get(&self.ip_aliases, key).is_some() {
            return false;
        }
        if let Some(m) = self.mac_for_ip(u) {
            let mk = table::key_of_mac(&m);
            if table::table_get(&self.mac_aliases, mk).is_some() {
                return false;
            }
            if let Some(s) = table::table_get(&self.mac_names, mk) {
                if now < s.expires_at {
                    return false;
                }
            }
        }
        if let Some(s) = table::table_get(&self.found, key) {
            if now < s.expires_at {
                return false;
            }
        }
        true
    }

    /// Whether the name of an address is to be looked for now. If so, the address
    /// counts as being resolved until that has finished.
    pub fn trigger_resolve(&mut self, ip: IpAddr, now: u64) -> (r: bool)
        requires
            old(self).wf(),
        ensures
            final(self).wf(),
            (final(self)@, r) == triggered_one(old(self)@, ip, now),
    {
        let u = clients::unmap_v4(ip);
        if !self.is_stale(&u, now) {
            return false;
        }
        let ghost v = self@;
        let r = table::set_insert(&mut self.in_flight, table::key_of_ip(&u));
        proof {
            if !r {
                assert(v.in_flight.insert(ip_key(u)) =~= v.in_flight);
            }
            assert(self@ == triggered_one(v, ip, now).0);
        }
        r
    }

    /// Looking for the name of an address has finished.
    pub fn resolve_finished(&mut self, ip: &IpAddr)
        requires
            old(self).wf(),
        ensures
            final(self).wf(),
            final(self)@ == (RegistryView { in_flight: old(self)@.in_flight.remove(ip_key(*ip)), ..old(self)@ }),
    {
        table::set_remove(&mut self.in_flight, table::key_of_ip(ip));
    }

    /// Gives an address a name. What was found for it is forgotten.
    pub fn add_ip_alias(&mut self, ip: IpAddr, name: String)
        requires
            old(self).wf(),
        ensures
            final(self).wf(),
            final(self)@ == (RegistryView {
                found: old(self)@.found.remove(ip_key(unmapped(ip))),
                ip_aliases: old(self)@.ip_aliases.insert(ip_key(unmapped(ip)), name_slot(Some(name@), 0)),
                ..old(self)@
            }),
    {
        let u = clients::unmap_v4(ip);
        proof {
            table::ip_keys_are_faithful(u);
        }
        table::table_remove(&mut self.found, table::key_of_ip(&u));
        table::table_insert(&mut self.ip_aliases, table::key_of_ip(&u), slot_of_name(Some(name), 0));
    }

    /// Gives a device a name. What was found for the addresses bound to it is forgotten.
    pub fn add_mac_alias(&mut self, mac: [u8; 6], name: String)
        requires
            old(self).wf(),
        ensures
            final(self).wf(),
            final(self)@ == (RegistryView {
                found: without_bound(old(self)@.found, old(self)@.bindings, mac@),
                mac_aliases: old(self)@.mac_aliases.insert(mac_key(mac@), name_slot(Some(name@), 0)),
                ..old(self)@
            }),
    {
        let list = table::table_list(&self.bindings);
        let ghost before = self@;
        let mut i: usize = 0;
        assert(removed_upto(before.found, list@, 0, mac@) =~= before.found);
        while i < list.len()
            invariant
                i <= list@.len(),
                self.wf(),
                self@ == (RegistryView { found: removed_upto(before.found, list@, i as int, mac@), ..before }),
            decreases list@.len() - i,
        {
            let ghost pre = self@.found;
            if mac::same_mac(&list[i].1.mac, &mac) {
                table::table_remove(&mut self.found, list[i].0);
                assert(self@.found =~= removed_upto(before.found, list@, i + 1, mac@));
            } else {
                assert(pre =~= removed_upto(before.found, list@, i + 1, mac@));
            }
            i = i + 1;
        }
        proof {
            table::mac_keys_are_faithful(mac@);
            let m = before.bindings;
            assert forall|k: ClientKey|
                bound_to(m, k, mac@) == listed_upto(list@, list@.len() as int, mac@, k) by {
                if bound_to(m, k, mac@) {
                    let j = choose|j: int| 0 <= j < list@.len() && (#[trigger] list@[j]).0 == k;
                    assert(list@[j].1@.mac == mac@);
                }
            }
            assert(self@.found =~= without_bound(before.found, before.bindings, mac@));
        }
        table::table_insert(&mut self.mac_aliases, table::key_of_mac(&mac), slot_of_name(Some(name), 0));
    }

    /// Takes the name of an address away.
    pub fn remove_ip_alias(&mut self, ip: IpAddr)
        requires
            old(self).wf(),
        ensures
            final(self).wf(),
            final(self)@ == (RegistryView {
                ip_aliases: old(self)@.ip_aliases.remove(ip_key(unmapped(ip))),
                ..old(self)@
            }),
    {
        let u = clients::unmap_v4(ip);
        table::table_remove(&mut self.ip_aliases, table::key_of_ip(&u));
    }

    /// Takes the name of a device away.
    pub fn remove_mac_alias(&mut self, mac: [u8; 6])
        requires
            old(self).wf(),
        ensures
            final(self).wf(),
            final(self)@ == (RegistryView {
                mac_aliases: old(self)@.mac_aliases.remove(mac_key(mac@)),
                ..old(self)@
            }),
    {
        table::table_remove(&mut self.mac_aliases, table::key_of_mac(&mac));
    }

    /// All aliases: key, kind (`ip` or `mac`) and name.
    pub fn list_aliases(&self) -> (r: Vec<(String, &'static str, String)>)
        requires
            self.wf(),
        ensures
            lists_aliases(self@, alias_rows(r@)),
    {
        let a = table::table_list(&self.ip_aliases);
        let b = table::table_list(&self.mac_aliases);
        let mut out: Vec<(String, &'static str, String)> = Vec::new();
        let mut i: usize = 0;
        assert(alias_rows(out@) =~= ip_alias_rows(a@.take(0)));
        while i < a.len()
            invariant
                i <= a@.len(),
                lists(a@, self@.ip_aliases),
                all_named(self@.ip_aliases),
                alias_rows(out@) == ip_alias_rows(a@.take(i as int)),
            decreases a@.len() - i,
        {
            let ghost before = out@;
            let ip = table::ip_of_key(&a[i].0);
            assert(self@.ip_aliases.dom().contains(a@[i as int].0));
            if let Some(n) = &a[i].1.name {
                out.push((ip::format_ip(&ip), "ip", n.clone()));
                let ghost row = (ip_text(key_ip(a@[i as int].0)), "ip"@, a@[i as int].1@.name);
                assert(alias_rows(out@) =~= alias_rows(before).push(row));
                assert(ip_alias_rows(a@.take(i + 1)) =~= ip_alias_rows(a@.take(i as int)).push(row));
                assert(alias_rows(out@) =~= ip_alias_rows(a@.take(i + 1)));
            }
            i = i + 1;
        }
        assert(a@.take(a@.len() as int) =~= a@);
        let ghost first = ip_alias_rows(a@);
        let mut j: usize = 0;
        assert(alias_rows(out@) =~= first + mac_alias_rows(b@.take(0)));
        while j < b.len()
            invariant
                j <= b@.len(),
                lists(b@, self@.mac_aliases),
                mac_keyed(self@.mac_aliases),
                alias_rows(out@) == first + mac_alias_rows(b@.take(j as int)),
            decreases b@.len() - j,
        {
            let ghost before = out@;
            let m = table::mac_of_key(&b[j].0);
            assert(self@.mac_aliases.dom().contains(b@[j as int].0));
            if let Some(n) = &b[j].1.name {
                out.push((clients::format_mac(&m), "mac", n.clone()));
                let ghost row = (mac_text(key_mac(b@[j as int].0)), "mac"@, b@[j as int].1@.name);
                assert(alias_rows(out@) =~= alias_rows(before).push(row));
                assert(mac_alias_rows(b@.take(j + 1)) =~= mac_alias_rows(b@.take(j as int)).push(row));
                assert(alias_rows(out@) =~= first + mac_alias_rows(b@.take(j + 1)));
            }
            j = j + 1;
        }
        assert(b@.take(b@.len() as int) =~= b@);
        out
    }

    /// Whether an address, or the device behind it, was given a name.
    pub fn is_aliased(&self, ip: IpAddr) -> (r: bool)
        ensures
            r == aliased(self@, unmapped(ip)),
    {
        let u = clients::unmap_v4(ip);
        if table::table_get(&self.ip_aliases, table::key_of_ip(&u)).is_some() {
            return true;
        }
        match self.mac_for_ip(&u) {
            Some(m) => table::table_get(&self.mac_aliases, table::key_of_mac(&m)).is_some(),
            None => false,
        }
    }

    /// Forgets what was learned about addresses. Aliases and names of devices stay.
    pub fn clear_learned_ips(&mut self)
        requires
            old(self).wf(),
        ensures
            final(self).wf(),
            final(self)@ == (RegistryView {
                found: Map::empty(),
                bindings: Map::empty(),
                ..old(self)@
            }),
    {
        table::table_clear(&mut self.found);
        table::table_clear(&mut self.bindings);
    }

    /// The addresses of a device.
    pub fn ips_for_device(&self, device: &str) -> (r: Vec<String>)
        ensures
            device_ips(self@, device@, texts(r@)),
    {
        let mut out: Vec<String> = Vec::new();
        if let Some(m) = clients::parse_mac(device) {
            let list = table::table_list(&self.bindings);
            let ghost keep = |e: (ClientKey, Slot)| e.1@.mac == m@;
            let ghost show = |e: (ClientKey, Slot)| ip_text(key_ip(e.0));
            let mut i: usize = 0;
            assert(list@.take(0).filter(keep) =~= Seq::<(ClientKey, Slot)>::empty()) by {
                reveal(Seq::filter);
            }
            assert(texts(out@) =~= list@.take(0).filter(keep).map_values(show));
            while i < list.len()
                invariant
                    i <= list@.len(),
                    keep == (|e: (ClientKey, Slot)| e.1@.mac == m@),
                    show == (|e: (ClientKey, Slot)| ip_text(key_ip(e.0))),
                    texts(out@) == list@.take(i as int).filter(keep).map_values(show),
                decreases list@.len() - i,
            {
                let ghost before = out@;
                proof {
                    assert(list@.take(i + 1) =~= list@.take(i as int).push(list@[i as int]));
                    text::lemma_filter_push(list@.take(i as int), list@[i as int], keep);
                }
                if mac::same_mac(&list[i].1.mac, &m) {
                    let a = table::ip_of_key(&list[i].0);
                    out.push(ip::format_ip(&a));
                    assert(texts(out@) =~= texts(before).push(ip_text(a)));
                    let ghost kept = list@.take(i as int).filter(keep);
                    assert(kept.push(list@[i as int]).map_values(show) =~= kept.map_values(show).push(ip_text(a)));
                    assert(texts(out@) =~= list@.take(i + 1).filter(keep).map_values(show));
                }
                i = i + 1;
            }
            assert(list@.take(list@.len() as int) =~= list@);
            assert(texts(out@) == bound_texts(list@, m@));
            proof {
                let mm = mac_of_text(device@)->0;
                assert(mm == m@);
                let t = bound_texts(list@, mm);
                assert(t == texts(out@));
                assert(lists(list@, self@.bindings) && texts(out@) == t);
                assert(device_ips(self@, device@, t));
            }
            return out;
        }
        if let Some(a) = clients::parse_ip(device) {
            out.push(ip::format_ip(&clients::unmap_v4(a)));
            assert(texts(out@) =~= seq![ip_text(unmapped(a))]);
            return out;
        }
        assert(texts(out@) =~= Seq::<Seq<char>>::empty());
        out
    }

    /// What is known of a device, which is given by a hardware address or an address.
    pub fn describe_device(&self, device: &str) -> (r: DeviceInfo)
        ensures
            describes(self@, device@, r),
    {
        if let Some(m) = clients::parse_mac(device) {
            let mut macs: Vec<String> = Vec::new();
            macs.push(clients::format_mac(&m));
            assert(texts(macs@) =~= seq![mac_text(m@)]);
            return DeviceInfo {
                name: self.name_for_mac(&m),
                ips: self.ips_for_device(device),
                macs,
                is_alias: table::table_get(&self.mac_aliases, table::key_of_mac(&m)).is_some(),
            };
        }
        let mut ips: Vec<String> = Vec::new();
        let mut macs: Vec<String> = Vec::new();
        if let Some(a) = clients::parse_ip(device) {
            let u = clients::unmap_v4(a);
            proof {
                lemma_unmapped_twice(a);
            }
            ips.push(ip::format_ip(&u));
            assert(texts(ips@) =~= seq![ip_text(u)]);
            match self.get_mac(u) {
                Some(m) => {
                    macs.push(m);
                    assert(texts(macs@) =~= seq![m@]);
                },
                None => {
                    assert(texts(macs@) =~= seq![]);
                },
            }
            return DeviceInfo { name: self.get_name(u), ips, macs, is_alias: self.is_aliased(u) };
        }
        ips.push(device.to_string());
        assert(texts(ips@) =~= seq![device@]);
        DeviceInfo { name: None, ips, macs, is_alias: false }
    }

    /// The addresses, out of a list of texts, whose names are to be looked for now.
    pub fn trigger_resolve_all(&mut self, ips: &Vec<String>, now: u64) -> (r: Vec<IpAddr>)
        requires
            old(self).wf(),
        ensures
            final(self).wf(),
            (final(self)@, r@) == triggered(old(self)@, texts(ips@), now),
    {
        let ghost v = self@;
        let ghost t = texts(ips@);
        let mut out: Vec<IpAddr> = Vec::new();
        let mut i: usize = 0;
        while i < ips.len()
            invariant
                i <= ips@.len(),
                t == texts(ips@),
                self.wf(),
                (self@, out@) == triggered(v, t.take(i as int), now),
            decreases ips@.len() - i,
        {
            proof {
                assert(t.take(i + 1).drop_last() =~= t.take(i as int));
                assert(t.take(i + 1).last() == ips@[i as int]@);
            }
            if let Some(a) = clients::parse_ip(ips[i].as_str()) {
                if self.trigger_resolve(a, now) {
                    out.push(clients::unmap_v4(a));
                }
            }
            i = i + 1;
        }
        assert(t.take(t.len() as int) =~= t);
        out
    }

    /// The addresses of a device whose names are to be looked for now.
    pub fn trigger_resolve_device(&mut self, device: &str, now: u64) -> (r: Vec<IpAddr>)
        requires
            old(self).wf(),
        ensures
            final(self).wf(),
            exists|t: Seq<Seq<char>>|
                device_ips(old(self)@, device@, t) && (final(self)@, r@) == #[trigger] triggered(old(self)@, t, now),
    {
        let ips = self.ips_for_device(device);
        self.trigger_resolve_all(&ips, now)
    }

    /// Takes over what the system knows of neighbours. Returns the bindings that are
    /// new or have changed.
    pub fn refresh_neighbor_table(&mut self, pairs: &Vec<(IpAddr, [u8; 6])>) -> (r: Vec<(IpAddr, [u8; 6])>)
        requires
            old(self).wf(),
        ensures
            final(self).wf(),
            final(self)@ == (RegistryView {
                bindings: mirrored(old(self)@.bindings, neighbor_views(pairs@)).0,
                ..old(self)@
            }),
            neighbor_views(r@) == mirrored(old(self)@.bindings, neighbor_views(pairs@)).1,
    {
        let ghost v = self@;
        let ghost p = neighbor_views(pairs@);
        let mut learned: Vec<(IpAddr, [u8; 6])> = Vec::new();
        let mut i: usize = 0;
        assert(neighbor_views(learned@) =~= seq![]);
        while i < pairs.len()
            invariant
                i <= pairs@.len(),
                p == neighbor_views(pairs@),
                self.wf(),
                self@ == (RegistryView { bindings: mirrored(v.bindings, p.take(i as int)).0, ..v }),
                neighbor_views(learned@) == mirrored(v.bindings, p.take(i as int)).1,
            decreases pairs@.len() - i,
        {
            let ghost before = learned@;
            proof {
                assert(p.take(i + 1).drop_last() =~= p.take(i as int));
                assert(p.take(i + 1).last() == (pairs@[i as int].0, pairs@[i as int].1@));
            }
            let u = clients::unmap_v4(pairs[i].0);
            let m = pairs[i].1;
            if self.bind(&u, m) {
                learned.push((u, m));
                assert(neighbor_views(learned@) =~= neighbor_views(before).push((u, m@)));
            }
            i = i + 1;
        }
        assert(p.take(p.len() as int) =~= p);
        learned
    }

    /// Binds an address to a hardware address. Says whether that is new.
    pub fn bind(&mut self, ip: &IpAddr, m: [u8; 6]) -> (r: bool)
        requires
            old(self).wf(),
        ensures
            final(self).wf(),
            final(self)@ == (RegistryView { bindings: bound_after(old(self)@.bindings, *ip, m@).0, ..old(self)@ }),
            r == bound_after(old(self)@.bindings, *ip, m@).1,
    {
        let key = table::key_of_ip(ip);
        if let Some(s) = table::table_get(&self.bindings, key) {
            if mac::same_mac(&s.mac, &m) {
                return false;
            }
        }
        proof {
            table::ip_keys_are_faithful(*ip);
        }
        table::table_insert(&mut self.bindings, key, slot_of_mac(m));
        true
    }

    /// Whether the bindings of addresses that are present are to be confirmed: at
    /// most once per interval, in seconds.
    pub fn touch_due(&self, present: usize, now_unix: i64, interval: u64) -> (r: bool)
        ensures
            r == (present > 0 && now_unix - self@.last_touch >= interval),
    {
        present > 0 && (now_unix as i128) - (self.last_touch as i128) >= interval as i128
    }

    /// The bindings were confirmed.
    pub fn touched(&mut self, now_unix: i64)
        requires
            old(self).wf(),
        ensures
            final(self).wf(),
            final(self)@ == (RegistryView { last_touch: now_unix, ..old(self)@ }),
    {
        self.last_touch = now_unix;
    }

    /// Forgets the bindings of addresses that were deleted, and all names of addresses
    /// that have expired. Aliases and names of devices stay.
    pub fn prune_learned_ips(&mut self, deleted: &Vec<String>, now: u64)
        requires
            old(self).wf(),
        ensures
            final(self).wf(),
            final(self)@ == (RegistryView {
                bindings: unbound(old(self)@.bindings, texts(deleted@)),
                found: unexpired_slots(old(self)@.found, now),
                ..old(self)@
            }),
    {
        let ghost v = self@;
        let ghost d = texts(deleted@);
        let mut i: usize = 0;
        while i < deleted.len()
            invariant
                i <= deleted@.len(),
                d == texts(deleted@),
                self.wf(),
                self@ == (RegistryView { bindings: unbound(v.bindings, d.take(i as int)), ..v }),
            decreases deleted@.len() - i,
        {
            proof {
                assert(d.take(i + 1).drop_last() =~= d.take(i as int));
                assert(d.take(i + 1).last() == deleted@[i as int]@);
            }
            if let Some(a) = clients::parse_ip(deleted[i].as_str()) {
                let u = clients::unmap_v4(a);
                table::table_remove(&mut self.bindings, table::key_of_ip(&u));
            }
            i = i + 1;
        }
        assert(d.take(d.len() as int) =~= d);
        let list = table::table_list(&self.found);
        let ghost w = self@;
        let mut j: usize = 0;
        assert(expired_upto(w.found, list@, 0, now) =~= w.found);
        while j < list.len()
            invariant
                j <= list@.len(),
                self.wf(),
                self@ == (RegistryView { found: expired_upto(w.found, list@, j as int, now), ..w }),
            decreases list@.len() - j,
        {
            let ghost pre = self@.found;
            if list[j].1.expires_at <= now {
                table::table_remove(&mut self.found, list[j].0);
                assert(self@.found =~= expired_upto(w.found, list@, j + 1, now));
            } else {
                assert(pre =~= expired_upto(w.found, list@, j + 1, now));
            }
            j = j + 1;
        }
        proof {
            let m = w.found;
            assert forall|k: ClientKey| #[trigger] m.dom().contains(k) implies (m[k].expires_at <= now) == old_upto(
                list@,
                list@.len() as int,
                now,
                k,
            ) by {
                let n = choose|n: int| 0 <= n < list@.len() && (#[trigger] list@[n]).0 == k;
                assert(list@[n].1@ == m[k]);
            }
            assert(self@.found =~= unexpired_slots(w.found, now));
        }
    }

    /// What was found for an address is kept: a name for long, its absence for a
    /// short time.
    pub fn record_resolution(&mut self, ip: &IpAddr, name: Option<String>, now: u64)
        requires
            old(self).wf(),
        ensures
            final(self).wf(),
            final(self)@ == (RegistryView {
                found: old(self)@.found.insert(
                    ip_key(*ip),
                    name_slot(
                        match name {
                            Some(n) => Some(n@),
                            None => None,
                        },
                        later(
                            now,
                            if name is Some {
                                RESOLVE_TTL
                            } else {
                                MISS_TTL
                            },
                        ),
                    ),
                ),
                ..old(self)@
            }),
    {
        let ttl: u64 = if name.is_some() {
            RESOLVE_TTL
        } else {
            MISS_TTL
        };
        proof {
            table::ip_keys_are_faithful(*ip);
        }
        let slot = slot_of_name(name, lru_cache::after_secs(now, ttl));
        table::table_insert(&mut self.found, table::key_of_ip(ip), slot);
    }

    /// The hardware address behind an address, after the neighbour tables were asked:
    /// what they say is bound to the address, and where they say nothing the last
    /// binding counts. The second part says whether there is a new binding.
    pub fn learn_ip_mac(&mut self, ip: &IpAddr, seen: Option<[u8; 6]>) -> (r: (Option<[u8; 6]>, bool))
        requires
            old(self).wf(),
        ensures
            final(self).wf(),
            match seen {
                Some(m) => {
                    &&& mac_view(r.0) == Some(m@)
                    &&& final(self)@ == (RegistryView {
                        bindings: bound_after(old(self)@.bindings, *ip, m@).0,
                        ..old(self)@
                    })
                    &&& r.1 == bound_after(old(self)@.bindings, *ip, m@).1
                },
                None => {
                    &&& mac_view(r.0) == bound_mac(old(self)@.bindings, *ip)
                    &&& final(self)@ == old(self)@
                    &&& !r.1
                },
            },
    {
        match seen {
            Some(m) => {
                let new = self.bind(ip, m);
                (Some(m), new)
            },
            None => match table::table_get(&self.bindings, table::key_of_ip(ip)) {
                Some(s) => (Some(s.mac), false),
                None => (None, false),
            },
        }
    }

    /// The name that was found for a device, if it is fresh.
    pub fn fresh_mac_name(&self, m: &[u8; 6], now: u64) -> (r: Option<String>)
        ensures
            (match r {
                Some(n) => Some(n@),
                None => None,
            }) == (if fresh(self@.mac_names, mac_key(m@), now) {
                name_in(self@.mac_names, mac_key(m@))
            } else {
                None
            }),
    {
        match table::table_get(&self.mac_names, table::key_of_mac(m)) {
            Some(s) => if now < s.expires_at {
                s.name
            } else {
                None
            },
            None => None,
        }
    }

    /// Keeps the name that was found for a device. Says whether the name is new.
    pub fn cache_mac(&mut self, m: &[u8; 6], name: &str, now: u64) -> (r: bool)
        requires
            old(self).wf(),
        ensures
            final(self).wf(),
            final(self)@ == (RegistryView {
                mac_names: old(self)@.mac_names.insert(
                    mac_key(m@),
                    name_slot(Some(name@), later(now, RESOLVE_TTL)),
                ),
                ..old(self)@
            }),
            r == (name_in(old(self)@.mac_names, mac_key(m@)) != Some(name@)),
    {
        let key = table::key_of_mac(m);
        let changed = match table::table_get(&self.mac_names, key) {
            Some(s) => match &s.name {
                Some(n) => !text::str_same(n.as_str(), name),
                None => true,
            },
            None => true,
        };
        proof {
            table::mac_keys_are_faithful(m@);
        }
        let slot = slot_of_name(Some(name.to_string()), lru_cache::after_secs(now, RESOLVE_TTL));
        table::table_insert(&mut self.mac_names, key, slot);
        changed
    }
}

/// The key is bound to the hardware address.
pub open spec fn bound_to(m: Map<ClientKey, SlotView>, k: ClientKey, mac: Seq<u8>) -> bool {
    m.dom().contains(k) && m[k].mac == mac
}

/// The entries whose keys are not bound to the hardware address.
pub open spec fn without_bound(
    found: Map<ClientKey, SlotView>,
    bindings: Map<ClientKey, SlotView>,
    mac: Seq<u8>,
) -> Map<ClientKey, SlotView> {
    found.restrict(Set::new(|k: ClientKey| !bound_to(bindings, k, mac)))
}

spec fn listed_upto(list: Seq<(ClientKey, Slot)>, n: int, mac: Seq<u8>, k: ClientKey) -> bool {
    exists|j: int| 0 <= j < n && (#[trigger] list[j]).0 == k && list[j].1@.mac == mac
}

spec fn removed_upto(
    found: Map<ClientKey, SlotView>,
    list: Seq<(ClientKey, Slot)>,
    n: int,
    mac: Seq<u8>,
) -> Map<ClientKey, SlotView> {
    found.restrict(Set::new(|k: ClientKey| !listed_upto(list, n, mac, k)))
}

spec fn old_upto(list: Seq<(ClientKey, Slot)>, n: int, now: u64, k: ClientKey) -> bool {
    exists|j: int| 0 <= j < n && (#[trigger] list[j]).0 == k && list[j].1@.expires_at <= now
}

spec fn expired_upto(found: Map<ClientKey, SlotView>, list: Seq<(ClientKey, Slot)>, n: int, now: u64) -> Map<
    ClientKey,
    SlotView,
> {
    found.restrict(Set::new(|k: ClientKey| !old_upto(list, n, now, k)))
}

/// An address that was unmapped once is unmapped.
proof fn lemma_unmapped_twice(a: IpAddr)
    ensures
        unmapped(unmapped(a)) == unmapped(a),
{
}

}

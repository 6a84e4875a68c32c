//! What names devices go by, and how neighbours are read.
use vstd::prelude::*;
use vstd::string::*;

use crate::clients::mac::{
    device_mac, ip_token, mac_index, mac_token, names_v6, neighbor, table_line_mac, table_line_v4, table_mac,
    table_neighbors, table_v4, v6_token, word_index,
};
use crate::clients::registry::{
    aliased, bound_after, bound_mac, bound_texts, describes, device_ips, device_name, ip_alias_rows, lists_aliases,
    mac_alias_rows, mac_behind, mirrored, name_of, triggered_one, unbound, unexpired_slots, with_aliases, with_bindings,
    with_devices, without_bound, RegistryView,
};
use crate::clients::resolver::{
    first_pointed, goes_on, host_before, local_suffixes, new_name, pointed_name, ptr_name, shown_name, starts,
    with_found, Lookup, LookupAnswer, Progress, Search,
};
use crate::clients::table::{ip_key, ip_keys_are_faithful, key_ip, key_mac, lists, mac_key, ClientKey, Slot, SlotView};
use crate::clients::{client_ip, mac_of_text, mac_text, mac_view, ptr_domain, unmapped, DeviceInfo};
use crate::dns::message::{dns_head, dns_records, HeadView, RecordView};
use crate::ip::{ip_text, IpAddr, Ipv4, Ipv6};
use crate::text;
use crate::text::{digit_char, lines, lower, texts, trim_end_char, words};

verus! {

/// The name that a table holds for a key.
pub open spec fn named_in(m: Map<ClientKey, SlotView>, k: ClientKey, n: Seq<char>) -> bool {
    m.dom().contains(k) && m[k].name == Some(n)
}

/// No name is held for a key.
pub open spec fn unnamed_in(m: Map<ClientKey, SlotView>, k: ClientKey) -> bool {
    m.dom().contains(k) ==> m[k].name is None
}

/// An address goes by the name that it was given; else by the name that the device behind
/// it was given; else by the name that was found for the device; else by the name that was
/// found for the address.
pub proof fn names_come_in_this_order(v: RegistryView, a: IpAddr, n: Seq<char>)
    ensures
        ({
            let k = ip_key(a);
            let m = mac_behind(v, a);
            &&& named_in(v.ip_aliases, k, n) ==> name_of(v, a) == Some(n)
            &&& unnamed_in(v.ip_aliases, k) && m is Some && named_in(v.mac_aliases, mac_key(m->0), n) ==> name_of(v, a)
                == Some(n) && device_name(v, m->0) == Some(n)
            &&& unnamed_in(v.ip_aliases, k) && m is Some && unnamed_in(v.mac_aliases, mac_key(m->0)) && named_in(
                v.mac_names,
                mac_key(m->0),
                n,
            ) ==> name_of(v, a) == Some(n) && device_name(v, m->0) == Some(n)
            &&& unnamed_in(v.ip_aliases, k) && (m is None || (unnamed_in(v.mac_aliases, mac_key(m->0)) && unnamed_in(
                v.mac_names,
                mac_key(m->0),
            ))) && named_in(v.found, k, n) ==> name_of(v, a) == Some(n)
            &&& unnamed_in(v.ip_aliases, k) && (m is None || (unnamed_in(v.mac_aliases, mac_key(m->0)) && unnamed_in(
                v.mac_names,
                mac_key(m->0),
            ))) && unnamed_in(v.found, k) ==> name_of(v, a) is None
        }),
{
}

/// The device behind an address is that to which the address is bound, unless an IPv6
/// address holds its hardware address: two bytes `ff` and `fe` between its halves, and the
/// second bit of the first byte turned.
pub proof fn devices_behind_addresses(v: RegistryView, a: IpAddr)
    ensures
        a is V4 ==> mac_behind(v, a) == bound_mac(v.bindings, a),
        a matches IpAddr::V6(x) ==> {
            &&& !(x.s5 % 256 == 0xff && x.s6 / 256 == 0xfe) ==> mac_behind(v, a) == bound_mac(v.bindings, a)
            &&& x.s5 % 256 == 0xff && x.s6 / 256 == 0xfe ==> (mac_behind(v, a) matches Some(m) && m.len() == 6 && m[0] == (
            (x.s4 / 256) as u8) ^ 2u8 && m[1] == x.s4 % 256 && m[2] == x.s5 / 256 && m[3] == x.s6 % 256 && m[4] == x.s7
                / 256 && m[5] == x.s7 % 256)
        },
        bound_mac(v.bindings, a) == (if v.bindings.dom().contains(ip_key(a)) {
            Some(v.bindings[ip_key(a)].mac)
        } else {
            None
        }),
{
}

/// A look-up is started for an address exactly if neither it nor the device behind it was
/// given a name, nothing that was found for them is still fresh, and none is on its way.
/// Then one is on its way, and a second is not started.
pub proof fn lookups_are_started_once(v: RegistryView, a: IpAddr, now: u64)
    ensures
        ({
            let u = unmapped(a);
            let k = ip_key(u);
            let m = mac_behind(v, u);
            let given = v.ip_aliases.dom().contains(k) || (m is Some && v.mac_aliases.dom().contains(mac_key(m->0)));
            let known = (m is Some && v.mac_names.dom().contains(mac_key(m->0)) && now < v.mac_names[mac_key(
                m->0,
            )].expires_at) || (v.found.dom().contains(k) && now < v.found[k].expires_at);
            let (w, started) = triggered_one(v, a, now);
            &&& started <==> !given && !known && !v.in_flight.contains(k)
            &&& started ==> w == (RegistryView { in_flight: v.in_flight.insert(k), ..v })
            &&& !started ==> w == v
            &&& !triggered_one(w, a, now).1
            &&& aliased(v, u) == given
        }),
{
}

/// Binding an address to a device is news exactly if it was not bound to it, and changes no
/// other address.
pub proof fn bindings_are_kept(m: Map<ClientKey, SlotView>, a: IpAddr, h: Seq<u8>, b: IpAddr)
    ensures
        bound_mac(bound_after(m, a, h).0, a) == Some(h),
        bound_after(m, a, h).1 <==> bound_mac(m, a) != Some(h),
        a != b ==> bound_mac(bound_after(m, a, h).0, b) == bound_mac(m, b),
{
    ip_keys_are_faithful(a);
    ip_keys_are_faithful(b);
}

/// After the neighbours were mirrored, an address is bound as its last entry says, and
/// addresses without an entry are bound as before.
pub proof fn neighbours_are_mirrored(m: Map<ClientKey, SlotView>, pairs: Seq<(IpAddr, Seq<u8>)>, b: IpAddr, i: int)
    requires
        -1 <= i < pairs.len(),
        0 <= i ==> unmapped(pairs[i].0) == b,
        forall|j: int| i < j < pairs.len() ==> unmapped((#[trigger] pairs[j]).0) != b,
    ensures
        bound_mac(mirrored(m, pairs).0, b) == (if 0 <= i {
            Some(pairs[i].1)
        } else {
            bound_mac(m, b)
        }),
    decreases pairs.len(),
{
    if pairs.len() > 0 {
        let t = pairs.drop_last();
        let u = unmapped(pairs.last().0);
        bindings_are_kept(mirrored(m, t).0, u, pairs.last().1, b);
        assert(pairs[pairs.len() - 1] == pairs.last());
        if i < t.len() {
            assert forall|j: int| i < j < t.len() implies unmapped((#[trigger] t[j]).0) != b by {
                assert(t[j] == pairs[j]);
            }
            neighbours_are_mirrored(m, t, b, i);
        }
    }
}

/// Of learned bindings those of the named addresses are forgotten and no others; of found
/// names those that have expired; and where a device is given a name, what was found for
/// the addresses bound to it.
pub proof fn only_what_is_named_is_forgotten(
    v: RegistryView,
    deleted: Seq<Seq<char>>,
    now: u64,
    m: Seq<u8>,
    a: IpAddr,
    k: ClientKey,
)
    ensures
        unbound(v.bindings, deleted).dom().contains(ip_key(a)) <==> v.bindings.dom().contains(ip_key(a)) && forall|i: int|
            0 <= i < deleted.len() ==> client_ip(#[trigger] deleted[i]) is None || unmapped(client_ip(deleted[i])->0) != a,
        unbound(v.bindings, deleted).dom().contains(ip_key(a)) ==> unbound(v.bindings, deleted)[ip_key(a)]
            == v.bindings[ip_key(a)],
        unexpired_slots(v.found, now).dom().contains(k) <==> v.found.dom().contains(k) && now < v.found[k].expires_at,
        unexpired_slots(v.found, now).dom().contains(k) ==> unexpired_slots(v.found, now)[k] == v.found[k],
        without_bound(v.found, v.bindings, m).dom().contains(k) <==> v.found.dom().contains(k) && !(
        v.bindings.dom().contains(k) && v.bindings[k].mac == m),
        without_bound(v.found, v.bindings, m).dom().contains(k) ==> without_bound(v.found, v.bindings, m)[k]
            == v.found[k],
    decreases deleted.len(),
{
    if deleted.len() > 0 {
        let t = deleted.drop_last();
        only_what_is_named_is_forgotten(v, t, now, m, a, k);
        assert(deleted[deleted.len() - 1] == deleted.last());
        ip_keys_are_faithful(a);
        if let Some(b) = client_ip(deleted.last()) {
            ip_keys_are_faithful(unmapped(b));
        }
        if forall|i: int|
            0 <= i < t.len() ==> client_ip(#[trigger] t[i]) is None || unmapped(client_ip(t[i])->0) != a {
            assert forall|i: int| 0 <= i < deleted.len() - 1 implies client_ip(#[trigger] deleted[i]) is None || unmapped(
                client_ip(deleted[i])->0,
            ) != a by {
                assert(t[i] == deleted[i]);
            }
        }
        if forall|i: int|
            0 <= i < deleted.len() ==> client_ip(#[trigger] deleted[i]) is None || unmapped(client_ip(deleted[i])->0)
                != a {
            assert forall|i: int| 0 <= i < t.len() implies client_ip(#[trigger] t[i]) is None || unmapped(
                client_ip(t[i])->0,
            ) != a by {
                assert(t[i] == deleted[i]);
            }
        }
    }
}

/// What was stored counts again after a start: the last stored name for an address or for
/// a device is given to it, stored names of devices are found names, and the last stored
/// binding of an address binds it.
pub proof fn stored_names_count_again(
    v: RegistryView,
    aliases: Seq<(String, String, String)>,
    devices: Seq<(String, Option<String>)>,
    bindings: Seq<(String, String)>,
    now: u64,
)
    ensures
        aliases.len() > 0 ==> ({
            let (key, kind, name) = aliases.last();
            let w = with_aliases(v, aliases);
            let before = with_aliases(v, aliases.drop_last());
            &&& kind@ == "mac"@ ==> match mac_of_text(key@) {
                Some(m) => device_name(w, m) == Some(name@) && w == (RegistryView { mac_aliases: w.mac_aliases, ..before }),
                None => w == before,
            }
            &&& kind@ != "mac"@ ==> match client_ip(key@) {
                Some(a) => name_of(w, unmapped(a)) == Some(name@) && w == (RegistryView {
                    ip_aliases: w.ip_aliases,
                    ..before
                }),
                None => w == before,
            }
        }),
        devices.len() > 0 ==> ({
            let (key, name) = devices.last();
            let w = with_devices(v, devices, now);
            let before = with_devices(v, devices.drop_last(), now);
            &&& name is Some && mac_of_text(key@) is Some ==> named_in(w.mac_names, mac_key(mac_of_text(key@)->0), name->0@)
                && w == (RegistryView { mac_names: w.mac_names, ..before })
            &&& name is None || mac_of_text(key@) is None ==> w == before
        }),
        bindings.len() > 0 ==> ({
            let (key, mac) = bindings.last();
            let w = with_bindings(v, bindings);
            let before = with_bindings(v, bindings.drop_last());
            &&& client_ip(key@) is Some && mac_of_text(mac@) is Some ==> bound_mac(
                w.bindings,
                unmapped(client_ip(key@)->0),
            ) == mac_of_text(mac@) && w == (RegistryView { bindings: w.bindings, ..before })
            &&& client_ip(key@) is None || mac_of_text(mac@) is None ==> w == before
        }),
        aliases.len() == 0 ==> with_aliases(v, aliases) == v,
        devices.len() == 0 ==> with_devices(v, devices, now) == v,
        bindings.len() == 0 ==> with_bindings(v, bindings) == v,
{
}

/// A device is described by its name, its addresses and its hardware address: for a
/// hardware address the addresses that are bound to it, for an address the address itself
/// and the device behind it, and for anything else the text.
pub proof fn devices_are_described(v: RegistryView, device: Seq<char>, d: DeviceInfo)
    requires
        describes(v, device, d),
    ensures
        mac_of_text(device) matches Some(m) ==> {
            &&& device_name(v, m) == (match d.name {
                Some(n) => Some(n@),
                None => None,
            })
            &&& d.macs@.len() == 1 && d.macs@[0]@ == mac_text(m)
            &&& d.is_alias == v.mac_aliases.dom().contains(mac_key(m))
            &&& device_ips(v, device, texts(d.ips@))
        },
        mac_of_text(device) is None ==> match client_ip(device) {
            Some(a) => {
                &&& name_of(v, unmapped(a)) == (match d.name {
                    Some(n) => Some(n@),
                    None => None,
                })
                &&& d.ips@.len() == 1 && d.ips@[0]@ == ip_text(unmapped(a))
                &&& mac_behind(v, unmapped(a)) matches Some(m) ==> d.macs@.len() == 1 && d.macs@[0]@ == mac_text(m)
                &&& mac_behind(v, unmapped(a)) is None ==> d.macs@.len() == 0
                &&& d.is_alias == aliased(v, unmapped(a))
            },
            None => d.name is None && d.ips@.len() == 1 && d.ips@[0]@ == device && d.macs@.len() == 0 && !d.is_alias,
        },
{
    assert(texts(d.macs@).len() == d.macs@.len());
    assert(texts(d.ips@).len() == d.ips@.len());
    if d.macs@.len() > 0 {
        assert(texts(d.macs@)[0] == d.macs@[0]@);
    }
    if d.ips@.len() > 0 {
        assert(texts(d.ips@)[0] == d.ips@[0]@);
    }
}

/// The addresses of a device are those that are bound to it.
pub proof fn bound_addresses_are_listed(v: RegistryView, device: Seq<char>, m: Seq<u8>, t: Seq<Seq<char>>, x: Seq<char>)
    requires
        device_ips(v, device, t),
        mac_of_text(device) == Some(m),
    ensures
        t.contains(x) <==> exists|k: ClientKey| #[trigger]
            v.bindings.dom().contains(k) && v.bindings[k].mac == m && x == ip_text(key_ip(k)),
{
    let a = choose|a: Seq<(ClientKey, Slot)>| lists(a, v.bindings) && t == #[trigger] bound_texts(a, m);
    let f = |e: (ClientKey, Slot)| e.1@.mac == m;
    let kept = a.filter(f);
    broadcast use {Seq::lemma_filter_pred, Seq::lemma_filter_contains};

    if t.contains(x) {
        let i = choose|i: int| 0 <= i < t.len() && t[i] == x;
        assert(f(kept[i]));
        assert(kept.contains(kept[i]));
        a.lemma_filter_contains_rev(f, kept[i]);
        let j = choose|j: int| 0 <= j < a.len() && a[j] == kept[i];
        assert(v.bindings.dom().contains(a[j].0));
    }
    if exists|k: ClientKey| #[trigger]
        v.bindings.dom().contains(k) && v.bindings[k].mac == m && x == ip_text(key_ip(k)) {
        let k = choose|k: ClientKey| #[trigger]
            v.bindings.dom().contains(k) && v.bindings[k].mac == m && x == ip_text(key_ip(k));
        let j = choose|j: int| 0 <= j < a.len() && (#[trigger] a[j]).0 == k;
        assert(v.bindings[a[j].0] == a[j].1@);
        assert(f(a[j]));
        assert(kept.contains(a[j]));
        let i = choose|i: int| 0 <= i < kept.len() && kept[i] == a[j];
        assert(t[i] == x);
    }
}

/// A found name is shown without the first suffix of local networks that it ends in,
/// unless nothing would be left; any other name is shown as it is.
pub proof fn local_suffixes_are_not_shown(name: Seq<char>, host: Seq<char>, i: int)
    requires
        host.len() > 0,
        0 <= i < 6,
    ensures
        ({
            let suffixes = seq![".localdomain"@, ".home.arpa"@, ".local"@, ".home"@, ".lan"@, ".internal"@];
            &&& name == host + suffixes[i] && (forall|j: int| 0 <= j < i ==> !(#[trigger] suffixes[j]).is_suffix_of(name))
                ==> shown_name(name) == host
            &&& (forall|j: int| 0 <= j < 6 ==> !(#[trigger] suffixes[j]).is_suffix_of(name)) ==> shown_name(name) == name
        }),
{
    let suffixes = seq![".localdomain"@, ".home.arpa"@, ".local"@, ".home"@, ".lan"@, ".internal"@];
    assert(local_suffixes() =~= suffixes);
    let f = |s: Seq<char>| host_before(name, s);
    if name == host + suffixes[i] && (forall|j: int| 0 <= j < i ==> !(#[trigger] suffixes[j]).is_suffix_of(name)) {
        assert(name.subrange(name.len() - suffixes[i].len(), name.len() as int) =~= suffixes[i]);
        assert(name.take(name.len() - suffixes[i].len()) =~= host);
        assert(f(suffixes[i]) == Some(host));
        assert forall|j: int| 0 <= j < i implies f(#[trigger] suffixes[j]) is None by {}
        text::lemma_first_found_at(suffixes, i, f);
    }
    if forall|j: int| 0 <= j < 6 ==> !(#[trigger] suffixes[j]).is_suffix_of(name) {
        assert forall|j: int| 0 <= j < suffixes.len() implies f(#[trigger] suffixes[j]) is None by {}
        text::lemma_none_found(suffixes, f);
    }
}

proof fn lemma_first_pointed(rs: Seq<RecordView>, i: int, end: int)
    ensures
        match first_pointed(rs, i, end) {
            Some(n) => exists|k: int|
                i <= k < end && (#[trigger] rs[k]).data is Ptr && Some(n) == pointed_name(rs[k].data->Ptr_0) && forall|j: int|
                    i <= j < k && (#[trigger] rs[j]).data is Ptr ==> pointed_name(rs[j].data->Ptr_0) is None,
            None => forall|j: int|
                i <= j < end && (#[trigger] rs[j]).data is Ptr ==> pointed_name(rs[j].data->Ptr_0) is None,
        },
    decreases end - i,
{
    if i < end {
        if rs[i].data is Ptr && pointed_name(rs[i].data->Ptr_0) is Some {
            assert(rs[i].data is Ptr);
        } else {
            lemma_first_pointed(rs, i + 1, end);
            match first_pointed(rs, i + 1, end) {
                Some(n) => {
                    let k = choose|k: int|
                        i + 1 <= k < end && (#[trigger] rs[k]).data is Ptr && Some(n) == pointed_name(rs[k].data->Ptr_0)
                            && forall|j: int|
                            i + 1 <= j < k && (#[trigger] rs[j]).data is Ptr ==> pointed_name(rs[j].data->Ptr_0) is None;
                    assert(rs[k].data is Ptr);
                },
                None => {},
            }
        }
    }
}

/// The name that a reverse look-up finds is the first that a pointer among the answers
/// leads to, but for empty ones: in lower case and without dots at its end.
pub proof fn pointers_are_followed(bytes: Seq<u8>, h: HeadView, rs: Seq<RecordView>)
    requires
        dns_head(bytes) == Some(h),
        dns_records(bytes) == Some(rs),
    ensures
        match ptr_name(bytes) {
            Some(n) => n.len() > 0 && exists|k: int|
                0 <= k < h.answers && (#[trigger] rs[k]).data is Ptr && n == lower(
                    trim_end_char(rs[k].data->Ptr_0, '.'),
                ) && forall|j: int|
                    0 <= j < k && (#[trigger] rs[j]).data is Ptr ==> trim_end_char(rs[j].data->Ptr_0, '.').len() == 0,
            None => forall|j: int|
                0 <= j < h.answers && (#[trigger] rs[j]).data is Ptr ==> trim_end_char(rs[j].data->Ptr_0, '.').len() == 0,
        },
{
    lemma_first_pointed(rs, 0, h.answers as int);
}

/// A search for the name of an address asks for its pointer first, and for a link-local
/// address the network itself, unless the name of the device is still fresh; a name that is
/// found ends it. Without one it goes on from the pointer to the network, from there, for a
/// link-local address of a known device, to the device's IPv4 address, and from that to its
/// pointer; and it ends without a name where nothing is left to ask.
pub proof fn searches_go_on_until_a_name_is_found(s: Search, answer: LookupAnswer, p: Progress)
    requires
        goes_on(s, answer, p),
    ensures
        (s.asked is Ptr || s.asked is Mdns) && (answer matches LookupAnswer::Name(Some(n))) ==> (p matches Progress::Done(
            Some(_),
        )) && p->Done_0->0@ == shown_name(answer->Name_0->0@),
        s.asked matches Lookup::Ptr(a) ==> (answer != LookupAnswer::Name(None) || (p is Ask && p->Ask_0.asked
            == Lookup::Mdns(a) && p->Ask_0.device == s.device)),
        s.asked matches Lookup::Mdns(a) ==> answer == LookupAnswer::Name(None) ==> (if a is V6 && 0xfe80
            <= a->V6_0.s0 <= 0xfebf && s.device is Some {
            p is Ask && p->Ask_0.asked == Lookup::Ipv4Of(s.device->0) && p->Ask_0.device == s.device
        } else {
            p == Progress::Done(None)
        }),
        s.asked is Ipv4Of ==> match answer {
            LookupAnswer::Address(Some(b)) => p is Ask && p->Ask_0.asked == Lookup::Ptr(IpAddr::V4(b)) && p->Ask_0.device
                == s.device,
            LookupAnswer::Address(None) => p == Progress::Done(None),
            _ => true,
        },
{
}

/// How a search begins.
pub proof fn searches_begin_with_the_pointer(v: RegistryView, a: IpAddr, device: Option<[u8; 6]>, now: u64, p: Progress)
    requires
        starts(v, a, device, now, p),
    ensures
        !(a is V6 && 0xfe80 <= a->V6_0.s0 <= 0xfebf) ==> p is Ask && p->Ask_0.asked == Lookup::Ptr(a) && p->Ask_0.device
            == device,
        a is V6 && 0xfe80 <= a->V6_0.s0 <= 0xfebf ==> match mac_behind(v, a) {
            Some(m) if v.mac_names.dom().contains(mac_key(m)) && now < v.mac_names[mac_key(m)].expires_at
                && v.mac_names[mac_key(m)].name is Some => p is Done && p->Done_0 is Some && Some(p->Done_0->0@)
                == v.mac_names[mac_key(m)].name,
            _ => p is Ask && p->Ask_0.asked == Lookup::Mdns(a) && mac_view(p->Ask_0.device) == mac_behind(v, a),
        },
{
}

/// A text is the hardware address of a device if it is one, with colons or with hyphens,
/// and neither all zeros nor all ones.
pub proof fn device_addresses_are_told(m: Seq<u8>)
    requires
        m.len() == 6,
    ensures
        (exists|i: int| 0 <= i < 6 && #[trigger] m[i] != 0) && (exists|i: int| 0 <= i < 6 && #[trigger] m[i] != 0xff)
            ==> device_mac(mac_text(m)) == Some(m),
        (forall|i: int| 0 <= i < 6 ==> #[trigger] m[i] == 0) || (forall|i: int| 0 <= i < 6 ==> #[trigger] m[i] == 0xff)
            ==> device_mac(mac_text(m)) is None,
{
    crate::clients::laws::lemma_mac_has_colons(m);
    crate::clients::laws::hardware_addresses_read_back(m);
    crate::clients::laws::lemma_own_separators(m);
}

/// An IPv6 address that stands for an IPv4 address is that address; every other address is
/// itself. The zone behind a percent sign does not matter.
pub proof fn mapped_addresses_are_ipv4_addresses(a: IpAddr, s: Seq<char>, zone: Seq<char>)
    ensures
        a is V4 ==> unmapped(a) == a,
        a matches IpAddr::V6(v) ==> (if v.s0 == 0 && v.s1 == 0 && v.s2 == 0 && v.s3 == 0 && v.s4 == 0 && v.s5 == 0xffff {
            unmapped(a) == IpAddr::V4(
                Ipv4 {
                    a: (v.s6 / 256) as u8,
                    b: (v.s6 % 256) as u8,
                    c: (v.s7 / 256) as u8,
                    d: (v.s7 % 256) as u8,
                },
            )
        } else {
            unmapped(a) == a
        }),
        !s.contains('%') ==> client_ip(s) == crate::ip::ip_of_text(s) && client_ip(s + seq!['%'] + zone) == client_ip(s),
{
    if !s.contains('%') {
        crate::text_laws::parts_are_what_a_mark_parts(s, '%', zone);
    }
}

/// The reverse name of an IPv4 address is its text with the numbers in reverse order.
pub proof fn reverse_names_run_backwards(v: Ipv4)
    ensures
        ptr_domain(IpAddr::V4(v)) == ip_text(IpAddr::V4(Ipv4 { a: v.d, b: v.c, c: v.b, d: v.a })) + ".in-addr.arpa"@,
{
}

/// The four hexadecimal digits of a group, from the last to the first, each with a dot
/// behind it.
pub open spec fn digits_backwards(s: u16) -> Seq<char> {
    Seq::new(
        8,
        |i: int|
            if i % 2 == 1 {
                '.'
            } else if i == 0 {
                digit_char((s % 16) as nat)
            } else if i == 2 {
                digit_char((s / 16 % 16) as nat)
            } else if i == 4 {
                digit_char((s / 256 % 16) as nat)
            } else {
                digit_char((s / 4096) as nat)
            },
    )
}

/// The reverse name of an IPv6 address is made of its hexadecimal digits, from the last to
/// the first, each with a dot behind it.
pub proof fn reverse_names_are_made_of_digits(w: Ipv6)
    ensures
        ptr_domain(IpAddr::V6(w)) == digits_backwards(w.s7) + digits_backwards(w.s6) + digits_backwards(w.s5)
            + digits_backwards(w.s4) + digits_backwards(w.s3) + digits_backwards(w.s2) + digits_backwards(w.s1)
            + digits_backwards(w.s0) + "ip6.arpa"@,
{
    lemma_nibbles(w.s0);
    lemma_nibbles(w.s1);
    lemma_nibbles(w.s2);
    lemma_nibbles(w.s3);
    lemma_nibbles(w.s4);
    lemma_nibbles(w.s5);
    lemma_nibbles(w.s6);
    lemma_nibbles(w.s7);
}

proof fn lemma_nibbles(s: u16)
    ensures
        crate::clients::nibbles(s) == digits_backwards(s),
{
    assert(crate::clients::nibbles(s) =~= digits_backwards(s));
}

/// Hyphens part the bytes of a hardware address as well as colons do.
pub proof fn hyphens_part_hardware_addresses(s: Seq<char>, t: Seq<char>)
    requires
        t.len() == s.len(),
        forall|i: int|
            0 <= i < s.len() ==> #[trigger] t[i] == (if s[i] == '-' {
                ':'
            } else {
                s[i]
            }),
    ensures
        mac_of_text(s) == mac_of_text(t),
        !s.contains(':') ==> device_mac(s) == device_mac(t),
{
    assert(crate::clients::with_colons(s) =~= crate::clients::with_colons(t));
    if !s.contains(':') {
        lemma_parts_match(s, t);
        if s.contains('-') {
            let i = choose|i: int| 0 <= i < s.len() && s[i] == '-';
            assert(t[i] == ':');
        } else {
            assert(s =~= t) by {
                assert forall|i: int| 0 <= i < s.len() implies s[i] == t[i] by {
                    if s[i] == '-' {
                        assert(s.contains('-'));
                    }
                }
            }
        }
    }
}

proof fn lemma_parts_match(s: Seq<char>, t: Seq<char>)
    requires
        t.len() == s.len(),
        !s.contains(':'),
        forall|i: int|
            0 <= i < s.len() ==> #[trigger] t[i] == (if s[i] == '-' {
                ':'
            } else {
                s[i]
            }),
    ensures
        text::split(s, '-') == text::split(t, ':'),
    decreases s.len(),
{
    text::lemma_position(s, '-');
    let p = text::position(s, '-') as int;
    assert forall|j: int| 0 <= j < p implies #[trigger] t[j] != ':' by {
        if t[j] == ':' {
            assert(s[j] == ':');
            assert(s.contains(':'));
        }
    }
    text::lemma_position_is(t, ':', p);
    assert(s.take(p) =~= t.take(p)) by {
        assert forall|j: int| 0 <= j < p implies s[j] == t[j] by {
            assert(s[j] != '-');
            assert(t[j] == s[j]);
        }
    }
    if p < s.len() {
        let a = s.skip(p + 1);
        let b = t.skip(p + 1);
        if a.contains(':') {
            let i = choose|i: int| 0 <= i < a.len() && a[i] == ':';
            assert(s[p + 1 + i] == ':');
        }
        assert forall|i: int| 0 <= i < a.len() implies #[trigger] b[i] == (if a[i] == '-' {
            ':'
        } else {
            a[i]
        }) by {
            assert(b[i] == t[p + 1 + i]);
        }
        lemma_parts_match(a, b);
    } else {
        assert(s =~= t) by {
            assert(s.take(p) =~= s && t.take(p) =~= t);
        }
    }
}

/// A neighbour is read from a line with a hardware address, the first on it, and another
/// word that is an address, the first such.
pub proof fn neighbours_are_read_from_lines(line: Seq<char>, k: int, i: int)
    requires
        0 <= k < words(line).len(),
        0 <= i < words(line).len(),
        k != i,
        mac_token(words(line)[k]) is Some,
        forall|j: int| 0 <= j < k ==> mac_token(#[trigger] words(line)[j]) is None,
        ip_token(words(line)[i]) is Some,
        forall|j: int| 0 <= j < i && j != k ==> ip_token(#[trigger] words(line)[j]) is None,
    ensures
        neighbor(line) == Some((ip_token(words(line)[i])->0, mac_token(words(line)[k])->0)),
{
    let ws = words(line);
    lemma_mac_index(ws, k);
    let rest = ws.take(k) + ws.skip(k + 1);
    let f = |w: Seq<char>| ip_token(w);
    let p = if i < k {
        i
    } else {
        i - 1
    };
    assert(rest[p] == ws[i]);
    assert forall|j: int| 0 <= j < p implies f(#[trigger] rest[j]) is None by {
        if j < k {
            assert(rest[j] == ws[j]);
        } else {
            assert(rest[j] == ws[j + 1]);
        }
    }
    text::lemma_first_found_at(rest, p, f);
}

proof fn lemma_mac_index(ws: Seq<Seq<char>>, k: int)
    requires
        0 <= k <= ws.len(),
        k < ws.len() ==> mac_token(ws[k]) is Some,
        forall|j: int| 0 <= j < k ==> mac_token(#[trigger] ws[j]) is None,
    ensures
        mac_index(ws) == k,
    decreases ws.len(),
{
    if ws.len() > 0 {
        let t = ws.drop_last();
        assert forall|j: int| 0 <= j < k && j < t.len() implies mac_token(#[trigger] t[j]) is None by {
            assert(t[j] == ws[j]);
        }
        if k < t.len() {
            assert(t[k] == ws[k]);
            lemma_mac_index(t, k);
        } else {
            lemma_mac_index(t, t.len() as int);
            if k == ws.len() {
                assert(mac_token(ws[ws.len() - 1]) is None);
            }
        }
    }
}

/// The hardware address of an IPv6 address is the first on the first line of a table that
/// names the address.
pub proof fn hardware_addresses_are_found_in_tables(table: Seq<char>, ip: Ipv6, i: int, m: int, k: int)
    requires
        0 <= i < lines(table).len(),
        0 <= m < words(lines(table)[i]).len(),
        v6_token(words(lines(table)[i])[m]) == Some(ip),
        0 <= k < words(lines(table)[i]).len(),
        mac_token(words(lines(table)[i])[k]) is Some,
        forall|j: int| 0 <= j < k ==> mac_token(#[trigger] words(lines(table)[i])[j]) is None,
        forall|j: int, n: int|
            0 <= j < i && 0 <= n < words(lines(table)[j]).len() ==> v6_token(#[trigger] words(lines(table)[j])[n])
                != Some(ip),
    ensures
        table_mac(table, ip) == mac_token(words(lines(table)[i])[k]),
{
    let l = lines(table)[i];
    assert(names_v6(l, ip));
    text::lemma_first_found_at(words(l), k, |w: Seq<char>| mac_token(w));
    let f = |x: Seq<char>| table_line_mac(x, ip);
    assert forall|j: int| 0 <= j < i implies f(#[trigger] lines(table)[j]) is None by {
        if names_v6(lines(table)[j], ip) {
            let n = choose|n: int|
                0 <= n < words(lines(table)[j]).len() && v6_token(#[trigger] words(lines(table)[j])[n]) == Some(ip);
            assert(v6_token(words(lines(table)[j])[n]) != Some(ip));
        }
    }
    text::lemma_first_found_at(lines(table), i, f);
}

/// A name that was found for a device is kept for half an hour, and is news unless the
/// device went by it. Without a device nothing is kept.
pub proof fn found_names_are_kept_for_a_while(v: RegistryView, m: Seq<u8>, name: Seq<char>, now: u64)
    requires
        now + 1800 * 1_000_000_000 <= u64::MAX,
    ensures
        ({
            let w = with_found(v, Some(m), name, now);
            &&& named_in(w.mac_names, mac_key(m), name)
            &&& w.mac_names[mac_key(m)].expires_at == now + 1800 * 1_000_000_000
            &&& unnamed_in(v.mac_aliases, mac_key(m)) ==> device_name(w, m) == Some(name)
            &&& w == (RegistryView { mac_names: w.mac_names, ..v })
            &&& forall|k: ClientKey|
                k != mac_key(m) ==> (w.mac_names.dom().contains(k) == #[trigger] v.mac_names.dom().contains(k)
                    && w.mac_names[k] == v.mac_names[k])
            &&& new_name(v, Some(m), name) <==> !named_in(v.mac_names, mac_key(m), name)
            &&& with_found(v, None, name, now) == v
            &&& !new_name(v, None, name)
            &&& crate::clients::registry::RESOLVE_TTL == 1800
            &&& crate::clients::registry::MISS_TTL == 30
        }),
{
}

/// All names that were given are listed, with what they were given to, and no others.
pub proof fn given_names_are_listed(
    v: RegistryView,
    rows: Seq<(Seq<char>, Seq<char>, Option<Seq<char>>)>,
    row: (Seq<char>, Seq<char>, Option<Seq<char>>),
)
    requires
        lists_aliases(v, rows),
    ensures
        rows.contains(row) <==> (exists|k: ClientKey| #[trigger]
            v.ip_aliases.dom().contains(k) && row == (ip_text(key_ip(k)), "ip"@, v.ip_aliases[k].name)) || (exists|
            k: ClientKey,
        | #[trigger]
            v.mac_aliases.dom().contains(k) && row == (mac_text(key_mac(k)), "mac"@, v.mac_aliases[k].name)),
{
    let (a, b) = choose|a: Seq<(ClientKey, Slot)>, b: Seq<(ClientKey, Slot)>|
        lists(a, v.ip_aliases) && lists(b, v.mac_aliases) && rows == #[trigger] ip_alias_rows(a)
            + #[trigger] mac_alias_rows(b);
    crate::blocklist::list_laws::lemma_in_sum(ip_alias_rows(a), mac_alias_rows(b), row);
    if ip_alias_rows(a).contains(row) {
        let i = choose|i: int| 0 <= i < a.len() && ip_alias_rows(a)[i] == row;
        assert(v.ip_aliases.dom().contains(a[i].0));
    }
    if mac_alias_rows(b).contains(row) {
        let i = choose|i: int| 0 <= i < b.len() && mac_alias_rows(b)[i] == row;
        assert(v.mac_aliases.dom().contains(b[i].0));
    }
    if exists|k: ClientKey| #[trigger]
        v.ip_aliases.dom().contains(k) && row == (ip_text(key_ip(k)), "ip"@, v.ip_aliases[k].name) {
        let k = choose|k: ClientKey| #[trigger]
            v.ip_aliases.dom().contains(k) && row == (ip_text(key_ip(k)), "ip"@, v.ip_aliases[k].name);
        let i = choose|i: int| 0 <= i < a.len() && (#[trigger] a[i]).0 == k;
        assert(ip_alias_rows(a)[i] == row);
    }
    if exists|k: ClientKey| #[trigger]
        v.mac_aliases.dom().contains(k) && row == (mac_text(key_mac(k)), "mac"@, v.mac_aliases[k].name) {
        let k = choose|k: ClientKey| #[trigger]
            v.mac_aliases.dom().contains(k) && row == (mac_text(key_mac(k)), "mac"@, v.mac_aliases[k].name);
        let i = choose|i: int| 0 <= i < b.len() && (#[trigger] b[i]).0 == k;
        assert(mac_alias_rows(b)[i] == row);
    }
}

/// The neighbours of a table are those of its lines.
pub proof fn tables_are_read_line_by_line(table: Seq<char>, n: (IpAddr, Seq<u8>))
    ensures
        table_neighbors(table).contains(n) <==> exists|i: int|
            0 <= i < lines(table).len() && neighbor(#[trigger] lines(table)[i]) == Some(n),
{
    let f = |l: Seq<char>| crate::clients::mac::neighbor_seq(l);
    let ls = lines(table);
    crate::blocklist::decision_laws::lemma_flat_map_contains(ls, f, n);
    if exists|i: int| 0 <= i < ls.len() && neighbor(#[trigger] ls[i]) == Some(n) {
        let i = choose|i: int| 0 <= i < ls.len() && neighbor(#[trigger] ls[i]) == Some(n);
        assert(f(ls[i])[0] == n);
        assert(f(ls[i]).contains(n));
    }
    if exists|i: int| 0 <= i < ls.len() && f(#[trigger] ls[i]).contains(n) {
        let i = choose|i: int| 0 <= i < ls.len() && f(#[trigger] ls[i]).contains(n);
        assert(neighbor(ls[i]) == Some(n));
    }
}

/// The IPv4 address of a device is on the first line of a table with its hardware address:
/// in brackets in a table whose lines start with a question mark, and else in front, with
/// the hardware address behind the word `lladdr`.
pub proof fn ipv4_addresses_are_found_in_tables(table: Seq<char>, mac: Seq<u8>, i: int, p: int)
    requires
        0 <= i < lines(table).len(),
        forall|j: int| 0 <= j < i ==> table_line_v4(#[trigger] lines(table)[j], mac) is None,
    ensures
        ({
            let t = words(lines(table)[i]);
            &&& t.len() >= 4 && t[0] == "?"@ && device_mac(t[3]) == Some(mac) ==> (crate::ip::v4_of_text(
                trim_end_char(text::trim_start_char(t[1], '('), ')'),
            ) matches Some(v) ==> table_v4(table, mac) == Some(v))
            &&& t.len() > 0 && t[0] != "?"@ && 0 <= p < t.len() - 1 && t[p] == "lladdr"@ && (forall|j: int|
                0 <= j < p ==> #[trigger] t[j] != "lladdr"@) && device_mac(t[p + 1]) == Some(mac) ==> (
            crate::ip::v4_of_text(t[0]) matches Some(v) ==> table_v4(table, mac) == Some(v))
        }),
{
    let t = words(lines(table)[i]);
    let f = |l: Seq<char>| table_line_v4(l, mac);
    assert forall|j: int| 0 <= j < i implies f(#[trigger] lines(table)[j]) is None by {}
    if f(lines(table)[i]) is Some {
        text::lemma_first_found_at(lines(table), i, f);
    }
    if 0 <= p < t.len() - 1 && t[p] == "lladdr"@ && (forall|j: int| 0 <= j < p ==> #[trigger] t[j] != "lladdr"@) {
        lemma_word_index(t, "lladdr"@, p);
    }
}

proof fn lemma_word_index(t: Seq<Seq<char>>, w: Seq<char>, p: int)
    requires
        0 <= p < t.len(),
        t[p] == w,
        forall|j: int| 0 <= j < p ==> #[trigger] t[j] != w,
    ensures
        word_index(t, w) == p,
    decreases t.len(),
{
    if p > 0 {
        assert(t[0] != w);
        let u = t.skip(1);
        assert(u[p - 1] == t[p]);
        assert forall|j: int| 0 <= j < p - 1 implies #[trigger] u[j] != w by {
            assert(u[j] == t[j + 1]);
        }
        lemma_word_index(u, w, p - 1);
    }
}

}

//! What holds of the texts that clients are known by.
use vstd::prelude::*;

use crate::clients::{client_ip, client_key, hex2, hex_byte, mac_of_parts, mac_of_text, mac_text, unmapped, with_colons};
use crate::clients::registry::{
    aliased, mac_behind, name_in, name_of, name_slot, unbound, unexpired_slots, without_bound, RegistryView,
};
use crate::clients::table::{ip_key, mac_key};
use crate::ip::{groups_of_text, ip_of_text, ip_text, plain_groups, v4_of_text, IpAddr};
use crate::ip_laws::{addresses_read_back, ip_char};
use crate::text::{
    before, digit_char, is_digit, joined_parts_split, lemma_position, lemma_text_position, lemma_trimmed, number, occurs_at,
    split, text_position, trim,
};

verus! {

/// The bytes of a hardware address, as texts.
spec fn byte_texts(m: Seq<u8>) -> Seq<Seq<char>> {
    m.map_values(|b: u8| hex2(b))
}

proof fn lemma_hex2(b: u8)
    ensures
        hex_byte(hex2(b)) == Some(b),
        hex2(b).len() == 2,
        is_digit(hex2(b)[0]),
        is_digit(hex2(b)[1]),
        !hex2(b).contains(':'),
{
    let h = hex2(b);
    assert(h.drop_last() =~= seq![digit_char((b / 16) as nat)]);
    assert(number(h.drop_last(), 16) == Some((b / 16) as nat));
    assert(number(h, 16) == Some(b as nat));
    if h.contains(':') {
        let i = choose|i: int| 0 <= i < h.len() && h[i] == ':';
        assert(i == 0 || i == 1);
    }
}

/// The text of a hardware address: two digits for each byte, and a colon before each
/// but the first.
proof fn lemma_mac_text(m: Seq<u8>)
    requires
        m.len() > 0,
    ensures
        mac_text(m).len() == 3 * m.len() - 1,
        forall|i: int| 0 <= i < mac_text(m).len() ==> (if i % 3 == 2 {
            #[trigger] mac_text(m)[i] == ':'
        } else {
            is_digit(mac_text(m)[i])
        }),
    decreases m.len(),
{
    let t = byte_texts(m);
    lemma_hex2(m.last());
    assert(t.last() == hex2(m.last()));
    if m.len() == 1 {
        assert(mac_text(m) == hex2(m[0]));
    } else {
        let n = m.drop_last();
        lemma_mac_text(n);
        assert(t.drop_last() =~= byte_texts(n));
        let w = mac_text(m);
        assert(w == mac_text(n) + seq![':'] + hex2(m.last()));
        assert forall|i: int| 0 <= i < w.len() implies (if i % 3 == 2 {
            #[trigger] w[i] == ':'
        } else {
            is_digit(w[i])
        }) by {
            if i < mac_text(n).len() {
                assert(w[i] == mac_text(n)[i]);
            } else if i > mac_text(n).len() {
                assert(w[i] == hex2(m.last())[i - mac_text(n).len() - 1]);
            }
        }
    }
}

proof fn lemma_mac_parts(m: Seq<u8>)
    requires
        m.len() == 6,
    ensures
        split(mac_text(m), ':') == byte_texts(m),
{
    let t = byte_texts(m);
    assert forall|i: int| 0 <= i < t.len() implies !(#[trigger] t[i]).contains(':') by {
        lemma_hex2(m[i]);
    }
    joined_parts_split(t, ':');
}

/// The text of a hardware address names the address.
pub proof fn hardware_addresses_read_back(m: Seq<u8>)
    requires
        m.len() == 6,
    ensures
        mac_of_text(mac_text(m)) == Some(m),
{
    let s = mac_text(m);
    lemma_mac_text(m);
    assert(with_colons(s) =~= s);
    lemma_mac_parts(m);
    let t = byte_texts(m);
    lemma_hex2(m[0]);
    lemma_hex2(m[1]);
    lemma_hex2(m[2]);
    lemma_hex2(m[3]);
    lemma_hex2(m[4]);
    lemma_hex2(m[5]);
    assert(mac_of_parts(t)->0 =~= m);
}

/// The text of a hardware address holds colons.
pub proof fn lemma_mac_has_colons(m: Seq<u8>)
    requires
        m.len() == 6,
    ensures
        mac_text(m).contains(':'),
{
    lemma_mac_text(m);
    assert(mac_text(m)[2] == ':');
}

/// The text of a hardware address holds no hyphens.
pub proof fn lemma_own_separators(m: Seq<u8>)
    requires
        m.len() == 6,
    ensures
        with_colons(mac_text(m)) == mac_text(m),
{
    lemma_mac_text(m);
    assert(with_colons(mac_text(m)) =~= mac_text(m));
}

/// Hardware addresses have six bytes.
proof fn lemma_mac_length(s: Seq<char>)
    ensures
        mac_of_text(s) matches Some(m) ==> m.len() == 6,
{
}

/// The groups of a list are as many as its parts.
proof fn lemma_groups_count(pieces: Seq<Seq<char>>)
    ensures
        plain_groups(pieces) matches Some(gs) ==> gs.len() == pieces.len(),
    decreases pieces.len(),
{
    if pieces.len() > 0 {
        lemma_groups_count(pieces.drop_last());
    }
}

/// A text without dots is no IPv4 address.
proof fn lemma_no_dots(s: Seq<char>)
    requires
        forall|i: int| 0 <= i < s.len() ==> #[trigger] s[i] != '.',
    ensures
        v4_of_text(s) is None,
{
    lemma_position(s, '.');
    assert(split(s, '.') =~= seq![s]);
}

/// The text of a hardware address is no IP address.
pub proof fn hardware_addresses_are_no_ips(m: Seq<u8>)
    requires
        m.len() == 6,
    ensures
        ip_of_text(mac_text(m)) is None,
{
    let s = mac_text(m);
    lemma_mac_text(m);
    lemma_mac_parts(m);
    lemma_no_dots(s);
    let p = seq![':', ':'];
    lemma_text_position(s, p);
    let q = text_position(s, p) as int;
    if q <= s.len() {
        assert(occurs_at(s, p, q));
        let x = s.subrange(q, q + 2);
        assert(x[0] == s[q] && x[1] == s[q + 1]);
    }
    let t = byte_texts(m);
    lemma_hex2(m[5]);
    assert(t.last() == hex2(m[5]));
    assert forall|i: int| 0 <= i < t.last().len() implies #[trigger] t.last()[i] != '.' by {
        assert(i == 0 || i == 1);
    }
    lemma_no_dots(t.last());
    lemma_groups_count(t);
    assert(groups_of_text(s) == plain_groups(t));
}

/// A client key in its canonical form is its own canonical form.
pub proof fn client_keys_are_canonical(s: Seq<char>)
    ensures
        client_key(s) matches Some(k) ==> client_key(k) == Some(k),
{
    let t = trim(s);
    match client_ip(t) {
        Some(ip) => {
            let u = unmapped(ip);
            let k = ip_text(u);
            addresses_read_back(u);
            assert(ip_char(k[0]) && ip_char(k[k.len() - 1]));
            lemma_trimmed(k);
            lemma_position(k, '%');
            if k.contains('%') {
                let i = choose|i: int| 0 <= i < k.len() && k[i] == '%';
                assert(ip_char(k[i]));
            }
            assert(before(k, '%') =~= k);
        },
        None => match mac_of_text(t) {
            Some(m) => {
                let k = mac_text(m);
                lemma_mac_length(t);
                lemma_mac_text(m);
                assert(is_digit(k[0]) && is_digit(k[16]));
                lemma_trimmed(k);
                lemma_position(k, '%');
                if k.contains('%') {
                    let i = choose|i: int| 0 <= i < k.len() && k[i] == '%';
                    assert(k[i] == ':' || is_digit(k[i]));
                }
                assert(before(k, '%') =~= k);
                hardware_addresses_are_no_ips(m);
                hardware_addresses_read_back(m);
            },
            None => {},
        },
    }
}

/// The name that an address is given is its name from then on, whatever was found for
/// it or for the device behind it.
pub proof fn given_names_come_first(v: RegistryView, a: IpAddr, name: Seq<char>)
    ensures
        ({
            let k = ip_key(unmapped(a));
            let w = RegistryView {
                found: v.found.remove(k),
                ip_aliases: v.ip_aliases.insert(k, name_slot(Some(name), 0)),
                ..v
            };
            name_of(w, unmapped(a)) == Some(name) && aliased(w, unmapped(a))
        }),
{
}

/// The name that a device is given is the name of each address that it stands behind,
/// unless the address was given one itself.
pub proof fn device_names_cover_addresses(v: RegistryView, m: Seq<u8>, a: IpAddr, name: Seq<char>)
    requires
        mac_behind(v, a) == Some(m),
        name_in(v.ip_aliases, ip_key(a)) is None,
    ensures
        name_of(
            RegistryView {
                found: without_bound(v.found, v.bindings, m),
                mac_aliases: v.mac_aliases.insert(mac_key(m), name_slot(Some(name), 0)),
                ..v
            },
            a,
        ) == Some(name),
{
}

/// Given names outlast everything that is learned: an address keeps the name that it
/// was given when what was learned is pruned or cleared.
pub proof fn given_names_are_not_forgotten(v: RegistryView, a: IpAddr, deleted: Seq<Seq<char>>, now: u64)
    requires
        name_in(v.ip_aliases, ip_key(a)) is Some,
    ensures
        name_of(
            RegistryView { bindings: unbound(v.bindings, deleted), found: unexpired_slots(v.found, now), ..v },
            a,
        ) == name_of(v, a),
        name_of(RegistryView { found: Map::empty(), bindings: Map::empty(), ..v }, a) == name_of(v, a),
{
}

}

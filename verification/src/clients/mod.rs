//! Clients: addresses, hardware addresses and the names of devices.
use vstd::prelude::*;
use vstd::slice::*;
use vstd::string::*;

use crate::ip;
use crate::ip::{format_ip, ip_of_text, ip_text, IpAddr, Ipv6};
use crate::text;
use crate::text::{before, decimal, digit_char, join, number, split, trim};

pub mod laws;
pub mod mac;
pub mod naming_laws;
pub mod registry;
pub mod resolver;
pub mod table;

verus! {

/// What is known of a device.
#[derive(Debug)]
pub struct DeviceInfo {
    /// Its name, if one is known.
    pub name: Option<String>,
    /// Its addresses.
    pub ips: Vec<String>,
    /// Its hardware address, if it is known.
    pub macs: Vec<String>,
    /// The name was given to it.
    pub is_alias: bool,
}

/// A byte in hexadecimal: any number of digits, with an optional plus sign.
pub open spec fn hex_byte(p: Seq<char>) -> Option<u8> {
    let digits = if p.len() > 1 && p[0] == '+' {
        p.skip(1)
    } else {
        p
    };
    match number(digits, 16) {
        Some(n) if n <= 255 => Some(n as u8),
        _ => None,
    }
}

/// The bytes of six hexadecimal parts.
pub open spec fn mac_of_parts(parts: Seq<Seq<char>>) -> Option<Seq<u8>> {
    if parts.len() == 6 && hex_byte(parts[0]) is Some && hex_byte(parts[1]) is Some && hex_byte(parts[2]) is Some
        && hex_byte(parts[3]) is Some && hex_byte(parts[4]) is Some && hex_byte(parts[5]) is Some {
        Some(
            seq![
                hex_byte(parts[0])->0,
                hex_byte(parts[1])->0,
                hex_byte(parts[2])->0,
                hex_byte(parts[3])->0,
                hex_byte(parts[4])->0,
                hex_byte(parts[5])->0,
            ],
        )
    } else {
        None
    }
}

/// A text with colons in place of hyphens.
pub open spec fn with_colons(s: Seq<char>) -> Seq<char> {
    s.map_values(
        |c: char|
            if c == '-' {
                ':'
            } else {
                c
            },
    )
}

/// A hardware address with colons or hyphens between its bytes.
pub open spec fn mac_of_text(s: Seq<char>) -> Option<Seq<u8>> {
    mac_of_parts(split(with_colons(s), ':'))
}

/// The view of an optional hardware address.
pub open spec fn mac_view(m: Option<[u8; 6]>) -> Option<Seq<u8>> {
    match m {
        Some(a) => Some(a@),
        None => None,
    }
}

/// A byte as two hexadecimal digits.
pub open spec fn hex2(b: u8) -> Seq<char> {
    seq![digit_char((b / 16) as nat), digit_char((b % 16) as nat)]
}

/// A hardware address as `aa:bb:cc:dd:ee:ff`.
pub open spec fn mac_text(m: Seq<u8>) -> Seq<char> {
    join(m.map_values(|b: u8| hex2(b)), seq![':'])
}

/// The address that a text names, without the zone of an IPv6 address.
pub open spec fn client_ip(s: Seq<char>) -> Option<IpAddr> {
    ip_of_text(before(s, '%'))
}

/// IPv4-mapped IPv6 addresses as plain IPv4.
pub open spec fn unmapped(ip: IpAddr) -> IpAddr {
    match ip {
        IpAddr::V6(v) => match v.mapped() {
            Some(m) => IpAddr::V4(m),
            None => ip,
        },
        IpAddr::V4(_) => ip,
    }
}

/// The canonical form of a client key: an address, or else a hardware address.
pub open spec fn client_key(s: Seq<char>) -> Option<Seq<char>> {
    let t = trim(s);
    match client_ip(t) {
        Some(ip) => Some(ip_text(unmapped(ip))),
        None => match mac_of_text(t) {
            Some(m) => Some(mac_text(m)),
            None => None,
        },
    }
}

pub(crate) fn parse_hex_byte(p: &[char]) -> (r: Option<u8>)
    ensures
        r == hex_byte(p@),
{
    let digits = if p.len() > 1 && p[0] == '+' {
        let d = slice_subrange(p, 1, p.len());
        assert(d@ == p@.skip(1));
        d
    } else {
        p
    };
    match text::parse_number(digits, 16, 255) {
        Some(v) => Some(v as u8),
        None => None,
    }
}

pub(crate) fn parse_mac_parts(parts: &Vec<Vec<char>>) -> (r: Option<[u8; 6]>)
    ensures
        mac_view(r) == mac_of_parts(text::char_texts(parts@)),
{
    let ghost pv = text::char_texts(parts@);
    if parts.len() != 6 {
        return None;
    }
    assert(pv[0] == parts@[0]@ && pv[1] == parts@[1]@ && pv[2] == parts@[2]@ && pv[3] == parts@[3]@ && pv[4]
        == parts@[4]@ && pv[5] == parts@[5]@);
    match (
        parse_hex_byte(parts[0].as_slice()),
        parse_hex_byte(parts[1].as_slice()),
        parse_hex_byte(parts[2].as_slice()),
        parse_hex_byte(parts[3].as_slice()),
        parse_hex_byte(parts[4].as_slice()),
        parse_hex_byte(parts[5].as_slice()),
    ) {
        (Some(a), Some(b), Some(c), Some(d), Some(e), Some(f)) => {
            let m: [u8; 6] = [a, b, c, d, e, f];
            assert(m@ =~= seq![a, b, c, d, e, f]);
            Some(m)
        },
        _ => None,
    }
}

/// Parses a hardware address in `aa:bb:cc:dd:ee:ff` or `aa-bb-cc-dd-ee-ff` form.
pub fn parse_mac(s: &str) -> (r: Option<[u8; 6]>)
    ensures
        mac_view(r) == mac_of_text(s@),
{
    let mut cs = text::chars_of(s);
    let mut i: usize = 0;
    while i < cs.len()
        invariant
            i <= cs@.len(),
            cs@.len() == s@.len(),
            forall|j: int| 0 <= j < i ==> cs@[j] == #[trigger] with_colons(s@)[j],
            forall|j: int| i <= j < cs@.len() ==> #[trigger] cs@[j] == s@[j],
        decreases cs@.len() - i,
    {
        if cs[i] == '-' {
            cs.set(i, ':');
        }
        i = i + 1;
    }
    assert(cs@ =~= with_colons(s@));
    let parts = text::split_on(cs.as_slice(), ':');
    parse_mac_parts(&parts)
}

/// A byte as two hexadecimal digits.
pub(crate) fn push_hex2(out: &mut String, b: u8)
    ensures
        final(out)@ == old(out)@ + hex2(b),
{
    let ghost start = out@;
    out.push(hex_digit(b / 16));
    out.push(hex_digit(b % 16));
    assert(out@ == start + hex2(b));
}

pub(crate) fn hex_digit(d: u8) -> (r: char)
    requires
        d < 16,
    ensures
        r == digit_char(d as nat),
{
    if d < 10 {
        (48 + d) as char
    } else {
        (87 + d) as char
    }
}

/// Formats a hardware address as `aa:bb:cc:dd:ee:ff`.
pub fn format_mac(mac: &[u8; 6]) -> (r: String)
    ensures
        r@ == mac_text(mac@),
{
    let ghost f = |b: u8| hex2(b);
    let mut out = String::new();
    let mut i: usize = 0;
    assert(mac@.take(0).map_values(f).len() == 0);
    while i < 6
        invariant
            i <= 6,
            f == (|b: u8| hex2(b)),
            out@ == mac_text(mac@.take(i as int)),
        decreases 6 - i,
    {
        let ghost pre = mac@.take(i as int).map_values(f);
        let ghost before = out@;
        if i > 0 {
            out.push(':');
        }
        push_hex2(&mut out, mac[i]);
        proof {
            let cur = mac@.take(i + 1).map_values(f);
            assert(cur == pre.push(hex2(mac@[i as int])));
            assert(cur.drop_last() == pre);
            if i > 0 {
                assert(out@ == before + seq![':'] + hex2(mac@[i as int]));
            } else {
                assert(join(cur, seq![':']) == hex2(mac@[0]));
                assert(out@ == hex2(mac@[0]));
            }
        }
        i = i + 1;
    }
    assert(mac@.take(6) == mac@);
    out
}

/// Parses an address, dropping the zone of an IPv6 address (`%eth0`).
pub fn parse_ip(s: &str) -> (r: Option<IpAddr>)
    ensures
        r == client_ip(s@),
{
    let cs = text::chars_of(s);
    ip::parse_ip_chars(text::part_before(cs.as_slice(), '%'))
}

/// Converts an IPv4-mapped IPv6 address (`::ffff:a.b.c.d`) to plain IPv4.
pub fn unmap_v4(ip: IpAddr) -> (r: IpAddr)
    ensures
        r == unmapped(ip),
{
    if let IpAddr::V6(v6) = ip {
        if let Some(v4) = v6.to_ipv4_mapped() {
            return IpAddr::V4(v4);
        }
    }
    ip
}

/// Normalizes a client key: an IP address or a hardware address.
pub fn normalize_client_key(s: &str) -> (r: Option<String>)
    ensures
        match r {
            Some(k) => client_key(s@) == Some(k@),
            None => client_key(s@) is None,
        },
{
    let cs = text::chars_of(s);
    let t = text::string_of(text::trimmed(cs.as_slice()));
    match parse_ip(t.as_str()) {
        Some(ip) => Some(format_ip(&unmap_v4(ip))),
        None => match parse_mac(t.as_str()) {
            Some(m) => Some(format_mac(&m)),
            None => None,
        },
    }
}

/// An address of the local link: fe80::/10.
pub open spec fn link_local(v6: Ipv6) -> bool {
    0xfe80 <= v6.s0 <= 0xfebf
}

/// Whether an address is link-local (fe80::/10).
pub fn is_link_local_v6(v6: &Ipv6) -> (r: bool)
    ensures
        r == link_local(*v6),
{
    0xfe80 <= v6.s0 && v6.s0 <= 0xfebf
}

/// The nibbles of a segment from the lowest to the highest, each followed by a dot.
pub open spec fn nibbles(s: u16) -> Seq<char> {
    seq![
        digit_char((s % 16) as nat),
        '.',
        digit_char((s / 16 % 16) as nat),
        '.',
        digit_char((s / 256 % 16) as nat),
        '.',
        digit_char((s / 4096) as nat),
        '.',
    ]
}

/// The reverse-DNS domain of an address.
pub open spec fn ptr_domain(ip: IpAddr) -> Seq<char> {
    match ip {
        IpAddr::V4(v) => decimal(v.d as nat) + seq!['.'] + decimal(v.c as nat) + seq!['.'] + decimal(v.b as nat)
            + seq!['.'] + decimal(v.a as nat) + ".in-addr.arpa"@,
        IpAddr::V6(v) => nibbles(v.s7) + nibbles(v.s6) + nibbles(v.s5) + nibbles(v.s4) + nibbles(v.s3) + nibbles(v.s2)
            + nibbles(v.s1) + nibbles(v.s0) + "ip6.arpa"@,
    }
}

fn push_nibbles(out: &mut String, s: u16)
    ensures
        final(out)@ == old(out)@ + nibbles(s),
{
    let ghost start = out@;
    out.push(hex_digit((s % 16) as u8));
    out.push('.');
    out.push(hex_digit((s / 16 % 16) as u8));
    out.push('.');
    out.push(hex_digit((s / 256 % 16) as u8));
    out.push('.');
    out.push(hex_digit((s / 4096) as u8));
    out.push('.');
    assert(out@ == start + nibbles(s));
}

/// Builds the reverse-DNS domain of an address.
pub fn ip_to_ptr_domain(ip: &IpAddr) -> (r: String)
    ensures
        r@ == ptr_domain(*ip),
{
    let mut out = String::new();
    match ip {
        IpAddr::V4(v) => {
            text::push_decimal(&mut out, v.d as u64);
            out.push('.');
            text::push_decimal(&mut out, v.c as u64);
            out.push('.');
            text::push_decimal(&mut out, v.b as u64);
            out.push('.');
            text::push_decimal(&mut out, v.a as u64);
            out.append(".in-addr.arpa");
        },
        IpAddr::V6(v) => {
            push_nibbles(&mut out, v.s7);
            push_nibbles(&mut out, v.s6);
            push_nibbles(&mut out, v.s5);
            push_nibbles(&mut out, v.s4);
            push_nibbles(&mut out, v.s3);
            push_nibbles(&mut out, v.s2);
            push_nibbles(&mut out, v.s1);
            push_nibbles(&mut out, v.s0);
            out.append("ip6.arpa");
        },
    }
    assert(out@ =~= ptr_domain(*ip));
    out
}

}

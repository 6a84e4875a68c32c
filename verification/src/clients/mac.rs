//! Hardware addresses: what a neighbour table or an IPv6 interface identifier
//! says of them.
use vstd::prelude::*;
use vstd::slice::*;
use vstd::string::*;

use crate::clients::{mac_of_parts, mac_view, parse_mac_parts};
use crate::ip;
use crate::ip::{ip_of_text, v4_of_text, v6_of_text, IpAddr, Ipv4, Ipv6};
use crate::text;
use crate::text::{before, first_found, flat_map, lines, split, trim_end_char, trim_start_char, words};

verus! {

/// The separator of a hardware address: a colon if there is one, else a hyphen.
pub open spec fn mac_separator(s: Seq<char>) -> Option<char> {
    if s.contains(':') {
        Some(':')
    } else if s.contains('-') {
        Some('-')
    } else {
        None
    }
}

/// All bytes have the same value.
pub open spec fn all_bytes(m: Seq<u8>, b: u8) -> bool {
    forall|i: int| 0 <= i < m.len() ==> #[trigger] m[i] == b
}

/// A device's hardware address: six bytes, neither all zero nor the broadcast address.
pub open spec fn device_mac(s: Seq<char>) -> Option<Seq<u8>> {
    match mac_separator(s) {
        None => None,
        Some(sep) => match mac_of_parts(split(s, sep)) {
            Some(m) if !all_bytes(m, 0) && !all_bytes(m, 0xff) => Some(m),
            _ => None,
        },
    }
}

/// The hardware address inside an interface identifier made by EUI-64: the eight
/// low bytes with `ff fe` in the middle and the universal/local bit flipped.
pub open spec fn eui64_mac(v: Ipv6) -> Option<Seq<u8>> {
    if v.s5 % 256 == 0xff && v.s6 / 256 == 0xfe {
        Some(
            seq![
                ((v.s4 / 256) as u8) ^ 2u8,
                (v.s4 % 256) as u8,
                (v.s5 / 256) as u8,
                (v.s6 % 256) as u8,
                (v.s7 / 256) as u8,
                (v.s7 % 256) as u8,
            ],
        )
    } else {
        None
    }
}

/// Extracts the hardware address from an EUI-64 IPv6 interface identifier.
pub fn extract_eui64_mac(v6: &Ipv6) -> (r: Option<[u8; 6]>)
    ensures
        mac_view(r) == eui64_mac(*v6),
{
    if v6.s5 % 256 != 0xff || v6.s6 / 256 != 0xfe {
        return None;
    }
    let m: [u8; 6] = [
        ((v6.s4 / 256) as u8) ^ 2u8,
        (v6.s4 % 256) as u8,
        (v6.s5 / 256) as u8,
        (v6.s6 % 256) as u8,
        (v6.s7 / 256) as u8,
        (v6.s7 % 256) as u8,
    ];
    assert(m@ =~= eui64_mac(*v6)->0);
    Some(m)
}

fn all_equal(m: &[u8; 6], b: u8) -> (r: bool)
    ensures
        r == all_bytes(m@, b),
{
    let r = m[0] == b && m[1] == b && m[2] == b && m[3] == b && m[4] == b && m[5] == b;
    proof {
        if r {
            assert forall|i: int| 0 <= i < m@.len() implies #[trigger] m@[i] == b by {
                assert(i == 0 || i == 1 || i == 2 || i == 3 || i == 4 || i == 5);
            }
        } else {
            assert(m@[0] != b || m@[1] != b || m@[2] != b || m@[3] != b || m@[4] != b || m@[5] != b);
        }
    }
    r
}

pub(crate) fn parse_mac_chars(s: &[char]) -> (r: Option<[u8; 6]>)
    ensures
        mac_view(r) == device_mac(s@),
{
    let sep = if text::find_char(s, ':') < s.len() {
        ':'
    } else if text::find_char(s, '-') < s.len() {
        '-'
    } else {
        return None;
    };
    let parts = text::split_on(s, sep);
    match parse_mac_parts(&parts) {
        Some(m) => if all_equal(&m, 0) || all_equal(&m, 0xff) {
            None
        } else {
            Some(m)
        },
        None => None,
    }
}

/// Parses a hardware address with colons or hyphens. The broadcast address and
/// the zero address are refused.
pub fn parse_mac(s: &str) -> (r: Option<[u8; 6]>)
    ensures
        mac_view(r) == device_mac(s@),
{
    let cs = text::chars_of(s);
    parse_mac_chars(cs.as_slice())
}

/// A character that decorates a token of a neighbour table.
pub open spec fn decoration(c: char, question_mark: bool) -> bool {
    c == '(' || c == ')' || c == ',' || c == ';' || (question_mark && c == '?')
}

/// The token without decoration in front.
pub open spec fn bare_start(s: Seq<char>, question_mark: bool) -> Seq<char>
    decreases s.len(),
{
    if s.len() > 0 && decoration(s[0], question_mark) {
        bare_start(s.skip(1), question_mark)
    } else {
        s
    }
}

/// The token without decoration behind.
pub open spec fn bare_end(s: Seq<char>, question_mark: bool) -> Seq<char>
    decreases s.len(),
{
    if s.len() > 0 && decoration(s.last(), question_mark) {
        bare_end(s.drop_last(), question_mark)
    } else {
        s
    }
}

/// The token without decoration.
pub open spec fn bare(s: Seq<char>, question_mark: bool) -> Seq<char> {
    bare_end(bare_start(s, question_mark), question_mark)
}

fn is_decoration(c: char, question_mark: bool) -> (r: bool)
    ensures
        r == decoration(c, question_mark),
{
    c == '(' || c == ')' || c == ',' || c == ';' || (question_mark && c == '?')
}

fn undecorated<'a>(s: &'a [char], question_mark: bool) -> (r: &'a [char])
    ensures
        r@ == bare(s@, question_mark),
{
    let mut i: usize = 0;
    assert(s@.skip(0) =~= s@);
    while i < s.len() && is_decoration(s[i], question_mark)
        invariant
            i <= s@.len(),
            bare_start(s@, question_mark) == bare_start(s@.skip(i as int), question_mark),
        decreases s@.len() - i,
    {
        assert(s@.skip(i as int).skip(1) =~= s@.skip(i + 1));
        i = i + 1;
    }
    let t = slice_subrange(s, i, s.len());
    assert(t@ =~= s@.skip(i as int));
    assert(bare_start(s@, question_mark) == t@);
    let mut j: usize = t.len();
    assert(t@.take(j as int) =~= t@);
    while j > 0 && is_decoration(t[j - 1], question_mark)
        invariant
            j <= t@.len(),
            bare_end(t@, question_mark) == bare_end(t@.take(j as int), question_mark),
        decreases j,
    {
        assert(t@.take(j as int).drop_last() =~= t@.take(j - 1));
        j = j - 1;
    }
    let r = slice_subrange(t, 0, j);
    assert(r@ =~= t@.take(j as int));
    r
}

/// The IPv6 address that a token names, without its zone.
pub open spec fn v6_token(t: Seq<char>) -> Option<Ipv6> {
    v6_of_text(before(bare(t, true), '%'))
}

/// The address that a token names, without its zone.
pub open spec fn ip_token(t: Seq<char>) -> Option<IpAddr> {
    ip_of_text(before(bare(t, true), '%'))
}

/// The hardware address that a token names.
pub open spec fn mac_token(t: Seq<char>) -> Option<Seq<u8>> {
    device_mac(bare(t, false))
}

fn parse_ipv6_token(token: &[char]) -> (r: Option<Ipv6>)
    ensures
        r == v6_token(token@),
{
    ip::parse_v6(text::part_before(undecorated(token, true), '%'))
}

fn parse_ip_token(token: &[char]) -> (r: Option<IpAddr>)
    ensures
        r == ip_token(token@),
{
    ip::parse_ip_chars(text::part_before(undecorated(token, true), '%'))
}

fn parse_mac_token(token: &[char]) -> (r: Option<[u8; 6]>)
    ensures
        mac_view(r) == mac_token(token@),
{
    parse_mac_chars(undecorated(token, false))
}

/// The first hardware address among the words of a text.
pub open spec fn first_mac(s: Seq<char>) -> Option<Seq<u8>> {
    first_found(words(s), |w: Seq<char>| device_mac(w))
}

/// The hardware address in what the system says of one neighbour: its first word
/// that is one.
pub fn find_mac(table_entry: &str) -> (r: Option<[u8; 6]>)
    ensures
        mac_view(r) == first_mac(table_entry@),
{
    let cs = text::chars_of(table_entry);
    let ws = text::split_words(cs.as_slice());
    let ghost wv = words(table_entry@);
    let ghost f = |w: Seq<char>| device_mac(w);
    let mut i: usize = 0;
    while i < ws.len()
        invariant
            i <= ws@.len(),
            wv == text::char_texts(ws@),
            wv == words(table_entry@),
            f == (|w: Seq<char>| device_mac(w)),
            first_found(wv.take(i as int), f) is None,
        decreases ws@.len() - i,
    {
        let m = parse_mac_chars(ws[i].as_slice());
        proof {
            assert(ws@[i as int]@ == wv[i as int]);
            assert(wv.take(i + 1) =~= wv.take(i as int).push(wv[i as int]));
            text::lemma_first_found_push(wv.take(i as int), wv[i as int], f);
            text::lemma_first_found_prefix(wv.take(i + 1), wv.skip(i + 1), f);
            assert(wv.take(i + 1) + wv.skip(i + 1) =~= wv);
        }
        if m.is_some() {
            return m;
        }
        i = i + 1;
    }
    assert(wv.take(wv.len() as int) =~= wv);
    None
}

/// The index of the first word that is the given one, or the number of words.
pub open spec fn word_index(ws: Seq<Seq<char>>, w: Seq<char>) -> int
    decreases ws.len(),
{
    if ws.len() == 0 {
        0
    } else if ws[0] == w {
        0
    } else {
        1 + word_index(ws.skip(1), w)
    }
}

/// The IPv4 address that a line of a neighbour table gives to a hardware address:
/// `? (address) at mac …`, or `address … lladdr mac …`.
pub open spec fn table_line_v4(line: Seq<char>, mac: Seq<u8>) -> Option<Ipv4> {
    let t = words(line);
    if t.len() >= 4 && t[0] == "?"@ {
        if device_mac(t[3]) == Some(mac) {
            v4_of_text(trim_end_char(trim_start_char(t[1], '('), ')'))
        } else {
            None
        }
    } else {
        let p = word_index(t, "lladdr"@);
        if p + 1 < t.len() && device_mac(t[p + 1]) == Some(mac) {
            v4_of_text(t[0])
        } else {
            None
        }
    }
}

pub(crate) fn same_mac(a: &[u8; 6], b: &[u8; 6]) -> (r: bool)
    ensures
        r == (a@ == b@),
{
    let r = a[0] == b[0] && a[1] == b[1] && a[2] == b[2] && a[3] == b[3] && a[4] == b[4] && a[5] == b[5];
    proof {
        if r {
            assert(a@ =~= b@) by {
                assert forall|i: int| 0 <= i < 6 implies a@[i] == b@[i] by {
                    assert(i == 0 || i == 1 || i == 2 || i == 3 || i == 4 || i == 5);
                }
            }
        }
    }
    r
}

fn is_mac(token: &[char], mac: &[u8; 6]) -> (r: bool)
    ensures
        r == (device_mac(token@) == Some(mac@)),
{
    match parse_mac_chars(token) {
        Some(m) => same_mac(&m, mac),
        None => false,
    }
}

fn find_word(ws: &Vec<Vec<char>>, w: &str) -> (r: usize)
    ensures
        r == word_index(text::char_texts(ws@), w@),
        r <= ws@.len(),
{
    let ghost wv = text::char_texts(ws@);
    let mut i: usize = 0;
    assert(wv.skip(0) =~= wv);
    while i < ws.len()
        invariant
            i <= ws@.len(),
            wv == text::char_texts(ws@),
            word_index(wv, w@) == i + word_index(wv.skip(i as int), w@),
        decreases ws@.len() - i,
    {
        assert(wv.skip(i as int)[0] == ws@[i as int]@);
        assert(wv.skip(i as int).skip(1) =~= wv.skip(i + 1));
        if text::is_text(ws[i].as_slice(), w) {
            return i;
        }
        i = i + 1;
    }
    i
}

fn line_v4(line: &[char], mac: &[u8; 6]) -> (r: Option<Ipv4>)
    ensures
        r == table_line_v4(line@, mac@),
{
    let ws = text::split_words(line);
    let ghost t = words(line@);
    assert(forall|i: int| 0 <= i < ws@.len() ==> (#[trigger] ws@[i])@ == t[i]);
    if ws.len() >= 4 && text::is_text(ws[0].as_slice(), "?") {
        if is_mac(ws[3].as_slice(), mac) {
            let address = text::trimmed_end_char(text::trimmed_start_char(ws[1].as_slice(), '('), ')');
            return ip::parse_v4(address);
        }
        return None;
    }
    let p = find_word(&ws, "lladdr");
    if p < ws.len() && p + 1 < ws.len() && is_mac(ws[p + 1].as_slice(), mac) {
        return ip::parse_v4(ws[0].as_slice());
    }
    None
}

/// The first IPv4 address that a neighbour table gives to a hardware address.
pub open spec fn table_v4(table: Seq<char>, mac: Seq<u8>) -> Option<Ipv4> {
    first_found(lines(table), |l: Seq<char>| table_line_v4(l, mac))
}

/// The first IPv4 address that a neighbour table gives to a hardware address.
pub fn parse_ipv4_for_mac(table: &str, target_mac: [u8; 6]) -> (r: Option<Ipv4>)
    ensures
        r == table_v4(table@, target_mac@),
{
    let cs = text::chars_of(table);
    let s = cs.as_slice();
    let ghost f = |l: Seq<char>| table_line_v4(l, target_mac@);
    let ghost mut done: Seq<Seq<char>> = seq![];
    let mut pos: usize = 0;
    assert(s@.skip(0) =~= s@);
    assert(done + lines(s@) =~= lines(s@));
    while pos < s.len()
        invariant
            pos <= s@.len(),
            s@ == table@,
            f == (|l: Seq<char>| table_line_v4(l, target_mac@)),
            lines(s@) == done + lines(s@.skip(pos as int)),
            first_found(done, f) is None,
        decreases s@.len() - pos,
    {
        let (end, next) = text::next_line(s, pos);
        let line = slice_subrange(s, pos, end);
        let found = line_v4(line, &target_mac);
        proof {
            let rest = lines(s@.skip(next as int));
            assert(done.push(line@) + rest =~= done + (seq![line@] + rest));
            text::lemma_first_found_push(done, line@, f);
            text::lemma_first_found_prefix(done.push(line@), rest, f);
            done = done.push(line@);
        }
        if found.is_some() {
            return found;
        }
        pos = next;
    }
    assert(s@.skip(s@.len() as int) =~= Seq::<char>::empty());
    assert(done + lines(Seq::<char>::empty()) =~= done);
    None
}

/// The line names the IPv6 address.
pub open spec fn names_v6(line: Seq<char>, ip: Ipv6) -> bool {
    exists|i: int| 0 <= i < words(line).len() && v6_token(#[trigger] words(line)[i]) == Some(ip)
}

/// The hardware address that a line of a neighbour table gives to an IPv6 address.
pub open spec fn table_line_mac(line: Seq<char>, ip: Ipv6) -> Option<Seq<u8>> {
    if names_v6(line, ip) {
        first_found(words(line), |w: Seq<char>| mac_token(w))
    } else {
        None
    }
}

/// The first hardware address that a neighbour table gives to an IPv6 address.
pub open spec fn table_mac(table: Seq<char>, ip: Ipv6) -> Option<Seq<u8>> {
    first_found(lines(table), |l: Seq<char>| table_line_mac(l, ip))
}

fn line_has_ipv6(line: &[char], target_ip: &Ipv6) -> (r: bool)
    ensures
        r == names_v6(line@, *target_ip),
{
    let ws = text::split_words(line);
    let ghost wv = words(line@);
    let mut i: usize = 0;
    while i < ws.len()
        invariant
            i <= ws@.len(),
            wv == text::char_texts(ws@),
            wv == words(line@),
            forall|j: int| 0 <= j < i ==> v6_token(#[trigger] wv[j]) != Some(*target_ip),
        decreases ws@.len() - i,
    {
        assert(ws@[i as int]@ == wv[i as int]);
        if let Some(v) = parse_ipv6_token(ws[i].as_slice()) {
            if v == *target_ip {
                assert(v6_token(wv[i as int]) == Some(*target_ip));
                return true;
            }
        }
        i = i + 1;
    }
    false
}

fn line_mac(line: &[char]) -> (r: Option<[u8; 6]>)
    ensures
        mac_view(r) == first_found(words(line@), |w: Seq<char>| mac_token(w)),
{
    let ws = text::split_words(line);
    let ghost wv = words(line@);
    let ghost f = |w: Seq<char>| mac_token(w);
    let mut i: usize = 0;
    while i < ws.len()
        invariant
            i <= ws@.len(),
            wv == text::char_texts(ws@),
            wv == words(line@),
            f == (|w: Seq<char>| mac_token(w)),
            first_found(wv.take(i as int), f) is None,
        decreases ws@.len() - i,
    {
        let m = parse_mac_token(ws[i].as_slice());
        proof {
            assert(ws@[i as int]@ == wv[i as int]);
            assert(wv.take(i + 1) =~= wv.take(i as int).push(wv[i as int]));
            text::lemma_first_found_push(wv.take(i as int), wv[i as int], f);
            text::lemma_first_found_prefix(wv.take(i + 1), wv.skip(i + 1), f);
            assert(wv.take(i + 1) + wv.skip(i + 1) =~= wv);
        }
        if m.is_some() {
            return m;
        }
        i = i + 1;
    }
    assert(wv.take(wv.len() as int) =~= wv);
    None
}

/// The first hardware address that a neighbour table gives to an IPv6 address.
pub fn parse_mac_for_ipv6(table: &str, target_ip: Ipv6) -> (r: Option<[u8; 6]>)
    ensures
        mac_view(r) == table_mac(table@, target_ip),
{
    let cs = text::chars_of(table);
    let s = cs.as_slice();
    let ghost f = |l: Seq<char>| table_line_mac(l, target_ip);
    let ghost mut done: Seq<Seq<char>> = seq![];
    let mut pos: usize = 0;
    assert(s@.skip(0) =~= s@);
    assert(done + lines(s@) =~= lines(s@));
    while pos < s.len()
        invariant
            pos <= s@.len(),
            s@ == table@,
            f == (|l: Seq<char>| table_line_mac(l, target_ip)),
            lines(s@) == done + lines(s@.skip(pos as int)),
            first_found(done, f) is None,
        decreases s@.len() - pos,
    {
        let (end, next) = text::next_line(s, pos);
        let line = slice_subrange(s, pos, end);
        let found = if line_has_ipv6(line, &target_ip) {
            line_mac(line)
        } else {
            None
        };
        proof {
            let rest = lines(s@.skip(next as int));
            assert(done.push(line@) + rest =~= done + (seq![line@] + rest));
            text::lemma_first_found_push(done, line@, f);
            text::lemma_first_found_prefix(done.push(line@), rest, f);
            assert(mac_view(found) == table_line_mac(line@, target_ip));
            done = done.push(line@);
        }
        if found.is_some() {
            return found;
        }
        pos = next;
    }
    assert(s@.skip(s@.len() as int) =~= Seq::<char>::empty());
    assert(done + lines(Seq::<char>::empty()) =~= done);
    None
}

/// The index of the first hardware address among the words, or the number of words.
pub open spec fn mac_index(ws: Seq<Seq<char>>) -> int
    decreases ws.len(),
{
    if ws.len() == 0 {
        0
    } else if mac_index(ws.drop_last()) < ws.len() - 1 {
        mac_index(ws.drop_last())
    } else if mac_token(ws.last()) is Some {
        ws.len() - 1
    } else {
        ws.len() as int
    }
}

/// A neighbour: its address and its hardware address.
pub open spec fn neighbor(line: Seq<char>) -> Option<(IpAddr, Seq<u8>)> {
    let ws = words(line);
    let k = mac_index(ws);
    if k < ws.len() {
        match (first_found(ws.take(k) + ws.skip(k + 1), |w: Seq<char>| ip_token(w)), mac_token(ws[k])) {
            (Some(ip), Some(mac)) => Some((ip, mac)),
            _ => None,
        }
    } else {
        None
    }
}

/// The view of a neighbour.
pub open spec fn neighbor_view(n: Option<(IpAddr, [u8; 6])>) -> Option<(IpAddr, Seq<u8>)> {
    match n {
        Some((ip, mac)) => Some((ip, mac@)),
        None => None,
    }
}

proof fn lemma_mac_index(ws: Seq<Seq<char>>)
    ensures
        0 <= mac_index(ws) <= ws.len(),
        mac_index(ws) < ws.len() ==> mac_token(ws[mac_index(ws)]) is Some,
    decreases ws.len(),
{
    if ws.len() > 0 {
        lemma_mac_index(ws.drop_last());
    }
}

/// The neighbour that a line of a neighbour table describes: the first hardware
/// address in it, and the first address among the other words.
pub(crate) fn parse_neighbor_chars(line: &[char]) -> (r: Option<(IpAddr, [u8; 6])>)
    ensures
        neighbor_view(r) == neighbor(line@),
{
    let ws = text::split_words(line);
    let ghost wv = words(line@);
    let ghost f = |w: Seq<char>| ip_token(w);
    let mut found_ip: Option<IpAddr> = None;
    let mut found_mac: Option<[u8; 6]> = None;
    let ghost mut others: Seq<Seq<char>> = seq![];
    let mut i: usize = 0;
    while i < ws.len()
        invariant
            i <= ws@.len(),
            wv == text::char_texts(ws@),
            wv == words(line@),
            f == (|w: Seq<char>| ip_token(w)),
            found_ip == first_found(others, f),
            ({
                let seen = wv.take(i as int);
                let k = mac_index(seen);
                &&& 0 <= k <= i
                &&& k < i ==> mac_view(found_mac) == mac_token(wv[k]) && found_mac is Some && others == seen.take(k)
                    + seen.skip(k + 1)
                &&& k == i ==> found_mac is None && others == seen
            }),
        decreases ws@.len() - i,
    {
        let ghost seen = wv.take(i as int);
        let ghost now = wv.take(i + 1);
        proof {
            assert(ws@[i as int]@ == wv[i as int]);
            assert(now =~= seen.push(wv[i as int]));
            assert(now.drop_last() =~= seen);
            lemma_mac_index(seen);
            text::lemma_first_found_push(others, wv[i as int], f);
        }
        let token = ws[i].as_slice();
        if found_mac.is_none() {
            let m = parse_mac_token(token);
            if m.is_some() {
                found_mac = m;
                assert(now.take(i as int) + now.skip(i + 1) =~= seen);
                i = i + 1;
                continue ;
            }
        }
        proof {
            let k = mac_index(seen);
            if k < i {
                assert(now.take(k) + now.skip(k + 1) =~= (seen.take(k) + seen.skip(k + 1)).push(wv[i as int]));
            } else {
                assert(now =~= seen.push(wv[i as int]));
            }
            others = others.push(wv[i as int]);
        }
        if found_ip.is_none() {
            found_ip = parse_ip_token(token);
        }
        i = i + 1;
    }
    assert(wv.take(wv.len() as int) =~= wv);
    match (found_ip, found_mac) {
        (Some(a), Some(m)) => Some((a, m)),
        _ => None,
    }
}

/// The neighbour that a line of a neighbour table describes.
pub fn parse_neighbor_line(line: &str) -> (r: Option<(IpAddr, [u8; 6])>)
    ensures
        neighbor_view(r) == neighbor(line@),
{
    let cs = text::chars_of(line);
    parse_neighbor_chars(cs.as_slice())
}

/// The neighbour of a line, if any.
pub open spec fn neighbor_seq(line: Seq<char>) -> Seq<(IpAddr, Seq<u8>)> {
    match neighbor(line) {
        Some(n) => seq![n],
        None => seq![],
    }
}

/// The neighbours of a table.
pub open spec fn table_neighbors(table: Seq<char>) -> Seq<(IpAddr, Seq<u8>)> {
    flat_map(lines(table), |l: Seq<char>| neighbor_seq(l))
}

/// Neighbours as plain values.
pub open spec fn neighbor_views(v: Seq<(IpAddr, [u8; 6])>) -> Seq<(IpAddr, Seq<u8>)> {
    v.map_values(|n: (IpAddr, [u8; 6])| (n.0, n.1@))
}

/// Appends the neighbours of a table.
pub fn scan_table(table: &str, out: &mut Vec<(IpAddr, [u8; 6])>)
    ensures
        neighbor_views(final(out)@) == neighbor_views(old(out)@) + table_neighbors(table@),
{
    let cs = text::chars_of(table);
    let s = cs.as_slice();
    let ghost f = |l: Seq<char>| neighbor_seq(l);
    let ghost start = neighbor_views(out@);
    let ghost mut done: Seq<Seq<char>> = seq![];
    let mut pos: usize = 0;
    assert(s@.skip(0) =~= s@);
    assert(done + lines(s@) =~= lines(s@));
    assert(start + flat_map(done, f) =~= start);
    while pos < s.len()
        invariant
            pos <= s@.len(),
            s@ == table@,
            f == (|l: Seq<char>| neighbor_seq(l)),
            lines(s@) == done + lines(s@.skip(pos as int)),
            neighbor_views(out@) == start + flat_map(done, f),
        decreases s@.len() - pos,
    {
        let (end, next) = text::next_line(s, pos);
        let line = slice_subrange(s, pos, end);
        let ghost before_line = out@;
        proof {
            let rest = lines(s@.skip(next as int));
            assert(done.push(line@) + rest =~= done + (seq![line@] + rest));
            text::lemma_flat_map_push(done, line@, f);
        }
        match parse_neighbor_chars(line) {
            Some(n) => {
                out.push(n);
                assert(neighbor_views(out@) =~= neighbor_views(before_line).push((n.0, n.1@)));
                assert(neighbor_views(out@) =~= start + (flat_map(done, f) + neighbor_seq(line@)));
            },
            None => {
                assert(neighbor_views(out@) =~= start + (flat_map(done, f) + neighbor_seq(line@)));
            },
        }
        proof {
            done = done.push(line@);
        }
        pos = next;
    }
    assert(s@.skip(s@.len() as int) =~= Seq::<char>::empty());
    assert(done + lines(Seq::<char>::empty()) =~= done);
}

}

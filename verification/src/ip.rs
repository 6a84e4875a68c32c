//! IP addresses and socket addresses as plain values, with their textual forms.
use vstd::prelude::*;
use vstd::slice::*;
use vstd::string::*;

use crate::text;
use crate::text::{decimal, in_base, join, number, position, split, text_position};

verus! {

/// An IPv4 address, by its four octets.
#[derive(Debug, Clone, Copy, PartialEq, Eq, Structural)]
pub struct Ipv4 {
    pub a: u8,
    pub b: u8,
    pub c: u8,
    pub d: u8,
}

/// An IPv6 address, by its eight segments.
#[derive(Debug, Clone, Copy, PartialEq, Eq, Structural)]
pub struct Ipv6 {
    pub s0: u16,
    pub s1: u16,
    pub s2: u16,
    pub s3: u16,
    pub s4: u16,
    pub s5: u16,
    pub s6: u16,
    pub s7: u16,
}

/// An IP address.
#[derive(Debug, Clone, Copy, PartialEq, Eq, Structural)]
pub enum IpAddr {
    V4(Ipv4),
    V6(Ipv6),
}

/// An address and a port. `scope` is the zone of a link-local IPv6 address.
#[derive(Debug, Clone, Copy, PartialEq, Eq, Structural)]
pub struct SocketAddr {
    pub ip: IpAddr,
    pub port: u16,
    pub scope: u32,
}

impl Ipv6 {
    /// The segments in order.
    pub open spec fn segments(&self) -> Seq<u16> {
        seq![self.s0, self.s1, self.s2, self.s3, self.s4, self.s5, self.s6, self.s7]
    }

    /// The address with the given segments.
    pub open spec fn of(s: Seq<u16>) -> Ipv6 {
        Ipv6 { s0: s[0], s1: s[1], s2: s[2], s3: s[3], s4: s[4], s5: s[5], s6: s[6], s7: s[7] }
    }

    /// The segments in order.
    pub fn to_segments(&self) -> (r: Vec<u16>)
        ensures
            r@ == self.segments(),
    {
        let v = vec![self.s0, self.s1, self.s2, self.s3, self.s4, self.s5, self.s6, self.s7];
        assert(v@ =~= self.segments());
        v
    }

    fn of_segments(s: &Vec<u16>) -> (r: Ipv6)
        requires
            s@.len() == 8,
        ensures
            r == Ipv6::of(s@),
    {
        Ipv6 { s0: s[0], s1: s[1], s2: s[2], s3: s[3], s4: s[4], s5: s[5], s6: s[6], s7: s[7] }
    }

    /// The IPv4 address of an IPv4-mapped address `::ffff:a.b.c.d`.
    pub open spec fn mapped(&self) -> Option<Ipv4> {
        if self.s0 == 0 && self.s1 == 0 && self.s2 == 0 && self.s3 == 0 && self.s4 == 0 && self.s5 == 0xffff {
            Some(self.low_v4())
        } else {
            None
        }
    }

    /// The IPv4 address in the last 32 bits.
    pub open spec fn low_v4(&self) -> Ipv4 {
        Ipv4 {
            a: (self.s6 / 256) as u8,
            b: (self.s6 % 256) as u8,
            c: (self.s7 / 256) as u8,
            d: (self.s7 % 256) as u8,
        }
    }

    /// The IPv4 address in the last 32 bits.
    pub fn low_ipv4(&self) -> (r: Ipv4)
        ensures
            r == self.low_v4(),
    {
        Ipv4 {
            a: (self.s6 / 256) as u8,
            b: (self.s6 % 256) as u8,
            c: (self.s7 / 256) as u8,
            d: (self.s7 % 256) as u8,
        }
    }

    /// The IPv4 address of an IPv4-mapped address.
    pub fn to_ipv4_mapped(&self) -> (r: Option<Ipv4>)
        ensures
            r == self.mapped(),
    {
        if self.s0 == 0 && self.s1 == 0 && self.s2 == 0 && self.s3 == 0 && self.s4 == 0 && self.s5 == 0xffff {
            Some(self.low_ipv4())
        } else {
            None
        }
    }
}

/// An octet in decimal: one to three digits without a leading zero, at most 255.
pub open spec fn octet(p: Seq<char>) -> Option<u8> {
    if 1 <= p.len() <= 3 && (p.len() == 1 || p[0] != '0') && number(p, 10) is Some && number(p, 10)->0 <= 255 {
        Some(number(p, 10)->0 as u8)
    } else {
        None
    }
}

/// An IPv4 address in dotted decimal.
pub open spec fn v4_of_text(s: Seq<char>) -> Option<Ipv4> {
    let p = split(s, '.');
    if p.len() == 4 && octet(p[0]) is Some && octet(p[1]) is Some && octet(p[2]) is Some && octet(p[3]) is Some {
        Some(Ipv4 { a: octet(p[0])->0, b: octet(p[1])->0, c: octet(p[2])->0, d: octet(p[3])->0 })
    } else {
        None
    }
}

/// A group of an IPv6 address: one to four hexadecimal digits.
pub open spec fn group(p: Seq<char>) -> Option<u16> {
    if 1 <= p.len() <= 4 && number(p, 16) is Some && number(p, 16)->0 <= 0xffff {
        Some(number(p, 16)->0 as u16)
    } else {
        None
    }
}

/// A list of groups.
pub open spec fn plain_groups(pieces: Seq<Seq<char>>) -> Option<Seq<u16>>
    decreases pieces.len(),
{
    if pieces.len() == 0 {
        Some(seq![])
    } else {
        match (plain_groups(pieces.drop_last()), group(pieces.last())) {
            (Some(gs), Some(g)) => Some(gs.push(g)),
            _ => None,
        }
    }
}

/// The two groups that an IPv4 address stands for.
pub open spec fn v4_groups(v: Ipv4) -> Seq<u16> {
    seq![(v.a * 256 + v.b) as u16, (v.c * 256 + v.d) as u16]
}

/// A list of groups whose last part may be an IPv4 address.
pub open spec fn groups_of_text(s: Seq<char>) -> Option<Seq<u16>> {
    let pieces = split(s, ':');
    match v4_of_text(pieces.last()) {
        Some(v) => match plain_groups(pieces.drop_last()) {
            Some(gs) => Some(gs + v4_groups(v)),
            None => None,
        },
        None => plain_groups(pieces),
    }
}

/// The groups of a part that may be empty.
pub open spec fn part_groups(s: Seq<char>, v4_allowed: bool) -> Option<Seq<u16>> {
    if s.len() == 0 {
        Some(seq![])
    } else if v4_allowed {
        groups_of_text(s)
    } else {
        plain_groups(split(s, ':'))
    }
}

/// `n` zero segments.
pub open spec fn zeros(n: nat) -> Seq<u16> {
    Seq::new(n, |i: int| 0u16)
}

/// An IPv6 address: eight groups, or fewer around one `::`, which stands for the
/// missing ones and for at least one.
pub open spec fn v6_of_text(s: Seq<char>) -> Option<Ipv6> {
    let p = text_position(s, seq![':', ':']);
    if p > s.len() {
        match groups_of_text(s) {
            Some(gs) if gs.len() == 8 => Some(Ipv6::of(gs)),
            _ => None,
        }
    } else {
        match (part_groups(s.take(p as int), false), part_groups(s.skip(p as int + 2), true)) {
            (Some(h), Some(t)) if h.len() + t.len() <= 7 => Some(
                Ipv6::of(h + zeros((8 - h.len() - t.len()) as nat) + t),
            ),
            _ => None,
        }
    }
}

/// An IP address of either kind.
pub open spec fn ip_of_text(s: Seq<char>) -> Option<IpAddr> {
    match v4_of_text(s) {
        Some(v) => Some(IpAddr::V4(v)),
        None => match v6_of_text(s) {
            Some(v) => Some(IpAddr::V6(v)),
            None => None,
        },
    }
}

/// Dotted decimal.
pub open spec fn v4_text(v: Ipv4) -> Seq<char> {
    decimal(v.a as nat) + seq!['.'] + decimal(v.b as nat) + seq!['.'] + decimal(v.c as nat) + seq!['.'] + decimal(
        v.d as nat,
    )
}

/// How many zero segments stand in a row from index `i` on.
pub open spec fn zero_run(s: Seq<u16>, i: int) -> nat
    decreases s.len() - i,
{
    if 0 <= i < s.len() && s[i] == 0 {
        1 + zero_run(s, i + 1)
    } else {
        0
    }
}

/// The first of the longest runs of zeros that start before index `n`: its start and length.
pub open spec fn longest_run(s: Seq<u16>, n: nat) -> (nat, nat)
    decreases n,
{
    if n == 0 {
        (0, 0)
    } else {
        let best = longest_run(s, (n - 1) as nat);
        if zero_run(s, n - 1) > best.1 {
            ((n - 1) as nat, zero_run(s, n - 1))
        } else {
            best
        }
    }
}

/// Segments in hexadecimal with colons between them.
pub open spec fn hex_groups(s: Seq<u16>) -> Seq<char> {
    join(s.map_values(|g: u16| in_base(g as nat, 16)), seq![':'])
}

/// The canonical text of an IPv6 address: IPv4-mapped addresses with a dotted
/// tail, otherwise the first longest run of two or more zero segments as `::`.
pub open spec fn v6_text(v: Ipv6) -> Seq<char> {
    let s = v.segments();
    let run = longest_run(s, 8);
    match v.mapped() {
        Some(m) => seq![':', ':', 'f', 'f', 'f', 'f', ':'] + v4_text(m),
        None => if run.1 > 1 {
            hex_groups(s.take(run.0 as int)) + seq![':', ':'] + hex_groups(s.skip((run.0 + run.1) as int))
        } else {
            hex_groups(s)
        },
    }
}

/// The canonical text of an address.
pub open spec fn ip_text(ip: IpAddr) -> Seq<char> {
    match ip {
        IpAddr::V4(v) => v4_text(v),
        IpAddr::V6(v) => v6_text(v),
    }
}

fn parse_octet(p: &[char]) -> (r: Option<u8>)
    ensures
        r == octet(p@),
{
    if p.len() < 1 || p.len() > 3 || (p.len() > 1 && p[0] == '0') {
        return None;
    }
    match text::parse_number(p, 10, 255) {
        Some(v) => Some(v as u8),
        None => None,
    }
}

fn parse_group(p: &[char]) -> (r: Option<u16>)
    ensures
        r == group(p@),
{
    if p.len() < 1 || p.len() > 4 {
        return None;
    }
    match text::parse_number(p, 16, 0xffff) {
        Some(v) => Some(v as u16),
        None => None,
    }
}

/// Parses an IPv4 address.
pub fn parse_v4(s: &[char]) -> (r: Option<Ipv4>)
    ensures
        r == v4_of_text(s@),
{
    let p = text::split_on(s, '.');
    let ghost pv = split(s@, '.');
    if p.len() != 4 {
        return None;
    }
    assert(p@[0]@ == pv[0] && p@[1]@ == pv[1] && p@[2]@ == pv[2] && p@[3]@ == pv[3]);
    match (
        parse_octet(p[0].as_slice()),
        parse_octet(p[1].as_slice()),
        parse_octet(p[2].as_slice()),
        parse_octet(p[3].as_slice()),
    ) {
        (Some(a), Some(b), Some(c), Some(d)) => Some(Ipv4 { a, b, c, d }),
        _ => None,
    }
}

fn parse_plain_groups(pieces: &Vec<Vec<char>>, n: usize) -> (r: Option<Vec<u16>>)
    requires
        n <= pieces@.len(),
    ensures
        match r {
            Some(gs) => plain_groups(text::char_texts(pieces@).take(n as int)) == Some(gs@) && gs@.len() == n,
            None => plain_groups(text::char_texts(pieces@).take(n as int)) is None,
        },
    decreases n,
{
    let ghost pv = text::char_texts(pieces@);
    if n == 0 {
        let v: Vec<u16> = Vec::new();
        assert(pv.take(0).len() == 0);
        assert(v@ == Seq::<u16>::empty());
        return Some(v);
    }
    assert(pv.take(n as int).drop_last() == pv.take(n - 1));
    assert(pv.take(n as int).last() == pieces@[n - 1]@);
    match parse_plain_groups(pieces, n - 1) {
        None => None,
        Some(mut gs) => match parse_group(pieces[n - 1].as_slice()) {
            None => None,
            Some(g) => {
                gs.push(g);
                Some(gs)
            },
        },
    }
}

proof fn lemma_split_nonempty(s: Seq<char>, c: char)
    ensures
        split(s, c).len() >= 1,
{
}

fn parse_groups(s: &[char]) -> (r: Option<Vec<u16>>)
    ensures
        match r {
            Some(gs) => groups_of_text(s@) == Some(gs@),
            None => groups_of_text(s@) is None,
        },
{
    let pieces = text::split_on(s, ':');
    let ghost pv = split(s@, ':');
    proof {
        lemma_split_nonempty(s@, ':');
        assert(pieces@.len() == pv.len());
        assert(pieces@[pv.len() - 1]@ == pv.last());
        assert(pv.take(pv.len() as int) == pv);
        assert(pv.take(pv.len() - 1) == pv.drop_last());
    }
    let n: usize = pieces.len();
    match parse_v4(pieces[n - 1].as_slice()) {
        Some(v) => match parse_plain_groups(&pieces, n - 1) {
            Some(mut gs) => {
                let ghost before = gs@;
                gs.push((v.a as u16) * 256 + v.b as u16);
                gs.push((v.c as u16) * 256 + v.d as u16);
                assert(gs@ == before + v4_groups(v));
                Some(gs)
            },
            None => None,
        },
        None => parse_plain_groups(&pieces, n),
    }
}

/// Parses the groups of a part that may be empty.
fn parse_part(s: &[char], v4_allowed: bool) -> (r: Option<Vec<u16>>)
    ensures
        match r {
            Some(gs) => part_groups(s@, v4_allowed) == Some(gs@),
            None => part_groups(s@, v4_allowed) is None,
        },
{
    if s.len() == 0 {
        let v: Vec<u16> = Vec::new();
        assert(v@ == Seq::<u16>::empty());
        Some(v)
    } else if v4_allowed {
        parse_groups(s)
    } else {
        let pieces = text::split_on(s, ':');
        assert(text::char_texts(pieces@).take(pieces@.len() as int) == text::char_texts(pieces@));
        parse_plain_groups(&pieces, pieces.len())
    }
}

/// The address with the groups `h` at its start, `t` at its end and zeros between.
fn fill_groups(h: &Vec<u16>, t: &Vec<u16>) -> (r: Ipv6)
    requires
        h@.len() + t@.len() <= 7,
    ensures
        r == Ipv6::of(h@ + zeros((8 - h@.len() - t@.len()) as nat) + t@),
{
    let mut out: Vec<u16> = Vec::new();
    let ghost whole = h@ + zeros((8 - h@.len() - t@.len()) as nat) + t@;
    let mut i: usize = 0;
    while i < 8
        invariant
            i <= 8,
            h@.len() + t@.len() <= 7,
            whole == h@ + zeros((8 - h@.len() - t@.len()) as nat) + t@,
            out@ == whole.take(i as int),
        decreases 8 - i,
    {
        if i < h.len() {
            out.push(h[i]);
        } else if i < 8 - t.len() {
            out.push(0);
        } else {
            out.push(t[i - (8 - t.len())]);
        }
        assert(out@.last() == whole[i as int]);
        i = i + 1;
        assert(whole.take(i as int) == whole.take(i - 1).push(whole[i - 1]));
    }
    assert(whole.take(8) == whole);
    Ipv6::of_segments(&out)
}

/// Parses an IPv6 address.
pub fn parse_v6(s: &[char]) -> (r: Option<Ipv6>)
    ensures
        r == v6_of_text(s@),
{
    proof {
        reveal_strlit("::");
        assert("::"@ =~= seq![':', ':']);
        text::lemma_text_position(s@, seq![':', ':']);
    }
    match text::find_text(s, "::") {
        None => match parse_groups(s) {
            Some(gs) => if gs.len() == 8 {
                Some(Ipv6::of_segments(&gs))
            } else {
                None
            },
            None => None,
        },
        Some(p) => {
            let n: usize = s.len();
            assert(p + 2 <= n);
            let head = slice_subrange(s, 0, p);
            let tail = slice_subrange(s, p + 2, n);
            assert(head@ == s@.take(p as int));
            assert(tail@ == s@.skip(p as int + 2));
            match parse_part(head, false) {
                None => None,
                Some(h) => match parse_part(tail, true) {
                    None => None,
                    Some(t) => if h.len() <= 7 && t.len() <= 7 - h.len() {
                        Some(fill_groups(&h, &t))
                    } else {
                        None
                    },
                },
            }
        },
    }
}

/// Parses an IP address of either kind.
pub fn parse_ip_chars(s: &[char]) -> (r: Option<IpAddr>)
    ensures
        r == ip_of_text(s@),
{
    match parse_v4(s) {
        Some(v) => Some(IpAddr::V4(v)),
        None => match parse_v6(s) {
            Some(v) => Some(IpAddr::V6(v)),
            None => None,
        },
    }
}

/// Parses an IP address.
pub fn parse_ip_text(s: &str) -> (r: Option<IpAddr>)
    ensures
        r == ip_of_text(s@),
{
    let cs = text::chars_of(s);
    parse_ip_chars(cs.as_slice())
}

fn push_v4(out: &mut String, v: &Ipv4)
    ensures
        final(out)@ == old(out)@ + v4_text(*v),
{
    let ghost start = out@;
    text::push_decimal(out, v.a as u64);
    out.push('.');
    text::push_decimal(out, v.b as u64);
    out.push('.');
    text::push_decimal(out, v.c as u64);
    out.push('.');
    text::push_decimal(out, v.d as u64);
    assert(out@ == start + v4_text(*v));
}

fn zero_run_at(s: &Vec<u16>, i: usize) -> (r: usize)
    requires
        i <= s@.len(),
    ensures
        r == zero_run(s@, i as int),
        r <= s@.len() - i,
    decreases s@.len() - i,
{
    if i < s.len() && s[i] == 0 {
        1 + zero_run_at(s, i + 1)
    } else {
        0
    }
}

fn push_hex_groups(out: &mut String, s: &Vec<u16>, from: usize, to: usize)
    requires
        from <= to <= s@.len(),
    ensures
        final(out)@ == old(out)@ + hex_groups(s@.subrange(from as int, to as int)),
{
    let ghost f = |g: u16| in_base(g as nat, 16);
    let ghost start = out@;
    let mut i: usize = from;
    assert(s@.subrange(from as int, from as int).map_values(f).len() == 0);
    assert(start + hex_groups(s@.subrange(from as int, from as int)) == start);
    while i < to
        invariant
            from <= i <= to <= s@.len(),
            f == (|g: u16| in_base(g as nat, 16)),
            out@ == start + hex_groups(s@.subrange(from as int, i as int)),
        decreases to - i,
    {
        let ghost pre = s@.subrange(from as int, i as int).map_values(f);
        let ghost before = out@;
        if i > from {
            out.push(':');
        }
        let d = text::format_in_base(s[i] as u64, 16);
        text::push_chars(out, d.as_slice());
        proof {
            let cur = s@.subrange(from as int, i + 1).map_values(f);
            assert(cur == pre.push(d@));
            assert(cur.drop_last() == pre);
            if i > from {
                assert(join(cur, seq![':']) == join(pre, seq![':']) + seq![':'] + d@);
                assert(out@ == before + seq![':'] + d@);
                assert(out@ == start + join(cur, seq![':']));
            } else {
                assert(join(cur, seq![':']) == d@);
                assert(out@ == start + d@);
            }
        }
        i = i + 1;
    }
}

fn push_v6(out: &mut String, v: &Ipv6)
    ensures
        final(out)@ == old(out)@ + v6_text(*v),
{
    let ghost start = out@;
    match v.to_ipv4_mapped() {
        Some(m) => {
            proof {
                reveal_strlit("::ffff:");
                assert("::ffff:"@ =~= seq![':', ':', 'f', 'f', 'f', 'f', ':']);
            }
            out.append("::ffff:");
            push_v4(out, &m);
            assert(out@ == start + v6_text(*v));
        },
        None => {
            let s = v.to_segments();
            let mut best_start: usize = 0;
            let mut best_len: usize = 0;
            let mut i: usize = 0;
            while i < 8
                invariant
                    i <= 8,
                    s@.len() == 8,
                    (best_start as nat, best_len as nat) == longest_run(s@, i as nat),
                    best_start + best_len <= 8,
                decreases 8 - i,
            {
                let n = zero_run_at(&s, i);
                if n > best_len {
                    best_start = i;
                    best_len = n;
                }
                i = i + 1;
            }
            if best_len > 1 {
                push_hex_groups(out, &s, 0, best_start);
                out.push(':');
                out.push(':');
                push_hex_groups(out, &s, best_start + best_len, 8);
                assert(s@.subrange(0, best_start as int) == s@.take(best_start as int));
                assert(s@.subrange((best_start + best_len) as int, 8) == s@.skip((best_start + best_len) as int));
                assert(out@ == start + v6_text(*v));
            } else {
                push_hex_groups(out, &s, 0, 8);
                assert(s@.subrange(0, 8) == s@);
            }
        },
    }
}

/// The canonical text of an address.
pub fn format_ip(ip: &IpAddr) -> (r: String)
    ensures
        r@ == ip_text(*ip),
{
    let mut out = String::new();
    match ip {
        IpAddr::V4(v) => push_v4(&mut out, v),
        IpAddr::V6(v) => push_v6(&mut out, v),
    }
    assert(out@ == ip_text(*ip));
    out
}

/// A port: decimal digits, at most 65535.
pub open spec fn port_of_text(s: Seq<char>) -> Option<u16> {
    match number(s, 10) {
        Some(n) if n <= 0xffff => Some(n as u16),
        _ => None,
    }
}

/// A bracketed IPv6 address, with an optional numeric zone behind `%`.
pub open spec fn scoped_v6_of_text(s: Seq<char>) -> Option<(Ipv6, u32)> {
    let p = position(s, '%');
    match v6_of_text(s.take(p as int)) {
        Some(v) => if p < s.len() {
            match number(s.skip(p as int + 1), 10) {
                Some(n) if n <= 0xffff_ffff => Some((v, n as u32)),
                _ => None,
            }
        } else {
            Some((v, 0u32))
        },
        None => None,
    }
}

/// A socket address: `v4:port` or `[v6]:port`.
pub open spec fn socket_of_text(s: Seq<char>) -> Option<SocketAddr> {
    if s.len() > 0 && s[0] == '[' {
        let e = text_position(s, seq![']', ':']);
        if e <= s.len() {
            match (scoped_v6_of_text(s.subrange(1, e as int)), port_of_text(s.skip(e as int + 2))) {
                (Some(v), Some(port)) => Some(SocketAddr { ip: IpAddr::V6(v.0), port, scope: v.1 }),
                _ => None,
            }
        } else {
            None
        }
    } else {
        let p = position(s, ':');
        if p < s.len() {
            match (v4_of_text(s.take(p as int)), port_of_text(s.skip(p as int + 1))) {
                (Some(v), Some(port)) => Some(SocketAddr { ip: IpAddr::V4(v), port, scope: 0 }),
                _ => None,
            }
        } else {
            None
        }
    }
}

fn parse_port(s: &[char]) -> (r: Option<u16>)
    ensures
        r == port_of_text(s@),
{
    match text::parse_number(s, 10, 0xffff) {
        Some(v) => Some(v as u16),
        None => None,
    }
}

fn parse_scoped_v6(s: &[char]) -> (r: Option<(Ipv6, u32)>)
    ensures
        r == scoped_v6_of_text(s@),
{
    let p = text::find_char(s, '%');
    let addr = slice_subrange(s, 0, p);
    assert(addr@ == s@.take(p as int));
    match parse_v6(addr) {
        None => None,
        Some(v) => if p < s.len() {
            let zone = slice_subrange(s, p + 1, s.len());
            assert(zone@ == s@.skip(p as int + 1));
            match text::parse_number(zone, 10, 0xffff_ffff) {
                Some(n) => Some((v, n as u32)),
                None => None,
            }
        } else {
            Some((v, 0))
        },
    }
}

/// Parses a socket address.
pub fn parse_socket_addr(s: &str) -> (r: Option<SocketAddr>)
    ensures
        r == socket_of_text(s@),
{
    let cs = text::chars_of(s);
    let c = cs.as_slice();
    if c.len() > 0 && c[0] == '[' {
        proof {
            reveal_strlit("]:");
            assert("]:"@ =~= seq![']', ':']);
            text::lemma_text_position(c@, seq![']', ':']);
        }
        match text::find_text(c, "]:") {
            None => None,
            Some(e) => {
                let n: usize = c.len();
                assert(e > 0) by {
                    if e == 0 {
                        assert(c@.subrange(0, 2)[0] == c@[0]);
                        assert(seq![']', ':'][0] == ']');
                    }
                }
                assert(e + 2 <= n);
                let port = slice_subrange(c, e + 2, n);
                assert(port@ == c@.skip(e as int + 2));
                match parse_scoped_v6(slice_subrange(c, 1, e)) {
                    None => None,
                    Some(v) => match parse_port(port) {
                        None => None,
                        Some(port) => Some(SocketAddr { ip: IpAddr::V6(v.0), port, scope: v.1 }),
                    },
                }
            },
        }
    } else {
        let p = text::find_char(c, ':');
        if p < c.len() {
            let host = slice_subrange(c, 0, p);
            let port = slice_subrange(c, p + 1, c.len());
            assert(host@ == c@.take(p as int));
            assert(port@ == c@.skip(p as int + 1));
            match parse_v4(host) {
                None => None,
                Some(v) => match parse_port(port) {
                    None => None,
                    Some(port) => Some(SocketAddr { ip: IpAddr::V4(v), port, scope: 0 }),
                },
            }
        } else {
            None
        }
    }
}

/// The text of a socket address.
pub open spec fn socket_text(a: SocketAddr) -> Seq<char> {
    let port = seq![':'] + decimal(a.port as nat);
    match a.ip {
        IpAddr::V4(v) => v4_text(v) + port,
        IpAddr::V6(v) => if a.scope == 0 {
            seq!['['] + v6_text(v) + seq![']'] + port
        } else {
            seq!['['] + v6_text(v) + seq!['%'] + decimal(a.scope as nat) + seq![']'] + port
        },
    }
}

/// The text of a socket address.
pub fn format_socket_addr(a: &SocketAddr) -> (r: String)
    ensures
        r@ == socket_text(*a),
{
    let mut out = String::new();
    match &a.ip {
        IpAddr::V4(v) => {
            push_v4(&mut out, v);
        },
        IpAddr::V6(v) => {
            out.push('[');
            push_v6(&mut out, v);
            if a.scope != 0 {
                out.push('%');
                text::push_decimal(&mut out, a.scope as u64);
            }
            out.push(']');
        },
    }
    out.push(':');
    text::push_decimal(&mut out, a.port as u64);
    assert(out@ == socket_text(*a));
    out
}

}

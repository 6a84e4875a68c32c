//! The texts of addresses read back.
use vstd::prelude::*;

use crate::ip::{
    group, groups_of_text, hex_groups, ip_of_text, ip_text, longest_run, octet, part_groups, plain_groups, port_of_text,
    scoped_v6_of_text, socket_of_text, socket_text, v4_groups, v4_of_text, v4_text, v6_of_text, v6_text, zero_run, zeros,
    IpAddr, Ipv4, Ipv6, SocketAddr,
};
use crate::text::{
    all_digits, decimal, in_base, is_digit, join, joined_parts_split, lemma_position, lemma_position_is,
    lemma_text_position, number, numbers_read_back, occurs_at, position, split, text_position,
};

verus! {

/// A character of the text of an address.
pub open spec fn ip_char(c: char) -> bool {
    is_digit(c) || c == '.' || c == ':'
}

/// A text of such characters.
pub open spec fn ip_chars(s: Seq<char>) -> bool {
    forall|i: int| 0 <= i < s.len() ==> ip_char(#[trigger] s[i])
}

proof fn lemma_octet(n: u8)
    ensures
        octet(decimal(n as nat)) == Some(n),
        all_digits(decimal(n as nat)),
        decimal(n as nat).len() > 0,
{
    numbers_read_back(n as nat, 10);
    reveal_with_fuel(in_base, 4);
}

proof fn lemma_group(g: u16)
    ensures
        group(in_base(g as nat, 16)) == Some(g),
        all_digits(in_base(g as nat, 16)),
        in_base(g as nat, 16).len() > 0,
{
    numbers_read_back(g as nat, 16);
    reveal_with_fuel(in_base, 5);
}

/// Digits hold no separator.
proof fn lemma_digits_apart(s: Seq<char>)
    requires
        all_digits(s),
    ensures
        !s.contains('.'),
        !s.contains(':'),
{
    if s.contains('.') {
        let i = choose|i: int| 0 <= i < s.len() && s[i] == '.';
        assert(is_digit(s[i]));
    }
    if s.contains(':') {
        let i = choose|i: int| 0 <= i < s.len() && s[i] == ':';
        assert(is_digit(s[i]));
    }
}

proof fn lemma_v4_text(v: Ipv4)
    ensures
        v4_of_text(v4_text(v)) == Some(v),
        ip_chars(v4_text(v)),
        !v4_text(v).contains(':'),
        v4_text(v).len() > 0,
{
    let a = decimal(v.a as nat);
    let b = decimal(v.b as nat);
    let c = decimal(v.c as nat);
    let d = decimal(v.d as nat);
    lemma_octet(v.a);
    lemma_octet(v.b);
    lemma_octet(v.c);
    lemma_octet(v.d);
    let ds = seq![a, b, c, d];
    assert forall|i: int| 0 <= i < ds.len() implies !(#[trigger] ds[i]).contains('.') by {
        lemma_digits_apart(ds[i]);
    }
    joined_parts_split(ds, '.');
    let d1 = seq![a];
    let d2 = seq![a, b];
    let d3 = seq![a, b, c];
    assert(ds.drop_last() =~= d3 && d3.drop_last() =~= d2 && d2.drop_last() =~= d1);
    assert(join(d1, seq!['.']) == a);
    assert(join(d2, seq!['.']) == a + seq!['.'] + b);
    assert(join(d3, seq!['.']) == a + seq!['.'] + b + seq!['.'] + c);
    assert(join(ds, seq!['.']) == v4_text(v));
    lemma_v4_chars(v);
}

proof fn lemma_v4_chars(v: Ipv4)
    ensures
        ip_chars(v4_text(v)),
        !v4_text(v).contains(':'),
        v4_text(v).len() > 0,
{
    lemma_octet(v.a);
    lemma_octet(v.b);
    lemma_octet(v.c);
    lemma_octet(v.d);
    let s = v4_text(v);
    let a = decimal(v.a as nat);
    let b = decimal(v.b as nat);
    let c = decimal(v.c as nat);
    let d = decimal(v.d as nat);
    let p = seq!['.'];
    assert(forall|i: int| 0 <= i < (a + p).len() ==> dotted_char(#[trigger] (a + p)[i]));
    assert(forall|i: int| 0 <= i < (a + p + b).len() ==> dotted_char(#[trigger] (a + p + b)[i]));
    assert(forall|i: int| 0 <= i < (a + p + b + p).len() ==> dotted_char(#[trigger] (a + p + b + p)[i]));
    assert(forall|i: int| 0 <= i < (a + p + b + p + c).len() ==> dotted_char(#[trigger] (a + p + b + p + c)[i]));
    assert(forall|i: int| 0 <= i < (a + p + b + p + c + p).len() ==> dotted_char(#[trigger] (a + p + b + p + c + p)[i]));
    assert forall|i: int| 0 <= i < s.len() implies dotted_char(#[trigger] s[i]) by {
        assert(s == (a + p + b + p + c + p) + d);
    }
    if s.contains(':') {
        let i = choose|i: int| 0 <= i < s.len() && s[i] == ':';
        assert(dotted_char(s[i]));
    }
}

spec fn dotted_char(c: char) -> bool {
    is_digit(c) || c == '.'
}

/// The groups of segments, as texts.
pub open spec fn group_texts(s: Seq<u16>) -> Seq<Seq<char>> {
    s.map_values(|g: u16| in_base(g as nat, 16))
}

proof fn lemma_groups_read(s: Seq<u16>)
    ensures
        plain_groups(group_texts(s)) == Some(s),
    decreases s.len(),
{
    if s.len() > 0 {
        let t = group_texts(s);
        assert(t.drop_last() =~= group_texts(s.drop_last()));
        lemma_groups_read(s.drop_last());
        lemma_group(s.last());
        assert(t.last() == in_base(s.last() as nat, 16));
        assert(s.drop_last().push(s.last()) =~= s);
    } else {
        assert(s =~= Seq::<u16>::empty());
    }
}

/// Joined groups have digits at both ends, and colons one at a time between them.
proof fn lemma_hex_groups(s: Seq<u16>)
    ensures
        s.len() > 0 ==> split(hex_groups(s), ':') == group_texts(s),
        s.len() == 0 <==> hex_groups(s).len() == 0,
        s.len() > 0 ==> is_digit(hex_groups(s)[0]) && is_digit(hex_groups(s).last()),
        forall|i: int| 0 <= i < hex_groups(s).len() ==> colon_char(#[trigger] hex_groups(s)[i]),
        forall|i: int| 0 < i < hex_groups(s).len() && #[trigger] hex_groups(s)[i] == ':' ==> hex_groups(s)[i - 1] != ':',
    decreases s.len(),
{
    let t = group_texts(s);
    if s.len() > 0 {
        assert forall|i: int| 0 <= i < t.len() implies !(#[trigger] t[i]).contains(':') by {
            lemma_group(s[i]);
            lemma_digits_apart(t[i]);
        }
        joined_parts_split(t, ':');
        lemma_group(s.last());
        let last = in_base(s.last() as nat, 16);
        assert(t.last() == last);
        if s.len() == 1 {
            assert(hex_groups(s) == last);
        } else {
            assert(t.drop_last() =~= group_texts(s.drop_last()));
            lemma_hex_groups(s.drop_last());
            let h = hex_groups(s.drop_last());
            assert(hex_groups(s) == h + seq![':'] + last);
            let w = hex_groups(s);
            assert forall|i: int| 0 < i < w.len() && #[trigger] w[i] == ':' implies w[i - 1] != ':' by {
                if i < h.len() {
                    assert(h[i] == ':');
                } else if i > h.len() {
                    assert(w[i] == last[i - h.len() - 1]);
                }
            }
        }
    }
}

spec fn colon_char(c: char) -> bool {
    is_digit(c) || c == ':'
}

/// A text without dots is no IPv4 address.
proof fn lemma_no_v4(s: Seq<char>)
    requires
        forall|i: int| 0 <= i < s.len() ==> colon_char(#[trigger] s[i]),
    ensures
        v4_of_text(s) is None,
{
    lemma_position(s, '.');
    if s.contains('.') {
        let i = choose|i: int| 0 <= i < s.len() && s[i] == '.';
        assert(colon_char(s[i]));
    }
    assert(split(s, '.') =~= seq![s]);
}

/// Colons one at a time are no double colon.
proof fn lemma_no_double(s: Seq<char>)
    requires
        forall|i: int| 0 < i < s.len() && #[trigger] s[i] == ':' ==> s[i - 1] != ':',
    ensures
        text_position(s, seq![':', ':']) > s.len(),
{
    let p = seq![':', ':'];
    lemma_text_position(s, p);
    let q = text_position(s, p) as int;
    if q <= s.len() {
        assert(occurs_at(s, p, q));
        let w = s.subrange(q, q + 2);
        assert(w == p);
        assert(w[0] == s[q] && w[1] == s[q + 1]);
        assert(s[q + 1] == ':');
    }
}

proof fn lemma_zero_run(s: Seq<u16>, i: int)
    requires
        0 <= i <= s.len(),
    ensures
        i + zero_run(s, i) <= s.len(),
        forall|j: int| i <= j < i + zero_run(s, i) ==> #[trigger] s[j] == 0,
    decreases s.len() - i,
{
    if i < s.len() && s[i] == 0 {
        lemma_zero_run(s, i + 1);
    }
}

proof fn lemma_longest_run(s: Seq<u16>, n: nat)
    requires
        n <= s.len(),
    ensures
        longest_run(s, n).0 + longest_run(s, n).1 <= s.len(),
        forall|j: int|
            longest_run(s, n).0 <= j < longest_run(s, n).0 + longest_run(s, n).1 ==> #[trigger] s[j] == 0,
    decreases n,
{
    if n > 0 {
        lemma_longest_run(s, (n - 1) as nat);
        lemma_zero_run(s, n - 1);
    }
}

/// The groups of a part that was joined from segments.
proof fn lemma_part(s: Seq<u16>, v4_allowed: bool)
    ensures
        part_groups(hex_groups(s), v4_allowed) == Some(s),
{
    lemma_hex_groups(s);
    lemma_groups_read(s);
    if s.len() > 0 {
        let t = group_texts(s);
        let last = t.last();
        lemma_group(s.last());
        assert(last == in_base(s.last() as nat, 16));
        lemma_no_v4(last);
        assert(groups_of_text(hex_groups(s)) == Some(s));
    } else {
        assert(s =~= Seq::<u16>::empty());
    }
}

proof fn lemma_v6_plain(v: Ipv6)
    requires
        v.mapped() is None,
        longest_run(v.segments(), 8).1 <= 1,
    ensures
        v6_of_text(v6_text(v)) == Some(v),
        forall|i: int| 0 <= i < v6_text(v).len() ==> colon_char(#[trigger] v6_text(v)[i]),
        v6_text(v).len() > 0,
{
    let s = v.segments();
    lemma_hex_groups(s);
    lemma_part(s, true);
    lemma_no_double(hex_groups(s));
    assert(Ipv6::of(s) == v);
}

/// Where a double colon stands behind a text that has none and ends in a digit.
proof fn lemma_double_behind(a: Seq<char>, b: Seq<char>)
    requires
        a.len() > 0 ==> is_digit(a.last()),
        forall|i: int| 0 < i < a.len() && #[trigger] a[i] == ':' ==> a[i - 1] != ':',
    ensures
        text_position(a + seq![':', ':'] + b, seq![':', ':']) == a.len(),
        (a + seq![':', ':'] + b).take(a.len() as int) == a,
        (a + seq![':', ':'] + b).skip(a.len() as int + 2) == b,
{
    let p = seq![':', ':'];
    let w = a + p + b;
    lemma_text_position(w, p);
    assert(w.subrange(a.len() as int, a.len() as int + 2) =~= p);
    assert(occurs_at(w, p, a.len() as int));
    let q = text_position(w, p) as int;
    if q < a.len() {
        assert(occurs_at(w, p, q));
        let x = w.subrange(q, q + 2);
        assert(x == p);
        assert(x[0] == w[q] && x[1] == w[q + 1]);
        assert(w[q] == a[q]);
        if q + 1 < a.len() {
            assert(w[q + 1] == a[q + 1]);
            assert(a[q + 1] == ':');
        } else {
            assert(a[q] == a.last());
        }
    }
    assert(w.take(a.len() as int) =~= a);
    assert(w.skip(a.len() as int + 2) =~= b);
}

proof fn lemma_v6_shortened(v: Ipv6)
    requires
        v.mapped() is None,
        longest_run(v.segments(), 8).1 > 1,
    ensures
        v6_of_text(v6_text(v)) == Some(v),
        forall|i: int| 0 <= i < v6_text(v).len() ==> colon_char(#[trigger] v6_text(v)[i]),
        v6_text(v).len() > 0,
{
    let s = v.segments();
    let run = longest_run(s, 8);
    let h = s.take(run.0 as int);
    let t = s.skip((run.0 + run.1) as int);
    let a = hex_groups(h);
    let b = hex_groups(t);
    let w = v6_text(v);
    assert(w == a + seq![':', ':'] + b);
    assert(run.0 + run.1 <= 8) by {
        lemma_longest_run(s, 8);
    }
    assert(part_groups(a, false) == Some(h)) by {
        lemma_part(h, false);
    }
    assert(part_groups(b, true) == Some(t)) by {
        lemma_part(t, true);
    }
    assert(text_position(w, seq![':', ':']) == a.len() && w.take(a.len() as int) == a && w.skip(a.len() as int + 2) == b) by {
        lemma_hex_groups(h);
        lemma_double_behind(a, b);
    }
    assert(h + zeros((8 - h.len() - t.len()) as nat) + t == s) by {
        lemma_longest_run(s, 8);
        assert(h + zeros((8 - h.len() - t.len()) as nat) + t =~= s);
    }
    assert(Ipv6::of(s) == v);
    assert forall|i: int| 0 <= i < w.len() implies colon_char(#[trigger] w[i]) by {
        lemma_hex_groups(h);
        lemma_hex_groups(t);
        if i < a.len() {
            assert(w[i] == a[i]);
        } else if i >= a.len() + 2 {
            assert(w[i] == b[i - a.len() - 2]);
        }
    }
}

proof fn lemma_four_f()
    ensures
        group(seq!['f', 'f', 'f', 'f']) == Some(0xffffu16),
        plain_groups(seq![seq!['f', 'f', 'f', 'f']]) == Some(seq![0xffffu16]),
        !seq!['f', 'f', 'f', 'f'].contains(':'),
{
    let f = seq!['f', 'f', 'f', 'f'];
    let f1 = seq!['f'];
    let f2 = seq!['f', 'f'];
    let f3 = seq!['f', 'f', 'f'];
    assert(f.drop_last() =~= f3 && f3.drop_last() =~= f2 && f2.drop_last() =~= f1);
    assert(number(f1, 16) == Some(15nat));
    assert(number(f2, 16) == Some(255nat));
    assert(number(f3, 16) == Some(4095nat));
    assert(number(f, 16) == Some(65535nat));
    let one = seq![f];
    assert(one.drop_last() =~= Seq::<Seq<char>>::empty());
    assert(plain_groups(one.drop_last()) == Some(Seq::<u16>::empty()));
    assert(Seq::<u16>::empty().push(0xffffu16) =~= seq![0xffffu16]);
}

/// What follows the double colon of an IPv4-mapped address.
proof fn lemma_mapped_groups(m: Ipv4)
    ensures
        part_groups(seq!['f', 'f', 'f', 'f', ':'] + v4_text(m), true) == Some(seq![0xffffu16] + v4_groups(m)),
{
    let f = seq!['f', 'f', 'f', 'f'];
    let mt = v4_text(m);
    let rest = seq!['f', 'f', 'f', 'f', ':'] + mt;
    lemma_v4_text(m);
    lemma_four_f();
    let ds = seq![f, mt];
    assert forall|i: int| 0 <= i < ds.len() implies !(#[trigger] ds[i]).contains(':') by {
        assert(ds[i] == f || ds[i] == mt);
    }
    joined_parts_split(ds, ':');
    assert(ds.drop_last() =~= seq![f]);
    assert(join(seq![f], seq![':']) == f);
    assert(join(ds, seq![':']) =~= rest);
}

/// No part before a dot is short enough for an octet.
proof fn lemma_mapped_not_v4(m: Ipv4)
    ensures
        v4_of_text(seq![':', ':', 'f', 'f', 'f', 'f', ':'] + v4_text(m)) is None,
{
    let w = seq![':', ':', 'f', 'f', 'f', 'f', ':'] + v4_text(m);
    lemma_position(w, '.');
    let q = position(w, '.') as int;
    if q < 7 {
        assert(w[q] != '.');
    }
    if q < w.len() {
        assert(split(w, '.')[0] == w.take(q));
        assert(w.take(q).len() == q);
    }
}

proof fn lemma_v6_mapped(v: Ipv6)
    requires
        v.mapped() is Some,
    ensures
        v6_of_text(v6_text(v)) == Some(v),
        v4_of_text(v6_text(v)) is None,
        ip_chars(v6_text(v)),
        v6_text(v).len() > 0,
{
    let m = v.mapped()->0;
    let e = Seq::<char>::empty();
    let rest = seq!['f', 'f', 'f', 'f', ':'] + v4_text(m);
    let w = v6_text(v);
    lemma_mapped_groups(m);
    lemma_mapped_not_v4(m);
    assert(w =~= e + seq![':', ':'] + rest);
    lemma_double_behind(e, rest);
    let gs = seq![0xffffu16] + v4_groups(m);
    assert(gs.len() == 3);
    assert(Seq::<u16>::empty() + zeros(5) + gs =~= v.segments());
    assert(Ipv6::of(v.segments()) == v);
    assert(ip_chars(w)) by {
        lemma_v4_chars(m);
        let head = seq![':', ':', 'f', 'f', 'f', 'f', ':'];
        assert forall|i: int| 0 <= i < w.len() implies ip_char(#[trigger] w[i]) by {
            if i < 7 {
                assert(w[i] == head[i]);
            } else {
                assert(w[i] == v4_text(m)[i - 7]);
            }
        }
    }
}

/// The text of an address names the address.
pub proof fn addresses_read_back(ip: IpAddr)
    ensures
        ip_of_text(ip_text(ip)) == Some(ip),
        ip_chars(ip_text(ip)),
        ip_text(ip).len() > 0,
{
    match ip {
        IpAddr::V4(v) => {
            lemma_v4_text(v);
        },
        IpAddr::V6(v) => {
            if v.mapped() is Some {
                lemma_v6_mapped(v);
            } else {
                if longest_run(v.segments(), 8).1 > 1 {
                    lemma_v6_shortened(v);
                } else {
                    lemma_v6_plain(v);
                }
                lemma_no_v4(v6_text(v));
            }
        },
    }
}

proof fn lemma_port(port: u16)
    ensures
        port_of_text(decimal(port as nat)) == Some(port),
{
    numbers_read_back(port as nat, 10);
}

/// What stands between the brackets of a socket address.
spec fn bracketed(v: Ipv6, scope: u32) -> Seq<char> {
    if scope == 0 {
        v6_text(v)
    } else {
        v6_text(v) + seq!['%'] + decimal(scope as nat)
    }
}

proof fn lemma_bracketed(v: Ipv6, scope: u32)
    ensures
        scoped_v6_of_text(bracketed(v, scope)) == Some((v, scope)),
        forall|i: int| 0 <= i < bracketed(v, scope).len() ==> #[trigger] bracketed(v, scope)[i] != ']',
{
    addresses_read_back(IpAddr::V6(v));
    let t = v6_text(v);
    let s = bracketed(v, scope);
    assert(ip_text(IpAddr::V6(v)) == t);
    assert forall|i: int| 0 <= i < t.len() implies #[trigger] t[i] != '%' && t[i] != ']' by {
        assert(ip_char(t[i]));
    }
    if scope == 0 {
        lemma_position_is(s, '%', s.len() as int);
        assert(s.take(s.len() as int) =~= t);
    } else {
        let d = decimal(scope as nat);
        numbers_read_back(scope as nat, 10);
        assert forall|j: int| 0 <= j < t.len() implies #[trigger] s[j] != '%' by {
            assert(s[j] == t[j]);
        }
        lemma_position_is(s, '%', t.len() as int);
        assert(s.take(t.len() as int) =~= t);
        assert(s.skip(t.len() as int + 1) =~= d);
        assert forall|i: int| 0 <= i < s.len() implies #[trigger] s[i] != ']' by {
            if i < t.len() {
                assert(s[i] == t[i]);
            } else if i > t.len() {
                assert(s[i] == d[i - t.len() - 1]);
                assert(is_digit(d[i - t.len() - 1]));
            }
        }
    }
}

proof fn lemma_socket_v6(v: Ipv6, port: u16, scope: u32)
    ensures
        socket_of_text(socket_text(SocketAddr { ip: IpAddr::V6(v), port, scope })) == Some(
            SocketAddr { ip: IpAddr::V6(v), port, scope },
        ),
{
    let b = bracketed(v, scope);
    let d = decimal(port as nat);
    let p = seq![']', ':'];
    let s = socket_text(SocketAddr { ip: IpAddr::V6(v), port, scope });
    assert(s =~= seq!['['] + b + p + d);
    lemma_bracketed(v, scope);
    lemma_port(port);
    lemma_text_position(s, p);
    let e = b.len() as int + 1;
    assert(s.subrange(e, e + 2) =~= p);
    assert(occurs_at(s, p, e));
    let q = text_position(s, p) as int;
    if q < e {
        assert(occurs_at(s, p, q));
        assert(s.subrange(q, q + 2)[0] == s[q]);
        if q > 0 {
            assert(s[q] == b[q - 1]);
        }
    }
    assert(q == e);
    assert(s.subrange(1, e) =~= b);
    assert(s.skip(e + 2) =~= d);
}

/// The text of a socket address names the address. Only IPv6 addresses have a zone.
pub proof fn socket_addresses_read_back(a: SocketAddr)
    requires
        a.ip is V4 ==> a.scope == 0,
    ensures
        socket_of_text(socket_text(a)) == Some(a),
{
    match a.ip {
        IpAddr::V4(v) => {
            let t = v4_text(v);
            let d = decimal(a.port as nat);
            let s = socket_text(a);
            assert(s =~= t + seq![':'] + d);
            lemma_v4_text(v);
            lemma_port(a.port);
            assert(s[0] == t[0] && ip_char(t[0]));
            assert forall|j: int| 0 <= j < t.len() implies #[trigger] s[j] != ':' by {
                assert(s[j] == t[j]);
                assert(t.contains(t[j]));
            }
            lemma_position_is(s, ':', t.len() as int);
            assert(s.take(t.len() as int) =~= t);
            assert(s.skip(t.len() as int + 1) =~= d);
        },
        IpAddr::V6(v) => {
            lemma_socket_v6(v, a.port, a.scope);
        },
    }
}

/// IPv4 addresses are written as four decimal numbers with dots between them, and read
/// from nothing else: numbers up to 255, without zeros in front.
pub proof fn dotted_numbers_are_ipv4_addresses(v: Ipv4, s: Seq<char>)
    ensures
        ip_text(IpAddr::V4(v)) == join(
            seq![decimal(v.a as nat), decimal(v.b as nat), decimal(v.c as nat), decimal(v.d as nat)],
            seq!['.'],
        ),
        v4_of_text(s) matches Some(w) ==> split(s, '.').len() == 4 && number(split(s, '.')[0], 10) == Some(w.a as nat)
            && number(split(s, '.')[1], 10) == Some(w.b as nat) && number(split(s, '.')[2], 10) == Some(w.c as nat)
            && number(split(s, '.')[3], 10) == Some(w.d as nat) && forall|i: int|
            0 <= i < 4 ==> (#[trigger] split(s, '.')[i]).len() == 1 || split(s, '.')[i][0] != '0',
{
    let p = seq![decimal(v.a as nat), decimal(v.b as nat), decimal(v.c as nat), decimal(v.d as nat)];
    reveal_with_fuel(join, 5);
    assert(p.drop_last().drop_last().drop_last() =~= seq![decimal(v.a as nat)]);
    assert(p.drop_last().drop_last() =~= seq![decimal(v.a as nat), decimal(v.b as nat)]);
    assert(p.drop_last() =~= seq![decimal(v.a as nat), decimal(v.b as nat), decimal(v.c as nat)]);
}

proof fn lemma_run_is_longest(s: Seq<u16>, n: nat, i: int, l: int)
    requires
        0 <= i < n,
        i + l <= s.len(),
        forall|j: int| i <= j < i + l ==> #[trigger] s[j] == 0,
    ensures
        l <= longest_run(s, n).1,
    decreases n,
{
    if i < n - 1 {
        lemma_run_is_longest(s, (n - 1) as nat, i, l);
    } else {
        lemma_run_is_long(s, i, l);
    }
}

proof fn lemma_run_is_long(s: Seq<u16>, i: int, l: int)
    requires
        0 <= i,
        i + l <= s.len(),
        forall|j: int| i <= j < i + l ==> #[trigger] s[j] == 0,
    ensures
        l <= zero_run(s, i),
    decreases l,
{
    if l > 0 {
        assert(s[i] == 0);
        lemma_run_is_long(s, i + 1, l - 1);
    }
}

/// IPv6 addresses are written as groups of hexadecimal digits with colons between them, a
/// longest run of two zeros or more as a double colon; those that stand for an IPv4 address
/// end in its text.
pub proof fn hexadecimal_groups_are_ipv6_addresses(v: Ipv6)
    ensures
        ({
            let s = seq![v.s0, v.s1, v.s2, v.s3, v.s4, v.s5, v.s6, v.s7];
            let t = ip_text(IpAddr::V6(v));
            let low = v.s0 == 0 && v.s1 == 0 && v.s2 == 0 && v.s3 == 0 && v.s4 == 0;
            &&& low && v.s5 == 0xffff ==> t == seq![':', ':', 'f', 'f', 'f', 'f', ':'] + ip_text(
                IpAddr::V4(
                    Ipv4 {
                        a: (v.s6 / 256) as u8,
                        b: (v.s6 % 256) as u8,
                        c: (v.s7 / 256) as u8,
                        d: (v.s7 % 256) as u8,
                    },
                ),
            )
            &&& !(low && v.s5 == 0xffff) && (forall|i: int| 0 <= i < 7 ==> #[trigger] s[i] != 0 || s[i + 1] != 0) ==> t
                == join(group_texts(s), seq![':'])
            &&& !(low && v.s5 == 0xffff) && (exists|i: int| 0 <= i < 7 && #[trigger] s[i] == 0 && s[i + 1] == 0) ==> exists|
                k: int,
                l: int,
            |
                {
                    &&& 0 <= k && 2 <= l && k + l <= 8
                    &&& forall|j: int| k <= j < k + l ==> #[trigger] s[j] == 0
                    &&& t == join(group_texts(s.take(k)), seq![':']) + seq![':', ':'] + join(
                        #[trigger] group_texts(s.skip(k + l)),
                        seq![':'],
                    )
                }
        }),
{
    let s = v.segments();
    let run = longest_run(s, 8);
    lemma_longest_run(s, 8);
    if forall|i: int| 0 <= i < 7 ==> #[trigger] s[i] != 0 || s[i + 1] != 0 {
        if run.1 > 1 {
            assert(s[run.0 as int] == 0 && s[run.0 as int + 1] == 0);
        }
    }
    if exists|i: int| 0 <= i < 7 && #[trigger] s[i] == 0 && s[i + 1] == 0 {
        let i = choose|i: int| 0 <= i < 7 && #[trigger] s[i] == 0 && s[i + 1] == 0;
        assert forall|j: int| i <= j < i + 2 implies #[trigger] s[j] == 0 by {
            if j != i {
                assert(j == i + 1);
            }
        }
        lemma_run_is_longest(s, 8, i, 2);
        let k = run.0 as int;
        let l = run.1 as int;
        assert(group_texts(s.skip(k + l)) == group_texts(s.skip(k + l)));
    }
}

}

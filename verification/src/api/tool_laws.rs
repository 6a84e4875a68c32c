//! What the tools, the error codes and the ingress are about.
use vstd::prelude::*;
use vstd::string::*;
use vstd::utf8::encode_utf8;

use crate::api::cert::{fingerprint, name_text, v6_of_bytes, CertNameView};
use crate::api::error::{code_of, config_code, details_of, kind_of, status_of, update_code};
use crate::api::ingress::{first_host, line_host};
use crate::api::system::{active, active_ones, link_speed, speed_of, traffic, InterfaceSample};
use crate::api::tools::{
    answer_outcome, asked_name, lookup_outcome, one_token, question_outcome, referral, referral_line, rtype_number,
    trace_body, trace_values, NameLookup, ResolveParams,
};
use crate::clients::{hex2, ptr_domain};
use crate::dns::message::{QuestionErrorView, ShownMessage, ShownView};
use crate::error::{config_error, FeriteError, Result};
use crate::ip::{ip_of_text, ip_text, IpAddr, Ipv4};
use crate::text;
use crate::text::{after, before, contains_text, decimal, digit_char, lines, lower, trim, upper};

verus! {

/// How errors are told: a missing credential, a broken rule, something that is not there,
/// an update that does not fit, too many attempts; and all others as faults of the server.
pub proof fn errors_are_told_by_their_status(e: FeriteError, m: String, shown: Seq<char>)
    ensures
        status_of(FeriteError::Unauthorized) == 401 && kind_of(FeriteError::Unauthorized) == "unauthorized"@ && code_of(
            FeriteError::Unauthorized,
        ) == "unauthorized"@,
        status_of(FeriteError::Config(m)) == 400 && kind_of(FeriteError::Config(m)) == "config"@ && details_of(
            FeriteError::Config(m),
            shown,
        ) == m@ && code_of(FeriteError::Config(m)) == config_code(m@),
        status_of(FeriteError::NotFound(m)) == 404 && kind_of(FeriteError::NotFound(m)) == "not_found"@ && details_of(
            FeriteError::NotFound(m),
            shown,
        ) == m@ && code_of(FeriteError::NotFound(m)) == "not_found"@,
        status_of(FeriteError::Update(m)) == 409 && kind_of(FeriteError::Update(m)) == "update"@ && details_of(
            FeriteError::Update(m),
            shown,
        ) == m@ && code_of(FeriteError::Update(m)) == update_code(m@),
        status_of(FeriteError::RateLimited) == 429,
        e is Dns || e is Fst || e is Internal || e is Json ==> status_of(e) == 500,
        e is Dns || e is Fst || e is Internal || e is Json || e is RateLimited ==> kind_of(e) == "internal"@ && code_of(e)
            == "internal"@,
        !(e is Config || e is NotFound || e is Update) ==> details_of(e, shown) == shown,
        "web UI v"@.is_prefix_of(m@) && contains_text(m@, "requires server"@) ==> update_code(m@)
            == "web_update_incompatible"@,
        !("web UI v"@.is_prefix_of(m@) && contains_text(m@, "requires server"@)) ==> update_code(m@) == "update"@,
{
}

proof fn lemma_prefix(p: Seq<char>, m: Seq<char>, i: int)
    requires
        0 <= i < p.len(),
        p.is_prefix_of(m),
    ensures
        m.len() > i && m[i] == p[i],
{
    assert(p[i] == m.subrange(0, p.len() as int)[i]);
}

/// The server of a host line: its name in lower case, without the port behind it. An IPv6
/// address stands in brackets.
pub proof fn hosts_are_read_without_their_port(name: Seq<char>, value: Seq<char>, host: Seq<char>, rest: Seq<char>)
    requires
        lower(name) == "host"@,
        !name.contains(':'),
        host.len() > 0,
    ensures
        trim(value) == host && !host.contains(':') && host[0] != '[' ==> line_host(name + seq![':'] + value) == Some(
            lower(host),
        ),
        trim(value) == host + seq![':'] + rest && !host.contains(':') && host[0] != '[' ==> line_host(
            name + seq![':'] + value,
        ) == Some(lower(host)),
        trim(value) == seq!['['] + host + seq![']'] + rest && !host.contains(']') ==> line_host(name + seq![':'] + value)
            == Some(lower(host)),
{
    let l = name + seq![':'] + value;
    lemma_part(name, ':', value);
    assert(l[name.len() as int] == ':');
    if trim(value) == host && !host.contains(':') && host[0] != '[' {
        text::lemma_position(host, ':');
        assert(host.take(host.len() as int) =~= host);
    }
    if trim(value) == host + seq![':'] + rest && !host.contains(':') && host[0] != '[' {
        lemma_part(host, ':', rest);
        assert((host + seq![':'] + rest)[0] == host[0]);
    }
    if trim(value) == seq!['['] + host + seq![']'] + rest && !host.contains(']') {
        let t = seq!['['] + host + seq![']'] + rest;
        assert(t[0] == '[');
        assert(t.skip(1) =~= host + seq![']'] + rest);
        lemma_part(host, ']', rest);
    }
}

proof fn lemma_part(a: Seq<char>, c: char, b: Seq<char>)
    requires
        !a.contains(c),
    ensures
        before(a + seq![c] + b, c) == a,
        after(a + seq![c] + b, c) == Some(b),
{
    let s = a + seq![c] + b;
    assert forall|j: int| 0 <= j < a.len() implies #[trigger] s[j] != c by {
        assert(a[j] == s[j]);
        if a[j] == c {
            assert(a.contains(c));
        }
    }
    text::lemma_position_is(s, c, a.len() as int);
    assert(s.take(a.len() as int) =~= a);
    assert(s.skip(a.len() as int + 1) =~= b);
}

/// Of a request's head the first line that names a host counts; what follows the blank line
/// is not looked at.
pub proof fn the_first_host_of_the_head_counts(ls: Seq<Seq<char>>, i: int)
    requires
        0 <= i <= ls.len(),
        forall|j: int| 0 <= j < i ==> (#[trigger] ls[j]).len() > 0 && line_host(ls[j]) is None,
    ensures
        i < ls.len() && ls[i].len() > 0 && line_host(ls[i]) is Some ==> first_host(ls) == line_host(ls[i]),
        i == ls.len() || ls[i].len() == 0 ==> first_host(ls) is None,
    decreases ls.len(),
{
    if i > 0 {
        let t = ls.skip(1);
        assert(ls[0].len() > 0 && line_host(ls[0]) is None);
        assert forall|j: int| 0 <= j < i - 1 implies (#[trigger] t[j]).len() > 0 && line_host(t[j]) is None by {
            assert(t[j] == ls[j + 1]);
        }
        if i < ls.len() {
            assert(t[i - 1] == ls[i]);
        }
        the_first_host_of_the_head_counts(t, i - 1);
    }
}

/// The record types that can be asked for by name.
pub proof fn record_types_have_their_numbers()
    ensures
        rtype_number("A"@) == Some(1u16),
        rtype_number("NS"@) == Some(2u16),
        rtype_number("CNAME"@) == Some(5u16),
        rtype_number("SOA"@) == Some(6u16),
        rtype_number("PTR"@) == Some(12u16),
        rtype_number("MX"@) == Some(15u16),
        rtype_number("TXT"@) == Some(16u16),
        rtype_number("AAAA"@) == Some(28u16),
        rtype_number("SRV"@) == Some(33u16),
        rtype_number("CAA"@) == Some(257u16),
{
    reveal_strlit("A");
    reveal_strlit("NS");
    reveal_strlit("CNAME");
    reveal_strlit("SOA");
    reveal_strlit("PTR");
    reveal_strlit("MX");
    reveal_strlit("TXT");
    reveal_strlit("AAAA");
    reveal_strlit("SRV");
    reveal_strlit("CAA");
    assert("A"@.len() == 1 && "NS"@.len() == 2 && "CNAME"@.len() == 5 && "SOA"@.len() == 3 && "PTR"@.len() == 3);
    assert("MX"@.len() == 2 && "TXT"@.len() == 3 && "AAAA"@.len() == 4 && "SRV"@.len() == 3 && "CAA"@.len() == 3);
    assert("NS"@[0] == 'N' && "MX"@[0] == 'M' && "SOA"@[1] == 'O' && "SRV"@[1] == 'R');
    assert("SOA"@[0] == 'S' && "PTR"@[0] == 'P' && "TXT"@[0] == 'T' && "SRV"@[0] == 'S' && "CAA"@[0] == 'C');
}

/// A look-up is of a name that is not blank and not too long, without white space around
/// it, and of a known type in any case, of addresses where none is asked for.
pub proof fn lookups_name_what_they_ask(p: ResolveParams, r: Result<NameLookup>)
    requires
        lookup_outcome(p, r),
    ensures
        ({
            let name = trim(p.name@);
            let t = upper(if p.rtype is Some {
                p.rtype->0@
            } else {
                "A"@
            });
            let fits = name.len() > 0 && encode_utf8(name).len() <= 253;
            &&& r is Ok <==> fits && rtype_number(t) is Some
            &&& r is Ok ==> r->Ok_0.name@ == name && r->Ok_0.rtype@ == t && r->Ok_0.qtype == rtype_number(t)->0
            &&& !fits ==> r is Err && config_error(r->Err_0, "name is empty or too long"@)
            &&& fits && rtype_number(t) is None ==> r is Err && config_error(
                r->Err_0,
                "unsupported record type '"@ + t + "'"@,
            )
        }),
{
}

/// A pointer is asked for under the reverse name of its address; anything else under the
/// name that was given.
pub proof fn pointers_are_asked_for_in_reverse(name: Seq<char>, qtype: u16)
    ensures
        qtype == 12 ==> (ip_of_text(name) matches Some(a) ==> asked_name(name, qtype) == ptr_domain(a)),
        qtype == 12 ==> (ip_of_text(name) is None ==> asked_name(name, qtype) == name),
        qtype != 12 ==> asked_name(name, qtype) == name,
{
}

/// A registry refers to the server on the first line that starts with `refer:` or
/// `whois:`, in any case, and names one.
pub proof fn registries_refer_to_the_first_server(answer: Seq<char>, i: int)
    requires
        0 <= i <= lines(answer).len(),
        forall|j: int| 0 <= j < i ==> referral_line(#[trigger] lines(answer)[j]) is None,
    ensures
        i < lines(answer).len() ==> ({
            let l = lower(trim(lines(answer)[i]));
            &&& "refer:"@.is_prefix_of(l) && trim(l.skip(6)).len() > 0 ==> referral(answer) == Some(trim(l.skip(6)))
            &&& "whois:"@.is_prefix_of(l) && trim(l.skip(6)).len() > 0 ==> referral(answer) == Some(trim(l.skip(6)))
        }),
        i == lines(answer).len() ==> referral(answer) is None,
        forall|l: Seq<char>|
            !"refer:"@.is_prefix_of(lower(trim(l))) && !"whois:"@.is_prefix_of(lower(trim(l))) ==> #[trigger] referral_line(
                l,
            ) is None,
{
    reveal_strlit("refer:");
    reveal_strlit("whois:");
    let f = |l: Seq<char>| referral_line(l);
    assert forall|j: int| 0 <= j < i implies f(#[trigger] lines(answer)[j]) is None by {}
    if i < lines(answer).len() {
        let l = lower(trim(lines(answer)[i]));
        if "whois:"@.is_prefix_of(l) {
            lemma_prefix("whois:"@, l, 0);
            if "refer:"@.is_prefix_of(l) {
                lemma_prefix("refer:"@, l, 0);
            }
        }
        if f(lines(answer)[i]) is Some {
            text::lemma_first_found_at(lines(answer), i, f);
        }
    } else {
        text::lemma_none_found(lines(answer), f);
    }
}

/// Of the values under one name in a trace the last counts, without white space around it.
pub proof fn the_last_value_of_a_name_counts(ls: Seq<Seq<char>>, i: int)
    requires
        0 <= i < ls.len(),
        after(ls[i], '=') is Some,
        forall|j: int|
            i < j < ls.len() && after(#[trigger] ls[j], '=') is Some ==> trim(before(ls[j], '=')) != trim(
                before(ls[i], '='),
            ),
    ensures
        trace_values(ls).dom().contains(trim(before(ls[i], '='))),
        trace_values(ls)[trim(before(ls[i], '='))] == trim(after(ls[i], '=')->0),
    decreases ls.len(),
{
    if i < ls.len() - 1 {
        let t = ls.drop_last();
        assert(t[i] == ls[i]);
        assert forall|j: int| i < j < t.len() && after(#[trigger] t[j], '=') is Some implies trim(before(t[j], '=')) != trim(
            before(t[i], '='),
        ) by {
            assert(t[j] == ls[j]);
        }
        the_last_value_of_a_name_counts(t, i);
        assert(ls[ls.len() - 1] == ls.last());
    }
}

/// Traffic is that of all interfaces that are in use: not of the loopback, and not of those
/// that are down or absent.
pub proof fn traffic_is_of_interfaces_in_use(samples: Seq<InterfaceSample>, s: InterfaceSample)
    ensures
        active(s) <==> s.name@ != "lo"@ && s.name@ != "lo0"@ && trim(s.operstate@) != "down"@ && trim(s.operstate@)
            != "notpresent"@ && trim(s.operstate@) != "lowerlayerdown"@,
        !active(s) ==> active_ones(samples.push(s)) == active_ones(samples),
        active(s) ==> active_ones(samples.push(s)) == active_ones(samples).push(s),
        active(s) ==> traffic(active_ones(samples.push(s))).0 == traffic(active_ones(samples)).0 + s.received && traffic(
            active_ones(samples.push(s)),
        ).1 == traffic(active_ones(samples)).1 + s.transmitted,
{
    reveal(Seq::filter);
    assert(samples.push(s).drop_last() =~= samples);
    let a = active_ones(samples);
    assert(a.push(s).drop_last() =~= a);
}

/// The speed of a link is the first that an interface tells; no speed is zero.
pub proof fn link_speeds_are_told_by_interfaces(samples: Seq<InterfaceSample>, i: int, n: nat)
    requires
        0 <= i < samples.len(),
        0 < n <= i64::MAX,
        samples[i].speed is Some && trim(samples[i].speed->0@) == decimal(n),
        forall|j: int| 0 <= j < i ==> speed_of(#[trigger] samples[j]) is None,
    ensures
        link_speed(samples) == Some(n as u64),
        forall|s: InterfaceSample| s.speed is None ==> #[trigger] speed_of(s) is None,
{
    text::numbers_read_back(n, 10);
    let f = |s: InterfaceSample| speed_of(s);
    assert forall|j: int| 0 <= j < i implies f(#[trigger] samples[j]) is None by {}
    text::lemma_first_found_at(samples, i, f);
}

/// The names of a certificate are shown with what they are; addresses as addresses are
/// written.
pub proof fn certificate_names_are_shown(s: Seq<char>, b: Seq<u8>)
    ensures
        name_text(CertNameView::Dns(s)) == s,
        name_text(CertNameView::Email(s)) == "email:"@ + s,
        name_text(CertNameView::Uri(s)) == "uri:"@ + s,
        name_text(CertNameView::Other(s)) == s,
        b.len() == 4 ==> name_text(CertNameView::Ip(b)) == "IP:"@ + ip_text(
            IpAddr::V4(Ipv4 { a: b[0], b: b[1], c: b[2], d: b[3] }),
        ),
        b.len() == 16 ==> name_text(CertNameView::Ip(b)) == "IP:"@ + ip_text(IpAddr::V6(v6_of_bytes(b))),
        b.len() == 16 ==> v6_of_bytes(b).s0 == b[0] * 256 + b[1] && v6_of_bytes(b).s1 == b[2] * 256 + b[3]
            && v6_of_bytes(b).s2 == b[4] * 256 + b[5] && v6_of_bytes(b).s3 == b[6] * 256 + b[7] && v6_of_bytes(b).s4
            == b[8] * 256 + b[9] && v6_of_bytes(b).s5 == b[10] * 256 + b[11] && v6_of_bytes(b).s6 == b[12] * 256 + b[13]
            && v6_of_bytes(b).s7 == b[14] * 256 + b[15],
{
}

/// A fingerprint is written in pairs of hexadecimal digits with colons between them.
pub proof fn fingerprints_are_written_in_pairs(b: Seq<u8>, i: int)
    requires
        0 <= i < b.len(),
    ensures
        fingerprint(b).len() == 3 * b.len() - 1,
        fingerprint(b)[3 * i] == digit_char((b[i] / 16) as nat),
        fingerprint(b)[3 * i + 1] == digit_char((b[i] % 16) as nat),
        i < b.len() - 1 ==> fingerprint(b)[3 * i + 2] == ':',
    decreases b.len(),
{
    reveal_strlit(":");
    let m = b.map_values(|x: u8| hex2(x));
    lemma_joined_pairs(m, i);
    assert(":"@ =~= seq![':']);
}

proof fn lemma_joined_pairs(m: Seq<Seq<char>>, i: int)
    requires
        0 <= i < m.len(),
        forall|j: int| 0 <= j < m.len() ==> (#[trigger] m[j]).len() == 2,
    ensures
        text::join(m, seq![':']).len() == 3 * m.len() - 1,
        text::join(m, seq![':'])[3 * i] == m[i][0],
        text::join(m, seq![':'])[3 * i + 1] == m[i][1],
        i < m.len() - 1 ==> text::join(m, seq![':'])[3 * i + 2] == ':',
    decreases m.len(),
{
    let t = m.drop_last();
    assert(m[m.len() - 1] == m.last());
    if m.len() > 1 {
        assert(forall|j: int| 0 <= j < t.len() ==> #[trigger] t[j] == m[j]);
        lemma_joined_pairs(t, if i < t.len() {
            i
        } else {
            0
        });
        let j = text::join(t, seq![':']);
        assert(text::join(m, seq![':']) =~= j + seq![':'] + m.last());
    } else {
        assert(text::join(m, seq![':']) =~= m[0]);
    }
}

/// A question that cannot be made is refused for its name, with the reason; one that
/// cannot be written, or an answer that cannot be read, is a fault.
pub proof fn unusable_messages_are_told_apart(
    name: Seq<char>,
    made: core::result::Result<Seq<u8>, QuestionErrorView>,
    r: Result<Vec<u8>>,
    read: core::result::Result<ShownView, Seq<char>>,
    a: Result<ShownMessage>,
)
    requires
        question_outcome(name, made, r),
        answer_outcome(read, a),
    ensures
        made matches Ok(b) ==> r is Ok && r->Ok_0@ == b,
        made matches Err(QuestionErrorView::Name(m)) ==> r is Err && config_error(
            r->Err_0,
            "invalid name '"@ + name + "': "@ + m,
        ),
        made matches Err(QuestionErrorView::Encode(m)) ==> r is Err && r->Err_0 is Dns && r->Err_0->Dns_0@ == "encode query: "@
            + m,
        read matches Ok(m) ==> a is Ok && a->Ok_0@ == m,
        read matches Err(m) ==> a is Err && a->Err_0 is Dns && a->Err_0->Dns_0@ == "decode response: "@ + m,
{
}

/// One token holds neither white space nor control characters.
pub proof fn tokens_hold_no_blanks(s: Seq<char>, i: int)
    requires
        one_token(s),
        0 <= i < s.len(),
    ensures
        s[i] != ' ' && s[i] != '\t' && s[i] != '\n' && s[i] != '\r' && s[i] != '\u{0}' && s[i] != '\u{7f}',
{
    assert(!crate::text::is_ws(s[i]) && !crate::text::is_ctl(s[i]));
}

/// Printable texts without blanks are tokens.
pub proof fn printable_texts_are_tokens(s: Seq<char>)
    requires
        forall|i: int| 0 <= i < s.len() ==> '!' <= #[trigger] s[i] <= '~',
    ensures
        one_token(s),
{
}

/// The body of a response follows its first blank line, and ends at the next one.
pub proof fn bodies_follow_the_blank_line(head: Seq<char>, body: Seq<char>, rest: Seq<char>)
    requires
        !contains_text(head + "\r\n\r"@, "\r\n\r\n"@),
        !contains_text(body + "\r\n\r"@, "\r\n\r\n"@),
    ensures
        trace_body(head + "\r\n\r\n"@ + body) == body,
        trace_body(head + "\r\n\r\n"@ + body + "\r\n\r\n"@ + rest) == body,
        trace_body(head) == head,
{
    reveal_strlit("\r\n\r\n");
    reveal_strlit("\r\n\r");
    let sep = "\r\n\r\n"@;
    lemma_first_blank(head, body);
    lemma_first_blank(head, body + sep + rest);
    lemma_first_blank(body, rest);
    assert(head + sep + body + sep + rest =~= head + sep + (body + sep + rest));
    assert(body + sep + rest =~= body + sep + rest);
    lemma_without(head);
    lemma_without(body);
}

proof fn lemma_without(a: Seq<char>)
    requires
        !contains_text(a + "\r\n\r"@, "\r\n\r\n"@),
    ensures
        !contains_text(a, "\r\n\r\n"@),
{
    let sep = "\r\n\r\n"@;
    let t = a + "\r\n\r"@;
    if contains_text(a, sep) {
        let i = choose|i: int| #[trigger] text::occurs_at(a, sep, i);
        assert(t.subrange(i, i + sep.len()) =~= a.subrange(i, i + sep.len()));
        assert(text::occurs_at(t, sep, i));
    }
}

proof fn lemma_first_blank(a: Seq<char>, b: Seq<char>)
    requires
        !contains_text(a + "\r\n\r"@, "\r\n\r\n"@),
    ensures
        contains_text(a + "\r\n\r\n"@ + b, "\r\n\r\n"@),
        text::text_position(a + "\r\n\r\n"@ + b, "\r\n\r\n"@) == a.len(),
        (a + "\r\n\r\n"@ + b).skip(a.len() as int + 4) == b,
        (a + "\r\n\r\n"@ + b).take(a.len() as int) == a,
{
    reveal_strlit("\r\n\r\n");
    reveal_strlit("\r\n\r");
    let sep = "\r\n\r\n"@;
    let s = a + sep + b;
    let t = a + "\r\n\r"@;
    assert(s.subrange(a.len() as int, a.len() as int + 4) =~= sep);
    assert(text::occurs_at(s, sep, a.len() as int));
    text::lemma_text_position(s, sep);
    let p = text::text_position(s, sep) as int;
    if p < a.len() {
        assert(text::occurs_at(s, sep, p));
        assert(t.subrange(p, p + 4) =~= s.subrange(p, p + 4));
        assert(text::occurs_at(t, sep, p));
    }
    assert(s.skip(a.len() as int + 4) =~= b);
    assert(s.take(a.len() as int) =~= a);
}

proof fn lemma_apart(p: Seq<char>, q: Seq<char>, m: Seq<char>, i: int)
    requires
        0 <= i < p.len(),
        i < q.len(),
        p[i] != q[i],
        p.is_prefix_of(m),
    ensures
        !q.is_prefix_of(m),
        m != q,
{
    lemma_prefix(p, m, i);
    if q.is_prefix_of(m) {
        lemma_prefix(q, m, i);
    }
}

proof fn lemma_code_password_empty(m: Seq<char>)
    ensures
        m == "password cannot be empty; use null to disable password auth"@ ==> config_code(m) == "password_empty"@,
{
    let p = "password cannot be empty; use null to disable password auth"@;
    if m == p {
        assert(p =~= m.subrange(0, p.len() as int));
    }
}

proof fn lemma_code_password_hash_failed(m: Seq<char>)
    ensures
        "password hash failed:"@.is_prefix_of(m) ==> config_code(m) == "password_hash_failed"@,
{
    let p = "password hash failed:"@;
    if p.is_prefix_of(m) {
        reveal_strlit("password hash failed:");
        reveal_strlit("password cannot be empty; use null to disable password auth");
        lemma_apart(p, "password cannot be empty; use null to disable password auth"@, m, 9);
    }
}

proof fn lemma_code_api_key_empty(m: Seq<char>)
    ensures
        m == "api_key cannot be empty; use null to disable key auth"@ ==> config_code(m) == "api_key_empty"@,
{
    let p = "api_key cannot be empty; use null to disable key auth"@;
    if m == p {
        reveal_strlit("api_key cannot be empty; use null to disable key auth");
        assert(p =~= m.subrange(0, p.len() as int));
        reveal_strlit("password cannot be empty; use null to disable password auth");
        lemma_apart(p, "password cannot be empty; use null to disable password auth"@, m, 0);
        reveal_strlit("password hash failed:");
        lemma_apart(p, "password hash failed:"@, m, 0);
    }
}

proof fn lemma_code_dns_min_ttl_range(m: Seq<char>)
    ensures
        "dns_min_ttl must be between"@.is_prefix_of(m) ==> config_code(m) == "dns_min_ttl_range"@,
{
    let p = "dns_min_ttl must be between"@;
    if p.is_prefix_of(m) {
        reveal_strlit("dns_min_ttl must be between");
        reveal_strlit("password cannot be empty; use null to disable password auth");
        lemma_apart(p, "password cannot be empty; use null to disable password auth"@, m, 0);
        reveal_strlit("password hash failed:");
        lemma_apart(p, "password hash failed:"@, m, 0);
        reveal_strlit("api_key cannot be empty; use null to disable key auth");
        lemma_apart(p, "api_key cannot be empty; use null to disable key auth"@, m, 0);
    }
}

proof fn lemma_code_dns_max_ttl_range(m: Seq<char>)
    ensures
        "dns_max_ttl must be between"@.is_prefix_of(m) ==> config_code(m) == "dns_max_ttl_range"@,
{
    let p = "dns_max_ttl must be between"@;
    if p.is_prefix_of(m) {
        reveal_strlit("dns_max_ttl must be between");
        reveal_strlit("password cannot be empty; use null to disable password auth");
        lemma_apart(p, "password cannot be empty; use null to disable password auth"@, m, 0);
        reveal_strlit("password hash failed:");
        lemma_apart(p, "password hash failed:"@, m, 0);
        reveal_strlit("api_key cannot be empty; use null to disable key auth");
        lemma_apart(p, "api_key cannot be empty; use null to disable key auth"@, m, 0);
        reveal_strlit("dns_min_ttl must be between");
        lemma_apart(p, "dns_min_ttl must be between"@, m, 5);
    }
}

proof fn lemma_code_dns_ttl_order(m: Seq<char>)
    ensures
        "dns_min_ttl ("@.is_prefix_of(m) ==> config_code(m) == "dns_ttl_order"@,
{
    let p = "dns_min_ttl ("@;
    if p.is_prefix_of(m) {
        reveal_strlit("dns_min_ttl (");
        reveal_strlit("password cannot be empty; use null to disable password auth");
        lemma_apart(p, "password cannot be empty; use null to disable password auth"@, m, 0);
        reveal_strlit("password hash failed:");
        lemma_apart(p, "password hash failed:"@, m, 0);
        reveal_strlit("api_key cannot be empty; use null to disable key auth");
        lemma_apart(p, "api_key cannot be empty; use null to disable key auth"@, m, 0);
        reveal_strlit("dns_min_ttl must be between");
        lemma_apart(p, "dns_min_ttl must be between"@, m, 12);
        reveal_strlit("dns_max_ttl must be between");
        lemma_apart(p, "dns_max_ttl must be between"@, m, 5);
    }
}

proof fn lemma_code_invalid_dns_bind_addr(m: Seq<char>)
    ensures
        "invalid dns_bind_addr:"@.is_prefix_of(m) ==> config_code(m) == "invalid_dns_bind_addr"@,
{
    let p = "invalid dns_bind_addr:"@;
    if p.is_prefix_of(m) {
        reveal_strlit("invalid dns_bind_addr:");
        reveal_strlit("password cannot be empty; use null to disable password auth");
        lemma_apart(p, "password cannot be empty; use null to disable password auth"@, m, 0);
        reveal_strlit("password hash failed:");
        lemma_apart(p, "password hash failed:"@, m, 0);
        reveal_strlit("api_key cannot be empty; use null to disable key auth");
        lemma_apart(p, "api_key cannot be empty; use null to disable key auth"@, m, 0);
        reveal_strlit("dns_min_ttl must be between");
        lemma_apart(p, "dns_min_ttl must be between"@, m, 0);
        reveal_strlit("dns_max_ttl must be between");
        lemma_apart(p, "dns_max_ttl must be between"@, m, 0);
        reveal_strlit("dns_min_ttl (");
        lemma_apart(p, "dns_min_ttl ("@, m, 0);
    }
}

proof fn lemma_code_blocklist_cache_size(m: Seq<char>)
    ensures
        m == "blocklist_decision_cache_size must be greater than 0"@ ==> config_code(m) == "blocklist_cache_size"@,
{
    let p = "blocklist_decision_cache_size must be greater than 0"@;
    if m == p {
        reveal_strlit("blocklist_decision_cache_size must be greater than 0");
        assert(p =~= m.subrange(0, p.len() as int));
        reveal_strlit("password cannot be empty; use null to disable password auth");
        lemma_apart(p, "password cannot be empty; use null to disable password auth"@, m, 0);
        reveal_strlit("password hash failed:");
        lemma_apart(p, "password hash failed:"@, m, 0);
        reveal_strlit("api_key cannot be empty; use null to disable key auth");
        lemma_apart(p, "api_key cannot be empty; use null to disable key auth"@, m, 0);
        reveal_strlit("dns_min_ttl must be between");
        lemma_apart(p, "dns_min_ttl must be between"@, m, 0);
        reveal_strlit("dns_max_ttl must be between");
        lemma_apart(p, "dns_max_ttl must be between"@, m, 0);
        reveal_strlit("dns_min_ttl (");
        lemma_apart(p, "dns_min_ttl ("@, m, 0);
        reveal_strlit("invalid dns_bind_addr:");
        lemma_apart(p, "invalid dns_bind_addr:"@, m, 0);
    }
}

proof fn lemma_code_invalid_api_bind_addr(m: Seq<char>)
    ensures
        "invalid api_bind_addr:"@.is_prefix_of(m) ==> config_code(m) == "invalid_api_bind_addr"@,
{
    let p = "invalid api_bind_addr:"@;
    if p.is_prefix_of(m) {
        reveal_strlit("invalid api_bind_addr:");
        reveal_strlit("password cannot be empty; use null to disable password auth");
        lemma_apart(p, "password cannot be empty; use null to disable password auth"@, m, 0);
        reveal_strlit("password hash failed:");
        lemma_apart(p, "password hash failed:"@, m, 0);
        reveal_strlit("api_key cannot be empty; use null to disable key auth");
        lemma_apart(p, "api_key cannot be empty; use null to disable key auth"@, m, 0);
        reveal_strlit("dns_min_ttl must be between");
        lemma_apart(p, "dns_min_ttl must be between"@, m, 0);
        reveal_strlit("dns_max_ttl must be between");
        lemma_apart(p, "dns_max_ttl must be between"@, m, 0);
        reveal_strlit("dns_min_ttl (");
        lemma_apart(p, "dns_min_ttl ("@, m, 0);
        reveal_strlit("invalid dns_bind_addr:");
        lemma_apart(p, "invalid dns_bind_addr:"@, m, 8);
        reveal_strlit("blocklist_decision_cache_size must be greater than 0");
        lemma_apart(p, "blocklist_decision_cache_size must be greater than 0"@, m, 0);
    }
}

proof fn lemma_code_upstream_empty(m: Seq<char>)
    ensures
        m == "upstream list cannot be empty"@ ==> config_code(m) == "upstream_empty"@,
{
    let p = "upstream list cannot be empty"@;
    if m == p {
        reveal_strlit("upstream list cannot be empty");
        assert(p =~= m.subrange(0, p.len() as int));
        reveal_strlit("password cannot be empty; use null to disable password auth");
        lemma_apart(p, "password cannot be empty; use null to disable password auth"@, m, 0);
        reveal_strlit("password hash failed:");
        lemma_apart(p, "password hash failed:"@, m, 0);
        reveal_strlit("api_key cannot be empty; use null to disable key auth");
        lemma_apart(p, "api_key cannot be empty; use null to disable key auth"@, m, 0);
        reveal_strlit("dns_min_ttl must be between");
        lemma_apart(p, "dns_min_ttl must be between"@, m, 0);
        reveal_strlit("dns_max_ttl must be between");
        lemma_apart(p, "dns_max_ttl must be between"@, m, 0);
        reveal_strlit("dns_min_ttl (");
        lemma_apart(p, "dns_min_ttl ("@, m, 0);
        reveal_strlit("invalid dns_bind_addr:");
        lemma_apart(p, "invalid dns_bind_addr:"@, m, 0);
        reveal_strlit("blocklist_decision_cache_size must be greater than 0");
        lemma_apart(p, "blocklist_decision_cache_size must be greater than 0"@, m, 0);
        reveal_strlit("invalid api_bind_addr:");
        lemma_apart(p, "invalid api_bind_addr:"@, m, 0);
    }
}

proof fn lemma_code_invalid_client_bypass(m: Seq<char>)
    ensures
        "invalid blocklist_client_bypass entry:"@.is_prefix_of(m) ==> config_code(m) == "invalid_client_bypass"@,
{
    let p = "invalid blocklist_client_bypass entry:"@;
    if p.is_prefix_of(m) {
        reveal_strlit("invalid blocklist_client_bypass entry:");
        reveal_strlit("password cannot be empty; use null to disable password auth");
        lemma_apart(p, "password cannot be empty; use null to disable password auth"@, m, 0);
        reveal_strlit("password hash failed:");
        lemma_apart(p, "password hash failed:"@, m, 0);
        reveal_strlit("api_key cannot be empty; use null to disable key auth");
        lemma_apart(p, "api_key cannot be empty; use null to disable key auth"@, m, 0);
        reveal_strlit("dns_min_ttl must be between");
        lemma_apart(p, "dns_min_ttl must be between"@, m, 0);
        reveal_strlit("dns_max_ttl must be between");
        lemma_apart(p, "dns_max_ttl must be between"@, m, 0);
        reveal_strlit("dns_min_ttl (");
        lemma_apart(p, "dns_min_ttl ("@, m, 0);
        reveal_strlit("invalid dns_bind_addr:");
        lemma_apart(p, "invalid dns_bind_addr:"@, m, 8);
        reveal_strlit("blocklist_decision_cache_size must be greater than 0");
        lemma_apart(p, "blocklist_decision_cache_size must be greater than 0"@, m, 0);
        reveal_strlit("invalid api_bind_addr:");
        lemma_apart(p, "invalid api_bind_addr:"@, m, 8);
        reveal_strlit("upstream list cannot be empty");
        lemma_apart(p, "upstream list cannot be empty"@, m, 0);
    }
}

proof fn lemma_code_client_name_empty(m: Seq<char>)
    ensures
        m == "name must not be empty"@ ==> config_code(m) == "client_name_empty"@,
{
    let p = "name must not be empty"@;
    if m == p {
        reveal_strlit("name must not be empty");
        assert(p =~= m.subrange(0, p.len() as int));
        reveal_strlit("password cannot be empty; use null to disable password auth");
        lemma_apart(p, "password cannot be empty; use null to disable password auth"@, m, 0);
        reveal_strlit("password hash failed:");
        lemma_apart(p, "password hash failed:"@, m, 0);
        reveal_strlit("api_key cannot be empty; use null to disable key auth");
        lemma_apart(p, "api_key cannot be empty; use null to disable key auth"@, m, 0);
        reveal_strlit("dns_min_ttl must be between");
        lemma_apart(p, "dns_min_ttl must be between"@, m, 0);
        reveal_strlit("dns_max_ttl must be between");
        lemma_apart(p, "dns_max_ttl must be between"@, m, 0);
        reveal_strlit("dns_min_ttl (");
        lemma_apart(p, "dns_min_ttl ("@, m, 0);
        reveal_strlit("invalid dns_bind_addr:");
        lemma_apart(p, "invalid dns_bind_addr:"@, m, 0);
        reveal_strlit("blocklist_decision_cache_size must be greater than 0");
        lemma_apart(p, "blocklist_decision_cache_size must be greater than 0"@, m, 0);
        reveal_strlit("invalid api_bind_addr:");
        lemma_apart(p, "invalid api_bind_addr:"@, m, 0);
        reveal_strlit("upstream list cannot be empty");
        lemma_apart(p, "upstream list cannot be empty"@, m, 0);
        reveal_strlit("invalid blocklist_client_bypass entry:");
        lemma_apart(p, "invalid blocklist_client_bypass entry:"@, m, 0);
    }
}

proof fn lemma_code_invalid_ip(m: Seq<char>)
    ensures
        "invalid IP:"@.is_prefix_of(m) ==> config_code(m) == "invalid_ip"@,
{
    let p = "invalid IP:"@;
    if p.is_prefix_of(m) {
        reveal_strlit("invalid IP:");
        reveal_strlit("password cannot be empty; use null to disable password auth");
        lemma_apart(p, "password cannot be empty; use null to disable password auth"@, m, 0);
        reveal_strlit("password hash failed:");
        lemma_apart(p, "password hash failed:"@, m, 0);
        reveal_strlit("api_key cannot be empty; use null to disable key auth");
        lemma_apart(p, "api_key cannot be empty; use null to disable key auth"@, m, 0);
        reveal_strlit("dns_min_ttl must be between");
        lemma_apart(p, "dns_min_ttl must be between"@, m, 0);
        reveal_strlit("dns_max_ttl must be between");
        lemma_apart(p, "dns_max_ttl must be between"@, m, 0);
        reveal_strlit("dns_min_ttl (");
        lemma_apart(p, "dns_min_ttl ("@, m, 0);
        reveal_strlit("invalid dns_bind_addr:");
        lemma_apart(p, "invalid dns_bind_addr:"@, m, 8);
        reveal_strlit("blocklist_decision_cache_size must be greater than 0");
        lemma_apart(p, "blocklist_decision_cache_size must be greater than 0"@, m, 0);
        reveal_strlit("invalid api_bind_addr:");
        lemma_apart(p, "invalid api_bind_addr:"@, m, 8);
        reveal_strlit("upstream list cannot be empty");
        lemma_apart(p, "upstream list cannot be empty"@, m, 0);
        reveal_strlit("invalid blocklist_client_bypass entry:");
        lemma_apart(p, "invalid blocklist_client_bypass entry:"@, m, 8);
        reveal_strlit("name must not be empty");
        lemma_apart(p, "name must not be empty"@, m, 0);
    }
}

proof fn lemma_code_invalid_mac(m: Seq<char>)
    ensures
        "invalid MAC:"@.is_prefix_of(m) ==> config_code(m) == "invalid_mac"@,
{
    let p = "invalid MAC:"@;
    if p.is_prefix_of(m) {
        reveal_strlit("invalid MAC:");
        reveal_strlit("password cannot be empty; use null to disable password auth");
        lemma_apart(p, "password cannot be empty; use null to disable password auth"@, m, 0);
        reveal_strlit("password hash failed:");
        lemma_apart(p, "password hash failed:"@, m, 0);
        reveal_strlit("api_key cannot be empty; use null to disable key auth");
        lemma_apart(p, "api_key cannot be empty; use null to disable key auth"@, m, 0);
        reveal_strlit("dns_min_ttl must be between");
        lemma_apart(p, "dns_min_ttl must be between"@, m, 0);
        reveal_strlit("dns_max_ttl must be between");
        lemma_apart(p, "dns_max_ttl must be between"@, m, 0);
        reveal_strlit("dns_min_ttl (");
        lemma_apart(p, "dns_min_ttl ("@, m, 0);
        reveal_strlit("invalid dns_bind_addr:");
        lemma_apart(p, "invalid dns_bind_addr:"@, m, 8);
        reveal_strlit("blocklist_decision_cache_size must be greater than 0");
        lemma_apart(p, "blocklist_decision_cache_size must be greater than 0"@, m, 0);
        reveal_strlit("invalid api_bind_addr:");
        lemma_apart(p, "invalid api_bind_addr:"@, m, 8);
        reveal_strlit("upstream list cannot be empty");
        lemma_apart(p, "upstream list cannot be empty"@, m, 0);
        reveal_strlit("invalid blocklist_client_bypass entry:");
        lemma_apart(p, "invalid blocklist_client_bypass entry:"@, m, 8);
        reveal_strlit("name must not be empty");
        lemma_apart(p, "name must not be empty"@, m, 0);
        reveal_strlit("invalid IP:");
        lemma_apart(p, "invalid IP:"@, m, 8);
    }
}

proof fn lemma_code_client_identity_required(m: Seq<char>)
    ensures
        m == "provide exactly one of 'ip' or 'mac'"@ ==> config_code(m) == "client_identity_required"@,
{
    let p = "provide exactly one of 'ip' or 'mac'"@;
    if m == p {
        reveal_strlit("provide exactly one of 'ip' or 'mac'");
        assert(p =~= m.subrange(0, p.len() as int));
        reveal_strlit("password cannot be empty; use null to disable password auth");
        lemma_apart(p, "password cannot be empty; use null to disable password auth"@, m, 1);
        reveal_strlit("password hash failed:");
        lemma_apart(p, "password hash failed:"@, m, 1);
        reveal_strlit("api_key cannot be empty; use null to disable key auth");
        lemma_apart(p, "api_key cannot be empty; use null to disable key auth"@, m, 0);
        reveal_strlit("dns_min_ttl must be between");
        lemma_apart(p, "dns_min_ttl must be between"@, m, 0);
        reveal_strlit("dns_max_ttl must be between");
        lemma_apart(p, "dns_max_ttl must be between"@, m, 0);
        reveal_strlit("dns_min_ttl (");
        lemma_apart(p, "dns_min_ttl ("@, m, 0);
        reveal_strlit("invalid dns_bind_addr:");
        lemma_apart(p, "invalid dns_bind_addr:"@, m, 0);
        reveal_strlit("blocklist_decision_cache_size must be greater than 0");
        lemma_apart(p, "blocklist_decision_cache_size must be greater than 0"@, m, 0);
        reveal_strlit("invalid api_bind_addr:");
        lemma_apart(p, "invalid api_bind_addr:"@, m, 0);
        reveal_strlit("upstream list cannot be empty");
        lemma_apart(p, "upstream list cannot be empty"@, m, 0);
        reveal_strlit("invalid blocklist_client_bypass entry:");
        lemma_apart(p, "invalid blocklist_client_bypass entry:"@, m, 0);
        reveal_strlit("name must not be empty");
        lemma_apart(p, "name must not be empty"@, m, 0);
        reveal_strlit("invalid IP:");
        lemma_apart(p, "invalid IP:"@, m, 0);
        reveal_strlit("invalid MAC:");
        lemma_apart(p, "invalid MAC:"@, m, 0);
    }
}

/// Every message about a broken rule has the code of its rule: by the whole message, or,
/// where a message goes on with a reason, by how it starts.
pub proof fn messages_have_the_code_of_their_rule(m: Seq<char>)
    ensures
        m == "password cannot be empty; use null to disable password auth"@ ==> config_code(m) == "password_empty"@,
        "password hash failed:"@.is_prefix_of(m) ==> config_code(m) == "password_hash_failed"@,
        m == "api_key cannot be empty; use null to disable key auth"@ ==> config_code(m) == "api_key_empty"@,
        "dns_min_ttl must be between"@.is_prefix_of(m) ==> config_code(m) == "dns_min_ttl_range"@,
        "dns_max_ttl must be between"@.is_prefix_of(m) ==> config_code(m) == "dns_max_ttl_range"@,
        "dns_min_ttl ("@.is_prefix_of(m) ==> config_code(m) == "dns_ttl_order"@,
        "invalid dns_bind_addr:"@.is_prefix_of(m) ==> config_code(m) == "invalid_dns_bind_addr"@,
        m == "blocklist_decision_cache_size must be greater than 0"@ ==> config_code(m) == "blocklist_cache_size"@,
        "invalid api_bind_addr:"@.is_prefix_of(m) ==> config_code(m) == "invalid_api_bind_addr"@,
        m == "upstream list cannot be empty"@ ==> config_code(m) == "upstream_empty"@,
        "invalid blocklist_client_bypass entry:"@.is_prefix_of(m) ==> config_code(m) == "invalid_client_bypass"@,
        m == "name must not be empty"@ ==> config_code(m) == "client_name_empty"@,
        "invalid IP:"@.is_prefix_of(m) ==> config_code(m) == "invalid_ip"@,
        "invalid MAC:"@.is_prefix_of(m) ==> config_code(m) == "invalid_mac"@,
        m == "provide exactly one of 'ip' or 'mac'"@ ==> config_code(m) == "client_identity_required"@,
{
    lemma_code_password_empty(m);
    lemma_code_password_hash_failed(m);
    lemma_code_api_key_empty(m);
    lemma_code_dns_min_ttl_range(m);
    lemma_code_dns_max_ttl_range(m);
    lemma_code_dns_ttl_order(m);
    lemma_code_invalid_dns_bind_addr(m);
    lemma_code_blocklist_cache_size(m);
    lemma_code_invalid_api_bind_addr(m);
    lemma_code_upstream_empty(m);
    lemma_code_invalid_client_bypass(m);
    lemma_code_client_name_empty(m);
    lemma_code_invalid_ip(m);
    lemma_code_invalid_mac(m);
    lemma_code_client_identity_required(m);
}

/// How much is read at most, and what is asked for, where nothing else says so.
pub proof fn tools_read_this_much()
    ensures
        crate::api::ingress::PEEK_CAP == 16 * 1024,
        crate::api::tools::DNSSEC_PAYLOAD == 1232,
        crate::api::tools::WHOIS_PORT == 43,
        crate::api::tools::WHOIS_MAX == 256 * 1024,
        crate::api::tools::TRACE_MAX == 64 * 1024,
        crate::api::system::SYSTEM_STATS_TTL_MS == 3 * 1000,
        crate::api::system::NET_SAMPLE_WINDOW_MS == 200,
        crate::panel::BUILTIN_PANEL_TTL == 60,
        crate::blocklist::engine::PROFILE_DECISION_CACHE == 8 * 1024,
{
}

}

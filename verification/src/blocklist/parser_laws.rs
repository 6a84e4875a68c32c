//! What the lines of a list mean, in terms of their text.
use vstd::prelude::*;
use vstd::string::*;
use vstd::utf8::encode_utf8;

use crate::blocklist::decision_laws::lemma_flat_map_contains;
use crate::blocklist::laws::{lemma_last_line, lemma_trim_strip_cr};
use crate::blocklist::loader::{has_adblock_header, line_format, list_format};
use crate::blocklist::parser::{
    adblock_allowed, adblock_exceptions, adblock_rules, adblock_stats, adblock_syntax, allow_stats, block_body,
    block_list_rule, cosmetic_marker, domain_char, exception_body, exception_line, hosts_domains, hosts_line,
    other_syntax, plain_domains, plain_line, scoped_body, site_scoped, undomained_body, unscoped_domain, valid_domain,
    AdblockStats,
};
use crate::text;
use crate::text::{
    after, before, contains_text, count_where, flat_map, is_ws, lines, lower, position, split, strip_cr, texts, trim,
    trim_start, words, ws_position,
};

verus! {

/// A text of white space.
pub open spec fn blank(s: Seq<char>) -> bool {
    forall|i: int| 0 <= i < s.len() ==> is_ws(#[trigger] s[i])
}

/// A text without white space.
pub open spec fn one_word(s: Seq<char>) -> bool {
    s.len() > 0 && forall|i: int| 0 <= i < s.len() ==> !is_ws(#[trigger] s[i])
}

/// Blanks in front change no word of a text.
proof fn lemma_blank_words(gap: Seq<char>, rest: Seq<char>)
    requires
        blank(gap),
    ensures
        trim_start(gap + rest) == trim_start(rest),
        words(gap + rest) == words(rest),
    decreases gap.len(),
{
    if gap.len() > 0 {
        let s = gap + rest;
        assert(is_ws(gap[0]));
        assert(s.skip(1) =~= gap.skip(1) + rest);
        assert forall|i: int| 0 <= i < gap.skip(1).len() implies is_ws(#[trigger] gap.skip(1)[i]) by {
            assert(is_ws(gap[i + 1]));
        }
        lemma_blank_words(gap.skip(1), rest);
    } else {
        assert(gap + rest =~= rest);
    }
}

/// A word in front of a text that is empty or starts with a blank is its first word.
proof fn lemma_first_word(w: Seq<char>, rest: Seq<char>)
    requires
        one_word(w),
        rest.len() > 0 ==> is_ws(rest[0]),
    ensures
        words(w + rest) == seq![w] + words(rest),
{
    let s = w + rest;
    assert(!is_ws(w[0]) && s[0] == w[0]);
    assert(trim_start(s) == s);
    text::lemma_ws_position(s);
    let p = ws_position(s) as int;
    if p < w.len() {
        assert(is_ws(s[p]) && s[p] == w[p]);
    }
    if p > w.len() {
        assert(!is_ws(s[w.len() as int]) && s[w.len() as int] == rest[0]);
    }
    assert(s.take(p) =~= w);
    assert(s.skip(p) =~= rest);
}

/// The text is one of the addresses with which a hosts file blocks a name.
pub open spec fn is_sink(ip: Seq<char>) -> bool {
    ip == seq!['0', '.', '0', '.', '0', '.', '0'] || ip == seq!['1', '2', '7', '.', '0', '.', '0', '.', '1'] || ip
        == seq![':', ':', '1']
}

/// A name that a hosts file may give the machine itself.
pub open spec fn is_own_name(d: Seq<char>) -> bool {
    d == "localhost"@ || d == "localhost.localdomain"@ || d == "broadcasthost"@
}

/// The text holds no upper-case letter of ASCII.
pub open spec fn in_lower_case(d: Seq<char>) -> bool {
    forall|i: int| 0 <= i < d.len() ==> !('A' <= #[trigger] d[i] && d[i] <= 'Z')
}

proof fn lemma_lower_stays(d: Seq<char>)
    requires
        in_lower_case(d),
    ensures
        lower(d) == d,
{
    assert(lower(d) =~= d) by {
        assert forall|i: int| 0 <= i < d.len() implies #[trigger] lower(d)[i] == d[i] by {
            assert(lower(d)[i] == text::lower_char(d[i]));
        }
    }
}

proof fn lemma_sinks(ip: Seq<char>)
    ensures
        is_sink(ip) <==> ip == "0.0.0.0"@ || ip == "127.0.0.1"@ || ip == "::1"@,
{
    reveal_strlit("0.0.0.0");
    reveal_strlit("127.0.0.1");
    reveal_strlit("::1");
    assert("0.0.0.0"@ =~= seq!['0', '.', '0', '.', '0', '.', '0']);
    assert("127.0.0.1"@ =~= seq!['1', '2', '7', '.', '0', '.', '0', '.', '1']);
    assert("::1"@ =~= seq![':', ':', '1']);
}

/// A hosts file yields exactly the names that follow, on a line and before any comment,
/// one of the three addresses `0.0.0.0`, `127.0.0.1` and `::1`: in lower case, where they
/// are domains and none of the names of the machine itself.
pub proof fn hosts_files_yield_the_names_behind_sinks(content: Seq<char>, d: Seq<char>)
    ensures
        hosts_domains(content).contains(d) <==> exists|i: int, k: int|
            #![trigger lines(content)[i], words(before(lines(content)[i], '#'))[k]]
            {
                let ws = words(before(lines(content)[i], '#'));
                0 <= i < lines(content).len() && 1 <= k < ws.len() && is_sink(ws[0]) && d == lower(ws[k])
                    && valid_domain(d) && !is_own_name(d)
            },
{
    let ls = lines(content);
    let f = |l: Seq<char>| hosts_line(l);
    lemma_flat_map_contains(ls, f, d);
    assert forall|i: int| 0 <= i < ls.len() implies (#[trigger] f(ls[i]).contains(d) <==> is_sink(
        words(before(ls[i], '#'))[0],
    ) && valid_domain(d) && !is_own_name(d) && exists|k: int|
        1 <= k < words(before(ls[i], '#')).len() && d == lower(#[trigger] words(before(ls[i], '#'))[k])) by {
        let ws = words(before(ls[i], '#'));
        lemma_hosts_words(ws, d);
        lemma_sinks(ws[0]);
        if exists|k: int| 1 <= k < ws.len() && d == lower(#[trigger] ws[k]) {
            assert(ws.len() > 0);
        }
    }
    if hosts_domains(content).contains(d) {
        let i = choose|i: int| 0 <= i < ls.len() && f(#[trigger] ls[i]).contains(d);
        let ws = words(before(ls[i], '#'));
        let k = choose|k: int| 1 <= k < ws.len() && d == lower(#[trigger] ws[k]);
        assert(0 <= i < lines(content).len() && 1 <= k < ws.len() && is_sink(ws[0]) && d == lower(ws[k]));
    }
    if exists|i: int, k: int|
        #![trigger lines(content)[i], words(before(lines(content)[i], '#'))[k]]
        {
            let ws = words(before(lines(content)[i], '#'));
            0 <= i < lines(content).len() && 1 <= k < ws.len() && is_sink(ws[0]) && d == lower(ws[k])
                && valid_domain(d) && !is_own_name(d)
        } {
        let (i, k) = choose|i: int, k: int|
            #![trigger lines(content)[i], words(before(lines(content)[i], '#'))[k]]
            {
                let ws = words(before(lines(content)[i], '#'));
                0 <= i < lines(content).len() && 1 <= k < ws.len() && is_sink(ws[0]) && d == lower(ws[k])
                    && valid_domain(d) && !is_own_name(d)
            };
        assert(f(ls[i]).contains(d));
    }
}

proof fn lemma_hosts_words(ws: Seq<Seq<char>>, d: Seq<char>)
    ensures
        ws.len() > 0 ==> (ws.skip(1).map_values(|w: Seq<char>| lower(w)).filter(
            |x: Seq<char>| !crate::blocklist::parser::local_alias(x) && valid_domain(x),
        ).contains(d) <==> valid_domain(d) && !is_own_name(d) && exists|k: int|
            1 <= k < ws.len() && d == lower(#[trigger] ws[k])),
{
    if ws.len() > 0 {
        let low = ws.skip(1).map_values(|w: Seq<char>| lower(w));
        let g = |x: Seq<char>| !crate::blocklist::parser::local_alias(x) && valid_domain(x);
        let kept = low.filter(g);
        broadcast use {Seq::lemma_filter_pred, Seq::lemma_filter_contains};

        if kept.contains(d) {
            low.lemma_filter_contains_rev(g, d);
            let n = choose|n: int| 0 <= n < kept.len() && kept[n] == d;
            assert(g(kept[n]));
            let m = choose|m: int| 0 <= m < low.len() && low[m] == d;
            assert(d == lower(ws[m + 1]));
        }
        if valid_domain(d) && !is_own_name(d) && exists|k: int| 1 <= k < ws.len() && d == lower(#[trigger] ws[k]) {
            let k = choose|k: int| 1 <= k < ws.len() && d == lower(#[trigger] ws[k]);
            assert(low[k - 1] == d);
            assert(g(low[k - 1]));
            assert(kept.contains(low[k - 1]));
        }
    }
}

/// A hosts file with the line of a sink address, blanks and a domain in lower case yields
/// the domain, whichever of the three addresses it is, whatever else the file holds and
/// whatever follows the domain behind a blank or as a comment.
pub proof fn sunk_names_are_yielded(
    content: Seq<char>,
    i: int,
    ip: Seq<char>,
    gap: Seq<char>,
    d: Seq<char>,
    tail: Seq<char>,
)
    requires
        0 <= i < lines(content).len(),
        lines(content)[i] == ip + gap + d + tail,
        is_sink(ip),
        gap.len() > 0,
        blank(gap),
        valid_domain(d),
        in_lower_case(d),
        !is_own_name(d),
        tail.len() > 0 ==> is_ws(tail[0]) || tail[0] == '#',
    ensures
        hosts_domains(content).contains(d),
{
    let l = lines(content)[i];
    let n = ip.len() + gap.len() + d.len();
    text::lemma_position(tail, '#');
    let q = position(tail, '#') as int;
    lemma_domain_word(d);
    assert forall|j: int| 0 <= j < n + q implies #[trigger] l[j] != '#' by {
        if j < ip.len() {
            assert(l[j] == ip[j]);
        } else if j < ip.len() + gap.len() {
            assert(l[j] == gap[j - ip.len()]);
            assert(is_ws(gap[j - ip.len()]));
        } else if j < n {
            assert(l[j] == d[j - ip.len() - gap.len()]);
            assert(domain_char(d[j - ip.len() - gap.len()]));
        } else {
            assert(l[j] == tail[j - n]);
        }
    }
    if q < tail.len() {
        assert(l[n + q] == tail[q]);
    }
    text::lemma_position_is(l, '#', n + q);
    let rest = tail.take(q);
    assert(before(l, '#') =~= ip + (gap + (d + rest)));
    assert forall|j: int| 0 <= j < ip.len() implies !is_ws(#[trigger] ip[j]) by {}
    assert(one_word(ip));
    assert((gap + (d + rest))[0] == gap[0]);
    lemma_first_word(ip, gap + (d + rest));
    lemma_blank_words(gap, d + rest);
    if rest.len() > 0 {
        assert(rest[0] == tail[0]);
    }
    lemma_first_word(d, rest);
    let ws = words(before(l, '#'));
    assert(ws[0] == ip);
    assert(ws[1] == d);
    lemma_lower_stays(d);
    hosts_files_yield_the_names_behind_sinks(content, d);
    assert(d == lower(words(before(lines(content)[i], '#'))[1]));
}

proof fn lemma_domain_word(d: Seq<char>)
    requires
        valid_domain(d),
    ensures
        one_word(d),
{
    assert forall|i: int| 0 <= i < d.len() implies !is_ws(#[trigger] d[i]) by {
        assert(domain_char(d[i]));
    }
}

/// Names of ASCII letters, digits, hyphens, dots and underscores with a dot among them are
/// domains up to 253 bytes; a name with any other ASCII character, without a dot, or
/// longer, is none.
pub proof fn domains_are_made_of_letters_and_digits(d: Seq<char>)
    requires
        forall|i: int| 0 <= i < d.len() ==> #[trigger] d[i] <= '\u{7f}',
    ensures
        valid_domain(d) <==> encode_utf8(d).len() <= 253 && (exists|i: int| 0 <= i < d.len() && #[trigger] d[i] == '.')
            && forall|i: int|
            0 <= i < d.len() ==> ('a' <= #[trigger] d[i] && d[i] <= 'z') || ('A' <= d[i] && d[i] <= 'Z') || ('0' <= d[i]
                && d[i] <= '9') || d[i] == '-' || d[i] == '.' || d[i] == '_',
{
    if d.contains('.') {
        let i = choose|i: int| 0 <= i < d.len() && d[i] == '.';
        assert(d[i] == '.');
    }
    if valid_domain(d) {
        assert forall|i: int| 0 <= i < d.len() implies ('a' <= #[trigger] d[i] && d[i] <= 'z') || ('A' <= d[i] && d[i]
            <= 'Z') || ('0' <= d[i] && d[i] <= '9') || d[i] == '-' || d[i] == '.' || d[i] == '_' by {
            assert(domain_char(d[i]));
        }
    }
}

/// The line is written in the syntax of filter lists: it starts with `||` or `@@`, or
/// holds `##`, `#?#`, `#@#` or `#$#`, or a `$` with no `#` before it.
pub open spec fn is_filter_line(l: Seq<char>) -> bool {
    ||| l.len() >= 2 && l[0] == '|' && l[1] == '|'
    ||| l.len() >= 2 && l[0] == '@' && l[1] == '@'
    ||| hides_elements(l)
    ||| exists|i: int| 0 <= i < l.len() && #[trigger] l[i] == '$' && forall|j: int| 0 <= j < i ==> #[trigger] l[j] != '#'
}

/// The line holds one of the marks of rules that hide elements or change styles.
pub open spec fn hides_elements(l: Seq<char>) -> bool {
    ||| exists|i: int| 0 <= i && i + 1 < l.len() && #[trigger] l[i] == '#' && l[i + 1] == '#'
    ||| exists|i: int|
        0 <= i && i + 2 < l.len() && #[trigger] l[i] == '#' && (l[i + 1] == '?' || l[i + 1] == '@' || l[i + 1] == '$')
            && l[i + 2] == '#'
}

proof fn lemma_occurs2(l: Seq<char>, a: char, b: char, i: int)
    ensures
        text::occurs_at(l, seq![a, b], i) <==> 0 <= i && i + 1 < l.len() && l[i] == a && l[i + 1] == b,
{
    if 0 <= i && i + 2 <= l.len() {
        let x = l.subrange(i, i + 2);
        assert(x[0] == l[i] && x[1] == l[i + 1]);
        if l[i] == a && l[i + 1] == b {
            assert(x =~= seq![a, b]);
        }
    }
}

proof fn lemma_occurs3(l: Seq<char>, a: char, b: char, c: char, i: int)
    ensures
        text::occurs_at(l, seq![a, b, c], i) <==> 0 <= i && i + 2 < l.len() && l[i] == a && l[i + 1] == b && l[i + 2]
            == c,
{
    if 0 <= i && i + 3 <= l.len() {
        let x = l.subrange(i, i + 3);
        assert(x[0] == l[i] && x[1] == l[i + 1] && x[2] == l[i + 2]);
        if l[i] == a && l[i + 1] == b && l[i + 2] == c {
            assert(x =~= seq![a, b, c]);
        }
    }
}

proof fn lemma_holds3(l: Seq<char>, p: Seq<char>, b: char)
    requires
        p == seq!['#', b, '#'],
    ensures
        contains_text(l, p) <==> exists|i: int|
            0 <= i && i + 2 < l.len() && #[trigger] l[i] == '#' && l[i + 1] == b && l[i + 2] == '#',
{
    if contains_text(l, p) {
        let i = choose|i: int| #[trigger] text::occurs_at(l, p, i);
        lemma_occurs3(l, '#', b, '#', i);
        assert(l[i] == '#');
    }
    if exists|i: int| 0 <= i && i + 2 < l.len() && #[trigger] l[i] == '#' && l[i + 1] == b && l[i + 2] == '#' {
        let i = choose|i: int| 0 <= i && i + 2 < l.len() && #[trigger] l[i] == '#' && l[i + 1] == b && l[i + 2] == '#';
        lemma_occurs3(l, '#', b, '#', i);
    }
}

proof fn lemma_hides(l: Seq<char>)
    ensures
        cosmetic_marker(l) <==> hides_elements(l),
{
    reveal_strlit("##");
    reveal_strlit("#?#");
    reveal_strlit("#@#");
    reveal_strlit("#$#");
    assert("##"@ =~= seq!['#', '#']);
    assert("#?#"@ =~= seq!['#', '?', '#']);
    assert("#@#"@ =~= seq!['#', '@', '#']);
    assert("#$#"@ =~= seq!['#', '$', '#']);
    lemma_holds3(l, "#?#"@, '?');
    lemma_holds3(l, "#@#"@, '@');
    lemma_holds3(l, "#$#"@, '$');
    if contains_text(l, "##"@) {
        let i = choose|i: int| #[trigger] text::occurs_at(l, "##"@, i);
        lemma_occurs2(l, '#', '#', i);
        assert(l[i] == '#');
    }
    if exists|i: int| 0 <= i && i + 1 < l.len() && #[trigger] l[i] == '#' && l[i + 1] == '#' {
        let i = choose|i: int| 0 <= i && i + 1 < l.len() && #[trigger] l[i] == '#' && l[i + 1] == '#';
        lemma_occurs2(l, '#', '#', i);
    }
}

proof fn lemma_prefix2(l: Seq<char>, p: Seq<char>, a: char, b: char)
    requires
        p == seq![a, b],
    ensures
        p.is_prefix_of(l) <==> l.len() >= 2 && l[0] == a && l[1] == b,
{
    if l.len() >= 2 {
        let x = l.subrange(0, 2);
        assert(x[0] == l[0] && x[1] == l[1]);
        if l[0] == a && l[1] == b {
            assert(x =~= p);
        }
    }
}

/// Filter syntax is told by its marks.
pub proof fn filter_syntax_is_told_by_its_marks(l: Seq<char>)
    ensures
        adblock_syntax(l) <==> is_filter_line(l),
        cosmetic_marker(l) <==> hides_elements(l),
{
    reveal_strlit("||");
    reveal_strlit("@@");
    assert("||"@ =~= seq!['|', '|']);
    assert("@@"@ =~= seq!['@', '@']);
    lemma_prefix2(l, "||"@, '|', '|');
    lemma_prefix2(l, "@@"@, '@', '@');
    lemma_hides(l);
    text::lemma_position(l, '#');
    let b = before(l, '#');
    if b.contains('$') {
        let i = choose|i: int| 0 <= i < b.len() && b[i] == '$';
        assert(l[i] == '$');
    }
    if exists|i: int| 0 <= i < l.len() && #[trigger] l[i] == '$' && forall|j: int| 0 <= j < i ==> #[trigger] l[j] != '#' {
        let i = choose|i: int|
            0 <= i < l.len() && #[trigger] l[i] == '$' && forall|j: int| 0 <= j < i ==> #[trigger] l[j] != '#';
        let p = position(l, '#') as int;
        if p < i {
            assert(l[p] == '#');
        }
        if p == i && p < l.len() {
            assert(l[p] == '#');
        }
        assert(b[i] == '$');
    }
}

/// A plain list yields exactly the domains that its lines hold before any comment, in
/// lower case, apart from lines in filter syntax.
pub proof fn plain_lists_yield_their_lines(content: Seq<char>, d: Seq<char>)
    ensures
        plain_domains(content).contains(d) <==> valid_domain(d) && exists|i: int|
            0 <= i < lines(content).len() && !is_filter_line(trim(#[trigger] lines(content)[i])) && d == lower(
                trim(before(trim(lines(content)[i]), '#')),
            ),
{
    let ls = lines(content);
    let f = |l: Seq<char>| plain_line(l);
    lemma_flat_map_contains(ls, f, d);
    assert forall|i: int| 0 <= i < ls.len() implies (#[trigger] f(ls[i]).contains(d) <==> valid_domain(d)
        && !is_filter_line(trim(ls[i])) && d == lower(trim(before(trim(ls[i]), '#')))) by {
        filter_syntax_is_told_by_its_marks(trim(ls[i]));
        let e = lower(trim(before(trim(ls[i]), '#')));
        assert(seq![e][0] == e);
    }
    if plain_domains(content).contains(d) {
        let i = choose|i: int| 0 <= i < ls.len() && f(#[trigger] ls[i]).contains(d);
        assert(!is_filter_line(trim(lines(content)[i])));
    }
    if valid_domain(d) && exists|i: int|
        0 <= i < lines(content).len() && !is_filter_line(trim(#[trigger] lines(content)[i])) && d == lower(
            trim(before(trim(lines(content)[i]), '#')),
        ) {
        let i = choose|i: int|
            0 <= i < lines(content).len() && !is_filter_line(trim(#[trigger] lines(content)[i])) && d == lower(
                trim(before(trim(lines(content)[i]), '#')),
            );
        assert(f(ls[i]).contains(d));
    }
}

/// The domain that the body of a rule is about: what stands before its options and before
/// `^`, without blanks, in lower case; none where that holds a slash or is no domain.
pub open spec fn is_about(body: Seq<char>, d: Seq<char>) -> bool {
    let head = trim(before(before(body, '$'), '^'));
    &&& d == lower(head)
    &&& valid_domain(d)
    &&& forall|i: int| 0 <= i < head.len() ==> #[trigger] head[i] != '/'
}

/// The options of a rule, behind its first `$`, limit it to certain sites: one of them,
/// between commas, starts with `domain=`.
pub open spec fn is_limited(body: Seq<char>) -> bool {
    position(body, '$') < body.len() && exists|i: int|
        0 <= i < split(body.skip(position(body, '$') as int + 1), ',').len() && "domain="@.is_prefix_of(
            trim(#[trigger] split(body.skip(position(body, '$') as int + 1), ',')[i]),
        )
}

/// The line is a rule with this mark in front of its body.
pub open spec fn is_rule(line: Seq<char>, mark: Seq<char>, body: Seq<char>) -> bool {
    trim(line) == mark + body
}

proof fn lemma_marked(l: Seq<char>, mark: Seq<char>)
    ensures
        mark.is_prefix_of(l) ==> l == mark + l.skip(mark.len() as int),
        forall|b: Seq<char>| l == #[trigger] (mark + b) ==> mark.is_prefix_of(l) && l.skip(mark.len() as int) == b,
{
    if mark.is_prefix_of(l) {
        assert(l.subrange(0, mark.len() as int) == mark);
        assert(l =~= mark + l.skip(mark.len() as int));
    }
    assert forall|b: Seq<char>| l == #[trigger] (mark + b) implies mark.is_prefix_of(l) && l.skip(mark.len() as int) == b by {
        assert(l.subrange(0, mark.len() as int) =~= mark);
        assert(l.skip(mark.len() as int) =~= b);
    }
}

proof fn lemma_bodies(line: Seq<char>)
    ensures
        forall|b: Seq<char>| exception_body(line) == Some(b) <==> #[trigger] is_rule(line, "@@||"@, b),
        forall|b: Seq<char>| block_body(line) == Some(b) <==> #[trigger] is_rule(line, "||"@, b),
{
    let l = trim(line);
    reveal_strlit("@@||");
    reveal_strlit("||");
    lemma_marked(l, "@@||"@);
    lemma_marked(l, "||"@);
    if "@@||"@.is_prefix_of(l) {
        assert(l[0] == ("@@||"@ + l.skip(4))[0]);
        assert(is_rule(line, "@@||"@, l.skip(4)));
    }
    if "||"@.is_prefix_of(l) {
        assert(l[0] == ("||"@ + l.skip(2))[0]);
        assert(is_rule(line, "||"@, l.skip(2)));
    }
}

proof fn lemma_about(b: Seq<char>)
    ensures
        forall|d: Seq<char>| crate::blocklist::parser::rule_domain(before(b, '$')) == Some(d) <==> #[trigger] is_about(b, d),
        site_scoped(b) == is_limited(b),
        (exists|d: Seq<char>| #[trigger] is_about(b, d)) == crate::blocklist::parser::rule_domain(before(b, '$')) is Some,
{
    let head = trim(before(before(b, '$'), '^'));
    if head.contains('/') {
        let i = choose|i: int| 0 <= i < head.len() && head[i] == '/';
        assert(head[i] == '/');
    }
    assert forall|d: Seq<char>| crate::blocklist::parser::rule_domain(before(b, '$')) == Some(d) <==> #[trigger] is_about(
        b,
        d,
    ) by {
        if crate::blocklist::parser::rule_domain(before(b, '$')) == Some(d) {
            assert forall|i: int| 0 <= i < head.len() implies #[trigger] head[i] != '/' by {
                assert(head.contains(head[i]));
            }
        }
    }
    if let Some(d) = crate::blocklist::parser::rule_domain(before(b, '$')) {
        assert(is_about(b, d));
    }
    match after(b, '$') {
        Some(options) => {
            assert(options == b.skip(position(b, '$') as int + 1));
            if site_scoped(b) {
                let i = choose|i: int|
                    0 <= i < split(options, ',').len() && "domain="@.is_prefix_of(trim(#[trigger] split(options, ',')[i]));
                assert("domain="@.is_prefix_of(trim(split(b.skip(position(b, '$') as int + 1), ',')[i])));
            }
            if is_limited(b) {
                let i = choose|i: int|
                    0 <= i < split(b.skip(position(b, '$') as int + 1), ',').len() && "domain="@.is_prefix_of(
                        trim(#[trigger] split(b.skip(position(b, '$') as int + 1), ',')[i]),
                    );
                assert("domain="@.is_prefix_of(trim(split(options, ',')[i])));
            }
        },
        None => {},
    }
}

/// A filter list has a block rule for a domain exactly if one of its lines is `||` before
/// a body that is about the domain and not limited to certain sites. It exempts a domain
/// exactly if a line is `@@||` before a body that is about it; and read as an allow list
/// it allows what it exempts without being limited.
pub proof fn filter_rules_are_lines(content: Seq<char>, d: Seq<char>)
    ensures
        adblock_rules(content).contains(d) <==> exists|i: int, b: Seq<char>|
            0 <= i < lines(content).len() && #[trigger] is_rule(lines(content)[i], "||"@, b) && is_about(b, d)
                && !is_limited(b),
        adblock_exceptions(content).contains(d) <==> exists|i: int, b: Seq<char>|
            0 <= i < lines(content).len() && #[trigger] is_rule(lines(content)[i], "@@||"@, b) && is_about(b, d),
        adblock_allowed(content).contains(d) <==> exists|i: int, b: Seq<char>|
            0 <= i < lines(content).len() && #[trigger] is_rule(lines(content)[i], "@@||"@, b) && is_about(b, d)
                && !is_limited(b),
{
    let ls = lines(content);
    let fr = |l: Seq<char>| unscoped_domain(block_body(l));
    let fe = |l: Seq<char>| exception_line(l);
    let fa = |l: Seq<char>| unscoped_domain(exception_body(l));
    lemma_flat_map_contains(ls, fr, d);
    lemma_flat_map_contains(ls, fe, d);
    lemma_flat_map_contains(ls, fa, d);
    assert(seq![d][0] == d);
    assert forall|i: int| 0 <= i < ls.len() implies (#[trigger] fr(ls[i]).contains(d) <==> exists|b: Seq<char>|
        #[trigger] is_rule(ls[i], "||"@, b) && is_about(b, d) && !is_limited(b)) by {
        lemma_bodies(ls[i]);
        match block_body(ls[i]) {
            Some(b) => {
                lemma_about(b);
                assert(is_rule(ls[i], "||"@, b));
                assert forall|c: Seq<char>| #[trigger] is_rule(ls[i], "||"@, c) implies c == b by {}
            },
            None => {},
        }
    }
    assert forall|i: int| 0 <= i < ls.len() implies (#[trigger] fe(ls[i]).contains(d) <==> exists|b: Seq<char>|
        #[trigger] is_rule(ls[i], "@@||"@, b) && is_about(b, d)) by {
        lemma_bodies(ls[i]);
        match exception_body(ls[i]) {
            Some(b) => {
                lemma_about(b);
                assert(is_rule(ls[i], "@@||"@, b));
                assert forall|c: Seq<char>| #[trigger] is_rule(ls[i], "@@||"@, c) implies c == b by {}
            },
            None => {},
        }
    }
    assert forall|i: int| 0 <= i < ls.len() implies (#[trigger] fa(ls[i]).contains(d) <==> exists|b: Seq<char>|
        #[trigger] is_rule(ls[i], "@@||"@, b) && is_about(b, d) && !is_limited(b)) by {
        lemma_bodies(ls[i]);
        match exception_body(ls[i]) {
            Some(b) => {
                lemma_about(b);
                assert(is_rule(ls[i], "@@||"@, b));
                assert forall|c: Seq<char>| #[trigger] is_rule(ls[i], "@@||"@, c) implies c == b by {}
            },
            None => {},
        }
    }
    if adblock_rules(content).contains(d) {
        let i = choose|i: int| 0 <= i < ls.len() && fr(#[trigger] ls[i]).contains(d);
        assert(exists|b: Seq<char>| #[trigger] is_rule(ls[i], "||"@, b) && is_about(b, d) && !is_limited(b));
    }
    if adblock_exceptions(content).contains(d) {
        let i = choose|i: int| 0 <= i < ls.len() && fe(#[trigger] ls[i]).contains(d);
        assert(exists|b: Seq<char>| #[trigger] is_rule(ls[i], "@@||"@, b) && is_about(b, d));
    }
    if adblock_allowed(content).contains(d) {
        let i = choose|i: int| 0 <= i < ls.len() && fa(#[trigger] ls[i]).contains(d);
        assert(exists|b: Seq<char>| #[trigger] is_rule(ls[i], "@@||"@, b) && is_about(b, d) && !is_limited(b));
    }
    if exists|i: int, b: Seq<char>|
        0 <= i < ls.len() && #[trigger] is_rule(ls[i], "||"@, b) && is_about(b, d) && !is_limited(b) {
        let (i, b) = choose|i: int, b: Seq<char>|
            0 <= i < ls.len() && #[trigger] is_rule(ls[i], "||"@, b) && is_about(b, d) && !is_limited(b);
        assert(fr(ls[i]).contains(d));
    }
    if exists|i: int, b: Seq<char>| 0 <= i < ls.len() && #[trigger] is_rule(ls[i], "@@||"@, b) && is_about(b, d) {
        let (i, b) = choose|i: int, b: Seq<char>|
            0 <= i < ls.len() && #[trigger] is_rule(ls[i], "@@||"@, b) && is_about(b, d);
        assert(fe(ls[i]).contains(d));
    }
    if exists|i: int, b: Seq<char>|
        0 <= i < ls.len() && #[trigger] is_rule(ls[i], "@@||"@, b) && is_about(b, d) && !is_limited(b) {
        let (i, b) = choose|i: int, b: Seq<char>|
            0 <= i < ls.len() && #[trigger] is_rule(ls[i], "@@||"@, b) && is_about(b, d) && !is_limited(b);
        assert(fa(ls[i]).contains(d));
    }
}

/// The line `||d^` is a block rule for the domain, and `@@||d^` exempts it.
pub proof fn plain_rules_are_about_their_domain(d: Seq<char>)
    requires
        valid_domain(d),
        in_lower_case(d),
    ensures
        is_about(d + seq!['^'], d),
        !is_limited(d + seq!['^']),
        is_rule("||"@ + d + seq!['^'], "||"@, d + seq!['^']),
        is_rule("@@||"@ + d + seq!['^'], "@@||"@, d + seq!['^']),
{
    let b = d + seq!['^'];
    reveal_strlit("||");
    reveal_strlit("@@||");
    lemma_domain_word(d);
    assert forall|i: int| 0 <= i < d.len() implies #[trigger] d[i] != '^' && d[i] != '$' && d[i] != '/' by {
        assert(domain_char(d[i]));
    }
    assert forall|i: int| 0 <= i < b.len() implies #[trigger] b[i] != '$' by {
        if i < d.len() {
            assert(b[i] == d[i]);
        }
    }
    text::lemma_position_is(b, '$', b.len() as int);
    assert(before(b, '$') =~= b);
    assert forall|i: int| 0 <= i < d.len() implies #[trigger] b[i] != '^' by {
        assert(b[i] == d[i]);
    }
    assert(b[d.len() as int] == '^');
    text::lemma_position_is(b, '^', d.len() as int);
    assert(before(b, '^') =~= d);
    text::lemma_trimmed(d);
    lemma_lower_stays(d);
    let x = "||"@ + d + seq!['^'];
    let y = "@@||"@ + d + seq!['^'];
    assert(x =~= "||"@ + b);
    assert(y =~= "@@||"@ + b);
    assert(x[0] == '|' && x.last() == '^');
    assert(y[0] == '@' && y.last() == '^');
    text::lemma_trimmed(x);
    text::lemma_trimmed(y);
}

/// The line says nothing of the format: it is blank or a comment.
pub open spec fn says_nothing(line: Seq<char>) -> bool {
    trim(line).len() == 0 || trim(line)[0] == '!' || trim(line)[0] == '#'
}

proof fn lemma_no_format(ls: Seq<Seq<char>>)
    requires
        forall|i: int| 0 <= i < ls.len() ==> says_nothing(#[trigger] ls[i]),
    ensures
        crate::blocklist::loader::first_format(ls) is Empty,
    decreases ls.len(),
{
    if ls.len() > 0 {
        let t = ls.skip(1);
        assert(says_nothing(ls[0]));
        assert forall|i: int| 0 <= i < t.len() implies says_nothing(#[trigger] t[i]) by {
            assert(t[i] == ls[i + 1]);
        }
        lemma_no_format(t);
    }
}

proof fn lemma_format_at(ls: Seq<Seq<char>>, k: int)
    requires
        0 <= k < ls.len(),
        !says_nothing(ls[k]),
        forall|j: int| 0 <= j < k ==> says_nothing(#[trigger] ls[j]),
    ensures
        line_format(ls[k]) == Some(crate::blocklist::loader::first_format(ls)),
    decreases ls.len(),
{
    if k > 0 {
        let t = ls.skip(1);
        assert(says_nothing(ls[0]));
        assert(t[k - 1] == ls[k]);
        assert forall|j: int| 0 <= j < k - 1 implies says_nothing(#[trigger] t[j]) by {
            assert(t[j] == ls[j + 1]);
        }
        lemma_format_at(t, k - 1);
    }
}

/// The format of a list: a filter list where some line starts with `[Adblock`; else the
/// first line that is neither blank nor a comment decides, as a hosts file where it starts
/// with a sink address, as a filter list where it is in filter syntax, and as a plain list
/// otherwise. A list without such a line is empty.
pub proof fn formats_are_told_by_lines(ls: Seq<Seq<char>>, k: int)
    ensures
        (exists|i: int| 0 <= i < ls.len() && "[Adblock"@.is_prefix_of(trim(#[trigger] ls[i]))) ==> list_format(
            ls,
        ) is Adblock,
        (forall|i: int| 0 <= i < ls.len() ==> says_nothing(#[trigger] ls[i])) ==> list_format(ls) is Empty,
        0 <= k < ls.len() && !says_nothing(ls[k]) && (forall|j: int| 0 <= j < k ==> says_nothing(#[trigger] ls[j])) && (
        forall|i: int| 0 <= i < ls.len() ==> !"[Adblock"@.is_prefix_of(trim(#[trigger] ls[i]))) ==> ({
            let l = trim(ls[k]);
            let sink = "0.0.0.0"@.is_prefix_of(l) || "127.0.0.1"@.is_prefix_of(l) || "::1"@.is_prefix_of(l);
            &&& sink ==> list_format(ls) is Hosts
            &&& !sink && is_filter_line(l) ==> list_format(ls) is Adblock
            &&& !sink && !is_filter_line(l) ==> list_format(ls) is Plain
        }),
{
    if exists|i: int| 0 <= i < ls.len() && "[Adblock"@.is_prefix_of(trim(#[trigger] ls[i])) {
        let i = choose|i: int| 0 <= i < ls.len() && "[Adblock"@.is_prefix_of(trim(#[trigger] ls[i]));
        assert(crate::blocklist::loader::adblock_header(ls[i]));
        assert(has_adblock_header(ls));
    }
    if forall|i: int| 0 <= i < ls.len() ==> says_nothing(#[trigger] ls[i]) {
        lemma_no_format(ls);
        reveal_strlit("[Adblock");
        assert forall|i: int| 0 <= i < ls.len() implies !crate::blocklist::loader::adblock_header(#[trigger] ls[i]) by {
            assert(says_nothing(ls[i]));
            let l = trim(ls[i]);
            if "[Adblock"@.is_prefix_of(l) {
                assert(l.subrange(0, 8)[0] == l[0]);
            }
        }
    }
    if 0 <= k < ls.len() {
        filter_syntax_is_told_by_its_marks(trim(ls[k]));
        if !says_nothing(ls[k]) && (forall|j: int| 0 <= j < k ==> says_nothing(#[trigger] ls[j])) {
            lemma_format_at(ls, k);
        }
    }
    if forall|i: int| 0 <= i < ls.len() ==> !"[Adblock"@.is_prefix_of(trim(#[trigger] ls[i])) {
        assert forall|i: int| 0 <= i < ls.len() implies !crate::blocklist::loader::adblock_header(#[trigger] ls[i]) by {
            assert(!"[Adblock"@.is_prefix_of(trim(ls[i])));
        }
    }
}

proof fn lemma_count_is_len(ls: Seq<Seq<char>>, p: spec_fn(Seq<char>) -> bool, f: spec_fn(Seq<char>) -> Seq<int>)
    requires
        forall|l: Seq<char>| #[trigger] f(l) == (if p(l) { seq![0int] } else { Seq::<int>::empty() }),
    ensures
        count_where(ls, p) == flat_map(ls, f).len(),
    decreases ls.len(),
{
    if ls.len() > 0 {
        lemma_count_is_len(ls.drop_last(), p, f);
        assert(f(ls.last()) == (if p(ls.last()) { seq![0int] } else { Seq::<int>::empty() }));
    }
}

/// A count of lines grows by one with a line that counts and stays with one that does not.
proof fn lemma_count_added(c: Seq<char>, x: Seq<char>, p: spec_fn(Seq<char>) -> bool)
    requires
        x.len() > 0,
        !x.contains('\n'),
        !p(Seq::empty()),
        forall|l: Seq<char>| p(#[trigger] strip_cr(l)) == p(l),
    ensures
        count_where(lines(c + seq!['\n'] + x), p) == count_where(lines(c), p) + (if p(x) { 1nat } else { 0nat }),
{
    let f = |l: Seq<char>|
        if p(l) {
            seq![0int]
        } else {
            Seq::<int>::empty()
        };
    assert forall|l: Seq<char>| f(#[trigger] strip_cr(l)) == f(l) by {
        assert(p(strip_cr(l)) == p(l));
    }
    assert(f(Seq::empty()) == Seq::<int>::empty());
    lemma_last_line(c, x, f);
    lemma_count_is_len(lines(c + seq!['\n'] + x), p, f);
    lemma_count_is_len(lines(c), p, f);
}

/// What a line of a filter list is counted as.
pub ghost enum Counted {
    Limited,
    Hiding,
    Unusable,
    Nothing,
}

/// What a rule with this body is counted as.
pub open spec fn rule_counted_as(body: Seq<char>) -> Counted {
    if is_limited(body) {
        Counted::Limited
    } else if exists|d: Seq<char>| #[trigger] is_about(body, d) {
        Counted::Nothing
    } else {
        Counted::Unusable
    }
}

/// A line with a rule of this mark is limited to certain sites, or unusable where it is
/// about no domain; any other line in filter syntax is a rule that hides elements, or
/// unusable. Comments, exceptions of a block list and lines in no filter syntax count as
/// none of these.
pub open spec fn counted_as(line: Seq<char>, as_allow_list: bool) -> Counted {
    let l = trim(line);
    let exception = l.len() >= 4 && l[0] == '@' && l[1] == '@' && l[2] == '|' && l[3] == '|';
    let network = l.len() >= 2 && l[0] == '|' && l[1] == '|';
    if says_nothing(line) {
        Counted::Nothing
    } else if as_allow_list && exception {
        rule_counted_as(l.skip(4))
    } else if !as_allow_list && network {
        rule_counted_as(l.skip(2))
    } else if !as_allow_list && exception {
        Counted::Nothing
    } else if !is_filter_line(l) {
        Counted::Nothing
    } else if hides_elements(l) {
        Counted::Hiding
    } else {
        Counted::Unusable
    }
}

proof fn lemma_mark4(l: Seq<char>)
    ensures
        "@@||"@.is_prefix_of(l) <==> l.len() >= 4 && l[0] == '@' && l[1] == '@' && l[2] == '|' && l[3] == '|',
        "||"@.is_prefix_of(l) <==> l.len() >= 2 && l[0] == '|' && l[1] == '|',
{
    reveal_strlit("@@||");
    reveal_strlit("||");
    if l.len() >= 4 {
        let x = l.subrange(0, 4);
        assert(x[0] == l[0] && x[1] == l[1] && x[2] == l[2] && x[3] == l[3]);
        if l[0] == '@' && l[1] == '@' && l[2] == '|' && l[3] == '|' {
            assert(x =~= "@@||"@);
        }
    }
    assert("||"@ =~= seq!['|', '|']);
    lemma_prefix2(l, "||"@, '|', '|');
}

proof fn lemma_counted(line: Seq<char>)
    ensures
        scoped_body(block_body(line)) == (counted_as(line, false) is Limited),
        (other_syntax(line, block_list_rule(line)) && cosmetic_marker(trim(line))) == (counted_as(line, false) is Hiding),
        (undomained_body(block_body(line)) || (other_syntax(line, block_list_rule(line)) && !cosmetic_marker(
            trim(line),
        ))) == (counted_as(line, false) is Unusable),
        scoped_body(exception_body(line)) == (counted_as(line, true) is Limited),
        (other_syntax(line, exception_body(line) is Some) && cosmetic_marker(trim(line))) == (counted_as(
            line,
            true,
        ) is Hiding),
        (undomained_body(exception_body(line)) || (other_syntax(line, exception_body(line) is Some)
            && !cosmetic_marker(trim(line)))) == (counted_as(line, true) is Unusable),
{
    let l = trim(line);
    lemma_mark4(l);
    filter_syntax_is_told_by_its_marks(l);
    if l.len() >= 2 {
        lemma_about(l.skip(2));
    }
    if l.len() >= 4 {
        lemma_about(l.skip(4));
    }
}

/// A line that is added to a filter list raises the count of what it is by one, and no
/// other count of lines that are passed over.
pub proof fn passed_over_lines_are_counted(
    c: Seq<char>,
    x: Seq<char>,
    s: AdblockStats,
    t: AdblockStats,
    as_allow_list: bool,
)
    requires
        x.len() > 0,
        !x.contains('\n'),
        !as_allow_list ==> adblock_stats(c, s) && adblock_stats(c + seq!['\n'] + x, t),
        as_allow_list ==> allow_stats(c, s) && allow_stats(c + seq!['\n'] + x, t),
    ensures
        t.scoped_skipped == s.scoped_skipped + (if counted_as(x, as_allow_list) is Limited { 1int } else { 0 }),
        t.cosmetic_skipped == s.cosmetic_skipped + (if counted_as(x, as_allow_list) is Hiding { 1int } else { 0 }),
        t.unsupported_skipped == s.unsupported_skipped + (if counted_as(x, as_allow_list) is Unusable { 1int } else { 0 }),
{
    lemma_counted(x);
    lemma_counted(Seq::empty());
    assert(trim(Seq::<char>::empty()) =~= Seq::<char>::empty());
    assert forall|l: Seq<char>| trim(#[trigger] strip_cr(l)) == trim(l) by {
        lemma_trim_strip_cr(l);
    }
    if as_allow_list {
        lemma_count_added(c, x, |l: Seq<char>| scoped_body(exception_body(l)));
        lemma_count_added(c, x, |l: Seq<char>| other_syntax(l, exception_body(l) is Some) && cosmetic_marker(trim(l)));
        lemma_count_added(
            c,
            x,
            |l: Seq<char>|
                undomained_body(exception_body(l)) || (other_syntax(l, exception_body(l) is Some) && !cosmetic_marker(
                    trim(l),
                )),
        );
    } else {
        lemma_count_added(c, x, |l: Seq<char>| scoped_body(block_body(l)));
        lemma_count_added(c, x, |l: Seq<char>| other_syntax(l, block_list_rule(l)) && cosmetic_marker(trim(l)));
        lemma_count_added(
            c,
            x,
            |l: Seq<char>|
                undomained_body(block_body(l)) || (other_syntax(l, block_list_rule(l)) && !cosmetic_marker(trim(l))),
        );
    }
}

/// A list is read in its format: the names of a hosts file or a plain list and no counts,
/// the rules of a filter list that it does not exempt, with counts, and of an allow list
/// in that format what it exempts.
pub proof fn lists_are_read_in_their_format(content: Seq<char>, r: (Vec<String>, Option<AdblockStats>), d: Seq<char>)
    ensures
        crate::blocklist::loader::parsed_as(content, r) ==> ({
            let f = list_format(lines(content));
            &&& f is Hosts ==> r.1 is None && (texts(r.0@).contains(d) <==> hosts_domains(content).contains(d))
            &&& f is Plain ==> r.1 is None && (texts(r.0@).contains(d) <==> plain_domains(content).contains(d))
            &&& f is Adblock ==> r.1 is Some && adblock_stats(content, r.1->0) && (texts(r.0@).contains(d)
                <==> adblock_rules(content).contains(d) && !adblock_exceptions(content).contains(d))
            &&& f is Empty ==> r.1 is None && !texts(r.0@).contains(d)
        }),
        crate::blocklist::loader::allowed_as(content, r) ==> ({
            let f = list_format(lines(content));
            &&& f is Hosts ==> r.1 is None && (texts(r.0@).contains(d) <==> hosts_domains(content).contains(d))
            &&& f is Plain ==> r.1 is None && (texts(r.0@).contains(d) <==> plain_domains(content).contains(d))
            &&& f is Adblock ==> r.1 is Some && allow_stats(content, r.1->0) && (texts(r.0@).contains(d)
                <==> adblock_allowed(content).contains(d))
            &&& f is Empty ==> r.1 is None && !texts(r.0@).contains(d)
        }),
{
    crate::blocklist::laws::own_exceptions_win(content, d);
}

/// The counts of a filter list agree with what it yields: the domains that are kept, the
/// rules that its exceptions cancel, and how many domains it exempts.
pub proof fn counts_agree_with_the_rules(content: Seq<char>, s: AdblockStats)
    ensures
        adblock_stats(content, s) ==> s.kept + s.unblocked_by_exception == adblock_rules(content).len() && s.kept
            == crate::blocklist::parser::adblock_domains(content).len() && s.exceptions == adblock_exceptions(
            content,
        ).len(),
        allow_stats(content, s) ==> s.kept == adblock_allowed(content).len() && s.unblocked_by_exception == 0
            && s.exceptions == count_where(lines(content), |l: Seq<char>| exception_body(l) is Some),
{
}

}

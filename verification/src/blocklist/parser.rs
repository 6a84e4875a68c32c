//! Parsers for the three list formats: hosts files, plain domain lists and
//! Adblock filter lists.
use vstd::hash_set::StringHashSet;
use vstd::prelude::*;
use vstd::slice::*;
use vstd::string::*;
use vstd::utf8::encode_utf8;

use crate::text;
use crate::text::{after, alphanumeric, before, contains_text, count_where, flat_map, lines, lower, split, texts, trim, words};

verus! {

/// Characters that may stand in a domain name.
pub open spec fn domain_char(c: char) -> bool {
    alphanumeric(c) || c == '-' || c == '.' || c == '_'
}

/// A plausible domain name: at most 253 bytes, with a dot, of domain characters.
pub open spec fn valid_domain(d: Seq<char>) -> bool {
    &&& d.len() > 0
    &&& encode_utf8(d).len() <= 253
    &&& d.contains('.')
    &&& forall|i: int| 0 <= i < d.len() ==> domain_char(#[trigger] d[i])
}

/// Names that a hosts file gives the machine itself.
pub open spec fn local_alias(d: Seq<char>) -> bool {
    d == "localhost"@ || d == "localhost.localdomain"@ || d == "broadcasthost"@
}

/// The addresses with which a hosts file blocks a name.
pub open spec fn sink_address(ip: Seq<char>) -> bool {
    ip == "0.0.0.0"@ || ip == "127.0.0.1"@ || ip == "::1"@
}

/// The names that one line of a hosts file blocks.
pub open spec fn hosts_line(line: Seq<char>) -> Seq<Seq<char>> {
    let ws = words(before(line, '#'));
    if ws.len() > 0 && sink_address(ws[0]) {
        ws.skip(1).map_values(|w: Seq<char>| lower(w)).filter(
            |d: Seq<char>| !local_alias(d) && valid_domain(d),
        )
    } else {
        seq![]
    }
}

/// The names that a hosts file blocks, in the order of the file.
pub open spec fn hosts_domains(content: Seq<char>) -> Seq<Seq<char>> {
    flat_map(lines(content), |l: Seq<char>| hosts_line(l))
}

/// The markers of cosmetic rules: element hiding, style and scriptlet rules.
pub open spec fn cosmetic_marker(line: Seq<char>) -> bool {
    contains_text(line, "##"@) || contains_text(line, "#?#"@) || contains_text(line, "#@#"@) || contains_text(line, "#$#"@)
}

/// Adblock filter syntax: a network rule, an exception, a cosmetic rule, or an
/// option modifier in front of any comment.
pub open spec fn adblock_syntax(line: Seq<char>) -> bool {
    ||| "||"@.is_prefix_of(line)
    ||| "@@"@.is_prefix_of(line)
    ||| cosmetic_marker(line)
    ||| before(line, '#').contains('$')
}

/// The name on one line of a plain list, if it holds one.
pub open spec fn plain_line(line: Seq<char>) -> Seq<Seq<char>> {
    let d = lower(trim(before(trim(line), '#')));
    if !adblock_syntax(trim(line)) && valid_domain(d) {
        seq![d]
    } else {
        seq![]
    }
}

/// The names of a plain list, in the order of the list.
pub open spec fn plain_domains(content: Seq<char>) -> Seq<Seq<char>> {
    flat_map(lines(content), |l: Seq<char>| plain_line(l))
}

/// The domain of a rule's body: what stands before `^`, if it is a whole domain.
pub open spec fn rule_domain(body: Seq<char>) -> Option<Seq<char>> {
    let head = trim(before(body, '^'));
    if !head.contains('/') && valid_domain(lower(head)) {
        Some(lower(head))
    } else {
        None
    }
}

/// Whether a rule's options limit it to requests from certain sites.
pub open spec fn site_scoped(body: Seq<char>) -> bool {
    match after(body, '$') {
        Some(options) => exists|i: int|
            0 <= i < split(options, ',').len() && "domain="@.is_prefix_of(trim(#[trigger] split(options, ',')[i])),
        None => false,
    }
}

/// A line that holds no rule.
pub open spec fn comment_line(line: Seq<char>) -> bool {
    line.len() == 0 || line[0] == '!' || line[0] == '#'
}

/// The body of an exception rule, behind its marker.
pub open spec fn exception_body(line: Seq<char>) -> Option<Seq<char>> {
    let l = trim(line);
    if !comment_line(l) && "@@||"@.is_prefix_of(l) {
        Some(l.skip(4))
    } else {
        None
    }
}

/// The body of a network block rule, behind its marker.
pub open spec fn block_body(line: Seq<char>) -> Option<Seq<char>> {
    let l = trim(line);
    if !comment_line(l) && "||"@.is_prefix_of(l) {
        Some(l.skip(2))
    } else {
        None
    }
}

/// A rule's whole-domain target, unless its options limit the rule to some sites.
pub open spec fn unscoped_domain(body: Option<Seq<char>>) -> Seq<Seq<char>> {
    match body {
        Some(b) if !site_scoped(b) => match rule_domain(before(b, '$')) {
            Some(d) => seq![d],
            None => seq![],
        },
        _ => seq![],
    }
}

/// A rule that names sites to which it is limited.
pub open spec fn scoped_body(body: Option<Seq<char>>) -> bool {
    body is Some && site_scoped(body->0)
}

/// A rule that is not limited to sites and has no whole-domain target.
pub open spec fn undomained_body(body: Option<Seq<char>>) -> bool {
    body is Some && !site_scoped(body->0) && rule_domain(before(body->0, '$')) is None
}

/// A line of filter syntax that is neither a comment nor one of the given rules.
pub open spec fn other_syntax(line: Seq<char>, is_rule: bool) -> bool {
    !comment_line(trim(line)) && !is_rule && adblock_syntax(trim(line))
}

/// The domain that one line of a filter list exempts, whatever its options say.
pub open spec fn exception_line(line: Seq<char>) -> Seq<Seq<char>> {
    match exception_body(line) {
        Some(b) => match rule_domain(before(b, '$')) {
            Some(d) => seq![d],
            None => seq![],
        },
        None => seq![],
    }
}

/// Whether the line is one of the rules that decide a block list's domains.
pub open spec fn block_list_rule(line: Seq<char>) -> bool {
    exception_body(line) is Some || block_body(line) is Some
}

/// The domains that a filter list exempts from its own blocks.
pub open spec fn adblock_exceptions(content: Seq<char>) -> Set<Seq<char>> {
    flat_map(lines(content), |l: Seq<char>| exception_line(l)).to_set()
}

/// The whole-domain block rules of a filter list, before exceptions.
pub open spec fn adblock_rules(content: Seq<char>) -> Seq<Seq<char>> {
    flat_map(lines(content), |l: Seq<char>| unscoped_domain(block_body(l)))
}

/// The domains that a filter list blocks: its rules without those that it exempts.
pub open spec fn adblock_domains(content: Seq<char>) -> Seq<Seq<char>> {
    adblock_rules(content).filter(|d: Seq<char>| !adblock_exceptions(content).contains(d))
}

/// The domains that a filter list allows when it is read as an allow list.
pub open spec fn adblock_allowed(content: Seq<char>) -> Seq<Seq<char>> {
    flat_map(lines(content), |l: Seq<char>| unscoped_domain(exception_body(l)))
}

/// How the lines of an Adblock-style list were interpreted.
#[derive(Debug, Clone, Copy, PartialEq, Eq, Structural)]
pub struct AdblockStats {
    /// Domains that the list contributes.
    pub kept: usize,
    /// Exceptions that were collected.
    pub exceptions: usize,
    /// Block rules that an exception for the same domain cancelled.
    pub unblocked_by_exception: usize,
    /// Rules that apply on certain sites only.
    pub scoped_skipped: usize,
    /// Element-hiding and scriptlet rules.
    pub cosmetic_skipped: usize,
    /// Regex, path, wildcard and option-only rules.
    pub unsupported_skipped: usize,
}

impl Default for AdblockStats {
    fn default() -> (r: AdblockStats)
        ensures
            r == (AdblockStats {
                kept: 0,
                exceptions: 0,
                unblocked_by_exception: 0,
                scoped_skipped: 0,
                cosmetic_skipped: 0,
                unsupported_skipped: 0,
            }),
    {
        AdblockStats {
            kept: 0,
            exceptions: 0,
            unblocked_by_exception: 0,
            scoped_skipped: 0,
            cosmetic_skipped: 0,
            unsupported_skipped: 0,
        }
    }
}

/// The counts of a filter list that is read as a block list.
pub open spec fn adblock_stats(content: Seq<char>, s: AdblockStats) -> bool {
    let ls = lines(content);
    &&& s.kept == adblock_domains(content).len()
    &&& s.exceptions == adblock_exceptions(content).len()
    &&& s.unblocked_by_exception == adblock_rules(content).len() - adblock_domains(content).len()
    &&& s.scoped_skipped == count_where(ls, |l: Seq<char>| scoped_body(block_body(l)))
    &&& s.cosmetic_skipped == count_where(
        ls,
        |l: Seq<char>| other_syntax(l, block_list_rule(l)) && cosmetic_marker(trim(l)),
    )
    &&& s.unsupported_skipped == count_where(
        ls,
        |l: Seq<char>|
            undomained_body(block_body(l)) || (other_syntax(l, block_list_rule(l)) && !cosmetic_marker(trim(l))),
    )
}

/// The counts of a filter list that is read as an allow list.
pub open spec fn allow_stats(content: Seq<char>, s: AdblockStats) -> bool {
    let ls = lines(content);
    &&& s.kept == adblock_allowed(content).len()
    &&& s.exceptions == count_where(ls, |l: Seq<char>| exception_body(l) is Some)
    &&& s.unblocked_by_exception == 0
    &&& s.scoped_skipped == count_where(ls, |l: Seq<char>| scoped_body(exception_body(l)))
    &&& s.cosmetic_skipped == count_where(
        ls,
        |l: Seq<char>| other_syntax(l, exception_body(l) is Some) && cosmetic_marker(trim(l)),
    )
    &&& s.unsupported_skipped == count_where(
        ls,
        |l: Seq<char>|
            undomained_body(exception_body(l)) || (other_syntax(l, exception_body(l) is Some) && !cosmetic_marker(
                trim(l),
            )),
    )
}

/// Very lightweight sanity check of a domain name.
pub fn is_valid_domain(domain: &str) -> (r: bool)
    ensures
        r == valid_domain(domain@),
{
    let bytes: usize = domain.as_bytes().len();
    let cs = text::chars_of(domain);
    if cs.len() == 0 || bytes > 253 {
        return false;
    }
    if text::find_char(cs.as_slice(), '.') == cs.len() {
        return false;
    }
    let mut i: usize = 0;
    while i < cs.len()
        invariant
            i <= cs@.len(),
            cs@ == domain@,
            forall|j: int| 0 <= j < i ==> domain_char(#[trigger] cs@[j]),
        decreases cs@.len() - i,
    {
        let c = cs[i];
        if !(c.is_alphanumeric() || c == '-' || c == '.' || c == '_') {
            assert(!domain_char(cs@[i as int]));
            return false;
        }
        i = i + 1;
    }
    true
}

/// Parses a hosts file and returns the names that it blocks.
///
/// Lines look like `0.0.0.0 ads.example.com` or `127.0.0.1 tracker.evil.com # comment`.
pub fn parse_hosts(content: &str) -> (r: Vec<String>)
    ensures
        texts(r@) == hosts_domains(content@),
{
    let cs = text::chars_of(content);
    let s = cs.as_slice();
    let mut domains: Vec<String> = Vec::new();
    let mut pos: usize = 0;
    let ghost f = |l: Seq<char>| hosts_line(l);
    let ghost mut done: Seq<Seq<char>> = seq![];
    assert(s@.skip(0) == s@);
    assert(done + lines(s@) == lines(s@));
    while pos < s.len()
        invariant
            pos <= s@.len(),
            s@ == content@,
            f == (|l: Seq<char>| hosts_line(l)),
            lines(s@) == done + lines(s@.skip(pos as int)),
            texts(domains@) == flat_map(done, f),
        decreases s@.len() - pos,
    {
        let (end, next) = text::next_line(s, pos);
        let line = slice_subrange(s, pos, end);
        let ghost before_line = texts(domains@);
        hosts_line_into(line, &mut domains);
        proof {
            assert(done.push(line@) + lines(s@.skip(next as int)) == done + (seq![line@] + lines(s@.skip(next as int))));
            text::lemma_flat_map_push(done, line@, f);
            done = done.push(line@);
        }
        pos = next;
    }
    assert(s@.skip(s@.len() as int) == Seq::<char>::empty());
    assert(done + lines(Seq::<char>::empty()) == done);
    domains
}

fn hosts_line_into(line: &[char], domains: &mut Vec<String>)
    ensures
        texts(final(domains)@) == texts(old(domains)@) + hosts_line(line@),
{
    let ws = text::split_words(text::part_before(line, '#'));
    let ghost wv = words(before(line@, '#'));
    assert(texts(domains@) + Seq::<Seq<char>>::empty() == texts(domains@));
    if ws.len() == 0 {
        return;
    }
    assert(ws@[0]@ == wv[0]);
    let ip = ws[0].as_slice();
    if !text::is_text(ip, "0.0.0.0") && !text::is_text(ip, "127.0.0.1") && !text::is_text(ip, "::1") {
        return;
    }
    let ghost g = |w: Seq<char>| lower(w);
    let ghost keep = |d: Seq<char>| !local_alias(d) && valid_domain(d);
    let ghost start = texts(domains@);
    let mut i: usize = 1;
    assert(wv.subrange(1, 1).map_values(g).filter(keep) == Seq::<Seq<char>>::empty()) by {
        reveal(Seq::filter);
    }
    while i < ws.len()
        invariant
            1 <= i <= ws@.len(),
            text::char_texts(ws@) == wv,
            g == (|w: Seq<char>| lower(w)),
            keep == (|d: Seq<char>| !local_alias(d) && valid_domain(d)),
            texts(domains@) == start + wv.subrange(1, i as int).map_values(g).filter(keep),
        decreases ws@.len() - i,
    {
        assert(ws@[i as int]@ == wv[i as int]);
        let domain = text::lowered(ws[i].as_slice());
        let ghost pre = wv.subrange(1, i as int).map_values(g);
        let ghost prev = texts(domains@);
        proof {
            assert(wv.subrange(1, i + 1).map_values(g) == pre.push(domain@));
            text::lemma_filter_push(pre, domain@, keep);
        }
        let alias = text::str_same(domain.as_str(), "localhost") || text::str_same(
            domain.as_str(),
            "localhost.localdomain",
        ) || text::str_same(domain.as_str(), "broadcasthost");
        if !alias && is_valid_domain(domain.as_str()) {
            proof {
                text::lemma_texts_push(domains@, domain);
                assert(start + pre.filter(keep).push(domain@) == (start + pre.filter(keep)).push(domain@));
            }
            domains.push(domain);
        }
        i = i + 1;
    }
    assert(wv.subrange(1, wv.len() as int) == wv.skip(1));
}

/// Whether a line uses Adblock filter syntax rather than being a plain domain.
pub fn is_adblock_syntax(line: &str) -> (r: bool)
    ensures
        r == adblock_syntax(line@),
{
    let cs = text::chars_of(line);
    adblock_syntax_chars(cs.as_slice())
}

pub(crate) fn adblock_syntax_chars(line: &[char]) -> (r: bool)
    ensures
        r == adblock_syntax(line@),
{
    if text::starts_with(line, "||") || text::starts_with(line, "@@") || cosmetic_chars(line) {
        return true;
    }
    let code = text::part_before(line, '#');
    text::find_char(code, '$') < code.len()
}

fn cosmetic_chars(line: &[char]) -> (r: bool)
    ensures
        r == cosmetic_marker(line@),
{
    text::contains(line, "##") || text::contains(line, "#?#") || text::contains(line, "#@#") || text::contains(line, "#$#")
}

/// Parses a plain domain list: one domain per line, `#` comments allowed.
pub fn parse_plain(content: &str) -> (r: Vec<String>)
    ensures
        texts(r@) == plain_domains(content@),
{
    let cs = text::chars_of(content);
    let s = cs.as_slice();
    let mut domains: Vec<String> = Vec::new();
    let mut pos: usize = 0;
    let ghost f = |l: Seq<char>| plain_line(l);
    let ghost mut done: Seq<Seq<char>> = seq![];
    assert(s@.skip(0) == s@);
    assert(done + lines(s@) == lines(s@));
    while pos < s.len()
        invariant
            pos <= s@.len(),
            s@ == content@,
            f == (|l: Seq<char>| plain_line(l)),
            lines(s@) == done + lines(s@.skip(pos as int)),
            texts(domains@) == flat_map(done, f),
        decreases s@.len() - pos,
    {
        let (end, next) = text::next_line(s, pos);
        let raw = slice_subrange(s, pos, end);
        let line = text::trimmed(raw);
        let ghost before_line = texts(domains@);
        proof {
            assert(done.push(raw@) + lines(s@.skip(next as int)) == done + (seq![raw@] + lines(s@.skip(next as int))));
            text::lemma_flat_map_push(done, raw@, f);
            done = done.push(raw@);
            assert(before_line + Seq::<Seq<char>>::empty() == before_line);
        }
        // A cosmetic rule must be recognised before its first `#` is taken for
        // the start of a comment.
        if !adblock_syntax_chars(line) {
            let domain = text::lowered(text::trimmed(text::part_before(line, '#')));
            if is_valid_domain(domain.as_str()) {
                proof {
                    text::lemma_texts_push(domains@, domain);
                    assert(before_line + seq![domain@] == before_line.push(domain@));
                }
                domains.push(domain);
            }
        }
        pos = next;
    }
    assert(s@.skip(s@.len() as int) == Seq::<char>::empty());
    assert(done + lines(Seq::<char>::empty()) == done);
    domains
}

/// The domain of a rule's body, if the rule stands for a whole domain.
fn adblock_rule_domain(body: &[char]) -> (r: Option<String>)
    ensures
        match r {
            Some(d) => rule_domain(body@) == Some(d@),
            None => rule_domain(body@) is None,
        },
{
    let head = text::trimmed(text::part_before(body, '^'));
    if text::find_char(head, '/') < head.len() {
        return None;
    }
    let domain = text::lowered(head);
    if is_valid_domain(domain.as_str()) {
        Some(domain)
    } else {
        None
    }
}

/// Whether a rule's options limit it to certain sites.
fn is_site_scoped(body: &[char]) -> (r: bool)
    ensures
        r == site_scoped(body@),
{
    match text::part_after(body, '$') {
        None => false,
        Some(options) => {
            let parts = text::split_on(options, ',');
            let ghost pv = split(options@, ',');
            let mut i: usize = 0;
            while i < parts.len()
                invariant
                    i <= parts@.len(),
                    text::char_texts(parts@) == pv,
                    pv == split(options@, ','),
                    after(body@, '$') == Some(options@),
                    forall|j: int| 0 <= j < i ==> !"domain="@.is_prefix_of(trim(#[trigger] pv[j])),
                decreases parts@.len() - i,
            {
                assert(parts@[i as int]@ == pv[i as int]);
                if text::starts_with(text::trimmed(parts[i].as_slice()), "domain=") {
                    assert("domain="@.is_prefix_of(trim(split(options@, ',')[i as int])));
                    assert(i < split(options@, ',').len());
                    assert(after(body@, '$')->0 == options@);
                    return true;
                }
                i = i + 1;
            }
            false
        },
    }
}

/// Parses an Adblock-style filter list and returns the domains that it blocks.
///
/// Only whole-domain network rules can be acted on: `||ads.example.com^` blocks,
/// `@@||good.example.com^` exempts a domain from this list's own blocks, and a
/// rule limited to certain sites (`$domain=`) is skipped, as blocking its target
/// everywhere would block too much.
pub fn parse_adblock(content: &str) -> (r: (Vec<String>, AdblockStats))
    ensures
        texts(r.0@) == adblock_domains(content@),
        adblock_stats(content@, r.1),
{
    let cs = text::chars_of(content);
    let s = cs.as_slice();
    let mut rules: Vec<String> = Vec::new();
    let mut exceptions = StringHashSet::new();
    let mut scoped: usize = 0;
    let mut cosmetic: usize = 0;
    let mut unsupported: usize = 0;
    let mut pos: usize = 0;
    let ghost fr = |l: Seq<char>| unscoped_domain(block_body(l));
    let ghost fe = |l: Seq<char>| exception_line(l);
    let ghost cs_f = |l: Seq<char>| scoped_body(block_body(l));
    let ghost cc_f = |l: Seq<char>| other_syntax(l, block_list_rule(l)) && cosmetic_marker(trim(l));
    let ghost cu_f = |l: Seq<char>|
        undomained_body(block_body(l)) || (other_syntax(l, block_list_rule(l)) && !cosmetic_marker(trim(l)));
    let ghost mut done: Seq<Seq<char>> = seq![];
    assert(s@.skip(0) == s@);
    assert(done + lines(s@) == lines(s@));
    assert(flat_map(done, fe).to_set() == Set::<Seq<char>>::empty());
    while pos < s.len()
        invariant
            pos <= s@.len(),
            s@ == content@,
            fr == (|l: Seq<char>| unscoped_domain(block_body(l))),
            fe == (|l: Seq<char>| exception_line(l)),
            cs_f == (|l: Seq<char>| scoped_body(block_body(l))),
            cc_f == (|l: Seq<char>| other_syntax(l, block_list_rule(l)) && cosmetic_marker(trim(l))),
            cu_f == (|l: Seq<char>|
                undomained_body(block_body(l)) || (other_syntax(l, block_list_rule(l)) && !cosmetic_marker(trim(l)))),
            lines(s@) == done + lines(s@.skip(pos as int)),
            done.len() <= pos,
            texts(rules@) == flat_map(done, fr),
            exceptions@ == flat_map(done, fe).to_set(),
            scoped == count_where(done, cs_f),
            cosmetic == count_where(done, cc_f),
            unsupported == count_where(done, cu_f),
        decreases s@.len() - pos,
    {
        let (end, next) = text::next_line(s, pos);
        let raw = slice_subrange(s, pos, end);
        let line = text::trimmed(raw);
        let ghost rules_before = texts(rules@);
        let ghost exc_before = flat_map(done, fe);
        proof {
            assert(done.push(raw@) + lines(s@.skip(next as int)) == done + (seq![raw@] + lines(s@.skip(next as int))));
            text::lemma_flat_map_push(done, raw@, fr);
            text::lemma_flat_map_push(done, raw@, fe);
            text::lemma_count_where_push(done, raw@, cs_f);
            text::lemma_count_where_push(done, raw@, cc_f);
            text::lemma_count_where_push(done, raw@, cu_f);
            text::lemma_count_where_bound(done, cs_f);
            text::lemma_count_where_bound(done, cc_f);
            text::lemma_count_where_bound(done, cu_f);
            done = done.push(raw@);
            assert(rules_before + Seq::<Seq<char>>::empty() == rules_before);
            assert(exc_before + Seq::<Seq<char>>::empty() == exc_before);
            lemma_markers();
        }
        pos = next;
        if line.len() == 0 || line[0] == '!' || line[0] == '#' {
            continue;
        }
        if text::starts_with(line, "@@||") {
            let rest = slice_subrange(line, 4, line.len());
            proof {
                assert(rest@ == line@.skip(4));
                lemma_marker_split(line@);
            }
            if let Some(domain) = adblock_rule_domain(text::part_before(rest, '$')) {
                proof {
                    lemma_to_set_push(exc_before, domain@);
                }
                exceptions.insert(domain);
            }
            continue;
        }
        if text::starts_with(line, "||") {
            let rest = slice_subrange(line, 2, line.len());
            assert(rest@ == line@.skip(2));
            if is_site_scoped(rest) {
                scoped = scoped + 1;
                continue;
            }
            match adblock_rule_domain(text::part_before(rest, '$')) {
                Some(domain) => {
                    proof {
                        text::lemma_texts_push(rules@, domain);
                        assert(rules_before + seq![domain@] == rules_before.push(domain@));
                    }
                    rules.push(domain);
                },
                None => {
                    unsupported = unsupported + 1;
                },
            }
            continue;
        }
        if adblock_syntax_chars(line) {
            if cosmetic_chars(line) {
                cosmetic = cosmetic + 1;
            } else {
                unsupported = unsupported + 1;
            }
        }
    }
    assert(s@.skip(s@.len() as int) == Seq::<char>::empty());
    assert(done + lines(Seq::<char>::empty()) == done);
    let exception_count: usize = exceptions.len();
    let domains = without(&rules, &exceptions);
    proof {
        let keep = |d: Seq<char>| !adblock_exceptions(content@).contains(d);
        let keep2 = |d: Seq<char>| !exceptions@.contains(d);
        assert(keep =~= keep2);
        texts(rules@).lemma_filter_len(keep2);
    }
    let removed: usize = rules.len() - domains.len();
    let stats = AdblockStats {
        kept: domains.len(),
        exceptions: exception_count,
        unblocked_by_exception: removed,
        scoped_skipped: scoped,
        cosmetic_skipped: cosmetic,
        unsupported_skipped: unsupported,
    };
    (domains, stats)
}

/// The items that are not in the set, in order.
fn without(items: &Vec<String>, set: &StringHashSet) -> (r: Vec<String>)
    ensures
        texts(r@) == texts(items@).filter(|d: Seq<char>| !set@.contains(d)),
        r@.len() <= items@.len(),
{
    let mut out: Vec<String> = Vec::new();
    let mut i: usize = 0;
    let ghost keep = |d: Seq<char>| !set@.contains(d);
    assert(texts(items@.take(0)).filter(keep) == Seq::<Seq<char>>::empty()) by {
        reveal(Seq::filter);
    }
    while i < items.len()
        invariant
            i <= items@.len(),
            keep == (|d: Seq<char>| !set@.contains(d)),
            texts(out@) == texts(items@.take(i as int)).filter(keep),
            out@.len() <= i,
        decreases items@.len() - i,
    {
        let ghost pre = texts(items@.take(i as int));
        proof {
            assert(texts(items@.take(i + 1)) == pre.push(items@[i as int]@));
            text::lemma_filter_push(pre, items@[i as int]@, keep);
        }
        if !set.contains(items[i].as_str()) {
            let d = items[i].clone();
            proof {
                text::lemma_texts_push(out@, d);
            }
            out.push(d);
        }
        i = i + 1;
    }
    assert(items@.take(items@.len() as int) == items@);
    out
}

proof fn lemma_to_set_push(v: Seq<Seq<char>>, d: Seq<char>)
    ensures
        (v + seq![d]).to_set() == v.to_set().insert(d),
{
    let w = v + seq![d];
    assert forall|x: Seq<char>| w.to_set().contains(x) == v.to_set().insert(d).contains(x) by {
        if v.contains(x) {
            let i = choose|i: int| 0 <= i < v.len() && v[i] == x;
            assert(w[i] == x);
        }
        if x == d {
            assert(w[v.len() as int] == x);
        }
    }
}

proof fn lemma_markers()
    ensures
        "@@||"@ == seq!['@', '@', '|', '|'],
        "||"@ == seq!['|', '|'],
{
    reveal_strlit("@@||");
    reveal_strlit("||");
    assert("@@||"@ =~= seq!['@', '@', '|', '|']);
    assert("||"@ =~= seq!['|', '|']);
}

/// A line with the marker of an exception is not a block rule.
proof fn lemma_marker_split(line: Seq<char>)
    requires
        "@@||"@.is_prefix_of(line),
    ensures
        !"||"@.is_prefix_of(line),
{
    lemma_markers();
    assert(line[0] == "@@||"@[0]);
    if "||"@.is_prefix_of(line) {
        assert(line[0] == "||"@[0]);
    }
}

/// Parses an Adblock-style filter list as an allow list: the exception rules are
/// its entries, and block rules add nothing.
pub fn parse_adblock_exceptions(content: &str) -> (r: (Vec<String>, AdblockStats))
    ensures
        texts(r.0@) == adblock_allowed(content@),
        allow_stats(content@, r.1),
{
    let cs = text::chars_of(content);
    let s = cs.as_slice();
    let mut domains: Vec<String> = Vec::new();
    let mut seen: usize = 0;
    let mut scoped: usize = 0;
    let mut cosmetic: usize = 0;
    let mut unsupported: usize = 0;
    let mut pos: usize = 0;
    let ghost fr = |l: Seq<char>| unscoped_domain(exception_body(l));
    let ghost ce_f = |l: Seq<char>| exception_body(l) is Some;
    let ghost cs_f = |l: Seq<char>| scoped_body(exception_body(l));
    let ghost cc_f = |l: Seq<char>| other_syntax(l, exception_body(l) is Some) && cosmetic_marker(trim(l));
    let ghost cu_f = |l: Seq<char>|
        undomained_body(exception_body(l)) || (other_syntax(l, exception_body(l) is Some) && !cosmetic_marker(trim(l)));
    let ghost mut done: Seq<Seq<char>> = seq![];
    assert(s@.skip(0) == s@);
    assert(done + lines(s@) == lines(s@));
    while pos < s.len()
        invariant
            pos <= s@.len(),
            s@ == content@,
            fr == (|l: Seq<char>| unscoped_domain(exception_body(l))),
            ce_f == (|l: Seq<char>| exception_body(l) is Some),
            cs_f == (|l: Seq<char>| scoped_body(exception_body(l))),
            cc_f == (|l: Seq<char>| other_syntax(l, exception_body(l) is Some) && cosmetic_marker(trim(l))),
            cu_f == (|l: Seq<char>|
                undomained_body(exception_body(l)) || (other_syntax(l, exception_body(l) is Some) && !cosmetic_marker(
                    trim(l),
                ))),
            lines(s@) == done + lines(s@.skip(pos as int)),
            done.len() <= pos,
            texts(domains@) == flat_map(done, fr),
            seen == count_where(done, ce_f),
            scoped == count_where(done, cs_f),
            cosmetic == count_where(done, cc_f),
            unsupported == count_where(done, cu_f),
        decreases s@.len() - pos,
    {
        let (end, next) = text::next_line(s, pos);
        let raw = slice_subrange(s, pos, end);
        let line = text::trimmed(raw);
        let ghost rules_before = texts(domains@);
        proof {
            assert(done.push(raw@) + lines(s@.skip(next as int)) == done + (seq![raw@] + lines(s@.skip(next as int))));
            text::lemma_flat_map_push(done, raw@, fr);
            text::lemma_count_where_push(done, raw@, ce_f);
            text::lemma_count_where_push(done, raw@, cs_f);
            text::lemma_count_where_push(done, raw@, cc_f);
            text::lemma_count_where_push(done, raw@, cu_f);
            text::lemma_count_where_bound(done, ce_f);
            text::lemma_count_where_bound(done, cs_f);
            text::lemma_count_where_bound(done, cc_f);
            text::lemma_count_where_bound(done, cu_f);
            done = done.push(raw@);
            assert(rules_before + Seq::<Seq<char>>::empty() == rules_before);
            lemma_markers();
        }
        pos = next;
        if line.len() == 0 || line[0] == '!' || line[0] == '#' {
            continue;
        }
        if text::starts_with(line, "@@||") {
            seen = seen + 1;
            let rest = slice_subrange(line, 4, line.len());
            assert(rest@ == line@.skip(4));
            if is_site_scoped(rest) {
                scoped = scoped + 1;
                continue;
            }
            match adblock_rule_domain(text::part_before(rest, '$')) {
                Some(domain) => {
                    proof {
                        text::lemma_texts_push(domains@, domain);
                        assert(rules_before + seq![domain@] == rules_before.push(domain@));
                    }
                    domains.push(domain);
                },
                None => {
                    unsupported = unsupported + 1;
                },
            }
            continue;
        }
        if adblock_syntax_chars(line) {
            if cosmetic_chars(line) {
                cosmetic = cosmetic + 1;
            } else {
                unsupported = unsupported + 1;
            }
        }
    }
    assert(s@.skip(s@.len() as int) == Seq::<char>::empty());
    assert(done + lines(Seq::<char>::empty()) == done);
    let stats = AdblockStats {
        kept: domains.len(),
        exceptions: seen,
        unblocked_by_exception: 0,
        scoped_skipped: scoped,
        cosmetic_skipped: cosmetic,
        unsupported_skipped: unsupported,
    };
    (domains, stats)
}

}

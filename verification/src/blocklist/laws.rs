//! What holds of the block decisions as a whole.
use vstd::prelude::*;
use vstd::string::*;
use vstd::utf8::encode_utf8;

use crate::blocklist::engine::{
    block_sources, blocked_in, exemption, first_list, first_wild, list_match, list_source, list_sources, local_infra,
    profile_allows, profile_blocks, should_block, whitelisted_for, wild_sources, wildcard_source, BlocklistView,
    ProfileView,
};
use crate::blocklist::matching::wild_hit;
use crate::blocklist::parser::{
    adblock_domains, adblock_exceptions, adblock_rules, adblock_stats, adblock_syntax, block_body, domain_char,
    exception_line, plain_line, unscoped_domain, valid_domain, AdblockStats,
};
use crate::blocklist::refresh::sanitized;
use crate::blocklist::store::{stored_keys, StoredList};
use crate::blocklist::suffix;
use crate::blocklist::suffix::{matched_by, matched_in, matched_in_bytes, parent_of, registrable};
use crate::blocklist::wildcard::{wildcard_expression, wildcard_matches};
use crate::config::ListConfig;
use crate::text;
use crate::text::{flat_map, lines, lower, position, strip_cr, trim};

verus! {

/// What a profile allows is never blocked for its clients; of the rest, what it
/// blocks is blocked even if it is exempt; of the rest, what is exempt is not
/// blocked; of the rest, a denying profile blocks all but local names; and what
/// then remains is blocked exactly if the block rules cover it.
pub proof fn decision_precedence(v: BlocklistView, d: Seq<char>, p: ProfileView)
    ensures
        profile_allows(p, d) ==> !should_block(v, d, Some(p)),
        !profile_allows(p, d) && profile_blocks(p, d) ==> should_block(v, d, Some(p)),
        !profile_allows(p, d) && !profile_blocks(p, d) && whitelisted_for(v, d, Some(p)) ==> !should_block(
            v,
            d,
            Some(p),
        ),
        !profile_allows(p, d) && !profile_blocks(p, d) && !whitelisted_for(v, d, Some(p)) && p.default_deny
            && !local_infra(v, d) ==> should_block(v, d, Some(p)),
        !profile_allows(p, d) && !profile_blocks(p, d) && !whitelisted_for(v, d, Some(p)) && (!p.default_deny
            || local_infra(v, d)) ==> should_block(v, d, Some(p)) == blocked_in(v, d, p.fst),
{
}

/// Without a profile a domain is blocked exactly if the block rules cover it and
/// no exemption does.
pub proof fn decision_without_profile(v: BlocklistView, d: Seq<char>)
    ensures
        should_block(v, d, None) == (blocked_in(v, d, v.fst) && !whitelisted_for(v, d, None)),
{
}

/// Exempting a domain exempts every name below it, whatever blocks that name,
/// unless the domain is a public suffix.
pub proof fn exempting_covers_subdomains(v: BlocklistView, d: Seq<char>, parent: Seq<char>)
    requires
        v.whitelist.contains(parent),
        d == parent || (parent_of(parent, d) && registrable(parent)),
    ensures
        !should_block(v, d, None),
{
    suffix::matched_by_covers(d, |k: Seq<char>| v.whitelist.contains(k));
}

/// Blocking a domain by hand blocks every name below it that is not exempt,
/// unless the domain is a public suffix.
pub proof fn blocking_covers_subdomains(v: BlocklistView, d: Seq<char>, parent: Seq<char>)
    requires
        v.blacklist.contains(parent),
        d == parent || (parent_of(parent, d) && registrable(parent)),
    ensures
        should_block(v, d, None) == !whitelisted_for(v, d, None),
{
    suffix::matched_by_covers(d, |k: Seq<char>| v.blacklist.contains(k));
}

/// A list entry for a domain blocks every name below it that is not exempt, unless
/// the domain is a public suffix.
pub proof fn listing_covers_subdomains(v: BlocklistView, d: Seq<char>, parent: Seq<char>)
    requires
        v.fst.contains(encode_utf8(parent)),
        d == parent || (parent_of(parent, d) && registrable(parent)),
    ensures
        should_block(v, d, None) == !whitelisted_for(v, d, None),
{
    suffix::matched_by_covers(d, |k: Seq<char>| v.fst.contains(encode_utf8(k)));
}

/// An entry for a public suffix covers that name alone and nothing below it.
pub proof fn public_suffix_covers_itself_only(suffix: Seq<char>, d: Seq<char>)
    requires
        !registrable(suffix),
        d != suffix,
    ensures
        matched_in(d, set![suffix]) is None,
{
    let f = |k: Seq<char>| set![suffix].contains(k);
    suffix::matched_by_covers(d, f);
    assert(matched_in(d, set![suffix]) == matched_by(d, f));
    if matched_by(d, f) is Some {
        assert(f(matched_by(d, f)->0));
    }
}

/// A key set covers whatever a part of it covers.
pub proof fn covering_is_monotone(d: Seq<char>, a: Set<Seq<u8>>, b: Set<Seq<u8>>)
    requires
        a.subset_of(b),
    ensures
        matched_in_bytes(d, a) is Some ==> matched_in_bytes(d, b) is Some,
{
    let fa = |k: Seq<char>| a.contains(encode_utf8(k));
    let fb = |k: Seq<char>| b.contains(encode_utf8(k));
    suffix::matched_by_covers(d, fa);
    suffix::matched_by_covers(d, fb);
    if matched_by(d, fa) is Some {
        let k = matched_by(d, fa)->0;
        assert(fa(k));
        assert(fb(k));
        if k != d {
            assert(parent_of(k, d) && registrable(k) && fb(k));
        }
    }
}

proof fn lemma_flat_map_nonempty<A, B>(items: Seq<A>, f: spec_fn(A) -> Seq<B>)
    ensures
        flat_map(items, f).len() > 0 <==> exists|i: int| 0 <= i < items.len() && f(#[trigger] items[i]).len() > 0,
    decreases items.len(),
{
    if items.len() > 0 {
        let t = items.drop_last();
        lemma_flat_map_nonempty(t, f);
        if exists|i: int| 0 <= i < t.len() && f(#[trigger] t[i]).len() > 0 {
            let i = choose|i: int| 0 <= i < t.len() && f(#[trigger] t[i]).len() > 0;
            assert(f(items[i]).len() > 0);
        }
        if f(items.last()).len() > 0 {
            assert(f(items[items.len() - 1]).len() > 0);
        }
        if exists|i: int| 0 <= i < items.len() && f(#[trigger] items[i]).len() > 0 {
            let i = choose|i: int| 0 <= i < items.len() && f(#[trigger] items[i]).len() > 0;
            if i < t.len() {
                assert(f(t[i]).len() > 0);
            }
        }
    }
}

proof fn lemma_first_wild(pats: Seq<Seq<char>>, d: Seq<char>)
    ensures
        first_wild(pats, d) is Some <==> wild_hit(pats, d),
    decreases pats.len(),
{
    if pats.len() > 0 {
        let t = pats.skip(1);
        lemma_first_wild(t, d);
        if wildcard_matches(pats[0], d) {
            assert(wild_hit(pats, d));
        }
        if wild_hit(t, d) {
            let i = choose|i: int| 0 <= i < t.len() && wildcard_matches(#[trigger] t[i], d);
            assert(wildcard_matches(pats[i + 1], d));
        }
        if wild_hit(pats, d) {
            let i = choose|i: int| 0 <= i < pats.len() && wildcard_matches(#[trigger] pats[i], d);
            if i > 0 {
                assert(wildcard_matches(t[i - 1], d));
            }
        }
    }
}

/// The file of every enabled list holds no name that the merged lists lack.
pub open spec fn merged_covers_files(lists: Seq<ListConfig>, files: Seq<StoredList>, merged: Set<Seq<u8>>) -> bool {
    forall|i: int|
        #![trigger lists[i]]
        0 <= i < lists.len() && lists[i].enabled && stored_keys(files, sanitized(lists[i].name@)) is Some
            ==> stored_keys(files, sanitized(lists[i].name@))->0.subset_of(merged)
}

proof fn lemma_first_list(lists: Seq<ListConfig>, d: Seq<char>, files: Seq<StoredList>, merged: Set<Seq<u8>>)
    requires
        merged_covers_files(lists, files, merged),
    ensures
        first_list(lists, d, files) is Some ==> matched_in_bytes(d, merged) is Some,
    decreases lists.len(),
{
    if lists.len() > 0 {
        if list_match(lists[0], d, files) is Some {
            covering_is_monotone(d, stored_keys(files, sanitized(lists[0].name@))->0, merged);
        } else {
            let t = lists.skip(1);
            assert forall|i: int|
                #![trigger t[i]]
                0 <= i < t.len() && t[i].enabled && stored_keys(files, sanitized(t[i].name@)) is Some implies stored_keys(
                files,
                sanitized(t[i].name@),
            )->0.subset_of(merged) by {
                assert(t[i] == lists[i + 1]);
            }
            lemma_first_list(t, d, files, merged);
        }
    }
}

/// The explanation of a domain agrees with the decision: an exemption is reported
/// exactly if the domain is exempt, a source exactly if the block rules cover it,
/// and so the domain is reported as blocked exactly if it is blocked for clients
/// without a profile. This holds while the merged lists hold what the lists' own
/// files hold.
pub proof fn explanation_agrees_with_decision(
    v: BlocklistView,
    d: Seq<char>,
    block_files: Seq<StoredList>,
    allow_files: Seq<StoredList>,
)
    requires
        merged_covers_files(v.lists, block_files, v.fst),
        merged_covers_files(v.allow_lists, allow_files, v.allow_fst),
    ensures
        exemption(v, d, allow_files) is Some <==> whitelisted_for(v, d, None),
        block_sources(v, d, block_files).len() > 0 <==> blocked_in(v, d, v.fst),
        (exemption(v, d, allow_files) is None && block_sources(v, d, block_files).len() > 0) == should_block(v, d, None),
{
    lemma_first_wild(v.whitelist_wild, d);
    lemma_first_list(v.allow_lists, d, allow_files, v.allow_fst);
    lemma_wild_sources(v.blacklist_wild, false, d);
    lemma_wild_sources(v.wildcard_block, true, d);
    let f = |l: ListConfig| list_source(l, d, block_files);
    lemma_flat_map_nonempty(v.lists, f);
    let by_list = flat_map(v.lists, f);
    if by_list.len() > 0 {
        let i = choose|i: int| 0 <= i < v.lists.len() && f(#[trigger] v.lists[i]).len() > 0;
        assert(list_match(v.lists[i], d, block_files) is Some);
        covering_is_monotone(d, stored_keys(block_files, sanitized(v.lists[i].name@))->0, v.fst);
    }
    assert(list_sources(v, d, block_files).len() > 0 <==> matched_in_bytes(d, v.fst) is Some);
}

proof fn lemma_wild_sources(pats: Seq<Seq<char>>, as_expression: bool, d: Seq<char>)
    ensures
        wild_sources(pats, as_expression, d).len() > 0 <==> wild_hit(pats, d),
{
    let f = |p: Seq<char>|
        wildcard_source(
            p,
            if as_expression {
                wildcard_expression(p)
            } else {
                p
            },
            d,
        );
    lemma_flat_map_nonempty(pats, f);
    if wild_hit(pats, d) {
        let i = choose|i: int| 0 <= i < pats.len() && wildcard_matches(#[trigger] pats[i], d);
        assert(f(pats[i]).len() > 0);
    }
    if wild_sources(pats, as_expression, d).len() > 0 {
        let i = choose|i: int| 0 <= i < pats.len() && f(#[trigger] pats[i]).len() > 0;
        assert(wildcard_matches(pats[i], d));
    }
}

/// A filter list never blocks a domain that it exempts itself, and blocks every
/// other domain that it has a rule for.
pub proof fn own_exceptions_win(content: Seq<char>, d: Seq<char>)
    ensures
        adblock_domains(content).contains(d) <==> adblock_rules(content).contains(d) && !adblock_exceptions(
            content,
        ).contains(d),
{
    let f = |x: Seq<char>| !adblock_exceptions(content).contains(x);
    let rules = adblock_rules(content);
    broadcast use {Seq::lemma_filter_pred, Seq::lemma_filter_contains};

    let kept = rules.filter(f);
    if kept.contains(d) {
        let i = choose|i: int| 0 <= i < kept.len() && kept[i] == d;
        assert(f(kept[i]));
        lemma_filter_sub(rules, f, d);
    }
    if rules.contains(d) && f(d) {
        let i = choose|i: int| 0 <= i < rules.len() && rules[i] == d;
        assert(kept.contains(rules[i]));
    }
}

proof fn lemma_filter_sub<A>(s: Seq<A>, f: spec_fn(A) -> bool, x: A)
    ensures
        s.filter(f).contains(x) ==> s.contains(x),
    decreases s.len(),
{
    reveal(Seq::filter);
    if s.len() > 0 && s.filter(f).contains(x) {
        let t = s.drop_last();
        lemma_filter_sub(t, f, x);
        let i = choose|i: int| 0 <= i < s.filter(f).len() && s.filter(f)[i] == x;
        if i < t.filter(f).len() {
            assert(t.filter(f)[i] == x);
            assert(t.contains(x));
            let j = choose|j: int| 0 <= j < t.len() && t[j] == x;
            assert(s[j] == x);
        } else {
            assert(s[s.len() - 1] == x);
        }
    }
}

/// The line with which a filter list exempts a domain.
pub open spec fn exempting_line(g: Seq<char>) -> Seq<char> {
    "@@||"@ + g + seq!['^']
}

/// A function of lines to which neither empty lines nor carriage returns at the end of
/// a line matter.
pub open spec fn reads_lines<B>(f: spec_fn(Seq<char>) -> Seq<B>) -> bool {
    &&& f(Seq::empty()) == Seq::<B>::empty()
    &&& forall|l: Seq<char>| f(#[trigger] strip_cr(l)) == f(l)
}

pub proof fn lemma_last_line<B>(c: Seq<char>, x: Seq<char>, f: spec_fn(Seq<char>) -> Seq<B>)
    requires
        reads_lines(f),
        x.len() > 0,
        !x.contains('\n'),
    ensures
        flat_map(lines(c + seq!['\n'] + x), f) == flat_map(lines(c), f) + f(x),
    decreases c.len(),
{
    let all = c + seq!['\n'] + x;
    text::lemma_position(c, '\n');
    text::lemma_position(x, '\n');
    if c.contains('\n') {
        let p = position(c, '\n') as int;
        let rest = c.skip(p + 1);
        assert forall|j: int| 0 <= j < p implies #[trigger] all[j] != '\n' by {
            assert(all[j] == c[j]);
        }
        assert(all[p] == '\n');
        text::lemma_position_is(all, '\n', p);
        assert(all.take(p) =~= c.take(p));
        assert(all.skip(p + 1) =~= rest + seq!['\n'] + x);
        lemma_last_line(rest, x, f);
        let first = seq![strip_cr(c.take(p))];
        text::lemma_flat_map_added(first, lines(rest), f);
        text::lemma_flat_map_added(first, lines(rest + seq!['\n'] + x), f);
        assert(flat_map(lines(all), f) =~= flat_map(lines(c), f) + f(x));
    } else {
        let n = c.len() as int;
        assert forall|j: int| 0 <= j < n implies #[trigger] all[j] != '\n' by {
            assert(all[j] == c[j]);
            assert(c.contains(c[j]));
        }
        assert(all[n] == '\n');
        text::lemma_position_is(all, '\n', n);
        assert(all.take(n) =~= c);
        assert(all.skip(n + 1) =~= x);
        assert(lines(x) =~= seq![x]);
        let a = Seq::<Seq<char>>::empty().push(strip_cr(c));
        assert(lines(all) =~= a.push(x));
        text::lemma_flat_map_push(a, x, f);
        text::lemma_flat_map_push(Seq::<Seq<char>>::empty(), strip_cr(c), f);
        assert(flat_map(Seq::<Seq<char>>::empty(), f) =~= Seq::<B>::empty());
        if n == 0 {
            assert(c =~= Seq::<char>::empty());
            assert(lines(c) =~= Seq::<Seq<char>>::empty());
            assert(f(strip_cr(c)) == f(c));
        } else {
            assert(lines(c) =~= Seq::<Seq<char>>::empty().push(c));
            text::lemma_flat_map_push(Seq::<Seq<char>>::empty(), c, f);
            assert(f(strip_cr(c)) == f(c));
        }
        assert(flat_map(lines(all), f) =~= flat_map(lines(c), f) + f(x));
    }
}

proof fn lemma_first_line<B>(c: Seq<char>, x: Seq<char>, f: spec_fn(Seq<char>) -> Seq<B>)
    requires
        reads_lines(f),
        !x.contains('\n'),
    ensures
        flat_map(lines(x + seq!['\n'] + c), f) == f(x) + flat_map(lines(c), f),
{
    let all = x + seq!['\n'] + c;
    let n = x.len() as int;
    assert forall|j: int| 0 <= j < n implies #[trigger] all[j] != '\n' by {
        assert(all[j] == x[j]);
        assert(x.contains(x[j]));
    }
    assert(all[n] == '\n');
    text::lemma_position_is(all, '\n', n);
    assert(all.take(n) =~= x);
    assert(all.skip(n + 1) =~= c);
    let a = Seq::<Seq<char>>::empty().push(strip_cr(x));
    assert(lines(all) =~= a + lines(c));
    text::lemma_flat_map_added(a, lines(c), f);
    text::lemma_flat_map_push(Seq::<Seq<char>>::empty(), strip_cr(x), f);
    assert(f(strip_cr(x)) == f(x));
    assert(flat_map(a, f) =~= f(x));
}

/// A carriage return at the end of a line is trimmed away.
pub proof fn lemma_trim_strip_cr(l: Seq<char>)
    ensures
        trim(strip_cr(l)) == trim(l),
{
    if l.len() > 0 && l.last() == '\r' {
        assert(l =~= strip_cr(l).push('\r'));
        text::lemma_trim_push_ws(strip_cr(l), '\r');
    }
}

proof fn lemma_rule_lines()
    ensures
        reads_lines(|l: Seq<char>| exception_line(l)),
        reads_lines(|l: Seq<char>| unscoped_domain(block_body(l))),
{
    let fe = |l: Seq<char>| exception_line(l);
    let fr = |l: Seq<char>| unscoped_domain(block_body(l));
    assert forall|l: Seq<char>| fe(#[trigger] strip_cr(l)) == fe(l) && fr(strip_cr(l)) == fr(l) by {
        lemma_trim_strip_cr(l);
    }
    assert(trim(Seq::<char>::empty()).len() == 0);
    assert(fe(Seq::empty()) =~= Seq::<Seq<char>>::empty());
    assert(fr(Seq::empty()) =~= Seq::<Seq<char>>::empty());
}

/// What an exempting line says.
proof fn lemma_exempting_line(g: Seq<char>)
    requires
        valid_domain(g),
        forall|i: int| 0 <= i < g.len() ==> !('A' <= #[trigger] g[i] && g[i] <= 'Z'),
    ensures
        exception_line(exempting_line(g)) == seq![g],
        unscoped_domain(block_body(exempting_line(g))) == Seq::<Seq<char>>::empty(),
        !exempting_line(g).contains('\n'),
{
    reveal_strlit("@@||");
    reveal_strlit("||");
    let x = exempting_line(g);
    let b = g + seq!['^'];
    assert(x[0] == '@' && x.last() == '^');
    text::lemma_trimmed(x);
    assert("@@||"@ =~= x.take(4));
    assert(x.skip(4) =~= b);
    if "||"@.is_prefix_of(x) {
        assert("||"@[0] == x[0]);
    }
    assert forall|i: int| 0 <= i < g.len() implies #[trigger] g[i] != '^' && g[i] != '/' && g[i] != '\n' by {
        assert(domain_char(g[i]));
    }
    assert forall|i: int| 0 <= i < g.len() implies #[trigger] b[i] != '^' by {
        assert(b[i] == g[i]);
    }
    assert(b[g.len() as int] == '^');
    text::lemma_position_is(b, '^', g.len() as int);
    assert(b.take(g.len() as int) =~= g);
    assert forall|i: int| 0 <= i < b.len() implies #[trigger] b[i] != '$' by {
        if i < g.len() {
            assert(b[i] == g[i] && domain_char(g[i]));
        }
    }
    text::lemma_position_is(b, '$', b.len() as int);
    assert(text::before(b, '$') =~= b);
    assert(domain_char(g[0]) && domain_char(g.last()));
    text::lemma_trimmed(g);
    assert(lower(g) =~= g) by {
        assert forall|i: int| 0 <= i < g.len() implies #[trigger] lower(g)[i] == g[i] by {
            assert(lower(g)[i] == text::lower_char(g[i]));
        }
    }
    assert forall|i: int| 0 <= i < x.len() implies #[trigger] x[i] != '\n' by {
        if 4 <= i < 4 + g.len() {
            assert(x[i] == g[i - 4]);
        }
    }
}

proof fn lemma_filter_twice<A>(s: Seq<A>, f: spec_fn(A) -> bool, g: spec_fn(A) -> bool, h: spec_fn(A) -> bool)
    requires
        forall|x: A| #[trigger] h(x) == (f(x) && g(x)),
    ensures
        s.filter(h) == s.filter(f).filter(g),
    decreases s.len(),
{
    if s.len() == 0 {
        assert(s.filter(h) =~= s.filter(f).filter(g)) by {
            reveal(Seq::filter);
        }
    } else {
        let t = s.drop_last();
        let x = s.last();
        lemma_filter_twice(t, f, g, h);
        assert(s =~= t.push(x));
        text::lemma_filter_push(t, x, f);
        text::lemma_filter_push(t, x, h);
        text::lemma_filter_push(t.filter(f), x, g);
        assert(h(x) == (f(x) && g(x)));
    }
}

/// An exception that is added to a filter list, at its end or at its start, takes that
/// domain out of what the list blocks and nothing else: subdomains stay, the order
/// stays, and what the list blocks and what its exceptions cancel are together as many
/// rules as before. The domain is valid and holds no upper-case ASCII letter.
pub proof fn added_exceptions_remove_their_domain(c: Seq<char>, g: Seq<char>, after_it: bool)
    requires
        valid_domain(g),
        forall|i: int| 0 <= i < g.len() ==> !('A' <= #[trigger] g[i] && g[i] <= 'Z'),
    ensures
        ({
            let d = if after_it {
                c + seq!['\n'] + exempting_line(g)
            } else {
                exempting_line(g) + seq!['\n'] + c
            };
            &&& adblock_domains(d) == adblock_domains(c).filter(|x: Seq<char>| x != g)
            &&& adblock_rules(d) == adblock_rules(c)
            &&& forall|s: AdblockStats, t: AdblockStats|
                #![trigger adblock_stats(c, s), adblock_stats(d, t)]
                adblock_stats(c, s) && adblock_stats(d, t) ==> s.kept + s.unblocked_by_exception == t.kept
                    + t.unblocked_by_exception
        }),
{
    let x = exempting_line(g);
    let d = if after_it {
        c + seq!['\n'] + x
    } else {
        x + seq!['\n'] + c
    };
    let fe = |l: Seq<char>| exception_line(l);
    let fr = |l: Seq<char>| unscoped_domain(block_body(l));
    lemma_rule_lines();
    lemma_exempting_line(g);
    if after_it {
        lemma_last_line(c, x, fe);
        lemma_last_line(c, x, fr);
    } else {
        lemma_first_line(c, x, fe);
        lemma_first_line(c, x, fr);
    }
    assert(adblock_rules(d) =~= adblock_rules(c));
    let old_list = flat_map(lines(c), fe);
    let new_list = flat_map(lines(d), fe);
    assert forall|y: Seq<char>| adblock_exceptions(d).contains(y) == (adblock_exceptions(c).contains(y) || y == g) by {
        assert(adblock_exceptions(d).contains(y) == new_list.contains(y));
        assert(adblock_exceptions(c).contains(y) == old_list.contains(y));
        if after_it {
            assert(new_list == old_list + seq![g]);
            assert(new_list[old_list.len() as int] == g);
        } else {
            assert(new_list == seq![g] + old_list);
            assert(new_list[0] == g);
        }
        if old_list.contains(y) {
            let i = choose|i: int| 0 <= i < old_list.len() && old_list[i] == y;
            if after_it {
                assert(new_list[i] == y);
            } else {
                assert(new_list[i + 1] == y);
            }
        }
        if new_list.contains(y) && y != g {
            let i = choose|i: int| 0 <= i < new_list.len() && new_list[i] == y;
            if after_it {
                assert(old_list[i] == y);
            } else {
                assert(old_list[i - 1] == y);
            }
        }
    }
    let f = |y: Seq<char>| !adblock_exceptions(c).contains(y);
    let h = |y: Seq<char>| !adblock_exceptions(d).contains(y);
    let k = |y: Seq<char>| y != g;
    lemma_filter_twice(adblock_rules(c), f, k, h);
}

/// A line in filter syntax never yields a domain of a plain list.
pub proof fn filter_syntax_is_never_plain(line: Seq<char>)
    requires
        adblock_syntax(trim(line)),
    ensures
        plain_line(line).len() == 0,
{
}

/// Exempting a domain and taking that back leaves the exemptions as they were.
pub proof fn exemption_round_trip(v: BlocklistView, d: Seq<char>)
    requires
        !v.whitelist.contains(d),
    ensures
        v.whitelist.insert(d).remove(d) == v.whitelist,
{
    assert(v.whitelist.insert(d).remove(d) =~= v.whitelist);
}

/// A pattern without a star matches itself alone.
pub proof fn literal_patterns_match_themselves(pattern: Seq<char>, t: Seq<char>)
    requires
        !pattern.contains('*'),
    ensures
        wildcard_matches(pattern, t) == (pattern == t),
    decreases pattern.len(),
{
    if pattern.len() > 0 {
        assert(pattern[0] != '*') by {
            assert(pattern.contains(pattern[0]));
        }
        let p = pattern.skip(1);
        if t.len() > 0 {
            let u = t.skip(1);
            if p.contains('*') {
                let i = choose|i: int| 0 <= i < p.len() && p[i] == '*';
                assert(pattern[i + 1] == '*');
            }
            literal_patterns_match_themselves(p, u);
            if pattern[0] == t[0] && p == u {
                assert(pattern =~= seq![pattern[0]] + p);
                assert(t =~= seq![t[0]] + u);
            }
        }
    } else {
        assert(pattern == t <==> t.len() == 0) by {
            if t.len() == 0 {
                assert(pattern =~= t);
            }
        }
    }
}

/// Nothing before the last `n` characters of a text is a line break.
pub open spec fn one_line_before(t: Seq<char>, n: nat) -> bool {
    forall|i: int| 0 <= i < t.len() - n ==> #[trigger] t[i] != '\n'
}

/// A pattern with a star at its start only, such as `*.example.com`, matches the texts
/// that end in the rest of it.
pub proof fn leading_stars_match_endings(ending: Seq<char>, t: Seq<char>)
    requires
        !ending.contains('*'),
    ensures
        wildcard_matches(seq!['*'] + ending, t) == (ending.is_suffix_of(t) && one_line_before(t, ending.len())),
    decreases t.len(),
{
    let pattern = seq!['*'] + ending;
    assert(pattern.skip(1) =~= ending);
    literal_patterns_match_themselves(ending, t);
    if t.len() > 0 {
        let u = t.skip(1);
        leading_stars_match_endings(ending, u);
        if ending.len() < t.len() {
            let at = t.len() - ending.len();
            assert(t.subrange(at, t.len() as int) =~= u.subrange(at - 1, u.len() as int));
            assert(ending.is_suffix_of(t) == ending.is_suffix_of(u));
            if one_line_before(t, ending.len()) {
                assert(t[0] != '\n');
                assert forall|i: int| 0 <= i < u.len() - ending.len() implies #[trigger] u[i] != '\n' by {
                    assert(t[i + 1] != '\n');
                }
            }
            if t[0] != '\n' && one_line_before(u, ending.len()) {
                assert forall|i: int| 0 <= i < t.len() - ending.len() implies #[trigger] t[i] != '\n' by {
                    if i > 0 {
                        assert(u[i - 1] != '\n');
                    }
                }
            }
        } else if ending.len() == t.len() {
            assert(t.subrange(0, t.len() as int) =~= t);
        }
    } else {
        assert(t.subrange(0, 0) =~= t);
    }
}

}

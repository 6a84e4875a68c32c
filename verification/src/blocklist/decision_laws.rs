//! What the configuration means for the block decisions, entry by entry.
use vstd::prelude::*;
use vstd::string::*;
use vstd::utf8::encode_utf8;

use crate::blocklist::engine::{
    blocked_in, compiled_patterns, exact_entries, exact_patterns, explicitly_allowed, initial_view, local_infra,
    profile_of, serves, should_block, whitelisted_for, wild_patterns, with_profiles, BlocklistView,
};
use crate::blocklist::matching::wild_hit;
use crate::blocklist::refresh::sanitized;
use crate::blocklist::store::StoredList;
use crate::blocklist::suffix;
use crate::blocklist::suffix::{
    matched_by, matched_in, matched_in_bytes, normalised, parent_of, public_suffix_len, registrable,
};
use crate::blocklist::wildcard::{regex_language, wildcard_expression, wildcard_matches};
use crate::clients::client_key;
use crate::config::{client_keys, AllowlistConfig, BlocklistConfig, BlocklistProfileConfig};
use crate::text::{flat_map, texts};

verus! {

/// A name and what stands for it in every label above: the name is the entry itself, or
/// the entry follows one of the name's dots and is longer than its public suffix.
pub open spec fn stands_for(entry: Seq<char>, d: Seq<char>) -> bool {
    ||| d == entry
    ||| {
        &&& exists|i: int| 0 <= i < d.len() && #[trigger] d[i] == '.' && entry == d.skip(i + 1)
        &&& match public_suffix_len(encode_utf8(entry)) {
            Some(n) => encode_utf8(entry).len() > n,
            None => true,
        }
    }
}

/// A pattern with a star that is more than stars, and of which an expression can be made.
pub open spec fn usable_pattern(n: Seq<char>) -> bool {
    &&& n.contains('*')
    &&& exists|i: int| 0 <= i < n.len() && #[trigger] n[i] != '*'
    &&& regex_language(wildcard_expression(n)) is Some
}

/// What one configured entry says of a domain: a pattern matches it, or a name stands
/// for it.
pub open spec fn entry_covers(entry: Seq<char>, d: Seq<char>) -> bool {
    if normalised(entry).contains('*') {
        usable_pattern(normalised(entry)) && wildcard_matches(normalised(entry), d)
    } else {
        normalised(entry).len() > 0 && stands_for(normalised(entry), d)
    }
}

/// One of the configured entries covers the domain.
pub open spec fn some_entry_covers(entries: Seq<String>, d: Seq<char>) -> bool {
    exists|i: int| 0 <= i < entries.len() && entry_covers((#[trigger] entries[i])@, d)
}

/// A file of one of the named lists holds a name that stands for the domain. Of files
/// for the same list the first counts.
pub open spec fn some_file_covers(names: Seq<String>, files: Seq<StoredList>, d: Seq<char>) -> bool {
    exists|i: int, j: int, e: Seq<char>|
        {
            &&& 0 <= i < names.len()
            &&& first_file(files, sanitized((#[trigger] names[i])@), j)
            &&& (#[trigger] files[j]).keys.contains(#[trigger] encode_utf8(e))
            &&& stands_for(e, d)
        }
}

/// The first file with this name.
pub open spec fn first_file(files: Seq<StoredList>, stem: Seq<char>, j: int) -> bool {
    &&& 0 <= j < files.len()
    &&& files[j].stem == stem
    &&& forall|k: int| 0 <= k < j ==> (#[trigger] files[k]).stem != stem
}

/// A name in a set stands for the domain.
pub open spec fn some_name_covers(names: Set<Seq<char>>, d: Seq<char>) -> bool {
    exists|e: Seq<char>| #[trigger] names.contains(e) && stands_for(e, d)
}

/// An encoded name in a set stands for the domain.
pub open spec fn some_key_covers(keys: Set<Seq<u8>>, d: Seq<char>) -> bool {
    exists|e: Seq<char>| keys.contains(#[trigger] encode_utf8(e)) && stands_for(e, d)
}

/// A pattern of a list matches the domain.
pub open spec fn some_pattern_matches(ps: Seq<Seq<char>>, d: Seq<char>) -> bool {
    exists|i: int| 0 <= i < ps.len() && wildcard_matches(#[trigger] ps[i], d)
}

/// The name ends in this label, or is it.
pub open spec fn ends_in(d: Seq<char>, label: Seq<char>) -> bool {
    d == label || exists|i: int| 0 <= i < d.len() && #[trigger] d[i] == '.' && d.skip(i + 1) == label
}

/// Names that a denying profile leaves alone.
pub open spec fn spared(v: BlocklistView, d: Seq<char>) -> bool {
    ||| forall|i: int| 0 <= i < d.len() ==> #[trigger] d[i] != '.'
    ||| ends_in(d, "arpa"@) || ends_in(d, "local"@) || ends_in(d, "localhost"@) || ends_in(d, "localdomain"@)
    ||| ends_in(d, "internal"@) || ends_in(d, "lan"@) || ends_in(d, "home"@)
    ||| exists|i: int| 0 <= i < v.local_zones.len() && ends_in(d, #[trigger] v.local_zones[i])
}

pub proof fn lemma_flat_map_contains<A, B>(items: Seq<A>, f: spec_fn(A) -> Seq<B>, y: B)
    ensures
        flat_map(items, f).contains(y) <==> exists|i: int| 0 <= i < items.len() && f(#[trigger] items[i]).contains(y),
    decreases items.len(),
{
    if items.len() > 0 {
        let t = items.drop_last();
        lemma_flat_map_contains(t, f, y);
        let a = flat_map(t, f);
        let b = f(items.last());
        if a.contains(y) {
            let k = choose|k: int| 0 <= k < a.len() && a[k] == y;
            assert((a + b)[k] == y);
            let i = choose|i: int| 0 <= i < t.len() && f(#[trigger] t[i]).contains(y);
            assert(f(items[i]).contains(y));
        }
        if b.contains(y) {
            let k = choose|k: int| 0 <= k < b.len() && b[k] == y;
            assert((a + b)[a.len() + k] == y);
            assert(f(items[items.len() - 1]).contains(y));
        }
        if (a + b).contains(y) {
            let k = choose|k: int| 0 <= k < (a + b).len() && (a + b)[k] == y;
            if k < a.len() {
                assert(a[k] == y);
            } else {
                assert(b[k - a.len()] == y);
            }
        }
        if exists|i: int| 0 <= i < items.len() && f(#[trigger] items[i]).contains(y) {
            let i = choose|i: int| 0 <= i < items.len() && f(#[trigger] items[i]).contains(y);
            if i < t.len() {
                assert(f(t[i]).contains(y));
            }
        }
    } else {
        assert(flat_map(items, f) =~= Seq::<B>::empty());
    }
}

pub proof fn lemma_matched(d: Seq<char>, f: spec_fn(Seq<char>) -> bool)
    ensures
        matched_by(d, f) is Some <==> exists|e: Seq<char>| #[trigger] f(e) && stands_for(e, d),
{
    suffix::matched_by_covers(d, f);
    if matched_by(d, f) is Some {
        let e = matched_by(d, f)->0;
        assert(f(e) && stands_for(e, d));
    }
    if exists|e: Seq<char>| #[trigger] f(e) && stands_for(e, d) {
        let e = choose|e: Seq<char>| #[trigger] f(e) && stands_for(e, d);
        if d != e {
            assert(parent_of(e, d) && registrable(e));
        }
    }
}

pub proof fn lemma_matched_sets(d: Seq<char>, names: Set<Seq<char>>, keys: Set<Seq<u8>>)
    ensures
        matched_in(d, names) is Some <==> some_name_covers(names, d),
        matched_in_bytes(d, keys) is Some <==> some_key_covers(keys, d),
{
    let f = |k: Seq<char>| names.contains(k);
    let g = |k: Seq<char>| keys.contains(encode_utf8(k));
    lemma_matched(d, f);
    lemma_matched(d, g);
    if some_name_covers(names, d) {
        let e = choose|e: Seq<char>| #[trigger] names.contains(e) && stands_for(e, d);
        assert(f(e));
    }
    if matched_by(d, f) is Some {
        let e = choose|e: Seq<char>| #[trigger] f(e) && stands_for(e, d);
        assert(names.contains(e));
    }
    if some_key_covers(keys, d) {
        let e = choose|e: Seq<char>| keys.contains(#[trigger] encode_utf8(e)) && stands_for(e, d);
        assert(g(e));
    }
    if matched_by(d, g) is Some {
        let e = choose|e: Seq<char>| #[trigger] g(e) && stands_for(e, d);
        assert(keys.contains(encode_utf8(e)));
    }
}

proof fn lemma_usable(n: Seq<char>)
    ensures
        usable_pattern(n) <==> n.contains('*') && crate::blocklist::engine::acceptable_entry(n),
{
}

proof fn lemma_own_entries(ps: Seq<String>, d: Seq<char>)
    ensures
        (matched_in(d, exact_patterns(texts(ps)).to_set()) is Some || wild_hit(wild_patterns(texts(ps)), d))
            <==> some_entry_covers(ps, d),
{
    let tv = texts(ps);
    let fe = |p: Seq<char>|
        if normalised(p).len() > 0 && !normalised(p).contains('*') {
            seq![normalised(p)]
        } else {
            seq![]
        };
    let fw = |p: Seq<char>|
        if normalised(p).contains('*') && crate::blocklist::engine::acceptable_entry(normalised(p)) {
            seq![normalised(p)]
        } else {
            seq![]
        };
    let exact = exact_patterns(tv);
    let wild = wild_patterns(tv);
    assert(exact == flat_map(tv, fe));
    assert(wild == flat_map(tv, fw));
    lemma_matched_sets(d, exact.to_set(), Set::empty());
    if matched_in(d, exact.to_set()) is Some {
        let e = choose|e: Seq<char>| #[trigger] exact.to_set().contains(e) && stands_for(e, d);
        lemma_flat_map_contains(tv, fe, e);
        let i = choose|i: int| 0 <= i < tv.len() && fe(#[trigger] tv[i]).contains(e);
        assert(e == normalised(tv[i]));
        assert(entry_covers(ps[i]@, d));
    }
    if wild_hit(wild, d) {
        let k = choose|k: int| 0 <= k < wild.len() && wildcard_matches(#[trigger] wild[k], d);
        lemma_flat_map_contains(tv, fw, wild[k]);
        assert(wild.contains(wild[k]));
        let i = choose|i: int| 0 <= i < tv.len() && fw(#[trigger] tv[i]).contains(wild[k]);
        assert(wild[k] == normalised(tv[i]));
        lemma_usable(normalised(tv[i]));
        assert(entry_covers(ps[i]@, d));
    }
    if some_entry_covers(ps, d) {
        let i = choose|i: int| 0 <= i < ps.len() && entry_covers((#[trigger] ps[i])@, d);
        let n = normalised(ps[i]@);
        assert(tv[i] == ps[i]@);
        lemma_usable(n);
        if n.contains('*') {
            lemma_flat_map_contains(tv, fw, n);
            assert(fw(tv[i]) =~= seq![n]);
            assert(seq![n][0] == n);
            assert(fw(tv[i]).contains(n));
            let k = choose|k: int| 0 <= k < wild.len() && wild[k] == n;
            assert(wildcard_matches(wild[k], d));
        } else {
            lemma_flat_map_contains(tv, fe, n);
            assert(fe(tv[i]) =~= seq![n]);
            assert(seq![n][0] == n);
            assert(fe(tv[i]).contains(n));
            assert(exact.to_set().contains(n));
        }
    }
}

pub proof fn lemma_stored(files: Seq<StoredList>, stem: Seq<char>)
    ensures
        match crate::blocklist::store::stored_keys(files, stem) {
            Some(keys) => exists|j: int| #[trigger] first_file(files, stem, j) && files[j].keys == keys,
            None => forall|j: int| !#[trigger] first_file(files, stem, j),
        },
    decreases files.len(),
{
    if files.len() > 0 {
        if files[0].stem == stem {
            assert(first_file(files, stem, 0));
        } else {
            let t = files.skip(1);
            lemma_stored(t, stem);
            match crate::blocklist::store::stored_keys(t, stem) {
                Some(keys) => {
                    let j = choose|j: int| #[trigger] first_file(t, stem, j) && t[j].keys == keys;
                    assert(files[j + 1] == t[j]);
                    assert forall|k: int| 0 <= k < j + 1 implies (#[trigger] files[k]).stem != stem by {
                        if k > 0 {
                            assert(t[k - 1] == files[k]);
                        }
                    }
                    assert(first_file(files, stem, j + 1));
                },
                None => {
                    assert forall|j: int| !#[trigger] first_file(files, stem, j) by {
                        if first_file(files, stem, j) {
                            assert(t[j - 1] == files[j]);
                            assert forall|k: int| 0 <= k < j - 1 implies (#[trigger] t[k]).stem != stem by {
                                assert(files[k + 1] == t[k]);
                            }
                            assert(first_file(t, stem, j - 1));
                        }
                    }
                },
            }
        }
    }
}

pub proof fn lemma_unique_file(files: Seq<StoredList>, stem: Seq<char>, i: int, j: int)
    requires
        first_file(files, stem, i),
        first_file(files, stem, j),
    ensures
        i == j,
{
    if i < j {
        assert(files[i].stem != stem);
    }
    if j < i {
        assert(files[j].stem != stem);
    }
}

proof fn lemma_named(names: Seq<String>, files: Seq<StoredList>, d: Seq<char>)
    ensures
        some_key_covers(crate::blocklist::engine::named_keys(texts(names), files), d) <==> some_file_covers(
            names,
            files,
            d,
        ),
{
    let keys = crate::blocklist::engine::named_keys(texts(names), files);
    let tv = texts(names);
    if some_key_covers(keys, d) {
        let e = choose|e: Seq<char>| keys.contains(#[trigger] encode_utf8(e)) && stands_for(e, d);
        let i = choose|i: int|
            0 <= i < tv.len() && crate::blocklist::store::stored_keys(files, sanitized(#[trigger] tv[i])) is Some
                && crate::blocklist::store::stored_keys(files, sanitized(tv[i]))->0.contains(encode_utf8(e));
        assert(tv[i] == names[i]@);
        lemma_stored(files, sanitized(tv[i]));
        let j = choose|j: int|
            #[trigger] first_file(files, sanitized(tv[i]), j) && files[j].keys
                == crate::blocklist::store::stored_keys(files, sanitized(tv[i]))->0;
        assert(first_file(files, sanitized(names[i]@), j) && files[j].keys.contains(encode_utf8(e)));
    }
    if some_file_covers(names, files, d) {
        let (i, j, e) = choose|i: int, j: int, e: Seq<char>|
            {
                &&& 0 <= i < names.len()
                &&& first_file(files, sanitized((#[trigger] names[i])@), j)
                &&& (#[trigger] files[j]).keys.contains(#[trigger] encode_utf8(e))
                &&& stands_for(e, d)
            };
        assert(tv[i] == names[i]@);
        lemma_stored(files, sanitized(tv[i]));
        match crate::blocklist::store::stored_keys(files, sanitized(tv[i])) {
            Some(k) => {
                let l = choose|l: int| #[trigger] first_file(files, sanitized(tv[i]), l) && files[l].keys == k;
                lemma_unique_file(files, sanitized(tv[i]), l, j);
                assert(keys.contains(encode_utf8(e)));
            },
            None => {
                assert(first_file(files, sanitized(tv[i]), j));
            },
        }
    }
}

pub proof fn lemma_ends_in(d: Seq<char>, label: Seq<char>)
    ensures
        suffix::label_suffix(d, label) <==> ends_in(d, label),
{
    let dotted = seq!['.'] + label;
    if dotted.is_suffix_of(d) {
        let i = d.len() - dotted.len();
        let tail = d.subrange(i as int, d.len() as int);
        assert(tail == dotted);
        assert(d[i as int] == tail[0]);
        assert(d.skip(i + 1) =~= label) by {
            assert forall|k: int| 0 <= k < label.len() implies d.skip(i + 1)[k] == #[trigger] label[k] by {
                assert(tail[k + 1] == dotted[k + 1]);
            }
        }
    }
    if exists|i: int| 0 <= i < d.len() && #[trigger] d[i] == '.' && d.skip(i + 1) == label {
        let i = choose|i: int| 0 <= i < d.len() && #[trigger] d[i] == '.' && d.skip(i + 1) == label;
        assert(d.subrange(i, d.len() as int) =~= dotted) by {
            assert forall|k: int| 0 <= k < dotted.len() implies d.subrange(i, d.len() as int)[k] == #[trigger] dotted[k] by {
                if k > 0 {
                    assert(d.skip(i + 1)[k - 1] == label[k - 1]);
                }
            }
        }
        assert(dotted.is_suffix_of(d));
    }
}

proof fn lemma_spared(v: BlocklistView, d: Seq<char>)
    ensures
        local_infra(v, d) <==> spared(v, d),
{
    lemma_ends_in(d, "arpa"@);
    lemma_ends_in(d, "local"@);
    lemma_ends_in(d, "localhost"@);
    lemma_ends_in(d, "localdomain"@);
    lemma_ends_in(d, "internal"@);
    lemma_ends_in(d, "lan"@);
    lemma_ends_in(d, "home"@);
    assert forall|i: int| 0 <= i < v.local_zones.len() implies suffix::label_suffix(d, #[trigger] v.local_zones[i])
        == ends_in(d, v.local_zones[i]) by {
        lemma_ends_in(d, v.local_zones[i]);
    }
}

/// The entries, lists and switches of a profile decide for its clients, in this order:
/// what an own allow entry covers is not blocked, whatever else blocks it; what an own
/// block entry covers is blocked, whatever exempts it; what a manual exemption covers or
/// an allow list that applies is not blocked; a denying profile blocks the rest but for
/// local names; and of what is left, that is blocked which the manual block list, a list
/// of the profile or a wildcard covers.
pub proof fn profiles_decide_by_their_entries(
    v: BlocklistView,
    cfg: BlocklistProfileConfig,
    block_files: Seq<StoredList>,
    allow_files: Seq<StoredList>,
    d: Seq<char>,
)
    ensures
        ({
            let blocked = should_block(v, d, Some(profile_of(cfg, block_files, allow_files)));
            let allows = some_entry_covers(cfg.allow@, d);
            let blocks = some_entry_covers(cfg.block@, d);
            let exempt = some_name_covers(v.whitelist, d) || some_pattern_matches(v.whitelist_wild, d) || (
            if cfg.allowlists@.len() == 0 {
                some_key_covers(v.allow_fst, d)
            } else {
                some_file_covers(cfg.allowlists@, allow_files, d)
            });
            let covered = some_name_covers(v.blacklist, d) || some_pattern_matches(v.blacklist_wild, d)
                || some_file_covers(cfg.lists@, block_files, d) || some_pattern_matches(v.wildcard_block, d);
            &&& allows ==> !blocked
            &&& !allows && blocks ==> blocked
            &&& !allows && !blocks && exempt ==> !blocked
            &&& !allows && !blocks && !exempt && cfg.default_deny && !spared(v, d) ==> blocked
            &&& !allows && !blocks && !exempt && (!cfg.default_deny || spared(v, d)) ==> blocked == covered
        }),
{
    let p = profile_of(cfg, block_files, allow_files);
    lemma_own_entries(cfg.allow@, d);
    lemma_own_entries(cfg.block@, d);
    lemma_matched_sets(d, v.whitelist, v.allow_fst);
    lemma_matched_sets(d, v.blacklist, p.fst);
    lemma_named(cfg.lists@, block_files, d);
    lemma_named(cfg.allowlists@, allow_files, d);
    if p.allow_fst is Some {
        lemma_matched_sets(d, v.whitelist, p.allow_fst->0);
    }
    lemma_spared(v, d);
}

/// For a client without a profile a domain is blocked exactly if the manual block list,
/// a block list or a wildcard covers it, and neither a manual exemption nor an allow list.
pub proof fn names_decide_without_a_profile(v: BlocklistView, d: Seq<char>)
    ensures
        should_block(v, d, None) == ((some_name_covers(v.blacklist, d) || some_pattern_matches(v.blacklist_wild, d)
            || some_key_covers(v.fst, d) || some_pattern_matches(v.wildcard_block, d)) && !(some_name_covers(
            v.whitelist,
            d,
        ) || some_pattern_matches(v.whitelist_wild, d) || some_key_covers(v.allow_fst, d))),
        whitelisted_for(v, d, None) == (some_name_covers(v.whitelist, d) || some_pattern_matches(v.whitelist_wild, d)
            || some_key_covers(v.allow_fst, d)),
        blocked_in(v, d, v.fst) == (some_name_covers(v.blacklist, d) || some_pattern_matches(v.blacklist_wild, d)
            || some_key_covers(v.fst, d) || some_pattern_matches(v.wildcard_block, d)),
{
    lemma_matched_sets(d, v.whitelist, v.allow_fst);
    lemma_matched_sets(d, v.blacklist, v.fst);
}

/// One of the manual entries covers the domain.
pub open spec fn some_manual_covers(entries: Seq<String>, d: Seq<char>) -> bool {
    exists|i: int|
        0 <= i < entries.len() && if normalised((#[trigger] entries[i])@).contains('*') {
            usable_pattern(normalised(entries[i]@)) && wildcard_matches(normalised(entries[i]@), d)
        } else {
            stands_for(normalised(entries[i]@), d)
        }
}

proof fn lemma_manual(ps: Seq<String>, d: Seq<char>)
    ensures
        (some_name_covers(exact_entries(texts(ps)).to_set(), d) || some_pattern_matches(wild_patterns(texts(ps)), d))
            <==> some_manual_covers(ps, d),
{
    let tv = texts(ps);
    let fe = |p: Seq<char>|
        if !normalised(p).contains('*') {
            seq![normalised(p)]
        } else {
            seq![]
        };
    let fw = |p: Seq<char>|
        if normalised(p).contains('*') && crate::blocklist::engine::acceptable_entry(normalised(p)) {
            seq![normalised(p)]
        } else {
            seq![]
        };
    let exact = exact_entries(tv);
    let wild = wild_patterns(tv);
    assert(exact == flat_map(tv, fe));
    assert(wild == flat_map(tv, fw));
    if some_name_covers(exact.to_set(), d) {
        let e = choose|e: Seq<char>| #[trigger] exact.to_set().contains(e) && stands_for(e, d);
        lemma_flat_map_contains(tv, fe, e);
        let i = choose|i: int| 0 <= i < tv.len() && fe(#[trigger] tv[i]).contains(e);
        assert(e == normalised(tv[i]));
        assert(tv[i] == ps[i]@);
        assert(!normalised(ps[i]@).contains('*'));
    }
    if some_pattern_matches(wild, d) {
        let k = choose|k: int| 0 <= k < wild.len() && wildcard_matches(#[trigger] wild[k], d);
        lemma_flat_map_contains(tv, fw, wild[k]);
        assert(wild.contains(wild[k]));
        let i = choose|i: int| 0 <= i < tv.len() && fw(#[trigger] tv[i]).contains(wild[k]);
        assert(wild[k] == normalised(tv[i]));
        lemma_usable(normalised(tv[i]));
        assert(tv[i] == ps[i]@);
        assert(normalised(ps[i]@).contains('*'));
    }
    if some_manual_covers(ps, d) {
        let i = choose|i: int|
            0 <= i < ps.len() && if normalised((#[trigger] ps[i])@).contains('*') {
                usable_pattern(normalised(ps[i]@)) && wildcard_matches(normalised(ps[i]@), d)
            } else {
                stands_for(normalised(ps[i]@), d)
            };
        let n = normalised(ps[i]@);
        assert(tv[i] == ps[i]@);
        lemma_usable(n);
        assert(seq![n][0] == n);
        if n.contains('*') {
            lemma_flat_map_contains(tv, fw, n);
            assert(fw(tv[i]) =~= seq![n]);
            assert(fw(tv[i]).contains(n));
            let k = choose|k: int| 0 <= k < wild.len() && wild[k] == n;
            assert(wildcard_matches(wild[k], d));
        } else {
            lemma_flat_map_contains(tv, fe, n);
            assert(fe(tv[i]) =~= seq![n]);
            assert(fe(tv[i]).contains(n));
            assert(exact.to_set().contains(n));
        }
    }
}

proof fn lemma_compiled(ps: Seq<String>, d: Seq<char>)
    ensures
        some_pattern_matches(compiled_patterns(texts(ps)), d) <==> exists|i: int|
            0 <= i < ps.len() && some_wildcard((#[trigger] ps[i])@, d),
{
    let tv = texts(ps);
    let f = |p: Seq<char>|
        if !crate::blocklist::wildcard::matches_everything(normalised(p)) && regex_language(
            wildcard_expression(normalised(p)),
        ) is Some {
            seq![normalised(p)]
        } else {
            seq![]
        };
    let all = compiled_patterns(tv);
    assert(all == flat_map(tv, f));
    if some_pattern_matches(all, d) {
        let k = choose|k: int| 0 <= k < all.len() && wildcard_matches(#[trigger] all[k], d);
        lemma_flat_map_contains(tv, f, all[k]);
        assert(all.contains(all[k]));
        let i = choose|i: int| 0 <= i < tv.len() && f(#[trigger] tv[i]).contains(all[k]);
        assert(tv[i] == ps[i]@);
        assert(some_wildcard(ps[i]@, d));
    }
    if exists|i: int| 0 <= i < ps.len() && some_wildcard((#[trigger] ps[i])@, d) {
        let i = choose|i: int| 0 <= i < ps.len() && some_wildcard((#[trigger] ps[i])@, d);
        let n = normalised(ps[i]@);
        assert(tv[i] == ps[i]@);
        lemma_flat_map_contains(tv, f, n);
        assert(f(tv[i]) =~= seq![n]);
        assert(seq![n][0] == n);
        assert(f(tv[i]).contains(n));
        let k = choose|k: int| 0 <= k < all.len() && all[k] == n;
        assert(wildcard_matches(all[k], d));
    }
}

/// A configured wildcard that is more than stars and of which an expression can be made
/// matches the domain.
pub open spec fn some_wildcard(pattern: Seq<char>, d: Seq<char>) -> bool {
    let n = normalised(pattern);
    &&& exists|i: int| 0 <= i < n.len() && #[trigger] n[i] != '*'
    &&& regex_language(wildcard_expression(n)) is Some
    &&& wildcard_matches(n, d)
}

/// Before any list is loaded, a domain is blocked exactly if a configured wildcard
/// matches it and neither an entry of the configured exemptions nor one of the allow list
/// covers it.
pub proof fn fresh_engines_decide_by_their_configuration(
    config: BlocklistConfig,
    allowlist: AllowlistConfig,
    d: Seq<char>,
)
    ensures
        should_block(initial_view(config, allowlist), d, None) == ((exists|i: int|
            0 <= i < config.wildcard_block@.len() && some_wildcard((#[trigger] config.wildcard_block@[i])@, d))
            && !some_manual_covers(config.whitelist@, d) && !some_manual_covers(allowlist.domains@, d)),
        initial_view(config, allowlist).enabled == config.enabled,
        initial_view(config, allowlist).lists == config.lists@,
        initial_view(config, allowlist).allow_lists == allowlist.lists@,
        initial_view(config, allowlist).profiles_config == config.profiles@,
{
    let v = initial_view(config, allowlist);
    names_decide_without_a_profile(v, d);
    lemma_manual(config.whitelist@, d);
    lemma_manual(allowlist.domains@, d);
    lemma_compiled(config.wildcard_block@, d);
    let a = exact_entries(texts(config.whitelist@)).to_set();
    let b = exact_entries(texts(allowlist.domains@)).to_set();
    if some_name_covers(a, d) {
        let e = choose|e: Seq<char>| #[trigger] a.contains(e) && stands_for(e, d);
        assert(v.whitelist.contains(e));
    }
    if some_name_covers(b, d) {
        let e = choose|e: Seq<char>| #[trigger] b.contains(e) && stands_for(e, d);
        assert(v.whitelist.contains(e));
    }
    if some_name_covers(v.whitelist, d) {
        let e = choose|e: Seq<char>| #[trigger] v.whitelist.contains(e) && stands_for(e, d);
        assert(a.contains(e) || b.contains(e));
    }
    let x = wild_patterns(texts(config.whitelist@));
    let y = wild_patterns(texts(allowlist.domains@));
    if some_pattern_matches(x, d) {
        let i = choose|i: int| 0 <= i < x.len() && wildcard_matches(#[trigger] x[i], d);
        assert(wildcard_matches((x + y)[i], d));
    }
    if some_pattern_matches(y, d) {
        let i = choose|i: int| 0 <= i < y.len() && wildcard_matches(#[trigger] y[i], d);
        assert(wildcard_matches((x + y)[x.len() + i], d));
    }
    if some_pattern_matches(x + y, d) {
        let i = choose|i: int| 0 <= i < (x + y).len() && wildcard_matches(#[trigger] (x + y)[i], d);
        if i < x.len() {
            assert(wildcard_matches(x[i], d));
        } else {
            assert(wildcard_matches(y[i - x.len()], d));
        }
    }
    assert(!some_name_covers(v.blacklist, d));
    assert(!some_key_covers(v.fst, d));
    assert(!some_key_covers(v.allow_fst, d));
}

/// A profile is that of a client exactly if one of its configured clients, in canonical
/// form, is the client's address or hardware address.
pub proof fn profiles_serve_their_clients(
    cfg: BlocklistProfileConfig,
    block_files: Seq<StoredList>,
    allow_files: Seq<StoredList>,
    ip: Seq<char>,
    mac: Option<Seq<char>>,
)
    ensures
        serves(profile_of(cfg, block_files, allow_files), ip, mac) <==> exists|i: int|
            0 <= i < cfg.clients@.len() && (client_key((#[trigger] cfg.clients@[i])@) == Some(ip) || (mac is Some
                && client_key(cfg.clients@[i]@) == mac)),
{
    let tv = texts(cfg.clients@);
    let f = |e: Seq<char>|
        match client_key(e) {
            Some(k) => seq![k],
            None => seq![],
        };
    assert(client_keys(tv) == flat_map(tv, f));
    lemma_flat_map_contains(tv, f, ip);
    if mac is Some {
        lemma_flat_map_contains(tv, f, mac->0);
    }
    assert forall|i: int, k: Seq<char>| 0 <= i < tv.len() && #[trigger] f(tv[i]).contains(k) implies client_key(
        cfg.clients@[i]@,
    ) == Some(k) by {
        assert(tv[i] == cfg.clients@[i]@);
    }
    assert forall|i: int, k: Seq<char>|
        0 <= i < tv.len() && client_key((#[trigger] cfg.clients@[i])@) == Some(k) implies #[trigger] f(tv[i]).contains(
        k,
    ) by {
        assert(tv[i] == cfg.clients@[i]@);
        assert(f(tv[i])[0] == k);
    }
    let p = profile_of(cfg, block_files, allow_files);
    if p.clients.contains(ip) {
        let i = choose|i: int| 0 <= i < tv.len() && f(#[trigger] tv[i]).contains(ip);
        assert(client_key(cfg.clients@[i]@) == Some(ip));
    }
    if mac is Some && p.clients.contains(mac->0) {
        let i = choose|i: int| 0 <= i < tv.len() && f(#[trigger] tv[i]).contains(mac->0);
        assert(client_key(cfg.clients@[i]@) == mac);
    }
    if exists|i: int|
        0 <= i < cfg.clients@.len() && (client_key((#[trigger] cfg.clients@[i])@) == Some(ip) || (mac is Some
            && client_key(cfg.clients@[i]@) == mac)) {
        let i = choose|i: int|
            0 <= i < cfg.clients@.len() && (client_key((#[trigger] cfg.clients@[i])@) == Some(ip) || (mac is Some
                && client_key(cfg.clients@[i]@) == mac));
        if client_key(cfg.clients@[i]@) == Some(ip) {
            assert(f(tv[i]).contains(ip));
        } else {
            assert(f(tv[i]).contains(mac->0));
        }
    }
}

/// Compiling the profiles gives one for each configuration, in their order, and changes
/// nothing else.
pub proof fn profiles_are_compiled_one_by_one(
    v: BlocklistView,
    block_files: Seq<StoredList>,
    allow_files: Seq<StoredList>,
)
    ensures
        ({
            let w = with_profiles(v, block_files, allow_files);
            &&& w == (BlocklistView { profiles: w.profiles, ..v })
            &&& w.profiles.len() == v.profiles_config.len()
            &&& forall|i: int|
                0 <= i < w.profiles.len() ==> #[trigger] w.profiles[i] == profile_of(
                    v.profiles_config[i],
                    block_files,
                    allow_files,
                )
        }),
{
}

/// A domain counts as allowed for a client if it is exempt, or if an own entry of the
/// client's profile allows it; then it is not blocked for the client unless an own entry
/// of the profile blocks it.
pub proof fn allowances_are_entries(
    v: BlocklistView,
    cfg: BlocklistProfileConfig,
    block_files: Seq<StoredList>,
    allow_files: Seq<StoredList>,
    d: Seq<char>,
)
    ensures
        ({
            let p = profile_of(cfg, block_files, allow_files);
            &&& some_entry_covers(cfg.allow@, d) ==> explicitly_allowed(v, d, Some(p))
            &&& explicitly_allowed(v, d, Some(p)) && !some_entry_covers(cfg.block@, d) ==> !should_block(v, d, Some(p))
            &&& some_name_covers(v.whitelist, d) || some_pattern_matches(v.whitelist_wild, d) ==> explicitly_allowed(
                v,
                d,
                Some(p),
            )
            &&& explicitly_allowed(v, d, Some(p)) && !some_entry_covers(cfg.allow@, d) ==> some_name_covers(
                v.whitelist,
                d,
            ) || some_pattern_matches(v.whitelist_wild, d) || (if cfg.allowlists@.len() == 0 {
                some_key_covers(v.allow_fst, d)
            } else {
                some_file_covers(cfg.allowlists@, allow_files, d)
            })
        }),
        explicitly_allowed(v, d, None) == (some_name_covers(v.whitelist, d) || some_pattern_matches(v.whitelist_wild, d)
            || some_key_covers(v.allow_fst, d)),
{
    let p = profile_of(cfg, block_files, allow_files);
    profiles_decide_by_their_entries(v, cfg, block_files, allow_files, d);
    names_decide_without_a_profile(v, d);
    lemma_own_entries(cfg.allow@, d);
    lemma_own_entries(cfg.block@, d);
    lemma_matched_sets(d, v.whitelist, v.allow_fst);
    lemma_named(cfg.allowlists@, allow_files, d);
    if p.allow_fst is Some {
        lemma_matched_sets(d, v.whitelist, p.allow_fst->0);
    }
}

}

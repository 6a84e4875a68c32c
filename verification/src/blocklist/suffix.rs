//! Domain hierarchies: parents, label suffixes and the public-suffix boundary.
use vstd::prelude::*;
use vstd::slice::*;
use vstd::string::*;
use vstd::utf8::encode_utf8;

use crate::text;
use crate::text::{lower, position, trim_end_char};

verus! {

/// The length in bytes of the public suffix of a name, as the public suffix list has it.
pub uninterp spec fn public_suffix_len(name: Seq<u8>) -> Option<usize>;

/// `psl::suffix` finds the public suffix of a name in the list that the crate
/// carries. The result is a function of the name alone; the suffix is a part of
/// the name, so it is not longer.
#[verifier::external_body]
fn psl_suffix_len(name: &[u8]) -> (r: Option<usize>)
    ensures
        r == public_suffix_len(name@),
        r is Some ==> r->0 <= name@.len(),
{
    psl::suffix(name).map(|s| s.as_bytes().len())
}

/// Whether a name goes beyond its public suffix: it is a registrable domain or a
/// name below one. A name without a known suffix counts as registrable.
pub open spec fn registrable(name: Seq<char>) -> bool {
    extends(encode_utf8(name).len(), public_suffix_len(encode_utf8(name)))
}

/// Whether a name of this length is longer than its suffix.
pub open spec fn extends(name_len: nat, suffix: Option<usize>) -> bool {
    match suffix {
        Some(n) => name_len > n,
        None => true,
    }
}

/// Whether a name of `name_len` bytes goes beyond its public suffix.
pub fn extends_beyond_suffix(name_len: usize, suffix: Option<usize>) -> (r: bool)
    ensures
        r == extends(name_len as nat, suffix),
{
    match suffix {
        Some(n) => name_len > n,
        None => true,
    }
}

/// Whether a name is a registrable domain or lies below one.
pub fn is_registrable_or_deeper(name: &str) -> (r: bool)
    ensures
        r == registrable(name@),
{
    let bytes = name.as_bytes();
    extends_beyond_suffix(bytes.len(), psl_suffix_len(bytes))
}

/// The nearest parent of `d`, from the longest to the shortest, that is
/// registrable and satisfies `f`.
pub open spec fn matched_parent(d: Seq<char>, f: spec_fn(Seq<char>) -> bool) -> Option<Seq<char>>
    decreases d.len(),
{
    let p = position(d, '.');
    if p < d.len() {
        let rest = d.skip(p as int + 1);
        if registrable(rest) && f(rest) {
            Some(rest)
        } else {
            matched_parent(rest, f)
        }
    } else {
        None
    }
}

/// The key that covers `d`: the domain itself, or else the nearest registrable
/// parent that satisfies `f`.
pub open spec fn matched_by(d: Seq<char>, f: spec_fn(Seq<char>) -> bool) -> Option<Seq<char>> {
    if f(d) {
        Some(d)
    } else {
        matched_parent(d, f)
    }
}

/// The key of a set that covers `d`.
pub open spec fn matched_in(d: Seq<char>, keys: Set<Seq<char>>) -> Option<Seq<char>> {
    matched_by(d, |k: Seq<char>| keys.contains(k))
}

/// The key of a set of encoded names that covers `d`.
pub open spec fn matched_in_bytes(d: Seq<char>, keys: Set<Seq<u8>>) -> Option<Seq<char>> {
    matched_by(d, |k: Seq<char>| keys.contains(encode_utf8(k)))
}

/// `p` is a parent of `d`: what follows one of its dots.
pub open spec fn parent_of(p: Seq<char>, d: Seq<char>) -> bool {
    exists|i: int| 0 <= i < d.len() && #[trigger] d[i] == '.' && p == d.skip(i + 1)
}

/// A domain is covered exactly if it, or a registrable parent of it, is a key.
pub proof fn matched_by_covers(d: Seq<char>, f: spec_fn(Seq<char>) -> bool)
    ensures
        matched_by(d, f) is Some <==> f(d) || exists|p: Seq<char>|
            #[trigger] parent_of(p, d) && registrable(p) && f(p),
        matched_by(d, f) is Some ==> f(matched_by(d, f)->0) && (matched_by(d, f)->0 == d || (parent_of(
            matched_by(d, f)->0,
            d,
        ) && registrable(matched_by(d, f)->0))),
{
    lemma_matched_parent(d, f);
}

proof fn lemma_matched_parent(d: Seq<char>, f: spec_fn(Seq<char>) -> bool)
    ensures
        matched_parent(d, f) is Some <==> exists|p: Seq<char>| #[trigger] parent_of(p, d) && registrable(p) && f(p),
        matched_parent(d, f) is Some ==> f(matched_parent(d, f)->0) && parent_of(matched_parent(d, f)->0, d)
            && registrable(matched_parent(d, f)->0),
    decreases d.len(),
{
    text::lemma_position(d, '.');
    let p = position(d, '.') as int;
    if p < d.len() {
        let rest = d.skip(p + 1);
        lemma_matched_parent(rest, f);
        assert(d[p] == '.' && rest == d.skip(p + 1));
        assert(parent_of(rest, d));
        assert forall|q: Seq<char>| parent_of(q, d) && q != rest implies #[trigger] parent_of(q, rest) by {
            let i = choose|i: int| 0 <= i < d.len() && #[trigger] d[i] == '.' && q == d.skip(i + 1);
            if i < p {
                assert(d[i] != '.');
            }
            assert(rest[i - p - 1] == '.');
            assert(q == rest.skip(i - p - 1 + 1));
        }
        assert forall|q: Seq<char>| parent_of(q, rest) implies #[trigger] parent_of(q, d) by {
            let i = choose|i: int| 0 <= i < rest.len() && #[trigger] rest[i] == '.' && q == rest.skip(i + 1);
            assert(d[i + p + 1] == '.');
            assert(q == d.skip(i + p + 1 + 1));
        }
        if exists|q: Seq<char>| #[trigger] parent_of(q, d) && registrable(q) && f(q) {
            let q = choose|q: Seq<char>| #[trigger] parent_of(q, d) && registrable(q) && f(q);
            if q != rest {
                assert(parent_of(q, rest));
            }
        }
        if matched_parent(rest, f) is Some {
            assert(parent_of(matched_parent(rest, f)->0, d));
        }
    } else {
        assert forall|q: Seq<char>| !#[trigger] parent_of(q, d) by {
            if parent_of(q, d) {
                let i = choose|i: int| 0 <= i < d.len() && #[trigger] d[i] == '.' && q == d.skip(i + 1);
                assert(d[i] != '.');
            }
        }
    }
}

/// The canonical form of a domain: ASCII lower case, without trailing dots.
pub open spec fn normalised(d: Seq<char>) -> Seq<char> {
    trim_end_char(lower(d), '.')
}

/// Canonical domain key: lower case, trailing root dot stripped.
pub fn normalise_domain(domain: &str) -> (r: String)
    ensures
        r@ == normalised(domain@),
{
    let cs = text::chars_of(domain);
    let low = text::to_lower(cs.as_slice());
    text::string_of(text::trimmed_end_char(low.as_slice(), '.'))
}

/// Normalising a domain twice is the same as normalising it once.
pub proof fn normalising_is_idempotent(d: Seq<char>)
    ensures
        normalised(normalised(d)) == normalised(d),
{
    lemma_trim_prefix(lower(d), '.');
    let n = normalised(d);
    assert forall|i: int| 0 <= i < n.len() implies lower_fixed(#[trigger] n[i]) by {
        assert(n[i] == lower(d)[i]);
    }
    assert(lower(n) == n);
}

spec fn lower_fixed(c: char) -> bool {
    text::lower_char(c) == c
}

proof fn lemma_trim_prefix(s: Seq<char>, c: char)
    ensures
        trim_end_char(s, c).is_prefix_of(s),
        trim_end_char(trim_end_char(s, c), c) == trim_end_char(s, c),
    decreases s.len(),
{
    if s.len() > 0 && s.last() == c {
        lemma_trim_prefix(s.drop_last(), c);
    }
}

/// `name` is `suffix`, or ends with it at a label boundary.
pub open spec fn label_suffix(name: Seq<char>, suffix: Seq<char>) -> bool {
    name == suffix || (seq!['.'] + suffix).is_suffix_of(name)
}

/// Whether `name` equals `suffix` or ends with `.suffix`.
pub fn has_suffix(name: &str, suffix: &str) -> (r: bool)
    ensures
        r == label_suffix(name@, suffix@),
{
    let n = text::chars_of(name);
    let s = text::chars_of(suffix);
    if text::same(n.as_slice(), s.as_slice()) {
        return true;
    }
    if n.len() <= s.len() {
        return false;
    }
    let at: usize = n.len() - s.len();
    let r = text::is_at(n.as_slice(), s.as_slice(), at) && n[at - 1] == '.';
    proof {
        let dotted = seq!['.'] + s@;
        let tail = n@.subrange(at - 1, n@.len() as int);
        if r {
            assert(n@.subrange(at as int, at + s@.len()) == s@);
            assert forall|i: int| 0 <= i < tail.len() implies tail[i] == dotted[i] by {
                if i > 0 {
                    assert(tail[i] == n@.subrange(at as int, at + s@.len())[i - 1]);
                }
            }
            assert(tail == dotted);
        } else if dotted.is_suffix_of(n@) {
            assert(tail == dotted);
            assert(n@[at - 1] == tail[0]);
            assert forall|i: int| 0 <= i < s@.len() implies n@.subrange(at as int, at + s@.len())[i] == s@[i] by {
                assert(tail[i + 1] == dotted[i + 1]);
            }
            assert(n@.subrange(at as int, at + s@.len()) == s@);
        }
    }
    r
}

}

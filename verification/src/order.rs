//! The order of strings, and lists of strings in order.
use vstd::prelude::*;
use vstd::slice::*;
use vstd::string::*;
use vstd::utf8::encode_utf8;

use crate::text;
use crate::text::texts;

verus! {

/// Byte strings in lexicographic order.
pub open spec fn bytes_lt(a: Seq<u8>, b: Seq<u8>) -> bool
    decreases a.len(),
{
    if b.len() == 0 {
        false
    } else if a.len() == 0 {
        true
    } else if a[0] != b[0] {
        a[0] < b[0]
    } else {
        bytes_lt(a.skip(1), b.skip(1))
    }
}

/// Texts in the order of their encoded bytes.
pub open spec fn text_lt(a: Seq<char>, b: Seq<char>) -> bool {
    bytes_lt(encode_utf8(a), encode_utf8(b))
}

/// Each text is greater than the one before it.
pub open spec fn ascending(v: Seq<Seq<char>>) -> bool {
    forall|i: int| 0 <= i < v.len() - 1 ==> text_lt(#[trigger] v[i], v[i + 1])
}

/// Each byte string is greater than the one before it.
pub open spec fn rising(v: Seq<Seq<u8>>) -> bool {
    forall|i: int| 0 <= i < v.len() - 1 ==> bytes_lt(#[trigger] v[i], v[i + 1])
}

/// `slice::sort_unstable` puts the strings in order, which for strings is the
/// lexicographic order of their bytes, and keeps each of them as often as it was there.
#[verifier::external_body]
fn sort_strings(v: &mut Vec<String>)
    ensures
        texts(final(v)@).to_multiset() == texts(old(v)@).to_multiset(),
        forall|i: int, j: int|
            0 <= i < j < final(v)@.len() ==> !text_lt((#[trigger] final(v)@[j])@, (#[trigger] final(v)@[i])@),
{
    v.sort_unstable();
}

pub proof fn lemma_bytes_irreflexive(a: Seq<u8>)
    ensures
        !bytes_lt(a, a),
    decreases a.len(),
{
    if a.len() > 0 {
        lemma_bytes_irreflexive(a.skip(1));
    }
}

pub proof fn lemma_bytes_transitive(a: Seq<u8>, b: Seq<u8>, c: Seq<u8>)
    requires
        bytes_lt(a, b),
        bytes_lt(b, c),
    ensures
        bytes_lt(a, c),
    decreases a.len(),
{
    if a.len() > 0 && b.len() > 0 && c.len() > 0 && a[0] == b[0] && b[0] == c[0] {
        lemma_bytes_transitive(a.skip(1), b.skip(1), c.skip(1));
    }
}

proof fn lemma_rising_pair(v: Seq<Seq<u8>>, i: int, j: int)
    requires
        rising(v),
        0 <= i < j < v.len(),
    ensures
        bytes_lt(v[i], v[j]),
    decreases j - i,
{
    assert(bytes_lt(v[j - 1], v[j - 1 + 1]));
    if i < j - 1 {
        lemma_rising_pair(v, i, j - 1);
        lemma_bytes_transitive(v[i], v[j - 1], v[j]);
    }
}

/// The last of rising byte strings is greater than all others.
proof fn lemma_rising_last(v: Seq<Seq<u8>>, x: Seq<u8>)
    requires
        rising(v),
        v.len() > 0,
    ensures
        v.contains(x) <==> x == v.last() || v.drop_last().contains(x),
        v.drop_last().contains(x) ==> bytes_lt(x, v.last()) && x != v.last(),
        rising(v.drop_last()),
{
    let t = v.drop_last();
    if t.contains(x) {
        let i = choose|i: int| 0 <= i < t.len() && t[i] == x;
        assert(v[i] == x);
        lemma_rising_pair(v, i, v.len() - 1);
        lemma_bytes_irreflexive(x);
    }
    if v.contains(x) && x != v.last() {
        let i = choose|i: int| 0 <= i < v.len() && v[i] == x;
        assert(t[i] == x);
    }
    assert(v[v.len() - 1] == v.last());
    assert forall|i: int| 0 <= i < t.len() - 1 implies bytes_lt(#[trigger] t[i], t[i + 1]) by {
        assert(bytes_lt(v[i], v[i + 1]));
    }
}

/// Rising byte strings are known from their set.
pub proof fn lemma_rising_unique(a: Seq<Seq<u8>>, b: Seq<Seq<u8>>)
    requires
        rising(a),
        rising(b),
        a.to_set() == b.to_set(),
    ensures
        a == b,
    decreases a.len(),
{
    assert forall|x: Seq<u8>| a.contains(x) == b.contains(x) by {
        assert(a.to_set().contains(x) == a.contains(x));
        assert(b.to_set().contains(x) == b.contains(x));
    }
    if a.len() == 0 {
        if b.len() > 0 {
            assert(b.contains(b[0]));
            assert(a.contains(b[0]));
        }
    } else if b.len() == 0 {
        assert(a.contains(a[0]));
        assert(b.contains(a[0]));
    } else {
        let x = a.last();
        let y = b.last();
        assert(a[a.len() - 1] == x && b[b.len() - 1] == y);
        assert(a.contains(x) && b.contains(y));
        assert(b.contains(x) && a.contains(y));
        lemma_rising_last(a, y);
        lemma_rising_last(b, x);
        if x != y {
            lemma_bytes_transitive(x, y, x);
            lemma_bytes_irreflexive(x);
        }
        assert forall|z: Seq<u8>| a.drop_last().contains(z) == b.drop_last().contains(z) by {
            lemma_rising_last(a, z);
            lemma_rising_last(b, z);
        }
        assert(a.drop_last().to_set() =~= b.drop_last().to_set());
        lemma_rising_unique(a.drop_last(), b.drop_last());
        assert(a =~= a.drop_last().push(x));
        assert(b =~= b.drop_last().push(y));
    }
}

proof fn lemma_bytes_total(a: Seq<u8>, b: Seq<u8>)
    requires
        !bytes_lt(b, a),
        a != b,
    ensures
        bytes_lt(a, b),
    decreases a.len(),
{
    if a.len() == 0 {
        if b.len() == 0 {
            assert(a == b);
        }
    } else if b.len() == 0 {
    } else if a[0] == b[0] {
        if a.skip(1) == b.skip(1) {
            assert(a == seq![a[0]] + a.skip(1));
            assert(b == seq![b[0]] + b.skip(1));
        }
        lemma_bytes_total(a.skip(1), b.skip(1));
    }
}

pub proof fn lemma_push_set<A>(v: Seq<A>, x: A)
    ensures
        v.push(x).to_set() == v.to_set().insert(x),
{
    let w = v.push(x);
    assert forall|y: A| w.to_set().contains(y) == v.to_set().insert(x).contains(y) by {
        if v.contains(y) {
            let i = choose|i: int| 0 <= i < v.len() && v[i] == y;
            assert(w[i] == y);
        }
        if y == x {
            assert(w[v.len() as int] == y);
        }
    }
}

pub proof fn lemma_same_multiset(a: Seq<Seq<char>>, b: Seq<Seq<char>>)
    requires
        a.to_multiset() == b.to_multiset(),
    ensures
        a.to_set() == b.to_set(),
{
    a.to_multiset_ensures();
    b.to_multiset_ensures();
    assert forall|y: Seq<char>| a.to_set().contains(y) == b.to_set().contains(y) by {
        assert(a.contains(y) <==> a.to_multiset().count(y) > 0);
        assert(b.contains(y) <==> b.to_multiset().count(y) > 0);
    }
    assert(a.to_set() =~= b.to_set());
}

/// The strings in order, each of them once.
pub fn sorted_unique(strings: Vec<String>) -> (r: Vec<String>)
    ensures
        ascending(texts(r@)),
        texts(r@).to_set() == texts(strings@).to_set(),
{
    let ghost given = texts(strings@);
    let mut names = strings;
    sort_strings(&mut names);
    let mut out: Vec<String> = Vec::new();
    let mut k: usize = 0;
    assert(texts(names@).take(0).to_set() == Set::<Seq<char>>::empty());
    assert(texts(out@).to_set() == Set::<Seq<char>>::empty());
    while k < names.len()
        invariant
            k <= names@.len(),
            forall|i: int, j: int|
                0 <= i < j < names@.len() ==> !text_lt((#[trigger] names@[j])@, (#[trigger] names@[i])@),
            ascending(texts(out@)),
            texts(out@).to_set() == texts(names@).take(k as int).to_set(),
            k > 0 ==> out@.len() > 0 && out@.last()@ == names@[k - 1]@,
            k == 0 ==> out@.len() == 0,
        decreases names@.len() - k,
    {
        let fresh = k == 0 || !text::str_same(names[k].as_str(), names[k - 1].as_str());
        let ghost pre = texts(names@).take(k as int);
        let ghost key = names@[k as int]@;
        let ghost old_out = out@;
        proof {
            assert(texts(names@).take(k + 1) == pre.push(key));
            lemma_push_set(pre, key);
            if k > 0 && fresh {
                vstd::utf8::encode_utf8_decode_utf8(names@[k as int]@);
                vstd::utf8::encode_utf8_decode_utf8(names@[k - 1]@);
                lemma_bytes_total(encode_utf8(names@[k - 1]@), encode_utf8(key));
            }
        }
        if fresh {
            let name = names[k].clone();
            out.push(name);
            proof {
                text::lemma_texts_push(old_out, name);
                lemma_push_set(texts(old_out), key);
                assert forall|i: int| 0 <= i < texts(out@).len() - 1 implies text_lt(
                    #[trigger] texts(out@)[i],
                    texts(out@)[i + 1],
                ) by {
                    if i < old_out.len() - 1 {
                        assert(texts(old_out)[i] == texts(out@)[i]);
                        assert(text_lt(texts(old_out)[i], texts(old_out)[i + 1]));
                    }
                }
            }
        } else {
            proof {
                assert(texts(out@)[out@.len() - 1] == key);
                assert(texts(out@).contains(key));
                assert(pre.to_set().insert(key) == pre.to_set());
            }
        }
        k = k + 1;
    }
    proof {
        assert(texts(names@).take(names@.len() as int) == texts(names@));
        lemma_same_multiset(texts(names@), given);
    }
    out
}

}

//! What the order of texts means.
use vstd::prelude::*;
use vstd::utf8::encode_utf8;

use crate::order::{ascending, bytes_lt, lemma_bytes_irreflexive, lemma_bytes_transitive, text_lt};

verus! {

/// Bytes are ordered by the first that differs; where none does the shorter come first.
pub proof fn the_first_different_byte_decides(a: Seq<u8>, b: Seq<u8>, k: int)
    requires
        0 <= k <= a.len(),
        k <= b.len(),
        forall|i: int| 0 <= i < k ==> #[trigger] a[i] == b[i],
    ensures
        k < a.len() && k < b.len() && a[k] != b[k] ==> bytes_lt(a, b) == (a[k] < b[k]),
        k == a.len() && k < b.len() ==> bytes_lt(a, b),
        k == b.len() ==> !bytes_lt(a, b),
    decreases k,
{
    if k > 0 {
        let x = a.skip(1);
        let y = b.skip(1);
        assert(a[0] == b[0]);
        assert forall|i: int| 0 <= i < k - 1 implies #[trigger] x[i] == y[i] by {
            assert(a[i + 1] == b[i + 1]);
        }
        the_first_different_byte_decides(x, y, k - 1);
    }
}

/// Texts in ascending order are ordered by their bytes, each before all that follow, and
/// none comes twice.
pub proof fn ascending_texts_come_once(v: Seq<Seq<char>>, i: int, j: int)
    requires
        ascending(v),
        0 <= i < j < v.len(),
    ensures
        bytes_lt(encode_utf8(v[i]), encode_utf8(v[j])),
        v[i] != v[j],
    decreases j - i,
{
    assert(text_lt(v[i], v[i + 1]));
    if i + 1 < j {
        ascending_texts_come_once(v, i + 1, j);
        lemma_bytes_transitive(encode_utf8(v[i]), encode_utf8(v[i + 1]), encode_utf8(v[j]));
    }
    lemma_bytes_irreflexive(encode_utf8(v[i]));
}

}

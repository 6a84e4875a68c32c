//! How texts are taken apart.
use vstd::prelude::*;

use crate::text;
use crate::text::{
    after, before, digit_char, digit_value, is_ws, lines, lower, position, split, strip_cr, trim, trim_end, trim_start,
    upper, words,
};

verus! {

/// White space among the ASCII characters.
pub proof fn blanks_and_line_ends_are_white_space(c: char)
    requires
        c <= '\u{7f}',
    ensures
        is_ws(c) <==> c == ' ' || c == '\t' || c == '\n' || c == '\r' || c == '\u{b}' || c == '\u{c}',
{
}

proof fn lemma_trim_start(s: Seq<char>)
    ensures
        trim_start(s) == s.skip(s.len() - trim_start(s).len()),
        trim_start(s).len() <= s.len(),
        forall|i: int| 0 <= i < s.len() - trim_start(s).len() ==> is_ws(#[trigger] s[i]),
        trim_start(s).len() > 0 ==> !is_ws(trim_start(s)[0]),
    decreases s.len(),
{
    if s.len() > 0 && is_ws(s[0]) {
        let t = s.skip(1);
        lemma_trim_start(t);
        assert(t.skip(t.len() - trim_start(t).len()) =~= s.skip(s.len() - trim_start(s).len()));
        assert forall|i: int| 0 <= i < s.len() - trim_start(s).len() implies is_ws(#[trigger] s[i]) by {
            if i > 0 {
                assert(s[i] == t[i - 1]);
            }
        }
    } else {
        assert(s.skip(0) =~= s);
    }
}

proof fn lemma_trim_end(s: Seq<char>)
    ensures
        trim_end(s) == s.take(trim_end(s).len() as int),
        trim_end(s).len() <= s.len(),
        forall|i: int| trim_end(s).len() <= i < s.len() ==> is_ws(#[trigger] s[i]),
        trim_end(s).len() > 0 ==> !is_ws(trim_end(s).last()),
    decreases s.len(),
{
    if s.len() > 0 && is_ws(s.last()) {
        let t = s.drop_last();
        lemma_trim_end(t);
        assert(t.take(trim_end(t).len() as int) =~= s.take(trim_end(t).len() as int));
        assert forall|i: int| trim_end(s).len() <= i < s.len() implies is_ws(#[trigger] s[i]) by {
            if i < t.len() {
                assert(s[i] == t[i]);
            }
        }
    } else {
        assert(s.take(s.len() as int) =~= s);
    }
}

/// Trimming takes white space from both ends, all of it, and nothing else.
pub proof fn trimming_takes_white_space_alone(s: Seq<char>)
    ensures
        exists|a: int|
            {
                &&& 0 <= a <= a + trim(s).len() <= s.len()
                &&& trim(s) == #[trigger] s.subrange(a, a + trim(s).len())
                &&& forall|i: int| 0 <= i < a ==> is_ws(#[trigger] s[i])
                &&& forall|i: int| a + trim(s).len() <= i < s.len() ==> is_ws(#[trigger] s[i])
            },
        trim(s).len() > 0 ==> !is_ws(trim(s)[0]) && !is_ws(trim(s).last()),
{
    let t = trim_start(s);
    let r = trim(s);
    lemma_trim_start(s);
    lemma_trim_end(t);
    let a = s.len() - t.len();
    assert(r =~= s.subrange(a, a + r.len()));
    assert forall|i: int| a + r.len() <= i < s.len() implies is_ws(#[trigger] s[i]) by {
        assert(t[i - a] == s[i]);
    }
    if r.len() > 0 {
        assert(r[0] == t[0]);
    }
}

/// Lower and upper case change letters, and nothing else.
pub proof fn case_is_that_of_letters(s: Seq<char>, i: int)
    requires
        0 <= i < s.len(),
    ensures
        lower(s).len() == s.len() && upper(s).len() == s.len(),
        'A' <= s[i] <= 'Z' ==> lower(s)[i] as int == s[i] as int + 32 && upper(s)[i] == s[i],
        'a' <= s[i] <= 'z' ==> upper(s)[i] as int == s[i] as int - 32 && lower(s)[i] == s[i],
        !('A' <= s[i] <= 'Z') && !('a' <= s[i] <= 'z') ==> lower(s)[i] == s[i] && upper(s)[i] == s[i],
{
}

/// A mark parts a text into what stands before it and the parts of what stands behind it.
pub proof fn parts_are_what_a_mark_parts(a: Seq<char>, c: char, b: Seq<char>)
    requires
        !a.contains(c),
    ensures
        split(a, c) == seq![a],
        split(a + seq![c] + b, c) == seq![a] + split(b, c),
        before(a, c) == a && after(a, c) is None,
        before(a + seq![c] + b, c) == a && after(a + seq![c] + b, c) == Some(b),
{
    lemma_marked(a, c, b);
    text::lemma_position(a, c);
    assert(a.take(a.len() as int) =~= a);
}

proof fn lemma_marked(a: Seq<char>, c: char, b: Seq<char>)
    requires
        !a.contains(c),
    ensures
        position(a + seq![c] + b, c) == a.len(),
        (a + seq![c] + b).take(a.len() as int) == a,
        (a + seq![c] + b).skip(a.len() as int + 1) == b,
{
    let s = a + seq![c] + b;
    assert forall|j: int| 0 <= j < a.len() implies #[trigger] s[j] != c by {
        assert(a[j] == s[j]);
        if a[j] == c {
            assert(a.contains(c));
        }
    }
    text::lemma_position_is(s, c, a.len() as int);
    assert(s.take(a.len() as int) =~= a);
    assert(s.skip(a.len() as int + 1) =~= b);
}

/// Lines end at line feeds, with or without a carriage return before them; what follows
/// the last line feed is a line if it is anything.
pub proof fn lines_end_at_line_feeds(a: Seq<char>, b: Seq<char>)
    requires
        !a.contains('\n'),
    ensures
        a.len() > 0 ==> lines(a) == seq![a],
        a.len() == 0 ==> lines(a).len() == 0,
        lines(a + seq!['\n'] + b) == seq![strip_cr(a)] + lines(b),
        strip_cr(a + seq!['\r']) == a,
        a.len() == 0 || a.last() != '\r' ==> strip_cr(a) == a,
{
    lemma_marked(a, '\n', b);
    text::lemma_position(a, '\n');
    assert((a + seq!['\n'] + b).len() > 0);
    assert((a + seq!['\r']).drop_last() =~= a);
}

/// Words are parted by white space: a text without any is a word, white space in front
/// changes nothing, and behind a word and white space come the words of the rest.
pub proof fn words_are_parted_by_white_space(w: Seq<char>, c: char, rest: Seq<char>)
    requires
        is_ws(c),
        forall|i: int| 0 <= i < w.len() ==> !is_ws(#[trigger] w[i]),
    ensures
        words(Seq::<char>::empty()).len() == 0,
        w.len() > 0 ==> words(w) == seq![w],
        words(seq![c] + rest) == words(rest),
        w.len() > 0 ==> words(w + seq![c] + rest) == seq![w] + words(rest),
{
    let e = Seq::<char>::empty();
    assert(trim_start(e) == e);
    let s = seq![c] + rest;
    assert(s[0] == c);
    assert(s.skip(1) =~= rest);
    assert(trim_start(s) == trim_start(rest));
    if w.len() > 0 {
        assert(!is_ws(w[0]));
        text::lemma_ws_position_is(w, w.len() as int);
        assert(w.take(w.len() as int) =~= w);
        assert(w.skip(w.len() as int) =~= e);
        let t = w + seq![c] + rest;
        assert(t[0] == w[0]);
        assert forall|j: int| 0 <= j < w.len() implies !is_ws(#[trigger] t[j]) by {
            assert(t[j] == w[j]);
        }
        text::lemma_ws_position_is(t, w.len() as int);
        assert(t.take(w.len() as int) =~= w);
        assert(t.skip(w.len() as int) =~= s);
        assert(words(w) =~= seq![w] + words(e));
    }
}

/// Digits stand for their value, letters from ten on, in either case.
pub proof fn digits_stand_for_their_value(d: nat, c: char, b: nat)
    requires
        d < 16,
        b <= 36,
    ensures
        d < 10 ==> digit_char(d) as int == '0' as int + d,
        10 <= d ==> digit_char(d) as int == 'a' as int + d - 10,
        '0' <= c <= '9' && (c as int) - ('0' as int) < b ==> digit_value(c, b) == Some((c as int - '0' as int) as nat),
        'a' <= c <= 'z' && (c as int) - ('a' as int) + 10 < b ==> digit_value(c, b) == Some(
            (c as int - 'a' as int + 10) as nat,
        ),
        'A' <= c <= 'Z' && (c as int) - ('A' as int) + 10 < b ==> digit_value(c, b) == Some(
            (c as int - 'A' as int + 10) as nat,
        ),
        !('0' <= c <= '9') && !('a' <= c <= 'z') && !('A' <= c <= 'Z') ==> digit_value(c, b) is None,
{
}

}

//! Text as sequences of characters: the operations that the parsers and
//! formatters of this crate are specified with, and verified code for each.
use vstd::prelude::*;
use vstd::slice::*;
use vstd::string::*;

verus! {

/// `String::push` appends the given character to the end of the string.
pub assume_specification[ String::push ](s: &mut String, c: char)
    ensures
        final(s)@ == old(s)@.push(c),
;

/// The lower case of a text by Unicode's rules.
pub uninterp spec fn unicode_lower(s: Seq<char>) -> Seq<char>;

/// Every character is an ASCII character.
pub open spec fn all_ascii(s: Seq<char>) -> bool {
    forall|i: int| 0 <= i < s.len() ==> #[trigger] s[i] <= '\u{7f}'
}

/// `str::to_lowercase` returns the lower case of a text by Unicode's rules, which
/// on ASCII texts is the ASCII lower case.
pub assume_specification[ str::to_lowercase ](s: &str) -> (r: String)
    ensures
        r@ == unicode_lower(s@),
        all_ascii(s@) ==> r@ == lower(s@),
;

/// The characters with the Unicode property White_Space.
pub open spec fn is_ws(c: char) -> bool {
    ||| ('\u{9}' <= c && c <= '\u{d}')
    ||| c == ' '
    ||| c == '\u{85}'
    ||| c == '\u{a0}'
    ||| c == '\u{1680}'
    ||| ('\u{2000}' <= c && c <= '\u{200a}')
    ||| c == '\u{2028}'
    ||| c == '\u{2029}'
    ||| c == '\u{202f}'
    ||| c == '\u{205f}'
    ||| c == '\u{3000}'
}

/// The control characters: Unicode general category Cc.
pub open spec fn is_ctl(c: char) -> bool {
    c <= '\u{1f}' || ('\u{7f}' <= c && c <= '\u{9f}')
}

/// ASCII lower case of one character; other characters stay as they are.
pub open spec fn lower_char(c: char) -> char {
    if 'A' <= c && c <= 'Z' {
        ((c as u32) + 32) as char
    } else {
        c
    }
}

/// ASCII lower case of a text.
pub open spec fn lower(s: Seq<char>) -> Seq<char> {
    s.map_values(|c: char| lower_char(c))
}

/// ASCII upper case of one character; other characters stay as they are.
pub open spec fn upper_char(c: char) -> char {
    if 'a' <= c && c <= 'z' {
        ((c as u32) - 32) as char
    } else {
        c
    }
}

/// ASCII upper case of a text.
pub open spec fn upper(s: Seq<char>) -> Seq<char> {
    s.map_values(|c: char| upper_char(c))
}

/// The text without its leading white space.
pub open spec fn trim_start(s: Seq<char>) -> Seq<char>
    decreases s.len(),
{
    if s.len() > 0 && is_ws(s[0]) {
        trim_start(s.skip(1))
    } else {
        s
    }
}

/// The text without its trailing white space.
pub open spec fn trim_end(s: Seq<char>) -> Seq<char>
    decreases s.len(),
{
    if s.len() > 0 && is_ws(s.last()) {
        trim_end(s.drop_last())
    } else {
        s
    }
}

/// The text without white space at either end.
pub open spec fn trim(s: Seq<char>) -> Seq<char> {
    trim_end(trim_start(s))
}

/// The text without the characters `c` at its end.
pub open spec fn trim_end_char(s: Seq<char>, c: char) -> Seq<char>
    decreases s.len(),
{
    if s.len() > 0 && s.last() == c {
        trim_end_char(s.drop_last(), c)
    } else {
        s
    }
}

/// The text without the characters `c` at its start.
pub open spec fn trim_start_char(s: Seq<char>, c: char) -> Seq<char>
    decreases s.len(),
{
    if s.len() > 0 && s[0] == c {
        trim_start_char(s.skip(1), c)
    } else {
        s
    }
}

/// The index of the first `c`, or the length of the text where there is none.
pub open spec fn position(s: Seq<char>, c: char) -> nat
    decreases s.len(),
{
    if s.len() == 0 || s[0] == c {
        0
    } else {
        1 + position(s.skip(1), c)
    }
}

/// The index of the first white space, or the length where there is none.
pub open spec fn ws_position(s: Seq<char>) -> nat
    decreases s.len(),
{
    if s.len() == 0 || is_ws(s[0]) {
        0
    } else {
        1 + ws_position(s.skip(1))
    }
}

/// The parts of the text between the characters `c`: one more than there are `c`s.
pub open spec fn split(s: Seq<char>, c: char) -> Seq<Seq<char>>
    decreases s.len(),
{
    let p = position(s, c);
    if p < s.len() {
        seq![s.take(p as int)] + split(s.skip(p as int + 1), c)
    } else {
        seq![s]
    }
}

/// A line's text without the carriage return that stood before its newline.
pub open spec fn strip_cr(s: Seq<char>) -> Seq<char> {
    if s.len() > 0 && s.last() == '\r' {
        s.drop_last()
    } else {
        s
    }
}

/// The lines of a text. A line ends at `\n` or `\r\n`; the last line's end is optional.
pub open spec fn lines(s: Seq<char>) -> Seq<Seq<char>>
    decreases s.len(),
{
    let p = position(s, '\n');
    if s.len() == 0 {
        seq![]
    } else if p < s.len() {
        seq![strip_cr(s.take(p as int))] + lines(s.skip(p as int + 1))
    } else {
        seq![s]
    }
}

/// The words of a text: its longest parts without white space.
pub open spec fn words(s: Seq<char>) -> Seq<Seq<char>>
    decreases s.len(),
    via words_decreases
{
    let t = trim_start(s);
    let p = ws_position(t);
    if t.len() == 0 {
        seq![]
    } else {
        seq![t.take(p as int)] + words(t.skip(p as int))
    }
}

#[via_fn]
proof fn words_decreases(s: Seq<char>) {
    lemma_trim_start_len(s);
    let t = trim_start(s);
    if t.len() > 0 {
        lemma_trim_start_first(s);
        lemma_ws_position(t);
    }
}

/// `p` stands in `s` at index `i`.
pub open spec fn occurs_at(s: Seq<char>, p: Seq<char>, i: int) -> bool {
    0 <= i && i + p.len() <= s.len() && s.subrange(i, i + p.len()) == p
}

/// `p` stands somewhere in `s`.
pub open spec fn contains_text(s: Seq<char>, p: Seq<char>) -> bool {
    exists|i: int| #[trigger] occurs_at(s, p, i)
}

/// The index at which `p` first stands in `s`, or `s.len() + 1` where it does not.
pub open spec fn text_position(s: Seq<char>, p: Seq<char>) -> nat
    decreases s.len(),
{
    if occurs_at(s, p, 0) {
        0
    } else if s.len() == 0 {
        1
    } else {
        1 + text_position(s.skip(1), p)
    }
}

/// The views of a vector of strings.
pub open spec fn texts(v: Seq<String>) -> Seq<Seq<char>> {
    v.map_values(|s: String| s@)
}

/// Texts joined with a separator between them.
pub open spec fn join(parts: Seq<Seq<char>>, sep: Seq<char>) -> Seq<char>
    decreases parts.len(),
{
    if parts.len() == 0 {
        seq![]
    } else if parts.len() == 1 {
        parts[0]
    } else {
        join(parts.drop_last(), sep) + sep + parts.last()
    }
}

/// The texts that `f` gives for each item, one after the other.
pub open spec fn flat_map<A, B>(items: Seq<A>, f: spec_fn(A) -> Seq<B>) -> Seq<B>
    decreases items.len(),
{
    if items.len() == 0 {
        seq![]
    } else {
        flat_map(items.drop_last(), f) + f(items.last())
    }
}

/// The first value that `f` finds among the items.
pub open spec fn first_found<A, B>(items: Seq<A>, f: spec_fn(A) -> Option<B>) -> Option<B>
    decreases items.len(),
{
    if items.len() == 0 {
        None
    } else {
        match first_found(items.drop_last(), f) {
            Some(b) => Some(b),
            None => f(items.last()),
        }
    }
}

/// How many items satisfy `f`.
pub open spec fn count_where<A>(items: Seq<A>, f: spec_fn(A) -> bool) -> nat
    decreases items.len(),
{
    if items.len() == 0 {
        0
    } else {
        count_where(items.drop_last(), f) + (if f(items.last()) { 1nat } else { 0nat })
    }
}

/// The character for a digit below sixteen.
pub open spec fn digit_char(d: nat) -> char {
    if d < 10 {
        (48 + d) as char
    } else {
        (87 + d) as char
    }
}

/// A number in base `b`, with lower-case letters for the digits above nine.
pub open spec fn in_base(n: nat, b: nat) -> Seq<char>
    recommends
        2 <= b <= 16,
    decreases n,
{
    if b < 2 || n < b {
        seq![digit_char(n)]
    } else {
        proof {
            assert(n / b < n) by (nonlinear_arith)
                requires
                    2 <= b <= n,
            ;
        }
        in_base(n / b, b).push(digit_char(n % b))
    }
}

/// A number as decimal digits.
pub open spec fn decimal(n: nat) -> Seq<char> {
    in_base(n, 10)
}

/// The value of a digit in base `b`, upper or lower case.
pub open spec fn digit_value(c: char, b: nat) -> Option<nat> {
    let v: int = if '0' <= c && c <= '9' {
        c as int - 48
    } else if 'a' <= c && c <= 'z' {
        c as int - 87
    } else if 'A' <= c && c <= 'Z' {
        c as int - 55
    } else {
        99
    };
    if v < b {
        Some(v as nat)
    } else {
        None
    }
}

/// The value of a text of digits in base `b`; none for another text or an empty one.
pub open spec fn number(s: Seq<char>, b: nat) -> Option<nat>
    decreases s.len(),
{
    if s.len() == 0 {
        None
    } else if s.len() == 1 {
        digit_value(s[0], b)
    } else {
        match (number(s.drop_last(), b), digit_value(s.last(), b)) {
            (Some(n), Some(d)) => Some(n * b + d),
            _ => None,
        }
    }
}

pub proof fn lemma_trim_start_len(s: Seq<char>)
    ensures
        trim_start(s).len() <= s.len(),
    decreases s.len(),
{
    if s.len() > 0 && is_ws(s[0]) {
        lemma_trim_start_len(s.skip(1));
    }
}

pub proof fn lemma_trim_start_first(s: Seq<char>)
    ensures
        trim_start(s).len() > 0 ==> !is_ws(trim_start(s)[0]),
    decreases s.len(),
{
    if s.len() > 0 && is_ws(s[0]) {
        lemma_trim_start_first(s.skip(1));
    }
}

pub proof fn lemma_trim_end_len(s: Seq<char>)
    ensures
        trim_end(s).len() <= s.len(),
    decreases s.len(),
{
    if s.len() > 0 && is_ws(s.last()) {
        lemma_trim_end_len(s.drop_last());
    }
}

pub proof fn lemma_trim_start_push_ws(s: Seq<char>, c: char)
    requires
        is_ws(c),
    ensures
        trim_start(s.push(c)) == (if trim_start(s).len() == 0 {
            Seq::<char>::empty()
        } else {
            trim_start(s).push(c)
        }),
    decreases s.len(),
{
    let t = s.push(c);
    if s.len() == 0 {
        assert(t.skip(1) =~= Seq::<char>::empty());
        assert(trim_start(t.skip(1)) =~= Seq::<char>::empty());
    } else if is_ws(s[0]) {
        assert(t[0] == s[0]);
        assert(t.skip(1) =~= s.skip(1).push(c));
        lemma_trim_start_push_ws(s.skip(1), c);
    } else {
        assert(t[0] == s[0]);
    }
}

pub proof fn lemma_trim_push_ws(s: Seq<char>, c: char)
    requires
        is_ws(c),
    ensures
        trim(s.push(c)) == trim(s),
{
    lemma_trim_start_push_ws(s, c);
    let t = trim_start(s);
    if t.len() > 0 {
        assert(t.push(c).drop_last() =~= t);
        assert(trim_end(t.push(c)) == trim_end(t));
    } else {
        assert(t =~= Seq::<char>::empty());
    }
}

pub proof fn lemma_ws_position(s: Seq<char>)
    ensures
        ws_position(s) <= s.len(),
        forall|j: int| 0 <= j < ws_position(s) ==> !is_ws(#[trigger] s[j]),
        ws_position(s) < s.len() ==> is_ws(s[ws_position(s) as int]),
        s.len() > 0 && !is_ws(s[0]) ==> ws_position(s) > 0,
    decreases s.len(),
{
    if s.len() > 0 && !is_ws(s[0]) {
        lemma_ws_position(s.skip(1));
        assert forall|j: int| 0 <= j < ws_position(s) implies !is_ws(#[trigger] s[j]) by {
            if j > 0 {
                assert(s[j] == s.skip(1)[j - 1]);
            }
        }
    }
}

/// What the position of a character says of the text.
pub proof fn lemma_position(s: Seq<char>, c: char)
    ensures
        position(s, c) <= s.len(),
        forall|j: int| 0 <= j < position(s, c) ==> #[trigger] s[j] != c,
        position(s, c) < s.len() ==> s[position(s, c) as int] == c,
        position(s, c) < s.len() <==> s.contains(c),
    decreases s.len(),
{
    if s.len() > 0 && s[0] != c {
        lemma_position(s.skip(1), c);
        assert forall|j: int| 0 <= j < position(s, c) implies #[trigger] s[j] != c by {
            if j > 0 {
                assert(s[j] == s.skip(1)[j - 1]);
            }
        }
        if s.contains(c) {
            let k = choose|k: int| 0 <= k < s.len() && s[k] == c;
            assert(s.skip(1)[k - 1] == c);
        }
    }
}

/// A position is determined by what it says.
pub proof fn lemma_position_is(s: Seq<char>, c: char, p: int)
    requires
        0 <= p <= s.len(),
        forall|j: int| 0 <= j < p ==> #[trigger] s[j] != c,
        p < s.len() ==> s[p] == c,
    ensures
        position(s, c) == p,
{
    lemma_position(s, c);
    let q = position(s, c) as int;
    if q < p {
        assert(s[q] != c);
    }
    if p < q {
        assert(s[p] != c);
    }
}

pub proof fn lemma_ws_position_is(s: Seq<char>, p: int)
    requires
        0 <= p <= s.len(),
        forall|j: int| 0 <= j < p ==> !is_ws(#[trigger] s[j]),
        p < s.len() ==> is_ws(s[p]),
    ensures
        ws_position(s) == p,
{
    lemma_ws_position(s);
    let q = ws_position(s) as int;
    if q < p {
        assert(!is_ws(s[q]));
    }
    if p < q {
        assert(!is_ws(s[p]));
    }
}

pub proof fn lemma_flat_map_push<A, B>(items: Seq<A>, x: A, f: spec_fn(A) -> Seq<B>)
    ensures
        flat_map(items.push(x), f) == flat_map(items, f) + f(x),
{
    assert(items.push(x).drop_last() == items);
}

pub proof fn lemma_flat_map_added<A, B>(a: Seq<A>, b: Seq<A>, f: spec_fn(A) -> Seq<B>)
    ensures
        flat_map(a + b, f) == flat_map(a, f) + flat_map(b, f),
    decreases b.len(),
{
    if b.len() == 0 {
        assert(a + b =~= a);
        assert(flat_map(a, f) + flat_map(b, f) =~= flat_map(a, f));
    } else {
        lemma_flat_map_added(a, b.drop_last(), f);
        assert((a + b).drop_last() =~= a + b.drop_last());
        assert(flat_map(a + b, f) =~= flat_map(a, f) + flat_map(b, f));
    }
}

pub proof fn lemma_first_found_push<A, B>(items: Seq<A>, x: A, f: spec_fn(A) -> Option<B>)
    ensures
        first_found(items.push(x), f) == (match first_found(items, f) {
            Some(b) => Some(b),
            None => f(x),
        }),
{
    assert(items.push(x).drop_last() == items);
}

/// What was found among the first items is what is found.
pub proof fn lemma_first_found_prefix<A, B>(items: Seq<A>, rest: Seq<A>, f: spec_fn(A) -> Option<B>)
    ensures
        first_found(items, f) is Some ==> first_found(items + rest, f) == first_found(items, f),
    decreases rest.len(),
{
    if rest.len() == 0 {
        assert(items + rest =~= items);
    } else {
        lemma_first_found_prefix(items, rest.drop_last(), f);
        assert((items + rest).drop_last() =~= items + rest.drop_last());
    }
}

/// The first item for which something is found gives what is found.
pub proof fn lemma_first_found_at<A, B>(items: Seq<A>, i: int, f: spec_fn(A) -> Option<B>)
    requires
        0 <= i < items.len(),
        f(items[i]) is Some,
        forall|j: int| 0 <= j < i ==> f(#[trigger] items[j]) is None,
    ensures
        first_found(items, f) == f(items[i]),
    decreases items.len(),
{
    if i < items.len() - 1 {
        lemma_first_found_at(items.drop_last(), i, f);
    } else {
        lemma_none_found(items.drop_last(), f);
    }
}

/// Nothing is found where no item gives anything.
pub proof fn lemma_none_found<A, B>(items: Seq<A>, f: spec_fn(A) -> Option<B>)
    requires
        forall|j: int| 0 <= j < items.len() ==> f(#[trigger] items[j]) is None,
    ensures
        first_found(items, f) is None,
    decreases items.len(),
{
    if items.len() > 0 {
        lemma_none_found(items.drop_last(), f);
    }
}

pub proof fn lemma_count_where_push<A>(items: Seq<A>, x: A, f: spec_fn(A) -> bool)
    ensures
        count_where(items.push(x), f) == count_where(items, f) + (if f(x) { 1nat } else { 0nat }),
{
    assert(items.push(x).drop_last() == items);
}

pub proof fn lemma_count_where_bound<A>(items: Seq<A>, f: spec_fn(A) -> bool)
    ensures
        count_where(items, f) <= items.len(),
    decreases items.len(),
{
    if items.len() > 0 {
        lemma_count_where_bound(items.drop_last(), f);
    }
}

/// The characters of a string, in order.
pub fn chars_of(s: &str) -> (r: Vec<char>)
    ensures
        r@ == s@,
{
    let mut out: Vec<char> = Vec::new();
    for c in it: s.chars()
        invariant
            it.seq() == s@,
            out@ == s@.take(it.index() as int),
    {
        out.push(c);
    }
    assert(s@.take(s@.len() as int) == s@);
    out
}

/// The string with the given characters.
pub fn string_of(cs: &[char]) -> (r: String)
    ensures
        r@ == cs@,
{
    let mut out = String::new();
    let mut i: usize = 0;
    while i < cs.len()
        invariant
            i <= cs@.len(),
            out@ == cs@.take(i as int),
        decreases cs@.len() - i,
    {
        out.push(cs[i]);
        i = i + 1;
    }
    assert(cs@.take(cs@.len() as int) == cs@);
    out
}

/// Whether a character outside ASCII has the Unicode property Alphabetic or is numeric.
pub uninterp spec fn unicode_alphanumeric(c: char) -> bool;

/// The ASCII letters and digits.
pub open spec fn ascii_alphanumeric(c: char) -> bool {
    ('0' <= c && c <= '9') || ('a' <= c && c <= 'z') || ('A' <= c && c <= 'Z')
}

/// Letters and digits, of ASCII and of the rest of Unicode; never white space.
pub open spec fn alphanumeric(c: char) -> bool {
    if c <= '\u{7f}' {
        ascii_alphanumeric(c)
    } else {
        unicode_alphanumeric(c) && !is_ws(c)
    }
}

/// `char::is_alphanumeric` is true of the letters and digits. In ASCII these are
/// the digits and the Latin letters; outside ASCII the result is a fixed function
/// of the character: whether it has the Unicode property Alphabetic or is in one of
/// the general categories of numbers. No character with the property White_Space is
/// any of these.
pub assume_specification[ char::is_alphanumeric ](c: char) -> (r: bool)
    ensures
        c <= '\u{7f}' ==> r == ascii_alphanumeric(c),
        c > '\u{7f}' ==> r == unicode_alphanumeric(c),
        r ==> !is_ws(c),
;

pub proof fn lemma_texts_push(v: Seq<String>, s: String)
    ensures
        texts(v.push(s)) == texts(v).push(s@),
{
}

pub proof fn lemma_filter_push<A>(v: Seq<A>, x: A, f: spec_fn(A) -> bool)
    ensures
        v.push(x).filter(f) == (if f(x) { v.filter(f).push(x) } else { v.filter(f) }),
{
    reveal(Seq::filter);
    assert(v.push(x).drop_last() == v);
}

/// The part of a text before the first `c`: the whole text where there is none.
pub open spec fn before(s: Seq<char>, c: char) -> Seq<char> {
    s.take(position(s, c) as int)
}

/// The part of a text after the first `c`, if there is one.
pub open spec fn after(s: Seq<char>, c: char) -> Option<Seq<char>> {
    if position(s, c) < s.len() {
        Some(s.skip(position(s, c) as int + 1))
    } else {
        None
    }
}

/// The part of a text before the first `c`.
pub fn part_before<'a>(s: &'a [char], c: char) -> (r: &'a [char])
    ensures
        r@ == before(s@, c),
{
    slice_subrange(s, 0, find_char(s, c))
}

/// The part of a text after the first `c`, if there is one.
pub fn part_after<'a>(s: &'a [char], c: char) -> (r: Option<&'a [char]>)
    ensures
        match r {
            Some(t) => after(s@, c) == Some(t@),
            None => after(s@, c) is None,
        },
{
    let p = find_char(s, c);
    if p < s.len() {
        let t = slice_subrange(s, p + 1, s.len());
        assert(t@ == s@.skip(p as int + 1));
        Some(t)
    } else {
        None
    }
}

/// A text in ASCII lower case, as a string.
pub fn lowered(s: &[char]) -> (r: String)
    ensures
        r@ == lower(s@),
{
    let v = to_lower(s);
    string_of(v.as_slice())
}

/// Whether the character is white space.
pub fn is_whitespace(c: char) -> (r: bool)
    ensures
        r == is_ws(c),
{
    ('\u{9}' <= c && c <= '\u{d}') || c == ' ' || c == '\u{85}' || c == '\u{a0}' || c == '\u{1680}'
        || ('\u{2000}' <= c && c <= '\u{200a}') || c == '\u{2028}' || c == '\u{2029}' || c == '\u{202f}'
        || c == '\u{205f}' || c == '\u{3000}'
}

/// Whether the character is a control character.
pub fn is_control(c: char) -> (r: bool)
    ensures
        r == is_ctl(c),
{
    c <= '\u{1f}' || ('\u{7f}' <= c && c <= '\u{9f}')
}

/// ASCII lower case of one character.
pub fn to_lower_char(c: char) -> (r: char)
    ensures
        r == lower_char(c),
{
    if 'A' <= c && c <= 'Z' {
        ((c as u8) + 32) as char
    } else {
        c
    }
}

/// ASCII upper case of one character.
pub fn to_upper_char(c: char) -> (r: char)
    ensures
        r == upper_char(c),
{
    if 'a' <= c && c <= 'z' {
        ((c as u8) - 32) as char
    } else {
        c
    }
}

/// ASCII lower case of a text.
pub fn to_lower(s: &[char]) -> (r: Vec<char>)
    ensures
        r@ == lower(s@),
{
    let mut out: Vec<char> = Vec::new();
    let mut i: usize = 0;
    while i < s.len()
        invariant
            i <= s@.len(),
            out@ == lower(s@.take(i as int)),
        decreases s@.len() - i,
    {
        out.push(to_lower_char(s[i]));
        i = i + 1;
        assert(s@.take(i as int) == s@.take(i - 1).push(s@[i - 1]));
    }
    assert(s@.take(s@.len() as int) == s@);
    out
}

/// ASCII upper case of a text.
pub fn to_upper(s: &[char]) -> (r: Vec<char>)
    ensures
        r@ == upper(s@),
{
    let mut out: Vec<char> = Vec::new();
    let mut i: usize = 0;
    while i < s.len()
        invariant
            i <= s@.len(),
            out@ == upper(s@.take(i as int)),
        decreases s@.len() - i,
    {
        out.push(to_upper_char(s[i]));
        i = i + 1;
        assert(s@.take(i as int) == s@.take(i - 1).push(s@[i - 1]));
    }
    assert(s@.take(s@.len() as int) == s@);
    out
}

/// The text without its leading white space.
pub fn trimmed_start<'a>(s: &'a [char]) -> (r: &'a [char])
    ensures
        r@ == trim_start(s@),
{
    let mut i: usize = 0;
    assert(s@.skip(0) == s@);
    while i < s.len() && is_whitespace(s[i])
        invariant
            i <= s@.len(),
            trim_start(s@) == trim_start(s@.skip(i as int)),
        decreases s@.len() - i,
    {
        assert(s@.skip(i as int).skip(1) == s@.skip(i + 1));
        i = i + 1;
    }
    slice_subrange(s, i, s.len())
}

/// The text without its trailing white space.
pub fn trimmed_end<'a>(s: &'a [char]) -> (r: &'a [char])
    ensures
        r@ == trim_end(s@),
{
    let mut i: usize = s.len();
    assert(s@.take(i as int) == s@);
    while i > 0 && is_whitespace(s[i - 1])
        invariant
            i <= s@.len(),
            trim_end(s@) == trim_end(s@.take(i as int)),
        decreases i,
    {
        assert(s@.take(i as int).drop_last() == s@.take(i - 1));
        i = i - 1;
    }
    slice_subrange(s, 0, i)
}

/// The text without white space at either end.
pub fn trimmed<'a>(s: &'a [char]) -> (r: &'a [char])
    ensures
        r@ == trim(s@),
{
    trimmed_end(trimmed_start(s))
}

/// The text without the characters `c` at its end.
pub fn trimmed_end_char<'a>(s: &'a [char], c: char) -> (r: &'a [char])
    ensures
        r@ == trim_end_char(s@, c),
{
    let mut i: usize = s.len();
    assert(s@.take(i as int) == s@);
    while i > 0 && s[i - 1] == c
        invariant
            i <= s@.len(),
            trim_end_char(s@, c) == trim_end_char(s@.take(i as int), c),
        decreases i,
    {
        assert(s@.take(i as int).drop_last() == s@.take(i - 1));
        i = i - 1;
    }
    slice_subrange(s, 0, i)
}

/// The text without the characters `c` at its start.
pub fn trimmed_start_char<'a>(s: &'a [char], c: char) -> (r: &'a [char])
    ensures
        r@ == trim_start_char(s@, c),
{
    let mut i: usize = 0;
    assert(s@.skip(0) == s@);
    while i < s.len() && s[i] == c
        invariant
            i <= s@.len(),
            trim_start_char(s@, c) == trim_start_char(s@.skip(i as int), c),
        decreases s@.len() - i,
    {
        assert(s@.skip(i as int).skip(1) == s@.skip(i + 1));
        i = i + 1;
    }
    slice_subrange(s, i, s.len())
}

/// The index of the first `c`, or the length of the text where there is none.
pub fn find_char(s: &[char], c: char) -> (r: usize)
    ensures
        r == position(s@, c),
        r <= s@.len(),
        r < s@.len() ==> s@[r as int] == c,
        forall|j: int| 0 <= j < r ==> #[trigger] s@[j] != c,
        r < s@.len() <==> s@.contains(c),
{
    let mut i: usize = 0;
    while i < s.len() && s[i] != c
        invariant
            i <= s@.len(),
            forall|j: int| 0 <= j < i ==> #[trigger] s@[j] != c,
        decreases s@.len() - i,
    {
        i = i + 1;
    }
    proof {
        lemma_position_is(s@, c, i as int);
        lemma_position(s@, c);
    }
    i
}

/// The index of the first white space, or the length where there is none.
pub fn find_ws(s: &[char]) -> (r: usize)
    ensures
        r == ws_position(s@),
        r <= s@.len(),
{
    let mut i: usize = 0;
    while i < s.len() && !is_whitespace(s[i])
        invariant
            i <= s@.len(),
            forall|j: int| 0 <= j < i ==> !is_ws(#[trigger] s@[j]),
        decreases s@.len() - i,
    {
        i = i + 1;
    }
    proof {
        lemma_ws_position_is(s@, i as int);
    }
    i
}

/// Whether two texts are the same.
pub fn same(a: &[char], b: &[char]) -> (r: bool)
    ensures
        r == (a@ == b@),
{
    if a.len() != b.len() {
        return false;
    }
    let mut i: usize = 0;
    while i < a.len()
        invariant
            i <= a@.len(),
            a@.len() == b@.len(),
            a@.take(i as int) == b@.take(i as int),
        decreases a@.len() - i,
    {
        if a[i] != b[i] {
            assert(a@[i as int] != b@[i as int]);
            return false;
        }
        i = i + 1;
        assert(a@.take(i as int) == a@.take(i - 1).push(a@[i - 1]));
        assert(b@.take(i as int) == b@.take(i - 1).push(b@[i - 1]));
    }
    assert(a@.take(a@.len() as int) == a@);
    assert(b@.take(b@.len() as int) == b@);
    true
}

/// Whether `p` stands in `s` at index `i`.
pub fn is_at(s: &[char], p: &[char], i: usize) -> (r: bool)
    requires
        i <= s@.len(),
    ensures
        r == occurs_at(s@, p@, i as int),
{
    if p.len() > s.len() - i {
        return false;
    }
    same(slice_subrange(s, i, i + p.len()), p)
}

/// Whether the text begins with `p`.
pub fn starts_with(s: &[char], p: &str) -> (r: bool)
    ensures
        r == p@.is_prefix_of(s@),
{
    let cs = chars_of(p);
    is_at(s, cs.as_slice(), 0)
}

/// Whether the text ends with `p`.
pub fn ends_with(s: &[char], p: &str) -> (r: bool)
    ensures
        r == p@.is_suffix_of(s@),
{
    let cs = chars_of(p);
    if cs.len() > s.len() {
        return false;
    }
    is_at(s, cs.as_slice(), s.len() - cs.len())
}

/// Whether the text is `p`.
pub fn is_text(s: &[char], p: &str) -> (r: bool)
    ensures
        r == (s@ == p@),
{
    let cs = chars_of(p);
    same(s, cs.as_slice())
}

/// Whether two strings are the same.
pub fn str_same(a: &str, b: &str) -> (r: bool)
    ensures
        r == (a@ == b@),
{
    let x = chars_of(a);
    is_text(x.as_slice(), b)
}

pub proof fn lemma_text_position(s: Seq<char>, p: Seq<char>)
    ensures
        forall|j: int| 0 <= j < text_position(s, p) ==> !#[trigger] occurs_at(s, p, j),
        text_position(s, p) <= s.len() ==> occurs_at(s, p, text_position(s, p) as int),
        text_position(s, p) <= s.len() + 1,
        text_position(s, p) <= s.len() <==> contains_text(s, p),
    decreases s.len(),
{
    if occurs_at(s, p, 0) {
    } else if s.len() == 0 {
        assert forall|j: int| !#[trigger] occurs_at(s, p, j) by {
            if occurs_at(s, p, j) {
                assert(s.subrange(0, 0) == p);
            }
        }
    } else {
        let t = s.skip(1);
        lemma_text_position(t, p);
        assert forall|j: int| j > 0 implies #[trigger] occurs_at(s, p, j) == occurs_at(t, p, j - 1) by {
            if 0 < j && j + p.len() <= s.len() {
                assert(s.subrange(j, j + p.len()) == t.subrange(j - 1, j - 1 + p.len()));
            }
        }
        assert forall|j: int| 0 <= j < text_position(s, p) implies !#[trigger] occurs_at(s, p, j) by {
            if j > 0 {
                assert(occurs_at(s, p, j) == occurs_at(t, p, j - 1));
            }
        }
        let q = text_position(t, p) as int;
        assert(occurs_at(s, p, q + 1) == occurs_at(t, p, q));
        if contains_text(s, p) {
            let k = choose|k: int| #[trigger] occurs_at(s, p, k);
            assert(occurs_at(t, p, k - 1));
            assert(contains_text(t, p));
        }
    }
}

/// The index at which `p` first stands in `s`, if it does.
pub fn find_text(s: &[char], p: &str) -> (r: Option<usize>)
    ensures
        match r {
            Some(i) => i == text_position(s@, p@) && i + p@.len() <= s@.len() && occurs_at(s@, p@, i as int),
            None => !contains_text(s@, p@),
        },
        r is Some <==> contains_text(s@, p@),
{
    let cs = chars_of(p);
    let mut i: usize = 0;
    loop
        invariant
            i <= s@.len(),
            cs@ == p@,
            forall|j: int| 0 <= j < i ==> !#[trigger] occurs_at(s@, p@, j),
        decreases s@.len() - i,
    {
        if is_at(s, cs.as_slice(), i) {
            proof {
                lemma_text_position(s@, p@);
                let q = text_position(s@, p@) as int;
                assert(contains_text(s@, p@));
                if q < i {
                    assert(!occurs_at(s@, p@, q));
                }
            }
            return Some(i);
        }
        if i == s.len() {
            proof {
                assert forall|j: int| !#[trigger] occurs_at(s@, p@, j) by {}
            }
            return None;
        }
        i = i + 1;
    }
}

/// Whether `p` stands somewhere in `s`.
pub fn contains(s: &[char], p: &str) -> (r: bool)
    ensures
        r == contains_text(s@, p@),
{
    find_text(s, p).is_some()
}

/// The end of the line that starts at `pos`, without its terminator, and the
/// start of the next one.
pub fn next_line(s: &[char], pos: usize) -> (r: (usize, usize))
    requires
        pos < s@.len(),
    ensures
        pos <= r.0 <= s@.len(),
        pos < r.1 <= s@.len(),
        lines(s@.skip(pos as int)) == seq![s@.subrange(pos as int, r.0 as int)] + lines(s@.skip(r.1 as int)),
{
    let rest = slice_subrange(s, pos, s.len());
    let p = find_char(rest, '\n');
    proof {
        assert(rest@ == s@.skip(pos as int));
    }
    if p < rest.len() {
        assert(rest@.skip(p as int + 1) == s@.skip(pos + p + 1));
        if p > 0 && rest[p - 1] == '\r' {
            assert(strip_cr(rest@.take(p as int)) == s@.subrange(pos as int, pos + p - 1));
            (pos + p - 1, pos + p + 1)
        } else {
            assert(strip_cr(rest@.take(p as int)) == s@.subrange(pos as int, (pos + p) as int));
            (pos + p, pos + p + 1)
        }
    } else {
        assert(rest@ == s@.subrange(pos as int, s@.len() as int));
        assert(s@.skip(s@.len() as int) == Seq::<char>::empty());
        assert(lines(Seq::<char>::empty()) == Seq::<Seq<char>>::empty());
        assert(seq![rest@] + Seq::<Seq<char>>::empty() == seq![rest@]);
        (s.len(), s.len())
    }
}

/// The lines of a text.
pub fn split_lines(s: &[char]) -> (r: Vec<Vec<char>>)
    ensures
        char_texts(r@) == lines(s@),
{
    let mut out: Vec<Vec<char>> = Vec::new();
    let mut pos: usize = 0;
    assert(s@.skip(0) =~= s@);
    assert(char_texts(out@) + lines(s@) =~= lines(s@));
    while pos < s.len()
        invariant
            pos <= s@.len(),
            lines(s@) == char_texts(out@) + lines(s@.skip(pos as int)),
        decreases s@.len() - pos,
    {
        let (end, next) = next_line(s, pos);
        let line = slice_subrange(s, pos, end);
        let ghost done = char_texts(out@);
        let one = slice_to_vec(line);
        out.push(one);
        proof {
            assert(one@ =~= line@);
            assert(char_texts(out@) =~= done.push(line@));
            let rest = lines(s@.skip(next as int));
            assert(done.push(line@) + rest =~= done + (seq![line@] + rest));
        }
        pos = next;
    }
    assert(s@.skip(s@.len() as int) =~= Seq::<char>::empty());
    assert(char_texts(out@) + lines(Seq::<char>::empty()) =~= char_texts(out@));
    out
}

/// The views of a vector of texts.
pub open spec fn char_texts(v: Seq<Vec<char>>) -> Seq<Seq<char>> {
    v.map_values(|s: Vec<char>| s@)
}

/// The parts of the text between the characters `c`.
pub fn split_on(s: &[char], c: char) -> (r: Vec<Vec<char>>)
    ensures
        char_texts(r@) == split(s@, c),
{
    let mut out: Vec<Vec<char>> = Vec::new();
    let mut start: usize = 0;
    assert(s@.skip(0) == s@);
    assert(char_texts(out@) + split(s@, c) == split(s@, c));
    loop
        invariant
            start <= s@.len(),
            split(s@, c) == char_texts(out@) + split(s@.skip(start as int), c),
        decreases s@.len() - start,
    {
        let rest = slice_subrange(s, start, s.len());
        assert(rest@ == s@.skip(start as int));
        let p = find_char(rest, c);
        let ghost before = char_texts(out@);
        if p < rest.len() {
            out.push(slice_to_vec(slice_subrange(rest, 0, p)));
            assert(rest@.skip(p as int + 1) == s@.skip(start + p + 1));
            assert(char_texts(out@) == before.push(rest@.take(p as int)));
            assert(before + (seq![rest@.take(p as int)] + split(rest@.skip(p as int + 1), c))
                == char_texts(out@) + split(rest@.skip(p as int + 1), c));
            start = start + p + 1;
        } else {
            out.push(slice_to_vec(rest));
            assert(char_texts(out@) == before.push(rest@));
            assert(before + seq![rest@] == char_texts(out@));
            return out;
        }
    }
}

/// The words of a text.
pub fn split_words(s: &[char]) -> (r: Vec<Vec<char>>)
    ensures
        char_texts(r@) == words(s@),
{
    let mut out: Vec<Vec<char>> = Vec::new();
    let mut rest: &[char] = s;
    assert(char_texts(out@) + words(s@) == words(s@));
    loop
        invariant
            words(s@) == char_texts(out@) + words(rest@),
        decreases rest@.len(),
    {
        let t = trimmed_start(rest);
        let ghost before = char_texts(out@);
        proof {
            lemma_trim_start_len(rest@);
            lemma_trim_start_first(rest@);
            lemma_ws_position(t@);
        }
        if t.len() == 0 {
            assert(words(rest@) == Seq::<Seq<char>>::empty());
            assert(before + Seq::<Seq<char>>::empty() == before);
            return out;
        }
        let p = find_ws(t);
        out.push(slice_to_vec(slice_subrange(t, 0, p)));
        proof {
            assert(char_texts(out@) == before.push(t@.take(p as int)));
            assert(words(rest@) == seq![t@.take(p as int)] + words(t@.skip(p as int)));
            assert(before + (seq![t@.take(p as int)] + words(t@.skip(p as int))) == char_texts(out@) + words(
                t@.skip(p as int),
            ));
        }
        rest = slice_subrange(t, p, t.len());
        assert(rest@ == t@.skip(p as int));
    }
}

/// Appends a text to a string.
pub fn push_chars(out: &mut String, cs: &[char])
    ensures
        final(out)@ == old(out)@ + cs@,
{
    let mut i: usize = 0;
    assert(out@ == out@ + cs@.take(0));
    while i < cs.len()
        invariant
            i <= cs@.len(),
            out@ == old(out)@ + cs@.take(i as int),
        decreases cs@.len() - i,
    {
        out.push(cs[i]);
        i = i + 1;
        assert(cs@.take(i as int) == cs@.take(i - 1).push(cs@[i - 1]));
    }
    assert(cs@.take(cs@.len() as int) == cs@);
}

/// A number in base `b`.
pub fn format_in_base(n: u64, b: u64) -> (r: Vec<char>)
    requires
        2 <= b <= 16,
    ensures
        r@ == in_base(n as nat, b as nat),
    decreases n,
{
    if n < b {
        vec![format_digit(n)]
    } else {
        proof {
            assert(n / b < n && n % b < b) by (nonlinear_arith)
                requires
                    2 <= b <= n,
            ;
        }
        let mut out = format_in_base(n / b, b);
        out.push(format_digit(n % b));
        out
    }
}

fn format_digit(d: u64) -> (r: char)
    requires
        d < 16,
    ensures
        r == digit_char(d as nat),
{
    if d < 10 {
        (48 + d as u8) as char
    } else {
        (87 + d as u8) as char
    }
}

/// A number as decimal digits.
pub fn format_decimal(n: u64) -> (r: Vec<char>)
    ensures
        r@ == decimal(n as nat),
{
    format_in_base(n, 10)
}

/// Appends a number in decimal digits.
pub fn push_decimal(out: &mut String, n: u64)
    ensures
        final(out)@ == old(out)@ + decimal(n as nat),
{
    let d = format_decimal(n);
    push_chars(out, d.as_slice());
}

/// The value of a digit in base `b`.
pub fn parse_digit(c: char, b: u64) -> (r: Option<u64>)
    requires
        2 <= b <= 16,
    ensures
        match r {
            Some(v) => digit_value(c, b as nat) == Some(v as nat) && v < b,
            None => digit_value(c, b as nat) is None,
        },
{
    let v: u64 = if '0' <= c && c <= '9' {
        c as u64 - 48
    } else if 'a' <= c && c <= 'z' {
        c as u64 - 87
    } else if 'A' <= c && c <= 'Z' {
        c as u64 - 55
    } else {
        99
    };
    if v < b {
        Some(v)
    } else {
        None
    }
}

proof fn lemma_number_grows(s: Seq<char>, b: nat, k: int)
    requires
        b >= 1,
        1 <= k <= s.len(),
        number(s, b) is Some,
    ensures
        number(s.take(k), b) is Some,
        number(s.take(k), b)->0 <= number(s, b)->0,
    decreases s.len(),
{
    if k == s.len() {
        assert(s.take(k) == s);
    } else {
        lemma_number_grows(s.drop_last(), b, k);
        assert(s.drop_last().take(k) == s.take(k));
        let n = number(s.drop_last(), b)->0;
        assert(n <= n * b) by (nonlinear_arith)
            requires
                b >= 1,
        ;
    }
}

/// The value of a text of digits in base `b`, where it is at most `max`.
pub fn parse_number(s: &[char], b: u64, max: u64) -> (r: Option<u64>)
    requires
        2 <= b <= 16,
    ensures
        match r {
            Some(v) => number(s@, b as nat) == Some(v as nat) && v <= max,
            None => number(s@, b as nat) is None || number(s@, b as nat)->0 > max,
        },
{
    if s.len() == 0 {
        return None;
    }
    let mut acc: u128 = 0;
    let mut i: usize = 0;
    while i < s.len()
        invariant
            2 <= b <= 16,
            i <= s@.len(),
            acc <= max,
            i == 0 ==> acc == 0,
            i > 0 ==> number(s@.take(i as int), b as nat) == Some(acc as nat),
        decreases s@.len() - i,
    {
        let ghost pre = s@.take(i as int);
        let ghost cur = s@.take(i + 1);
        proof {
            assert(cur.drop_last() == pre);
            assert(cur.last() == s@[i as int]);
        }
        match parse_digit(s[i], b) {
            None => {
                proof {
                    if number(s@, b as nat) is Some {
                        lemma_number_grows(s@, b as nat, i + 1);
                    }
                }
                return None;
            },
            Some(d) => {
                assert(acc * b <= 0xffff_ffff_ffff_ffff * 16) by (nonlinear_arith)
                    requires
                        0 <= acc <= 0xffff_ffff_ffff_ffff,
                        b <= 16,
                ;
                let ghost prev = acc;
                acc = acc * (b as u128) + d as u128;
                assert(number(cur, b as nat) == Some(acc as nat)) by {
                    if i == 0 {
                        assert(prev * b == 0) by (nonlinear_arith)
                            requires
                                prev == 0,
                        ;
                    }
                }
                if acc > max as u128 {
                    proof {
                        if number(s@, b as nat) is Some {
                            lemma_number_grows(s@, b as nat, i + 1);
                        }
                    }
                    return None;
                }
                i = i + 1;
            },
        }
    }
    assert(s@.take(s@.len() as int) == s@);
    Some(acc as u64)
}

/// The text without a plus sign before it.
pub open spec fn without_plus(s: Seq<char>) -> Seq<char> {
    if s.len() > 0 && s[0] == '+' {
        s.skip(1)
    } else {
        s
    }
}

/// The value of a text of decimal digits, perhaps behind a plus sign, where it is at
/// most `max`.
pub fn parse_unsigned(s: &[char], max: u64) -> (r: Option<u64>)
    ensures
        match r {
            Some(v) => number(without_plus(s@), 10) == Some(v as nat) && v <= max,
            None => number(without_plus(s@), 10) is None || number(without_plus(s@), 10)->0 > max,
        },
{
    if s.len() > 0 && s[0] == '+' {
        let rest = slice_subrange(s, 1, s.len());
        assert(rest@ =~= s@.skip(1));
        return parse_number(rest, 10, max);
    }
    parse_number(s, 10, max)
}

/// A digit of a number in base 16 or less, as it is written.
pub open spec fn is_digit(c: char) -> bool {
    ('0' <= c && c <= '9') || ('a' <= c && c <= 'f')
}

/// A text of digits only.
pub open spec fn all_digits(s: Seq<char>) -> bool {
    forall|i: int| 0 <= i < s.len() ==> is_digit(#[trigger] s[i])
}

/// A number is read back from its digits.
pub proof fn numbers_read_back(n: nat, b: nat)
    requires
        2 <= b <= 16,
    ensures
        number(in_base(n, b), b) == Some(n),
        in_base(n, b).len() > 0,
        all_digits(in_base(n, b)),
        n > 0 ==> in_base(n, b)[0] != '0',
    decreases n,
{
    if n >= b {
        let q = n / b;
        let d = n % b;
        assert(q < n && q > 0 && n == q * b + d && d < b) by (nonlinear_arith)
            requires
                2 <= b <= n,
                q == n / b,
                d == n % b,
        ;
        numbers_read_back(q, b);
        let s = in_base(n, b);
        assert(s == in_base(q, b).push(digit_char(d)));
        assert(s.drop_last() =~= in_base(q, b));
        assert(s.last() == digit_char(d));
        assert(s[0] == in_base(q, b)[0]);
    }
}

/// The parts of a joined text, before a rest.
proof fn lemma_split_joined(ds: Seq<Seq<char>>, rest: Seq<char>, c: char)
    requires
        ds.len() > 0,
        forall|i: int| 0 <= i < ds.len() ==> !(#[trigger] ds[i]).contains(c),
    ensures
        split(join(ds, seq![c]) + seq![c] + rest, c) == ds + split(rest, c),
    decreases ds.len(),
{
    let d = ds.last();
    let s = d + seq![c] + rest;
    assert forall|j: int| 0 <= j < d.len() implies #[trigger] s[j] != c by {
        assert(d.contains(d[j]));
        assert(!ds[ds.len() - 1].contains(c));
    }
    lemma_position_is(s, c, d.len() as int);
    assert(s.take(d.len() as int) =~= d);
    assert(s.skip(d.len() as int + 1) =~= rest);
    if ds.len() == 1 {
        assert(join(ds, seq![c]) + seq![c] + rest =~= s);
        assert(seq![d] + split(rest, c) =~= ds + split(rest, c));
    } else {
        let t = ds.drop_last();
        assert forall|i: int| 0 <= i < t.len() implies !(#[trigger] t[i]).contains(c) by {
            assert(!ds[i].contains(c));
        }
        lemma_split_joined(t, s, c);
        assert(join(ds, seq![c]) + seq![c] + rest =~= join(t, seq![c]) + seq![c] + s);
        assert(t + (seq![d] + split(rest, c)) =~= ds + split(rest, c));
    }
}

/// Parts without the separator are found again in the joined text.
pub proof fn joined_parts_split(ds: Seq<Seq<char>>, c: char)
    requires
        ds.len() > 0,
        forall|i: int| 0 <= i < ds.len() ==> !(#[trigger] ds[i]).contains(c),
    ensures
        split(join(ds, seq![c]), c) == ds,
{
    let d = ds.last();
    lemma_position(d, c);
    assert(!ds[ds.len() - 1].contains(c));
    assert(split(d, c) =~= seq![d]);
    if ds.len() == 1 {
        assert(ds =~= seq![d]);
    } else {
        let t = ds.drop_last();
        assert forall|i: int| 0 <= i < t.len() implies !(#[trigger] t[i]).contains(c) by {
            assert(!ds[i].contains(c));
        }
        lemma_split_joined(t, d, c);
        assert(t + seq![d] =~= ds);
    }
}

/// A text that whitespace neither starts nor ends is trimmed already.
pub proof fn lemma_trimmed(s: Seq<char>)
    requires
        s.len() > 0 ==> !is_ws(s[0]) && !is_ws(s.last()),
    ensures
        trim(s) == s,
{
}

}

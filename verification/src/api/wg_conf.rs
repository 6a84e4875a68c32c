//! The private key inside a WireGuard configuration file: shown as a mask, and put
//! back where the mask comes back.
use vstd::prelude::*;
use vstd::slice::*;
use vstd::string::*;

use crate::text;
use crate::text::{
    after, before, char_texts, first_found, is_ws, join, lines, lower, position, split, strip_cr, trim, trim_end, trim_start,
};

verus! {

/// What is shown in place of a private key. No key is written like this.
pub open spec fn key_mask() -> Seq<char> {
    "********"@
}

/// The line sets the field, whose name is given in lower case.
pub open spec fn sets_field(line: Seq<char>, field: Seq<char>) -> bool {
    field.is_prefix_of(lower(trim_start(line)))
}

/// The value on a line: what stands behind its first `=`, trimmed.
pub open spec fn line_value(line: Seq<char>) -> Option<Seq<char>> {
    match after(line, '=') {
        Some(v) => Some(trim(v)),
        None => None,
    }
}

/// The value on a line that sets the field.
pub open spec fn field_line(line: Seq<char>, field: Seq<char>) -> Option<Option<Seq<char>>> {
    if sets_field(line, field) {
        Some(line_value(line))
    } else {
        None
    }
}

/// The value of a field: that of the first line that sets it.
pub open spec fn field_value(conf: Seq<char>, field: Seq<char>) -> Option<Seq<char>> {
    match first_found(lines(conf), |l: Seq<char>| field_line(l, field)) {
        Some(v) => v,
        None => None,
    }
}

/// The private key in a configuration.
pub open spec fn private_key(conf: Seq<char>) -> Option<Seq<char>> {
    field_value(conf, "privatekey"@)
}

/// The public key of the peer in a configuration.
pub open spec fn public_key(conf: Seq<char>) -> Option<Seq<char>> {
    field_value(conf, "publickey"@)
}

/// How private keys are changed.
#[derive(Debug)]
pub enum KeyChange {
    /// Each becomes the mask.
    Mask,
    /// Those that are the mask become this one, where there is one.
    Restore(Option<String>),
}

/// The private key after a change.
pub open spec fn changed_key(c: KeyChange, key: Seq<char>) -> Seq<char> {
    match c {
        KeyChange::Mask => key_mask(),
        KeyChange::Restore(Some(k)) => if key == key_mask() {
            k@
        } else {
            key
        },
        KeyChange::Restore(None) => key,
    }
}

/// The white space before a text.
pub open spec fn lead(s: Seq<char>) -> Seq<char> {
    s.take(s.len() - trim_start(s).len())
}

/// The white space behind a text that is not white space alone.
pub open spec fn trail(s: Seq<char>) -> Seq<char> {
    trim_start(s).skip(trim(s).len() as int)
}

/// A line after a change: on a line that sets the private key only the value changes,
/// not the white space around it. Any other line stays as it is.
pub open spec fn changed_line(line: Seq<char>, c: KeyChange) -> Seq<char> {
    match after(line, '=') {
        Some(v) => if sets_field(line, "privatekey"@) {
            before(line, '=') + seq!['='] + lead(v) + changed_key(c, trim(v)) + trail(v)
        } else {
            line
        },
        None => line,
    }
}

/// The lines of a configuration after a change, each with the carriage return that
/// may end it.
pub open spec fn changed_lines(conf: Seq<char>, c: KeyChange) -> Seq<Seq<char>> {
    split(conf, '\n').map_values(|l: Seq<char>| changed_line(l, c))
}

/// A configuration after a change. Line ends stay as they are.
pub open spec fn changed(conf: Seq<char>, c: KeyChange) -> Seq<char> {
    join(changed_lines(conf, c), seq!['\n'])
}

/// Some line sets the mask as the private key.
pub open spec fn carries_mask(conf: Seq<char>) -> bool {
    exists|i: int|
        0 <= i < split(conf, '\n').len() && field_line(#[trigger] split(conf, '\n')[i], "privatekey"@) == Some(
            Some(key_mask()),
        )
}

fn is_field_line(line: &[char], field: &str) -> (r: bool)
    ensures
        r == sets_field(line@, field@),
{
    let start = text::trimmed_start(line);
    let low = text::to_lower(start);
    text::starts_with(low.as_slice(), field)
}

fn value_of(line: &[char]) -> (r: Option<String>)
    ensures
        (match r {
            Some(v) => Some(v@),
            None => None,
        }) == line_value(line@),
{
    match text::part_after(line, '=') {
        Some(v) => Some(text::string_of(text::trimmed(v))),
        None => None,
    }
}

fn value_of_field(conf: &str, field: &str) -> (r: Option<String>)
    ensures
        (match r {
            Some(v) => Some(v@),
            None => None,
        }) == field_value(conf@, field@),
{
    let cs = text::chars_of(conf);
    let ls = text::split_lines(cs.as_slice());
    let ghost lv = char_texts(ls@);
    let ghost f = |l: Seq<char>| field_line(l, field@);
    let mut i: usize = 0;
    while i < ls.len()
        invariant
            i <= ls@.len(),
            lv == char_texts(ls@),
            lv == lines(conf@),
            f == (|l: Seq<char>| field_line(l, field@)),
            first_found(lv.take(i as int), f) is None,
        decreases ls@.len() - i,
    {
        proof {
            assert(lv.take(i + 1) =~= lv.take(i as int).push(ls@[i as int]@));
            text::lemma_first_found_push(lv.take(i as int), ls@[i as int]@, f);
            text::lemma_first_found_prefix(lv.take(i + 1), lv.skip(i + 1), f);
            assert(lv.take(i + 1) + lv.skip(i + 1) =~= lv);
        }
        if is_field_line(ls[i].as_slice(), field) {
            return value_of(ls[i].as_slice());
        }
        i = i + 1;
    }
    assert(lv.take(lv.len() as int) =~= lv);
    None
}

/// The private key in a configuration.
pub fn private_key_value(conf: &str) -> (r: Option<String>)
    ensures
        (match r {
            Some(v) => Some(v@),
            None => None,
        }) == private_key(conf@),
{
    value_of_field(conf, "privatekey")
}

/// The public key of the peer in a configuration.
pub fn wg_public_key(conf: &str) -> (r: Option<String>)
    ensures
        (match r {
            Some(v) => Some(v@),
            None => None,
        }) == public_key(conf@),
{
    value_of_field(conf, "publickey")
}

fn push_changed_key(out: &mut String, c: &KeyChange, key: &[char])
    ensures
        final(out)@ == old(out)@ + changed_key(*c, key@),
{
    match c {
        KeyChange::Mask => {
            out.append("********");
        },
        KeyChange::Restore(Some(k)) => {
            if text::is_text(key, "********") {
                out.append(k.as_str());
            } else {
                text::push_chars(out, key);
            }
        },
        KeyChange::Restore(None) => {
            text::push_chars(out, key);
        },
    }
}

fn push_changed_line(out: &mut String, c: &KeyChange, line: &[char])
    ensures
        final(out)@ == old(out)@ + changed_line(line@, *c),
{
    if is_field_line(line, "privatekey") {
        if let Some(v) = text::part_after(line, '=') {
            let start = text::trimmed_start(v);
            let key = text::trimmed(v);
            proof {
                text::lemma_trim_start_len(v@);
                text::lemma_trim_end_len(start@);
            }
            let ghost head = before(line@, '=');
            let ghost o = out@;
            text::push_chars(out, text::part_before(line, '='));
            out.push('=');
            text::push_chars(out, slice_subrange(v, 0, v.len() - start.len()));
            push_changed_key(out, c, key);
            text::push_chars(out, slice_subrange(start, key.len(), start.len()));
            proof {
                let k = changed_key(*c, key@);
                assert(v@.subrange(0, v@.len() - start@.len()) =~= lead(v@));
                assert(start@.subrange(key@.len() as int, start@.len() as int) =~= trail(v@));
                assert(out@ =~= o + (head + seq!['='] + lead(v@) + k + trail(v@)));
            }
            return;
        }
    }
    text::push_chars(out, line);
}

fn change_keys(conf: &str, c: &KeyChange) -> (r: String)
    ensures
        r@ == changed(conf@, *c),
{
    let cs = text::chars_of(conf);
    let ls = text::split_on(cs.as_slice(), '\n');
    let ghost lv = char_texts(ls@);
    let ghost mv = changed_lines(conf@, *c);
    let ghost nl = seq!['\n'];
    let mut out = String::new();
    let mut i: usize = 0;
    assert(out@ =~= join(mv.take(0), nl));
    while i < ls.len()
        invariant
            i <= ls@.len(),
            lv == char_texts(ls@),
            lv == split(conf@, '\n'),
            mv == changed_lines(conf@, *c),
            nl == seq!['\n'],
            out@ == join(mv.take(i as int), nl),
        decreases ls@.len() - i,
    {
        let line = ls[i].as_slice();
        let ghost done = out@;
        proof {
            assert(mv[i as int] == changed_line(line@, *c));
            assert(mv.take(i + 1).drop_last() =~= mv.take(i as int));
            assert(mv.take(i + 1).last() == mv[i as int]);
        }
        if i > 0 {
            out.push('\n');
        }
        let ghost head = out@;
        push_changed_line(&mut out, c, line);
        proof {
            if i == 0 {
                assert(out@ =~= mv[0]);
                assert(mv.take(1)[0] == mv[0]);
            } else {
                assert(head =~= done + nl);
                assert(out@ =~= done + nl + mv[i as int]);
            }
        }
        i = i + 1;
    }
    assert(mv.take(mv.len() as int) =~= mv);
    out
}

/// The configuration with its private key shown as a mask.
pub fn mask_wg_key(conf: &str) -> (r: String)
    ensures
        r@ == changed(conf@, KeyChange::Mask),
{
    change_keys(conf, &KeyChange::Mask)
}

/// The stored key is the one to restore.
pub open spec fn restores(c: KeyChange, stored: Seq<char>) -> bool {
    match c {
        KeyChange::Restore(k) => (match k {
            Some(v) => Some(v@),
            None => None,
        }) == private_key(stored),
        KeyChange::Mask => false,
    }
}

/// A submitted configuration whose masked private key is that of the stored one
/// again. Where no private key is the mask, the text comes back unchanged.
pub fn restore_wg_key(submitted: &str, stored: &str) -> (r: String)
    ensures
        exists|c: KeyChange| restores(c, stored@) && r@ == #[trigger] changed(submitted@, c),
        !carries_mask(submitted@) ==> r@ == submitted@,
{
    let c = KeyChange::Restore(private_key_value(stored));
    let r = change_keys(submitted, &c);
    assert(restores(c, stored@) && r@ == changed(submitted@, c));
    proof {
        if !carries_mask(submitted@) {
            unmasked_texts_stay(submitted@, c);
        }
    }
    r
}

/// A configuration in which no private key is the mask stays as it is, whatever is
/// stored.
pub proof fn unmasked_texts_stay(submitted: Seq<char>, c: KeyChange)
    requires
        c is Restore,
        !carries_mask(submitted),
    ensures
        changed(submitted, c) == submitted,
{
    let ls = split(submitted, '\n');
    let ms = changed_lines(submitted, c);
    assert forall|i: int| 0 <= i < ls.len() implies #[trigger] ms[i] == ls[i] by {
        let l = ls[i];
        assert(field_line(l, "privatekey"@) != Some(Some(key_mask())));
        text::lemma_position(l, '=');
        if sets_field(l, "privatekey"@) && l.contains('=') {
            let v = l.skip(position(l, '=') as int + 1);
            lemma_parts(v);
            assert(changed_key(c, trim(v)) == trim(v));
            assert(changed_line(l, c) =~= before(l, '=') + seq!['='] + (lead(v) + trim(v) + trail(v)));
            assert(l =~= before(l, '=') + seq!['='] + v);
        }
    }
    assert(ms =~= ls);
    lemma_split_parts_join(submitted, '\n');
}

/// The parts of a text are the text again when they are joined.
proof fn lemma_split_parts_join(s: Seq<char>, c: char)
    ensures
        join(split(s, c), seq![c]) == s,
        split(s, c).len() > 0,
    decreases s.len(),
{
    text::lemma_position(s, c);
    let p = position(s, c);
    if p < s.len() {
        let rest = s.skip(p as int + 1);
        lemma_split_parts_join(rest, c);
        let ps = split(s, c);
        lemma_join_cons(ps, seq![c]);
        assert(ps.skip(1) =~= split(rest, c));
        assert(s =~= s.take(p as int) + seq![c] + rest);
    }
}

/// A text and the white space around it.
proof fn lemma_parts(s: Seq<char>)
    ensures
        lead(s) + trim(s) + trail(s) == s,
        forall|i: int| 0 <= i < lead(s).len() ==> is_ws(#[trigger] lead(s)[i]),
        forall|i: int| 0 <= i < trail(s).len() ==> is_ws(#[trigger] trail(s)[i]),
{
    lemma_lead(s);
    let t = trim_start(s);
    lemma_trim_end_no_ws(t);
    lemma_trail(t);
    assert(trim(s) + trail(s) =~= t);
}

proof fn lemma_lead(s: Seq<char>)
    ensures
        trim_start(s).len() <= s.len(),
        lead(s) + trim_start(s) == s,
        forall|i: int| 0 <= i < lead(s).len() ==> is_ws(#[trigger] lead(s)[i]),
    decreases s.len(),
{
    if s.len() > 0 && is_ws(s[0]) {
        let t = s.skip(1);
        lemma_lead(t);
        assert(lead(s) =~= seq![s[0]] + lead(t));
        assert(seq![s[0]] + t =~= s);
        assert(seq![s[0]] + (lead(t) + trim_start(t)) =~= lead(s) + trim_start(s));
    }
}

proof fn lemma_trail(t: Seq<char>)
    ensures
        trim_end(t).len() <= t.len(),
        forall|i: int| trim_end(t).len() <= i < t.len() ==> is_ws(#[trigger] t[i]),
    decreases t.len(),
{
    if t.len() > 0 && is_ws(t.last()) {
        let u = t.drop_last();
        lemma_trail(u);
        assert forall|i: int| trim_end(t).len() <= i < t.len() implies is_ws(#[trigger] t[i]) by {
            if i < u.len() {
                assert(u[i] == t[i]);
            }
        }
    }
}

proof fn lemma_join_cons(ls: Seq<Seq<char>>, sep: Seq<char>)
    requires
        ls.len() >= 2,
    ensures
        join(ls, sep) == ls[0] + sep + join(ls.skip(1), sep),
    decreases ls.len(),
{
    let t = ls.drop_last();
    if ls.len() == 2 {
        assert(t[0] == ls[0]);
        assert(ls.skip(1)[0] == ls.last());
        assert(join(t, sep) == t[0]);
        assert(join(ls.skip(1), sep) == ls.last());
        assert(join(ls, sep) =~= ls[0] + sep + ls.last());
    } else {
        lemma_join_cons(t, sep);
        assert(t.skip(1) =~= ls.skip(1).drop_last());
        assert(t[0] == ls[0]);
        assert(ls.skip(1).last() == ls.last());
        assert(join(ls, sep) =~= ls[0] + sep + join(ls.skip(1), sep));
    }
}

proof fn lemma_first_found_cons<A, B>(x: A, s: Seq<A>, f: spec_fn(A) -> Option<B>)
    ensures
        first_found(seq![x] + s, f) == (match f(x) {
            Some(b) => Some(b),
            None => first_found(s, f),
        }),
    decreases s.len(),
{
    let all = seq![x] + s;
    if s.len() == 0 {
        assert(all.drop_last() =~= Seq::<A>::empty());
        assert(all.last() == x);
        assert(first_found(all.drop_last(), f) is None);
    } else {
        lemma_first_found_cons(x, s.drop_last(), f);
        assert(all.drop_last() =~= seq![x] + s.drop_last());
    }
}

/// What is found in the lines of a text is found in the parts between its newlines,
/// where neither a carriage return at the end nor an empty line matters.
proof fn lemma_found_in_parts<B>(s: Seq<char>, f: spec_fn(Seq<char>) -> Option<B>)
    requires
        f(Seq::empty()) is None,
        forall|l: Seq<char>| f(#[trigger] strip_cr(l)) == f(l),
    ensures
        first_found(lines(s), f) == first_found(split(s, '\n'), f),
    decreases s.len(),
{
    text::lemma_position(s, '\n');
    let p = position(s, '\n');
    if s.len() == 0 {
        assert(s =~= Seq::<char>::empty());
        assert(split(s, '\n') =~= seq![Seq::<char>::empty()] + Seq::<Seq<char>>::empty());
        lemma_first_found_cons(Seq::<char>::empty(), Seq::<Seq<char>>::empty(), f);
    } else if p < s.len() {
        let rest = s.skip(p as int + 1);
        lemma_found_in_parts(rest, f);
        lemma_first_found_cons(strip_cr(s.take(p as int)), lines(rest), f);
        lemma_first_found_cons(s.take(p as int), split(rest, '\n'), f);
    }
}

/// No part holds the separator.
proof fn lemma_parts_hold_no_newline(s: Seq<char>)
    ensures
        forall|i: int| 0 <= i < split(s, '\n').len() ==> !(#[trigger] split(s, '\n')[i]).contains('\n'),
    decreases s.len(),
{
    text::lemma_position(s, '\n');
    let p = position(s, '\n');
    let ps = split(s, '\n');
    if p < s.len() {
        let rest = s.skip(p as int + 1);
        lemma_parts_hold_no_newline(rest);
        assert forall|i: int| 0 <= i < ps.len() implies !(#[trigger] ps[i]).contains('\n') by {
            if i > 0 {
                assert(ps[i] == split(rest, '\n')[i - 1]);
            } else {
                let l = s.take(p as int);
                assert(ps[0] == l);
                assert forall|j: int| 0 <= j < l.len() implies #[trigger] l[j] != '\n' by {
                    assert(l[j] == s[j]);
                }
            }
        }
    }
}

proof fn lemma_lines_hold_no_newline(s: Seq<char>)
    ensures
        forall|i: int| 0 <= i < lines(s).len() ==> !(#[trigger] lines(s)[i]).contains('\n'),
    decreases s.len(),
{
    text::lemma_position(s, '\n');
    let p = position(s, '\n');
    if s.len() > 0 && p < s.len() {
        let rest = s.skip(p as int + 1);
        lemma_lines_hold_no_newline(rest);
        assert forall|i: int| 0 <= i < lines(s).len() implies !(#[trigger] lines(s)[i]).contains('\n') by {
            if i > 0 {
                assert(lines(s)[i] == lines(rest)[i - 1]);
            } else {
                let l = strip_cr(s.take(p as int));
                assert(lines(s)[0] == l);
                assert forall|j: int| 0 <= j < l.len() implies #[trigger] l[j] != '\n' by {
                    assert(l[j] == s[j]);
                }
            }
        }
    }
}

proof fn lemma_trim_within(s: Seq<char>, c: char)
    ensures
        trim(s).contains(c) ==> s.contains(c),
{
    lemma_trim_start_within(s, c);
    lemma_trim_end_within(trim_start(s), c);
}

proof fn lemma_trim_start_within(s: Seq<char>, c: char)
    ensures
        trim_start(s).contains(c) ==> s.contains(c),
    decreases s.len(),
{
    if s.len() > 0 && is_ws(s[0]) {
        lemma_trim_start_within(s.skip(1), c);
        if s.skip(1).contains(c) {
            let j = choose|j: int| 0 <= j < s.skip(1).len() && s.skip(1)[j] == c;
            assert(s[j + 1] == c);
        }
    }
}

proof fn lemma_trim_end_within(s: Seq<char>, c: char)
    ensures
        trim_end(s).contains(c) ==> s.contains(c),
    decreases s.len(),
{
    if s.len() > 0 && is_ws(s.last()) {
        lemma_trim_end_within(s.drop_last(), c);
        if s.drop_last().contains(c) {
            let j = choose|j: int| 0 <= j < s.drop_last().len() && s.drop_last()[j] == c;
            assert(s[j] == c);
        }
    }
}

/// A carriage return at the end of a line changes nothing of what the line sets.
proof fn lemma_strip_cr(line: Seq<char>, field: Seq<char>)
    requires
        field.len() > 0,
        !field.contains('\r'),
    ensures
        field_line(strip_cr(line), field) == field_line(line, field),
{
    let s = strip_cr(line);
    if line.len() > 0 && line.last() == '\r' {
        assert(line =~= s.push('\r'));
        text::lemma_trim_start_push_ws(s, '\r');
        let a = trim_start(s);
        let b = trim_start(line);
        if a.len() > 0 {
            assert(b == a.push('\r'));
            assert(lower(b) =~= lower(a).push('\r'));
            let la = lower(a);
            let lb = lower(b);
            if field.is_prefix_of(lb) && field.len() == lb.len() {
                assert(field[field.len() - 1] == lb[field.len() - 1]);
                assert(field.contains('\r'));
            }
            if field.is_prefix_of(lb) {
                assert(field =~= la.take(field.len() as int));
            }
            if field.is_prefix_of(la) {
                assert(field =~= lb.take(field.len() as int));
            }
            assert(field.is_prefix_of(la) == field.is_prefix_of(lb));
        } else {
            assert(lower(a).len() == 0 && lower(b).len() == 0);
        }
        text::lemma_position(s, '=');
        text::lemma_position(line, '=');
        if s.contains('=') {
            let p = position(s, '=') as int;
            assert forall|j: int| 0 <= j < p implies #[trigger] line[j] != '=' by {
                assert(line[j] == s[j]);
            }
            assert(line[p] == '=');
            text::lemma_position_is(line, '=', p);
            assert(line.skip(p + 1) =~= s.skip(p + 1).push('\r'));
            text::lemma_trim_push_ws(s.skip(p + 1), '\r');
        } else if line.contains('=') {
            let j = choose|j: int| 0 <= j < line.len() && line[j] == '=';
            assert(s[j] == '=');
        }
    }
}

proof fn lemma_trim_end_no_ws(s: Seq<char>)
    ensures
        trim_end(s).len() > 0 ==> !is_ws(trim_end(s).last()),
        trim_end(s).is_prefix_of(s),
    decreases s.len(),
{
    if s.len() > 0 && is_ws(s.last()) {
        lemma_trim_end_no_ws(s.drop_last());
    }
}

/// A trimmed text stays as it is, also behind white space.
proof fn lemma_trim_again(s: Seq<char>)
    ensures
        trim(trim(s)) == trim(s),
        trim(seq![' '] + trim(s)) == trim(s),
{
    let t = trim_start(s);
    let u = trim(s);
    text::lemma_trim_start_first(s);
    lemma_trim_end_no_ws(t);
    if u.len() > 0 {
        assert(u[0] == t[0]);
    }
    assert(trim_start(u) == u);
    assert(trim_end(u) == u);
    assert((seq![' '] + u).skip(1) =~= u);
    assert((seq![' '] + u)[0] == ' ');
}

/// White space around a text changes nothing of the trimmed text.
proof fn lemma_trim_between(a: Seq<char>, s: Seq<char>, b: Seq<char>)
    requires
        forall|i: int| 0 <= i < a.len() ==> is_ws(#[trigger] a[i]),
        forall|i: int| 0 <= i < b.len() ==> is_ws(#[trigger] b[i]),
    ensures
        trim(a + s + b) == trim(s),
    decreases a.len() + b.len(),
{
    if b.len() > 0 {
        let c = b.drop_last();
        assert forall|i: int| 0 <= i < c.len() implies is_ws(#[trigger] c[i]) by {
            assert(b[i] == c[i]);
        }
        lemma_trim_between(a, s, c);
        assert(is_ws(b[b.len() - 1]));
        assert(a + s + b =~= (a + s + c).push(b.last()));
        text::lemma_trim_push_ws(a + s + c, b.last());
    } else if a.len() > 0 {
        let d = a.skip(1);
        assert forall|i: int| 0 <= i < d.len() implies is_ws(#[trigger] d[i]) by {
            assert(a[i + 1] == d[i]);
        }
        lemma_trim_between(d, s, b);
        let all = a + s + b;
        assert(is_ws(a[0]));
        assert(all[0] == a[0]);
        assert(all.skip(1) =~= d + s + b);
    } else {
        assert(a + s + b =~= s);
    }
}

/// What a changed line sets.
proof fn lemma_changed_line(line: Seq<char>, c: KeyChange)
    ensures
        field_line(changed_line(line, c), "privatekey"@) == (match field_line(line, "privatekey"@) {
            Some(Some(v)) => Some(Some(trim(changed_key(c, v)))),
            x => x,
        }),
        sets_field(line, "privatekey"@) && after(line, '=') is Some ==> before(changed_line(line, c), '=') == before(
            line,
            '=',
        ) && after(changed_line(line, c), '=') == Some(
            lead(after(line, '=')->0) + changed_key(c, trim(after(line, '=')->0)) + trail(after(line, '=')->0),
        ),
{
    let field = "privatekey"@;
    text::lemma_position(line, '=');
    if sets_field(line, field) && line.contains('=') {
        let p = position(line, '=') as int;
        let w = line.skip(p + 1);
        let k = changed_key(c, trim(w));
        let head = line.take(p);
        let new = changed_line(line, c);
        let value = lead(w) + k + trail(w);
        assert(new =~= head + seq!['='] + value);
        assert forall|j: int| 0 <= j < p implies #[trigger] new[j] != '=' by {
            assert(new[j] == line[j]);
        }
        assert(new[p] == '=');
        text::lemma_position_is(new, '=', p);
        assert(new.skip(p + 1) =~= value);
        lemma_parts(w);
        lemma_trim_between(lead(w), k, trail(w));
        lemma_field_before(line, field, p);
        lemma_field_before(new, field, p);
        assert(new.take(p) =~= head);
    }
}

/// Whether a line sets a field is seen from what stands before its `=`.
proof fn lemma_field_before(line: Seq<char>, field: Seq<char>, p: int)
    requires
        field == "privatekey"@,
        0 <= p < line.len(),
        line[p] == '=',
    ensures
        sets_field(line, field) == sets_field(line.take(p), field),
    decreases p,
{
    reveal_strlit("privatekey");
    let head = line.take(p);
    if line.len() > 0 && is_ws(line[0]) {
        if p > 0 {
            assert(head[0] == line[0]);
            assert(line.skip(1).take(p - 1) =~= head.skip(1));
            lemma_field_before(line.skip(1), field, p - 1);
        } else {
            assert(line[0] == '=');
        }
    } else {
        assert(trim_start(line) == line);
        if head.len() > 0 {
            assert(head[0] == line[0]);
        }
        assert(trim_start(head) == head);
        let a = lower(line);
        let b = lower(head);
        assert(a[p] == '=');
        if field.is_prefix_of(a) {
            if p < field.len() {
                assert(field[p] == a[p]);
                assert(false);
            }
            assert(field =~= b.take(field.len() as int));
        }
        if field.is_prefix_of(b) {
            assert(field =~= a.take(field.len() as int));
        }
    }
}

/// The value that a change gives has no line break in it.
spec fn one_line(c: KeyChange) -> bool {
    match c {
        KeyChange::Restore(Some(k)) => !k@.contains('\n'),
        _ => true,
    }
}

proof fn lemma_changed_lines(conf: Seq<char>, c: KeyChange)
    requires
        one_line(c),
    ensures
        split(changed(conf, c), '\n') == changed_lines(conf, c),
{
    let ls = split(conf, '\n');
    let ms = changed_lines(conf, c);
    lemma_split_parts_join(conf, '\n');
    lemma_parts_hold_no_newline(conf);
    assert forall|i: int| 0 <= i < ms.len() implies !(#[trigger] ms[i]).contains('\n') by {
        lemma_line_stays_one(ls[i], c);
        assert(ms[i] == changed_line(ls[i], c));
    }
    text::joined_parts_split(ms, '\n');
}

proof fn lemma_line_stays_one(l: Seq<char>, c: KeyChange)
    requires
        one_line(c),
        !l.contains('\n'),
    ensures
        !changed_line(l, c).contains('\n'),
{
    text::lemma_position(l, '=');
    if sets_field(l, "privatekey"@) && l.contains('=') {
        let p = position(l, '=') as int;
        let w = l.skip(p + 1);
        let k = changed_key(c, trim(w));
        let new = changed_line(l, c);
        reveal_strlit("********");
        lemma_parts(w);
        lemma_trim_within(w, '\n');
        assert forall|j: int| 0 <= j < l.len() implies #[trigger] l[j] != '\n' by {
            if l[j] == '\n' {
                assert(l.contains('\n'));
            }
        }
        if w.contains('\n') {
            let j = choose|j: int| 0 <= j < w.len() && w[j] == '\n';
            assert(l[j + p + 1] == '\n');
        }
        assert(!k.contains('\n'));
        let n = lead(w).len() as int;
        assert forall|j: int| 0 <= j < new.len() implies #[trigger] new[j] != '\n' by {
            if j < p {
                assert(new[j] == l[j]);
            } else if j == p {
                assert(new[j] == '=');
            } else if j < p + 1 + n {
                assert(new[j] == w[j - p - 1]);
                assert(l[j] == w[j - p - 1]);
            } else if j < p + 1 + n + k.len() {
                assert(new[j] == k[j - p - 1 - n]);
                if k[j - p - 1 - n] == '\n' {
                    assert(k.contains('\n'));
                }
            } else {
                let i = j - p - 1 - n - k.len();
                assert(new[j] == trail(w)[i]);
                assert(w[n + trim(w).len() + i] == trail(w)[i]);
                assert(l[p + 1 + n + trim(w).len() + i] == trail(w)[i]);
            }
        }
    }
}

proof fn lemma_first_changed(ls: Seq<Seq<char>>, c: KeyChange)
    ensures
        ({
            let f = |l: Seq<char>| field_line(l, "privatekey"@);
            first_found(ls.map_values(|l: Seq<char>| changed_line(l, c)), f) == (match first_found(ls, f) {
                Some(Some(v)) => Some(Some(trim(changed_key(c, v)))),
                x => x,
            })
        }),
    decreases ls.len(),
{
    let f = |l: Seq<char>| field_line(l, "privatekey"@);
    let ms = ls.map_values(|l: Seq<char>| changed_line(l, c));
    if ls.len() > 0 {
        lemma_first_changed(ls.drop_last(), c);
        assert(ms.drop_last() =~= ls.drop_last().map_values(|l: Seq<char>| changed_line(l, c)));
        lemma_changed_line(ls.last(), c);
    }
}

/// A change changes the private key, and nothing else of it.
proof fn lemma_changed_key(conf: Seq<char>, c: KeyChange)
    requires
        one_line(c),
    ensures
        private_key(changed(conf, c)) == (match private_key(conf) {
            Some(v) => Some(trim(changed_key(c, v))),
            None => None,
        }),
{
    reveal_strlit("privatekey");
    let f = |l: Seq<char>| field_line(l, "privatekey"@);
    assert forall|l: Seq<char>| f(#[trigger] strip_cr(l)) == f(l) by {
        lemma_strip_cr(l, "privatekey"@);
    }
    assert(f(Seq::empty()) is None) by {
        assert(lower(trim_start(Seq::empty())).len() == 0);
    }
    lemma_changed_lines(conf, c);
    lemma_found_in_parts(conf, f);
    lemma_found_in_parts(changed(conf, c), f);
    lemma_first_changed(split(conf, '\n'), c);
}

proof fn lemma_private_key(conf: Seq<char>)
    ensures
        private_key(conf) is Some ==> trim(private_key(conf)->0) == private_key(conf)->0 && !private_key(
            conf,
        )->0.contains('\n'),
{
    lemma_lines_hold_no_newline(conf);
    lemma_found_value(lines(conf));
}

proof fn lemma_found_value(ls: Seq<Seq<char>>)
    requires
        forall|i: int| 0 <= i < ls.len() ==> !(#[trigger] ls[i]).contains('\n'),
    ensures
        first_found(ls, |l: Seq<char>| field_line(l, "privatekey"@)) matches Some(Some(v)) ==> trim(v) == v
            && !v.contains('\n'),
    decreases ls.len(),
{
    if ls.len() > 0 {
        assert forall|i: int| 0 <= i < ls.drop_last().len() implies !(#[trigger] ls.drop_last()[i]).contains('\n') by {
            assert(ls[i] == ls.drop_last()[i]);
        }
        lemma_found_value(ls.drop_last());
        let l = ls.last();
        assert(l == ls[ls.len() - 1]);
        text::lemma_position(l, '=');
        if l.contains('=') {
            let w = l.skip(position(l, '=') as int + 1);
            lemma_trim_again(w);
            lemma_trim_within(w, '\n');
            if w.contains('\n') {
                let j = choose|j: int| 0 <= j < w.len() && w[j] == '\n';
                assert(l[j + position(l, '=') as int + 1] == '\n');
            }
        }
    }
}

/// A masked configuration has the mask for a private key, where it had a key.
pub proof fn masking_hides_the_key(conf: Seq<char>)
    ensures
        private_key(changed(conf, KeyChange::Mask)) == (match private_key(conf) {
            Some(_) => Some(key_mask()),
            None => None,
        }),
{
    lemma_changed_key(conf, KeyChange::Mask);
    lemma_mask_trimmed();
}

proof fn lemma_mask_trimmed()
    ensures
        trim(key_mask()) == key_mask(),
        key_mask().len() > 0,
        !is_ws(key_mask()[0]),
{
    reveal_strlit("********");
    assert(!is_ws(key_mask()[0]));
    assert(!is_ws(key_mask().last()));
}

/// A stored configuration that was shown and comes back has its private key again.
pub proof fn restoring_gives_the_key_back(conf: Seq<char>, c: KeyChange)
    requires
        restores(c, conf),
    ensures
        private_key(changed(changed(conf, KeyChange::Mask), c)) == private_key(conf),
{
    masking_hides_the_key(conf);
    lemma_private_key(conf);
    lemma_changed_key(changed(conf, KeyChange::Mask), c);
}

/// Every line that sets a private key sets the same one.
pub open spec fn one_key(conf: Seq<char>) -> bool {
    forall|i: int|
        0 <= i < split(conf, '\n').len() ==> (field_line(#[trigger] split(conf, '\n')[i], "privatekey"@) matches Some(
            Some(v),
        ) ==> Some(v) == private_key(conf))
}

/// A configuration that was shown with a mask and comes back is the stored text
/// again, in every character, where it has one private key.
pub proof fn masked_texts_come_back(conf: Seq<char>, c: KeyChange)
    requires
        restores(c, conf),
        one_key(conf),
    ensures
        changed(changed(conf, KeyChange::Mask), c) == conf,
{
    let ls = split(conf, '\n');
    let masked = changed(conf, KeyChange::Mask);
    lemma_changed_lines(conf, KeyChange::Mask);
    let ms = changed_lines(masked, c);
    assert forall|i: int| 0 <= i < ls.len() implies #[trigger] ms[i] == ls[i] by {
        let l = ls[i];
        let m = changed_line(l, KeyChange::Mask);
        assert(split(masked, '\n')[i] == m);
        assert(ms[i] == changed_line(m, c));
        lemma_changed_line(l, KeyChange::Mask);
        text::lemma_position(l, '=');
        if sets_field(l, "privatekey"@) && l.contains('=') {
            let w = l.skip(position(l, '=') as int + 1);
            assert(field_line(l, "privatekey"@) == Some(Some(trim(w))));
            assert(Some(trim(w)) == private_key(conf));
            let n = lead(w) + key_mask() + trail(w);
            assert(after(m, '=') == Some(n));
            lemma_parts(w);
            lemma_mask_trimmed();
            lemma_parts_of(lead(w), key_mask(), trail(w));
            lemma_masked_sets(l);
            assert(changed_line(m, c) =~= before(l, '=') + seq!['='] + (lead(w) + trim(w) + trail(w)));
            assert(l =~= before(l, '=') + seq!['='] + w);
        } else {
            assert(m == l);
        }
    }
    assert(ms =~= ls);
    lemma_split_parts_join(conf, '\n');
}

proof fn lemma_masked_sets(l: Seq<char>)
    requires
        sets_field(l, "privatekey"@),
        after(l, '=') is Some,
    ensures
        sets_field(changed_line(l, KeyChange::Mask), "privatekey"@),
{
    lemma_changed_line(l, KeyChange::Mask);
}

/// The parts of a text that is put together of white space and a trimmed text.
proof fn lemma_parts_of(a: Seq<char>, s: Seq<char>, b: Seq<char>)
    requires
        forall|i: int| 0 <= i < a.len() ==> is_ws(#[trigger] a[i]),
        forall|i: int| 0 <= i < b.len() ==> is_ws(#[trigger] b[i]),
        s.len() > 0,
        !is_ws(s[0]),
        trim(s) == s,
    ensures
        lead(a + s + b) == a,
        trim(a + s + b) == s,
        trail(a + s + b) == b,
{
    lemma_trim_between(a, s, b);
    lemma_start_behind(a, s + b);
    assert(a + s + b =~= a + (s + b));
    assert(lead(a + s + b) =~= a);
    assert(trail(a + s + b) =~= b);
}

proof fn lemma_start_behind(a: Seq<char>, t: Seq<char>)
    requires
        forall|i: int| 0 <= i < a.len() ==> is_ws(#[trigger] a[i]),
        t.len() > 0,
        !is_ws(t[0]),
    ensures
        trim_start(a + t) == t,
    decreases a.len(),
{
    if a.len() > 0 {
        let d = a.skip(1);
        assert forall|i: int| 0 <= i < d.len() implies is_ws(#[trigger] d[i]) by {
            assert(a[i + 1] == d[i]);
        }
        lemma_start_behind(d, t);
        assert(is_ws(a[0]));
        assert((a + t)[0] == a[0]);
        assert((a + t).skip(1) =~= d + t);
    } else {
        assert(a + t =~= t);
    }
}

/// A private key that is not the mask is kept, whatever is stored.
pub proof fn fresh_keys_are_kept(submitted: Seq<char>, stored: Seq<char>, c: KeyChange)
    requires
        restores(c, stored),
        private_key(submitted) != Some(key_mask()),
    ensures
        private_key(changed(submitted, c)) == private_key(submitted),
{
    lemma_private_key(stored);
    lemma_private_key(submitted);
    lemma_changed_key(submitted, c);
}

}

//! Wildcard patterns such as `*.example.com`, matched through anchored
//! regular expressions.
use vstd::prelude::*;
use vstd::slice::*;
use vstd::string::*;

use crate::error::{config_error, FeriteError, Result};
use crate::text;
use crate::text::flat_map;

verus! {

/// A compiled regular expression of the `regex` crate.
#[verifier::external_type_specification]
#[verifier::external_body]
pub struct ExRegex(regex::Regex);

/// The reason for which the `regex` crate refused an expression.
#[verifier::external_type_specification]
#[verifier::external_body]
pub struct ExRegexError(regex::Error);

/// The texts that a compiled expression matches.
pub uninterp spec fn regex_texts(re: regex::Regex) -> Set<Seq<char>>;

/// The texts that an expression matches; none where it does not compile.
pub uninterp spec fn regex_language(expression: Seq<char>) -> Option<Set<Seq<char>>>;

/// The characters with a meaning of their own in a regular expression.
pub open spec fn regex_meta(c: char) -> bool {
    c == '\\' || c == '.' || c == '+' || c == '*' || c == '?' || c == '(' || c == ')' || c == '|' || c == '['
        || c == ']' || c == '{' || c == '}' || c == '^' || c == '$' || c == '#' || c == '&' || c == '-' || c == '~'
}

/// A character as `regex::escape` writes it.
pub open spec fn escaped_char(c: char) -> Seq<char> {
    if regex_meta(c) {
        seq!['\\', c]
    } else {
        seq![c]
    }
}

/// `regex::escape` puts a backslash before each meta character and copies the rest.
#[verifier::external_body]
fn regex_escape(text: &str) -> (r: String)
    ensures
        r@ == flat_map(text@, |c: char| escaped_char(c)),
{
    regex::escape(text)
}

/// A character of a wildcard pattern in its regular expression.
pub open spec fn wildcard_char(c: char) -> Seq<char> {
    if c == '*' {
        seq!['.', '*']
    } else {
        escaped_char(c)
    }
}

/// The regular expression of a wildcard pattern: anchored at both ends, `*` for
/// any characters, everything else literal.
pub open spec fn wildcard_expression(pattern: Seq<char>) -> Seq<char> {
    seq!['^'] + flat_map(pattern, |c: char| wildcard_char(c)) + seq!['$']
}

/// Whether a wildcard pattern matches a text: `*` stands for any characters but
/// newlines, every other character for itself.
pub open spec fn wildcard_matches(pattern: Seq<char>, text: Seq<char>) -> bool
    decreases pattern.len(), text.len(),
{
    if pattern.len() == 0 {
        text.len() == 0
    } else if pattern[0] == '*' {
        wildcard_matches(pattern.skip(1), text) || (text.len() > 0 && text[0] != '\n' && wildcard_matches(
            pattern,
            text.skip(1),
        ))
    } else {
        text.len() > 0 && text[0] == pattern[0] && wildcard_matches(pattern.skip(1), text.skip(1))
    }
}

/// `Regex::new` compiles an expression, or refuses it; which, and what the
/// compiled expression matches, is a function of the expression alone. In an
/// expression made of a wildcard pattern, `^` and `$` hold at the two ends of the
/// text, `.*` matches any characters but newlines, and an escaped or ordinary
/// character matches itself.
#[verifier::external_body]
fn regex_new(expression: &str) -> (r: core::result::Result<regex::Regex, regex::Error>)
    ensures
        match r {
            Ok(re) => regex_language(expression@) == Some(regex_texts(re)),
            Err(_) => regex_language(expression@) is None,
        },
        forall|pattern: Seq<char>| #[trigger]
            wildcard_expression(pattern) == expression@ && r is Ok ==> regex_texts(r->Ok_0) == Set::new(
                |t: Seq<char>| wildcard_matches(pattern, t),
            ),
{
    regex::Regex::new(expression)
}

/// `Regex::is_match` is true of the texts that the expression matches.
#[verifier::external_body]
fn regex_is_match(re: &regex::Regex, text: &str) -> (r: bool)
    ensures
        r == regex_texts(*re).contains(text@),
{
    re.is_match(text)
}

/// A wildcard pattern with its compiled expression.
#[derive(Debug)]
pub struct Wildcard {
    pattern: String,
    expression: String,
    re: regex::Regex,
}

impl Wildcard {
    /// The pattern as it was given.
    pub closed spec fn pattern(&self) -> Seq<char> {
        self.pattern@
    }

    /// The expression that was compiled.
    pub closed spec fn expression(&self) -> Seq<char> {
        self.expression@
    }

    #[verifier::type_invariant]
    spec fn inv(&self) -> bool {
        &&& self.expression@ == wildcard_expression(self.pattern@)
        &&& regex_texts(self.re) == Set::new(|t: Seq<char>| wildcard_matches(self.pattern@, t))
    }
}

/// A pattern of stars alone, or an empty one.
pub open spec fn matches_everything(pattern: Seq<char>) -> bool {
    forall|i: int| 0 <= i < pattern.len() ==> #[trigger] pattern[i] == '*'
}

/// The error with which a pattern is refused: it is made of stars alone, or no
/// expression can be made of it. The `regex` crate's own words end the second message.
pub open spec fn pattern_refusal(pattern: Seq<char>, e: FeriteError) -> bool {
    if matches_everything(pattern) {
        config_error(e, "wildcard pattern cannot match everything"@)
    } else {
        e matches FeriteError::Config(m) && ("invalid wildcard '"@ + pattern + "': "@).is_prefix_of(m@)
    }
}

impl Wildcard {
    /// Compiles a wildcard pattern. A pattern of stars alone is refused.
    pub fn new(pattern: &str) -> (r: Result<Wildcard>)
        ensures
            r is Ok <==> !matches_everything(pattern@) && regex_language(wildcard_expression(pattern@)) is Some,
            r is Ok ==> r->Ok_0.pattern() == pattern@ && r->Ok_0.expression() == wildcard_expression(pattern@),
            r matches Err(e) ==> pattern_refusal(pattern@, e),
    {
        let cs = text::chars_of(pattern);
        if all_stars(cs.as_slice()) {
            return Err(FeriteError::Config("wildcard pattern cannot match everything".to_string()));
        }
        let expression = expression_of(pattern);
        match regex_new(expression.as_str()) {
            Ok(re) => Ok(Wildcard { pattern: text::string_of(cs.as_slice()), expression, re }),
            Err(e) => {
                let detail = e.to_string();
                let mut message = "invalid wildcard '".to_string();
                message.append(pattern);
                message.append("': ");
                let ghost head = message@;
                message.append(detail.as_str());
                assert(head.is_prefix_of(message@)) by {
                    assert(message@.subrange(0, head.len() as int) == head);
                }
                Err(FeriteError::Config(message))
            },
        }
    }

    /// Whether the pattern matches the text.
    pub fn is_match(&self, text: &str) -> (r: bool)
        ensures
            r == wildcard_matches(self.pattern(), text@),
    {
        proof {
            use_type_invariant(self);
        }
        regex_is_match(&self.re, text)
    }

    /// The pattern as it was given.
    pub fn pattern_text(&self) -> (r: String)
        ensures
            r@ == self.pattern(),
    {
        self.pattern.clone()
    }

    /// Whether the pattern is this text.
    pub fn has_pattern(&self, text: &str) -> (r: bool)
        ensures
            r == (self.pattern() == text@),
    {
        text::str_same(self.pattern.as_str(), text)
    }

    /// The expression that the pattern stands for.
    pub fn expression_text(&self) -> (r: String)
        ensures
            r@ == wildcard_expression(self.pattern()),
    {
        proof {
            use_type_invariant(self);
        }
        self.expression.clone()
    }
}

fn all_stars(cs: &[char]) -> (r: bool)
    ensures
        r == matches_everything(cs@),
{
    let mut i: usize = 0;
    while i < cs.len()
        invariant
            i <= cs@.len(),
            forall|j: int| 0 <= j < i ==> #[trigger] cs@[j] == '*',
        decreases cs@.len() - i,
    {
        if cs[i] != '*' {
            assert(cs@[i as int] != '*');
            return false;
        }
        i = i + 1;
    }
    true
}

/// The anchored expression of a pattern: the escaped pattern, with each escaped
/// star replaced by `.*`.
fn expression_of(pattern: &str) -> (r: String)
    ensures
        r@ == wildcard_expression(pattern@),
{
    let escaped = regex_escape(pattern);
    let es = text::chars_of(escaped.as_str());
    let mut out = String::new();
    out.push('^');
    let ghost fe = |c: char| escaped_char(c);
    let ghost fw = |c: char| wildcard_char(c);
    let ghost mut k: int = 0;
    let mut i: usize = 0;
    assert(pattern@.take(0) == Seq::<char>::empty());
    assert(seq!['^'] + flat_map(pattern@.take(0), fw) == seq!['^']);
    proof {
        if i < es@.len() {
            lemma_flat_map_grows(pattern@, 0, fe);
        }
    }
    while i < es.len()
        invariant
            fe == (|c: char| escaped_char(c)),
            fw == (|c: char| wildcard_char(c)),
            es@ == flat_map(pattern@, fe),
            0 <= k <= pattern@.len(),
            i == flat_map(pattern@.take(k), fe).len(),
            i <= es@.len(),
            out@ == seq!['^'] + flat_map(pattern@.take(k), fw),
        decreases es@.len() - i,
    {
        proof {
            if k == pattern@.len() {
                assert(pattern@.take(k) == pattern@);
            }
            let c = pattern@[k];
            assert(pattern@.take(k + 1) == pattern@.take(k).push(c));
            text::lemma_flat_map_push(pattern@.take(k), c, fe);
            text::lemma_flat_map_push(pattern@.take(k), c, fw);
            lemma_flat_map_grows(pattern@, k + 1, fe);
            assert(es@[i as int] == (flat_map(pattern@.take(k), fe) + escaped_char(c))[i as int]);
            assert(regex_meta(c) ==> es@[i + 1] == (flat_map(pattern@.take(k), fe) + escaped_char(c))[i + 1]);
        }
        let ghost done = out@;
        if es[i] == '\\' {
            if es[i + 1] == '*' {
                out.push('.');
                out.push('*');
                assert(out@ == done + seq!['.', '*']);
            } else {
                out.push('\\');
                out.push(es[i + 1]);
                assert(out@ == done + seq!['\\', es@[i + 1]]);
            }
            i = i + 2;
        } else {
            out.push(es[i]);
            assert(out@ == done + seq![es@[i as int]]);
            i = i + 1;
        }
        proof {
            k = k + 1;
        }
    }
    proof {
        if k < pattern@.len() {
            let c = pattern@[k];
            assert(pattern@.take(k + 1) == pattern@.take(k).push(c));
            text::lemma_flat_map_push(pattern@.take(k), c, fe);
            lemma_flat_map_grows(pattern@, k + 1, fe);
        }
        assert(pattern@.take(k) == pattern@);
    }
    out.push('$');
    out
}

/// The image of a prefix is a prefix of the image.
proof fn lemma_flat_map_grows(s: Seq<char>, k: int, f: spec_fn(char) -> Seq<char>)
    requires
        0 <= k <= s.len(),
    ensures
        flat_map(s.take(k), f).is_prefix_of(flat_map(s, f)),
    decreases s.len(),
{
    if k == s.len() {
        assert(s.take(k) == s);
        assert(flat_map(s, f).subrange(0, flat_map(s, f).len() as int) == flat_map(s, f));
    } else {
        lemma_flat_map_grows(s.drop_last(), k, f);
        assert(s.drop_last().take(k) == s.take(k));
        let a = flat_map(s.take(k), f);
        let b = flat_map(s.drop_last(), f);
        assert(flat_map(s, f) == b + f(s.last()));
        assert((b + f(s.last())).subrange(0, a.len() as int) == b.subrange(0, a.len() as int));
    }
}

}

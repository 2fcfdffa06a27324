//! Snapshot-name patterns, compiled and matched by the `regex` crate.

use vstd::prelude::*;

verus! {

#[verifier::external_type_specification]
#[verifier::external_body]
pub struct ExRegex(regex::Regex);

#[verifier::external_type_specification]
#[verifier::external_body]
pub struct ExRegexError(regex::Error);

/// Whether `regex::Regex::new` accepts `pattern`.
pub uninterp spec fn regex_compiles(pattern: Seq<char>) -> bool;

/// Whether the regex compiled from `pattern` matches somewhere in `hay`
/// (`Regex::is_match`).
pub uninterp spec fn regex_is_match(pattern: Seq<char>, hay: Seq<char>) -> bool;

/// The text (`Display`) of the error `regex::Regex::new(pattern)`
/// fails with.
pub uninterp spec fn regex_error_text(pattern: Seq<char>) -> Seq<char>;

/// The characters `regex::escape` puts a backslash before (the
/// `regex-syntax` crate's `is_meta_character`).
pub open spec fn regex_meta(c: char) -> bool {
    c == '\\' || c == '.' || c == '+' || c == '*' || c == '?' || c == '(' || c == ')' || c == '|' || c == '['
        || c == ']' || c == '{' || c == '}' || c == '^' || c == '$' || c == '#' || c == '&' || c == '-' || c == '~'
}

/// What `regex::escape` gives for `s`: each character in turn, a
/// metacharacter with a backslash before it.
pub open spec fn regex_escaped(s: Seq<char>) -> Seq<char>
    decreases s.len(),
{
    if s.len() == 0 {
        Seq::empty()
    } else {
        regex_escaped(s.drop_last()) + if regex_meta(s.last()) {
            seq!['\\', s.last()]
        } else {
            seq![s.last()]
        }
    }
}

/// A text without metacharacters escapes to itself, so a plain prefix
/// such as `arctern_` stands for itself in the default keep rules.
pub proof fn lemma_plain_text_escapes_to_itself(s: Seq<char>)
    requires
        forall|i: int| 0 <= i < s.len() ==> !regex_meta(#[trigger] s[i]),
    ensures
        regex_escaped(s) == s,
    decreases s.len(),
{
    if s.len() > 0 {
        assert forall|i: int| 0 <= i < s.drop_last().len() implies !regex_meta(#[trigger] s.drop_last()[i]) by {
            assert(s.drop_last()[i] == s[i]);
        }
        lemma_plain_text_escapes_to_itself(s.drop_last());
        assert(s.drop_last() + seq![s.last()] =~= s);
    }
}

/// A compiled regular expression together with the pattern it was
/// compiled from. Built only by `compile`, so `re` is always the
/// compilation of `source`.
#[derive(Debug)]
pub struct Pattern {
    source: String,
    re: regex::Regex,
}

impl Pattern {
    /// The pattern text this was compiled from.
    pub closed spec fn source(&self) -> Seq<char> {
        self.source@
    }
}

/// A pattern the regex crate refused: its error, and that error's text.
#[derive(Debug)]
pub struct RegexError {
    pub source: regex::Error,
    pub message: String,
}

/// `regex::Regex::new`: compiles `pattern`; fails exactly when the
/// regex crate refuses the pattern, with the crate's error and its
/// `Display` text.
#[verifier::external_body]
pub(crate) fn compile(pattern: &str) -> (r: Result<Pattern, RegexError>)
    ensures
        r is Ok <==> regex_compiles(pattern@),
        r matches Ok(p) ==> p.source() == pattern@,
        r matches Err(e) ==> e.message@ == regex_error_text(pattern@),
{
    match regex::Regex::new(pattern) {
        Ok(re) => Ok(Pattern { source: pattern.to_string(), re }),
        Err(e) => Err(RegexError { message: e.to_string(), source: e }),
    }
}

/// `regex::Regex::is_match`: whether the pattern matches anywhere in `hay`.
#[verifier::external_body]
pub(crate) fn is_match(p: &Pattern, hay: &str) -> (b: bool)
    ensures
        b == regex_is_match(p.source(), hay@),
{
    p.re.is_match(hay)
}

/// `regex::escape`: `s` as a pattern that matches exactly `s`.
#[verifier::external_body]
pub(crate) fn escape(s: &str) -> (r: String)
    ensures
        r@ == regex_escaped(s@),
{
    regex::escape(s)
}

/// `^<escaped prefix>`: the pattern a snapshot-name prefix stands for.
pub open spec fn prefix_pattern(prefix: Seq<char>) -> Seq<char> {
    seq!['^'] + regex_escaped(prefix)
}

/// `^<escaped prefix>.*`: the anchored pattern default keep rules use.
pub open spec fn anchored_prefix_pattern(prefix: Seq<char>) -> Seq<char> {
    seq!['^'] + regex_escaped(prefix) + seq!['.', '*']
}

} // verus!

//! Regular expressions, by the `regex` crate.

use vstd::prelude::*;
use vstd::utf8::is_ascii_chars;

use crate::text::{ascii_lowercase, is_infix};

verus! {

/// A compiled regular expression.
#[verifier::external_type_specification]
#[verifier::external_body]
pub struct ExRegex(regex::Regex);

/// What is wrong with a pattern that does not compile.
#[verifier::external_type_specification]
#[verifier::external_body]
pub struct ExRegexError(regex::Error);

/// The texts somewhere in which the compiled expression `re` has a match.
pub uninterp spec fn matched_texts(re: regex::Regex) -> Set<Seq<char>>;

/// The texts somewhere in which `pattern` has a match, where letters match in either case.
pub uninterp spec fn caseless_matches(pattern: Seq<char>) -> Set<Seq<char>>;

/// `error` is one with which `pattern` can be refused, where letters match in either case.
pub uninterp spec fn refused_with(pattern: Seq<char>, error: regex::Error) -> bool;

/// `pattern` is made of letters and digits of ASCII and of `_`, none of which is syntax.
pub open spec fn is_plain(pattern: Seq<char>) -> bool {
    forall|i: int|
        0 <= i < pattern.len() ==> {
            let c = #[trigger] pattern[i];
            'a' <= c <= 'z' || 'A' <= c <= 'Z' || '0' <= c <= '9' || c == '_'
        }
}

/// Of the texts in ASCII, `found` holds those in which `word` stands, but for letter case.
pub open spec fn finds_plainly(found: Set<Seq<char>>, word: Seq<char>) -> bool {
    forall|text: Seq<char>|
        is_ascii_chars(text) ==> (#[trigger] found.contains(text) <==> is_infix(
            ascii_lowercase(word),
            ascii_lowercase(text),
        ))
}

/// Compiles `pattern` to match letters in either case: `RegexBuilder::build` after
/// `RegexBuilder::case_insensitive(true)`. An expression that comes out matches what the pattern
/// matches in that mode: a letter matches in upper and in lower case, and characters that are no
/// syntax match themselves, so that a plain pattern finds itself. An error that comes out is one
/// with which this pattern is refused.
///
/// Which patterns compile is left open. One that does not follow the grammar is refused, and one
/// whose compiled form is over a limit in bytes, which depends on the width of a pointer.
#[verifier::external_body]
pub(crate) fn compile(pattern: &str) -> (built: Result<regex::Regex, regex::Error>)
    ensures
        built matches Ok(re) ==> matched_texts(re) == caseless_matches(pattern@),
        built matches Ok(re) ==> is_plain(pattern@) ==> finds_plainly(matched_texts(re), pattern@),
        built matches Err(error) ==> refused_with(pattern@, error),
{
    regex::RegexBuilder::new(pattern).case_insensitive(true).build()
}

/// `Regex::is_match` tells whether the expression has a match anywhere in the text.
pub assume_specification[ regex::Regex::is_match ](re: &regex::Regex, haystack: &str) -> (found: bool)
    ensures
        found == matched_texts(*re).contains(haystack@),
;

} // verus!

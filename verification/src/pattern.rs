//! Regular expressions, as far as the dictionary needs them.
//!
//! Matching is done by the `regex` crate. What an expression matches is a
//! matter of its pattern text and of the searched text alone, so the results
//! are named here by uninterpreted functions of those two texts.

use crate::text::texts;
use regex::Regex;
use vstd::prelude::*;

verus! {

/// `regex::Regex`: a compiled regular expression, opaque to the proofs.
#[verifier::external_type_specification]
#[verifier::external_body]
pub struct ExRegex(Regex);

/// The pattern text that a compiled expression was built from, which
/// `Regex::as_str` hands back.
pub uninterp spec fn pattern_source(re: Regex) -> Seq<char>;

/// Whether a pattern text is accepted by the compiler of expressions.
pub uninterp spec fn pattern_compiles(pattern: Seq<char>) -> bool;

/// Whether the expression written as `pattern` matches anywhere in `text`.
pub uninterp spec fn pattern_matches(pattern: Seq<char>, text: Seq<char>) -> bool;

/// What the capture group `index` holds in the leftmost match of `pattern` in
/// `text`; `None` if there is no match, no such group, or the group took no
/// part in the match.
pub uninterp spec fn pattern_group(pattern: Seq<char>, text: Seq<char>, index: int) -> Option<
    Seq<char>,
>;

/// What the first capture group holds in the leftmost match of `pattern` in
/// `text`.
pub open spec fn pattern_first_group(pattern: Seq<char>, text: Seq<char>) -> Option<Seq<char>> {
    pattern_group(pattern, text, 1)
}

/// The successive non-overlapping matches of `pattern` in `text`, from left to
/// right.
pub uninterp spec fn pattern_all_matches(pattern: Seq<char>, text: Seq<char>) -> Seq<Seq<char>>;

/// `Regex::new`: compiles a pattern. Whether it succeeds depends on the
/// pattern text alone; the compiled expression remembers its text.
#[verifier::external_body]
pub(crate) fn compile(pattern: &str) -> (r: Option<Regex>)
    ensures
        r is Some <==> pattern_compiles(pattern@),
        r matches Some(re) ==> pattern_source(re) == pattern@,
{
    Regex::new(pattern).ok()
}

/// `Regex::is_match`: whether the expression matches anywhere in the text.
#[verifier::external_body]
pub(crate) fn is_match(re: &Regex, text: &str) -> (r: bool)
    ensures
        r == pattern_matches(pattern_source(*re), text@),
{
    re.is_match(text)
}

/// `Regex::captures`, then `Captures::get`: the text of a capture group in
/// the leftmost match, if there is a match and the group took part in it.
#[verifier::external_body]
pub(crate) fn group(re: &Regex, text: &str, index: usize) -> (r: Option<String>)
    ensures
        match r {
            Some(s) => pattern_group(pattern_source(*re), text@, index as int) == Some(s@),
            None => pattern_group(pattern_source(*re), text@, index as int) is None,
        },
{
    re.captures(text).and_then(|c| c.get(index)).map(|m| m.as_str().to_string())
}

/// The text of the first capture group in the leftmost match.
pub(crate) fn first_group(re: &Regex, text: &str) -> (r: Option<String>)
    ensures
        match r {
            Some(s) => pattern_first_group(pattern_source(*re), text@) == Some(s@),
            None => pattern_first_group(pattern_source(*re), text@) is None,
        },
{
    group(re, text, 1)
}

/// `Regex::find_iter`: the texts of the successive non-overlapping matches.
#[verifier::external_body]
pub(crate) fn all_matches(re: &Regex, text: &str) -> (r: Vec<String>)
    ensures
        texts(r@) == pattern_all_matches(pattern_source(*re), text@),
{
    re.find_iter(text).map(|m| m.as_str().to_string()).collect()
}

} // verus!

//! The outside pieces the search rests on: the compiled regular expression of
//! the `regex` crate, and paths, UTF-8 validation and `String::push` of the
//! standard library. Nothing in this file is proved; each contract says what the
//! outside function is taken to do.

use vstd::prelude::*;
use vstd::utf8::{encode_utf8, valid_utf8};

verus! {

/// A compiled regular expression of the `regex` crate. Its inside is not
/// visible to the verifier.
#[verifier::external_type_specification]
#[verifier::external_body]
pub struct ExRegex(regex::Regex);

/// A path of the standard library. Its inside is not visible to the
/// verifier: the library takes paths from its caller and hands them back in
/// requests and records, never looking into them.
#[verifier::external_type_specification]
#[verifier::external_body]
pub struct ExPathBuf(std::path::PathBuf);

/// `PathBuf::clone` of the standard library: the copy equals the path it was
/// made from.
pub assume_specification[ <std::path::PathBuf as Clone>::clone ](
    path: &std::path::PathBuf,
) -> (copy: std::path::PathBuf)
    ensures
        copy == *path,
;

/// Whether the compiled expression finds a match anywhere in `haystack`: what
/// `regex::Regex::is_match` answers.
pub uninterp spec fn regex_matches(re: regex::Regex, haystack: Seq<char>) -> bool;

/// The text the expression was compiled from: what `regex::Regex::as_str`
/// hands back.
pub uninterp spec fn regex_text(re: regex::Regex) -> Seq<char>;

/// Calls `regex::Regex::is_match`. The answer depends on the compiled
/// expression and the haystack alone, so it is given the name
/// [`regex_matches`]; nothing more is claimed of it.
#[verifier::external_body]
pub(crate) fn is_match(re: &regex::Regex, haystack: &str) -> (found: bool)
    ensures
        found == regex_matches(*re, haystack@),
{
    re.is_match(haystack)
}

/// Calls `regex::Regex::as_str`, which returns the pattern string stored in
/// the compiled expression; that string is given the name [`regex_text`].
#[verifier::external_body]
pub(crate) fn pattern_text(re: &regex::Regex) -> (text: &str)
    ensures
        text@ == regex_text(*re),
{
    re.as_str()
}

/// Calls `std::str::from_utf8`: the bytes are accepted exactly when they are
/// well-formed UTF-8, and they are then the encoding of the string returned.
#[verifier::external_body]
pub(crate) fn decode(bytes: &[u8]) -> (text: Option<&str>)
    ensures
        text is Some <==> valid_utf8(bytes@),
        text is Some ==> encode_utf8(text.unwrap()@) == bytes@,
{
    std::str::from_utf8(bytes).ok()
}

/// Calls `String::push`, which appends one character.
#[verifier::external_body]
pub(crate) fn push_char(s: &mut String, c: char)
    ensures
        final(s)@ == old(s)@.push(c),
{
    s.push(c)
}

} // verus!

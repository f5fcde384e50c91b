//! Regular expressions, as the `regex` crate understands them.

use vstd::prelude::*;

use crate::text::texts;
use crate::web::maybe;

verus! {

/// Why a pattern is not a regular expression, in words; nothing where it is one.
pub uninterp spec fn pattern_error(pattern: Seq<char>) -> Option<Seq<char>>;

/// `regex::Regex::new`: the message of its error, if it fails.
#[verifier::external_body]
pub(crate) fn check_pattern(pattern: &str) -> (r: Option<String>)
    ensures
        maybe(r) == pattern_error(pattern@),
{
    regex::Regex::new(pattern).err().map(|error| error.to_string())
}

/// Whether a pattern matches somewhere in a text; a pattern that is not a regular
/// expression matches nowhere.
pub uninterp spec fn pattern_matches(pattern: Seq<char>, text: Seq<char>) -> bool;

/// `regex::Regex::is_match`.
#[verifier::external_body]
pub(crate) fn is_match(pattern: &str, text: &str) -> (r: bool)
    ensures
        r == pattern_matches(pattern@, text@),
        pattern_error(pattern@) is Some ==> !r,
{
    match regex::Regex::new(pattern) {
        Ok(regex) => regex.is_match(text),
        Err(_) => false,
    }
}

/// A text with every match of a pattern replaced; the text itself where the
/// pattern is not a regular expression.
pub uninterp spec fn pattern_replaced(
    pattern: Seq<char>,
    text: Seq<char>,
    replacement: Seq<char>,
) -> Seq<char>;

/// `regex::Regex::replace_all` with a template that may name capture groups.
/// Where nothing matches the text stays as it is.
#[verifier::external_body]
pub(crate) fn replace_all(pattern: &str, text: &str, replacement: &str) -> (r: String)
    ensures
        r@ == pattern_replaced(pattern@, text@, replacement@),
        !pattern_matches(pattern@, text@) ==> r@ == text@,
{
    match regex::Regex::new(pattern) {
        Ok(regex) => regex.replace_all(text, replacement).into_owned(),
        Err(_) => text.to_string(),
    }
}

/// The matches of a pattern in a text, from left to right.
pub uninterp spec fn pattern_found(pattern: Seq<char>, text: Seq<char>) -> Seq<Seq<char>>;

/// `regex::Regex::find_iter`: the matched texts.
#[verifier::external_body]
pub(crate) fn find_all(pattern: &str, text: &str) -> (r: Vec<String>)
    ensures
        texts(r@) == pattern_found(pattern@, text@),
{
    match regex::Regex::new(pattern) {
        Ok(regex) => regex.find_iter(text).map(|found| found.as_str().to_string()).collect(),
        Err(_) => Vec::new(),
    }
}

/// What stands before, between and behind the matches of a pattern in a text.
pub uninterp spec fn pattern_split(pattern: Seq<char>, text: Seq<char>) -> Seq<Seq<char>>;

/// `regex::Regex::split`: the texts that the matches separate, one more than
/// there are matches.
#[verifier::external_body]
pub(crate) fn split_all(pattern: &str, text: &str) -> (r: Vec<String>)
    ensures
        texts(r@) == pattern_split(pattern@, text@),
        r@.len() == pattern_found(pattern@, text@).len() + 1,
{
    match regex::Regex::new(pattern) {
        Ok(regex) => regex.split(text).map(str::to_string).collect(),
        Err(_) => vec![text.to_string()],
    }
}

} // verus!

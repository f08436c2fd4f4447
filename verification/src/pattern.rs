//! The one place where the regex engine is called.

use crate::error::ParseError;
use regex::Regex;
use vstd::prelude::*;

verus! {

/// Trusted: the regex crate's error, opaque here.
#[verifier::external_type_specification]
#[verifier::external_body]
pub struct ExRegexError(regex::Error);

/// Whether `Regex::new` accepts `pattern`.
pub uninterp spec fn pattern_compiles(pattern: Seq<char>) -> bool;

/// What the first capture group of `pattern` holds in the leftmost match
/// that `Regex::captures` finds in `haystack`; `None` where nothing matches
/// or the group took no part in the match.
pub uninterp spec fn first_group(pattern: Seq<char>, haystack: Seq<char>) -> Option<Seq<char>>;

/// Trusted: compiles `pattern` with `Regex::new`, searches `haystack` with
/// `Regex::captures` and copies out what group 1 matched. The contract
/// claims only that both steps depend on the two texts alone: the error
/// comes exactly when the pattern does not compile, and the text found is
/// the one that `first_group` names.
#[verifier::external_body]
fn capture_first_group(pattern: &str, haystack: &str) -> (found: Result<
    Option<String>,
    regex::Error,
>)
    ensures
        found is Ok <==> pattern_compiles(pattern@),
        found matches Ok(group) ==> match group {
            Some(text) => first_group(pattern@, haystack@) == Some(text@),
            None => first_group(pattern@, haystack@) is None,
        },
{
    let re = match Regex::new(pattern) {
        Ok(re) => re,
        Err(e) => return Err(e),
    };
    let group = match re.captures(haystack) {
        Some(caps) => caps.get(1),
        None => None,
    };
    match group {
        Some(found) => Ok(Some(found.as_str().to_string())),
        None => Ok(None),
    }
}

/// What the first capture group of `pattern` holds in `haystack`, as far as
/// the pattern is one.
pub open spec fn capture(pattern: Seq<char>, haystack: Seq<char>) -> Result<
    Option<Seq<char>>,
    ParseError,
> {
    if pattern_compiles(pattern) {
        Ok(first_group(pattern, haystack))
    } else {
        Err(ParseError::Pattern)
    }
}

/// Searches `haystack` for `pattern` and returns what its first capture
/// group matched.
pub fn first_capture(pattern: &str, haystack: &str) -> (found: Result<Option<String>, ParseError>)
    ensures
        match found {
            Ok(Some(text)) => capture(pattern@, haystack@) == Ok::<Option<Seq<char>>, ParseError>(
                Some(text@),
            ),
            Ok(None) => capture(pattern@, haystack@) == Ok::<Option<Seq<char>>, ParseError>(None),
            Err(e) => capture(pattern@, haystack@) == Err::<Option<Seq<char>>, ParseError>(e),
        },
{
    match capture_first_group(pattern, haystack) {
        Ok(group) => Ok(group),
        Err(_) => Err(ParseError::Pattern),
    }
}

} // verus!

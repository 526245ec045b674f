//! Finds a link to a music catalogue in a text.

use vstd::prelude::*;

verus! {

/// The outside error type `regex::Error`: why a pattern was not accepted.
#[verifier::external_type_specification]
#[verifier::external_body]
pub struct ExRegexError(regex::Error);

/// The leftmost match of the regular expression `pattern` in `haystack`, as
/// `regex::Regex::captures` finds it (its group 0); `None` without a match.
pub uninterp spec fn leftmost_match(pattern: Seq<char>, haystack: Seq<char>) -> Option<Seq<char>>;

/// Whether `regex::Regex::new` accepts `pattern`: it is a valid regular
/// expression, and its compiled form stays within the crate's size limit.
pub uninterp spec fn pattern_accepted(pattern: Seq<char>) -> bool;

/// The view of an optional text.
pub open spec fn text_of(s: Option<String>) -> Option<Seq<char>> {
    match s {
        Some(t) => Some(t@),
        None => None,
    }
}

/// The pattern of a link to the catalogue: an optional scheme, an optional
/// `beta` host prefix, a region of two word characters, a slug, an optional
/// further segment, then a number, or `ra` or `pl` with what follows them.
pub open spec fn reference_pattern() -> Seq<char> {
    r"(?:https?://)?(?:beta.)?music.apple.com/(\w{2})/([^/]+)/(?:[^/]+/)?((?:\d+)|(?:ra.\d+)|(?:pl.\w+))"@
}

/// Why no search for a link was made.
#[derive(Debug, Clone, Copy, PartialEq, Eq, Structural)]
pub enum ReferenceError {
    /// The pattern was not accepted.
    Pattern,
}

/// Compiles `pattern` with `regex::Regex::new` and searches `haystack` with
/// `Regex::captures`, taking the whole match (group 0). Whether the pattern
/// is accepted depends on the pattern alone and is named `pattern_accepted`;
/// a pattern that is not accepted gives the error, and no search is made.
/// Where it is accepted, the result is the leftmost match, which depends on
/// pattern and haystack alone and is named `leftmost_match`.
#[verifier::external_body]
fn search(pattern: &str, haystack: &str) -> (r: Result<Option<String>, regex::Error>)
    ensures
        (r is Ok) == pattern_accepted(pattern@),
        r is Ok ==> text_of(r->Ok_0) == leftmost_match(pattern@, haystack@),
{
    let re = regex::Regex::new(pattern)?;
    Ok(re.captures(haystack).and_then(|c| c.get(0)).map(|m| m.as_str().to_string()))
}

/// Looks for a link to the catalogue in `content`: the leftmost match of
/// the link pattern, or `None` where there is none. Fails with `Pattern`
/// exactly where the link pattern is not accepted.
pub fn find_reference(content: &str) -> (r: Result<Option<String>, ReferenceError>)
    ensures
        (r is Ok) == pattern_accepted(reference_pattern()),
        r is Ok ==> text_of(r->Ok_0) == leftmost_match(reference_pattern(), content@),
        r is Err ==> r == Err::<Option<String>, ReferenceError>(ReferenceError::Pattern),
{
    link_from(
        search(
            r"(?:https?://)?(?:beta.)?music.apple.com/(\w{2})/([^/]+)/(?:[^/]+/)?((?:\d+)|(?:ra.\d+)|(?:pl.\w+))",
            content,
        ),
    )
}

/// What a search gives to the caller: what was found, be it a link or
/// none, where the search was made; `Pattern` where the pattern was not
/// accepted and no search was made.
pub fn link_from(searched: Result<Option<String>, regex::Error>) -> (r: Result<
    Option<String>,
    ReferenceError,
>)
    ensures
        match searched {
            Ok(found) => r == Ok::<Option<String>, ReferenceError>(found),
            Err(_) => r == Err::<Option<String>, ReferenceError>(ReferenceError::Pattern),
        },
{
    match searched {
        Ok(found) => Ok(found),
        Err(_) => Err(ReferenceError::Pattern),
    }
}

} // verus!

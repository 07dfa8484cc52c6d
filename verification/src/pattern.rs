//! Regular expressions, evaluated by the `regex` crate.
//!
//! What a pattern matches is not modelled here. The search is given a name,
//! and callers state their results over that name.

use vstd::prelude::*;

verus! {

/// The error of `regex::Regex::new`, of which nothing is looked at.
#[verifier::external_type_specification]
#[verifier::external_body]
pub struct ExRegexError(regex::Error);

/// Whether `regex` accepts `pattern` as a regular expression.
pub uninterp spec fn accepted(pattern: Seq<char>) -> bool;

/// The capture groups of the leftmost match of `pattern` in `text`, the
/// whole match first; `None` where `text` holds no match. A group that took
/// no part in the match is `None`.
pub uninterp spec fn captured(pattern: Seq<char>, text: Seq<char>) -> Option<
    Seq<Option<Seq<char>>>,
>;

/// Compiles `pattern` with `regex::Regex::new` and searches `text` with
/// `regex::Regex::captures`.
///
/// Trusted: the error of `Regex::new` comes back exactly when the crate
/// rejects the pattern; otherwise the groups are those that `captures`
/// reported, each copied into a `String`.
#[verifier::external_body]
pub(crate) fn captures(pattern: &str, text: &str) -> (r: Result<
    Option<Vec<Option<String>>>,
    regex::Error,
>)
    ensures
        r is Ok <==> accepted(pattern@),
        r matches Ok(found) ==> found.deep_view() == captured(pattern@, text@),
{
    let expression = regex::Regex::new(pattern)?;
    Ok(
        expression.captures(text).map(
            |found| found.iter().map(|group| group.map(|m| m.as_str().to_string())).collect(),
        ),
    )
}

/// The capture groups of each match of `pattern` in `text`, for the
/// successive matches that do not overlap, from left to right.
pub uninterp spec fn captured_all(pattern: Seq<char>, text: Seq<char>) -> Seq<
    Seq<Option<Seq<char>>>,
>;

/// The parts of `text` that the matches of `pattern` leave: what is before
/// the first match, between each two, and after the last.
pub uninterp spec fn separated(pattern: Seq<char>, text: Seq<char>) -> Seq<Seq<char>>;

/// Compiles `pattern` with `regex::Regex::new` and goes through the
/// matches in `text` with `regex::Regex::captures_iter`.
///
/// Trusted: the error of `Regex::new` comes back exactly when the crate
/// rejects the pattern; otherwise the result holds the groups of every
/// match that the iterator gave, in its order, each copied into a
/// `String`.
#[verifier::external_body]
pub(crate) fn captures_all(pattern: &str, text: &str) -> (r: Result<
    Vec<Vec<Option<String>>>,
    regex::Error,
>)
    ensures
        r is Ok <==> accepted(pattern@),
        r matches Ok(found) ==> found.deep_view() == captured_all(pattern@, text@),
{
    let expression = regex::Regex::new(pattern)?;
    Ok(
        expression.captures_iter(text).map(
            |found| found.iter().map(|group| group.map(|m| m.as_str().to_string())).collect(),
        ).collect(),
    )
}

/// Compiles `pattern` with `regex::Regex::new` and splits `text` with
/// `regex::Regex::split`.
///
/// Trusted: the error of `Regex::new` comes back exactly when the crate
/// rejects the pattern; otherwise the result holds the parts that the
/// iterator gave, in its order, each copied into a `String`. The iterator
/// gives a part before each match and one after the last, and its matches
/// are those of `captures_iter`: there is one part more than matches.
#[verifier::external_body]
pub(crate) fn split(pattern: &str, text: &str) -> (r: Result<Vec<String>, regex::Error>)
    ensures
        r is Ok <==> accepted(pattern@),
        r matches Ok(parts) ==> parts.deep_view() == separated(pattern@, text@),
        r matches Ok(parts) ==> parts@.len() == captured_all(pattern@, text@).len() + 1,
{
    let expression = regex::Regex::new(pattern)?;
    Ok(expression.split(text).map(|part| part.to_string()).collect())
}

} // verus!

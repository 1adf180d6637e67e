//! Text operations that the lookup rests on: lowercasing, trimming, prefix
//! tests and regular-expression captures.

use vstd::prelude::*;
use vstd::string::*;

verus! {

/// The lowercase form of a text, as `str::to_lowercase` computes it.
pub uninterp spec fn lowercase_of(text: Seq<char>) -> Seq<char>;

/// A text without its leading and trailing whitespace, as `str::trim`
/// computes it.
pub uninterp spec fn trimmed_of(text: Seq<char>) -> Seq<char>;

/// The capture groups of the leftmost match of a pattern in a text, as
/// `regex::Regex::captures` finds them: `None` where the pattern does not
/// compile or does not match, else one item per group of the pattern, the
/// whole match first, `None` for a group that took no part in the match.
pub uninterp spec fn regex_captures(pattern: Seq<char>, text: Seq<char>) -> Option<
    Seq<Option<Seq<char>>>,
>;

/// The characters of every group of a capture result.
pub open spec fn groups_view(groups: Option<Vec<Option<String>>>) -> Option<
    Seq<Option<Seq<char>>>,
> {
    match groups {
        Some(items) => Some(
            Seq::new(
                items@.len(),
                |i: int|
                    match items@[i] {
                        Some(s) => Some(s@),
                        None => None,
                    },
            ),
        ),
        None => None,
    }
}

/// Calls `str::to_lowercase`. Trusted: the result is the lowercase form of
/// the text, and the empty text has an empty lowercase form.
#[verifier::external_body]
pub(crate) fn lowercase(text: &str) -> (lower: String)
    ensures
        lower@ == lowercase_of(text@),
        text@.len() == 0 ==> lower@.len() == 0,
{
    text.to_lowercase()
}

/// Calls `str::trim`. Trusted: the result is the trimmed text, which is never
/// longer than the text itself.
#[verifier::external_body]
pub(crate) fn trim(text: &str) -> (inner: &str)
    ensures
        inner@ == trimmed_of(text@),
        inner@.len() <= text@.len(),
{
    text.trim()
}

/// Calls `str::starts_with`. Trusted: the result tells whether the characters
/// of `prefix` are the first characters of `text`.
#[verifier::external_body]
pub(crate) fn starts_with(text: &str, prefix: &str) -> (hit: bool)
    ensures
        hit == prefix@.is_prefix_of(text@),
{
    text.starts_with(prefix)
}

/// Compiles `pattern` with `regex::Regex::new` and calls
/// `regex::Regex::captures` on `text`. Trusted: the result is what that call
/// finds, group by group; a pattern that does not compile gives `None`.
#[verifier::external_body]
pub(crate) fn captures(pattern: &str, text: &str) -> (groups: Option<Vec<Option<String>>>)
    ensures
        groups_view(groups) == regex_captures(pattern@, text@),
{
    let regex = regex::Regex::new(pattern).ok()?;
    let found = regex.captures(text)?;
    Some(found.iter().map(|group| group.map(|m| m.as_str().to_owned())).collect())
}

/// The form in which a query is matched and remembered: trimmed, then
/// lowercased.
pub open spec fn normalized(query: Seq<char>) -> Seq<char> {
    lowercase_of(trimmed_of(query))
}

/// Trims and lowercases a query.
pub fn normalize_query(query: &str) -> (key: String)
    ensures
        key@ == normalized(query@),
        query@.len() == 0 ==> key@.len() == 0,
{
    lowercase(trim(query))
}

} // verus!

//! The similarity of a normalized query to an entry, from 0 to 100.

use vstd::prelude::*;
use vstd::string::*;
use crate::ags::{Entry, EntryView};
use crate::text::{captures, lowercase, lowercase_of, regex_captures, starts_with};

verus! {

/// The pattern of a query that gives a postal code and then a place name:
/// five digits, whitespace, and the rest.
pub const POSTAL_PATTERN: &'static str = "^(?<plz>[0-9]{5})(\\s+)(?<ort>.+)";

/// The score of an entry that a query matches.
pub const FULL_SCORE: u8 = 100;

/// A query of the form "postal code, whitespace, place name", taken apart.
pub struct StructuredQuery {
    pub plz: String,
    pub ort: String,
}

/// The mathematical value of a [`StructuredQuery`].
pub ghost struct StructuredQueryView {
    pub plz: Seq<char>,
    pub ort: Seq<char>,
}

impl View for StructuredQuery {
    type V = StructuredQueryView;

    open spec fn view(&self) -> StructuredQueryView {
        StructuredQueryView { plz: self.plz@, ort: self.ort@ }
    }
}

/// The view of an optional structured query.
pub open spec fn structured_view(parts: Option<StructuredQuery>) -> Option<StructuredQueryView> {
    match parts {
        Some(p) => Some(p@),
        None => None,
    }
}

/// How close a needle is to the lowercased place name of one entry, measured
/// by the Jaro-Winkler similarity. The needle is [`name_needle`] of the query.
/// `percent` is the similarity times 100, rounded down; `close` tells whether
/// the similarity is at least 0.85.
#[derive(Clone, Copy, Debug)]
pub struct NameLikeness {
    pub percent: u8,
    pub close: bool,
}

/// The parts of a structured query, read from the capture groups of
/// [`POSTAL_PATTERN`]: the first group is the postal code, the third the
/// place name. Any other shape of result is no structured query.
pub open spec fn structured_of(groups: Option<Seq<Option<Seq<char>>>>) -> Option<
    StructuredQueryView,
> {
    match groups {
        Some(g) => if g.len() == 4 && g[1] is Some && g[3] is Some {
            Some(StructuredQueryView { plz: g[1]->0, ort: g[3]->0 })
        } else {
            None
        },
        None => None,
    }
}

/// The structured form of a query, if it has one.
pub open spec fn structured_query(query: Seq<char>) -> Option<StructuredQueryView> {
    structured_of(regex_captures(POSTAL_PATTERN@, query))
}

/// Reads the parts of a structured query from the capture groups of
/// [`POSTAL_PATTERN`].
pub fn structured_from_groups(groups: &Option<Vec<Option<String>>>) -> (parts: Option<
    StructuredQuery,
>)
    ensures
        structured_view(parts) == structured_of(crate::text::groups_view(*groups)),
{
    match groups {
        Some(items) => {
            if items.len() == 4 {
                match (&items[1], &items[3]) {
                    (Some(plz), Some(ort)) => Some(
                        StructuredQuery { plz: plz.clone(), ort: ort.clone() },
                    ),
                    _ => None,
                }
            } else {
                None
            }
        },
        None => None,
    }
}

/// Takes a query apart where it has the structured form.
pub fn parse_structured(query: &str) -> (parts: Option<StructuredQuery>)
    ensures
        structured_view(parts) == structured_query(query@),
{
    let groups = captures(POSTAL_PATTERN, query);
    structured_from_groups(&groups)
}

/// The text that is compared with place names: the place-name part of a
/// structured query, the whole query otherwise.
pub open spec fn needle_of(query: Seq<char>, parts: Option<StructuredQueryView>) -> Seq<char> {
    match parts {
        Some(p) => p.ort,
        None => query,
    }
}

/// The text of a query that is compared with place names.
pub fn name_needle(query: &str) -> (needle: String)
    ensures
        needle@ == needle_of(query@, structured_query(query@)),
{
    match parse_structured(query) {
        Some(parts) => parts.ort,
        None => query.to_owned(),
    }
}

/// The query begins the postal code, the place name, or the two joined by a
/// space; the place name is compared in lowercase.
pub open spec fn prefix_hit(query: Seq<char>, entry: EntryView) -> bool {
    ||| query.is_prefix_of(lowercase_of(entry.plz))
    ||| query.is_prefix_of(lowercase_of(entry.ort))
    ||| query.is_prefix_of(entry.plz + seq![' '] + lowercase_of(entry.ort))
}

/// The similarity of a query to an entry.
///
/// A prefix hit scores 100. So does a structured query whose postal code is
/// the entry's and whose place name is close to the entry's. Any other
/// structured query leaves the entry's score as it is. A query without the
/// structured form scores the likeness of the whole query to the place name.
pub open spec fn similarity_of(
    query: Seq<char>,
    parts: Option<StructuredQueryView>,
    entry: EntryView,
    likeness: NameLikeness,
) -> u8 {
    if prefix_hit(query, entry) {
        FULL_SCORE
    } else {
        match parts {
            Some(p) => if p.plz == entry.plz && likeness.close {
                FULL_SCORE
            } else {
                entry.similarity
            },
            None => likeness.percent,
        }
    }
}

/// Tells whether the query begins the postal code, the place name, or the two
/// joined by a space.
fn has_prefix_hit(query: &str, entry: &Entry) -> (hit: bool)
    ensures
        hit == prefix_hit(query@, entry@),
{
    let plz = lowercase(entry.plz.as_str());
    if starts_with(plz.as_str(), query) {
        return true;
    }
    let ort = lowercase(entry.ort.as_str());
    if starts_with(ort.as_str(), query) {
        return true;
    }
    let mut joined = entry.plz.clone();
    joined.append(" ");
    joined.append(ort.as_str());
    proof {
        reveal_strlit(" ");
        assert(" "@ =~= seq![' ']);
    }
    starts_with(joined.as_str(), query)
}

/// Scores an entry against a normalized query whose structured form is
/// already known.
pub fn similarity_for(
    query: &str,
    parts: &Option<StructuredQuery>,
    entry: &Entry,
    likeness: NameLikeness,
) -> (score: u8)
    ensures
        score == similarity_of(query@, structured_view(*parts), entry@, likeness),
        likeness.percent <= 100 && entry.similarity <= 100 ==> score <= 100,
{
    if has_prefix_hit(query, entry) {
        FULL_SCORE
    } else {
        match parts {
            Some(p) => {
                if p.plz == entry.plz && likeness.close {
                    FULL_SCORE
                } else {
                    entry.similarity
                }
            },
            None => likeness.percent,
        }
    }
}

/// Scores an entry against a normalized query.
pub fn get_similarity(query: &str, entry: &Entry, likeness: NameLikeness) -> (score: u8)
    ensures
        score == similarity_of(query@, structured_query(query@), entry@, likeness),
        likeness.percent <= 100 && entry.similarity <= 100 ==> score <= 100,
{
    let parts = parse_structured(query);
    similarity_for(query, &parts, entry, likeness)
}

} // verus!

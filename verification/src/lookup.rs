//! The course of one lookup around the query cache, as a sequence of
//! decisions. The caller owns the cache and the measuring of names; after
//! each of its steps it reports what came back and is told what to do next.

use vstd::prelude::*;
use vstd::string::*;
use crate::ags::{views_of, Entry, EntryView};
use crate::ranking::{annotate, annotate_all, cache_key, rank, ranked};
use crate::similarity::{name_needle, needle_of, structured_query, NameLikeness};
use crate::text::normalized;

verus! {

/// The greatest number of queries whose results the cache keeps.
pub const CACHE_CAPACITY: u64 = 1000;

/// The seconds after which a remembered result is dropped, counted from the
/// moment it was stored.
pub const CACHE_LIFETIME_SECS: u64 = 1800;

/// The seconds after which a remembered result is dropped, counted from the
/// moment it was last read.
pub const CACHE_IDLE_SECS: u64 = 300;

/// What the caller reports.
pub enum Event {
    /// A query came in.
    Asked { query: String },
    /// The cache was asked for `key` and gave `hit`.
    Cached { key: String, hit: Option<Vec<Entry>> },
    /// The needle of `key` was measured against every place name.
    Measured { key: String, likeness: Vec<NameLikeness> },
}

/// What the caller is to do next.
pub enum Action {
    /// Answer with `list`; the lookup is over.
    Reply { list: Vec<Entry> },
    /// Ask the cache for `key` and report what it gives.
    AskCache { key: String },
    /// Measure `needle` against the lowercased place name of every entry and
    /// report the likeness of each.
    Measure { key: String, needle: String },
    /// Store `list` under `key` in the cache and answer with it; the lookup
    /// is over.
    Store { key: String, list: Vec<Entry> },
}

/// The action that an event calls for.
///
/// A query that is empty once normalized is answered with nothing, and the
/// cache is left alone. Any other query is looked up under its normalized
/// form. What the cache holds is the answer as it stands. Where the cache
/// holds nothing, the names are measured, and the ranking of the annotated
/// entries is stored and given as the answer.
pub open spec fn decided(event: Event, entries: Seq<EntryView>, action: Action) -> bool {
    match event {
        Event::Asked { query } => if normalized(query@).len() == 0 {
            match action {
                Action::Reply { list } => list@.len() == 0,
                _ => false,
            }
        } else {
            match action {
                Action::AskCache { key } => key@ == normalized(query@),
                _ => false,
            }
        },
        Event::Cached { key, hit: Some(found) } => match action {
            Action::Reply { list } => views_of(list@) == views_of(found@),
            _ => false,
        },
        Event::Cached { key, hit: None } => match action {
            Action::Measure { key: same, needle } => same@ == key@ && needle@ == needle_of(
                key@,
                structured_query(key@),
            ),
            _ => false,
        },
        Event::Measured { key, likeness } => match action {
            Action::Store { key: same, list } => same@ == key@ && views_of(list@) == ranked(
                annotate_all(entries, key@, likeness@),
            ),
            _ => false,
        },
    }
}

/// A ranking that was stored after a miss is, on a later hit, the answer as
/// it was computed: nothing is scored or annotated again.
pub proof fn hit_answers_with_the_stored_ranking(
    entries: Seq<EntryView>,
    key: String,
    likeness: Vec<NameLikeness>,
    stored: Action,
    replied: Action,
)
    requires
        decided(Event::Measured { key, likeness }, entries, stored),
        stored is Store ==> decided(
            Event::Cached { key: stored->Store_key, hit: Some(stored->Store_list) },
            entries,
            replied,
        ),
    ensures
        stored is Store,
        replied is Reply,
        views_of(replied->Reply_list@) == ranked(annotate_all(entries, key@, likeness@)),
{
}

/// An event that [`decide`] can take: the likeness of every entry was
/// measured, where names were measured.
pub open spec fn fits(event: Event, entries: Seq<EntryView>) -> bool {
    match event {
        Event::Measured { key, likeness } => likeness@.len() == entries.len(),
        _ => true,
    }
}

/// Tells whether an event reports the likeness of every entry, where it
/// reports a measuring.
pub fn check_event(event: &Event, entries: &Vec<Entry>) -> (ok: bool)
    ensures
        ok == fits(*event, views_of(entries@)),
{
    match event {
        Event::Measured { key, likeness } => likeness.len() == entries.len(),
        _ => true,
    }
}

/// Says what to do after an event of a lookup in the gazetteer `entries`.
pub fn decide(event: Event, entries: &Vec<Entry>) -> (action: Action)
    requires
        fits(event, views_of(entries@)),
    ensures
        decided(event, views_of(entries@), action),
{
    match event {
        Event::Asked { query } => {
            match cache_key(query.as_str()) {
                Some(key) => Action::AskCache { key },
                None => Action::Reply { list: Vec::new() },
            }
        },
        Event::Cached { key, hit: Some(found) } => Action::Reply { list: found },
        Event::Cached { key, hit: None } => {
            let needle = name_needle(key.as_str());
            Action::Measure { key, needle }
        },
        Event::Measured { key, likeness } => {
            let scored = annotate(key.as_str(), entries, &likeness);
            let list = rank(&scored);
            Action::Store { key, list }
        },
    }
}

} // verus!

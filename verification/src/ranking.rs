//! The ranking of the gazetteer for a query: score every entry, keep the good
//! ones, order them, and cut the list off.

use vstd::prelude::*;
use vstd::string::*;
use crate::ags::{fields_of, views_of, Entry, EntryView};
use crate::similarity::{
    parse_structured, similarity_for, similarity_of, structured_query, structured_view,
    NameLikeness, StructuredQueryView,
};
use crate::text::{normalize_query, normalized};
use crate::zips::{ambiguous_codes, ambiguous_zips, contains_text};

verus! {

/// The lowest similarity with which an entry is listed.
pub const SCORE_FLOOR: u8 = 90;

/// The greatest number of entries that a ranking lists.
pub const RESULT_LIMIT: usize = 25;

/// An entry with the annotations of one query: its similarity to the query,
/// and whether its postal code is one of `codes`.
pub open spec fn annotated(
    entry: EntryView,
    query: Seq<char>,
    parts: Option<StructuredQueryView>,
    likeness: NameLikeness,
    codes: Set<Seq<char>>,
) -> EntryView {
    EntryView {
        similarity: similarity_of(query, parts, entry, likeness),
        zip_collision: codes.contains(entry.plz),
        ..entry
    }
}

/// Every entry of the gazetteer with its annotations for a normalized query.
/// The collision flag goes by the ambiguous postal codes of all states.
pub open spec fn annotate_all(
    entries: Seq<EntryView>,
    query: Seq<char>,
    likeness: Seq<NameLikeness>,
) -> Seq<EntryView> {
    Seq::new(
        entries.len(),
        |i: int|
            annotated(
                entries[i],
                query,
                structured_query(query),
                likeness[i],
                ambiguous_codes(entries, Seq::empty()),
            ),
    )
}

/// The entries that score at least `floor`.
pub open spec fn scoring_at_least(floor: u8) -> spec_fn(EntryView) -> bool {
    |entry: EntryView| entry.similarity >= floor
}

/// The entries that score exactly `level`.
pub open spec fn scoring(level: u8) -> spec_fn(EntryView) -> bool {
    |entry: EntryView| entry.similarity == level
}

/// The entries with a given deprecation flag.
pub open spec fn flagged(deprecated: bool) -> spec_fn(EntryView) -> bool {
    |entry: EntryView| entry.deprecated == deprecated
}

/// The entries that score at least `floor`, the highest score first, entries
/// of one score in the order in which `entries` has them.
pub open spec fn by_similarity(entries: Seq<EntryView>, floor: int) -> Seq<EntryView>
    decreases 256 - floor,
{
    if 0 <= floor <= 255 {
        by_similarity(entries, floor + 1) + entries.filter(scoring(floor as u8))
    } else {
        Seq::empty()
    }
}

/// The entries with the deprecated ones moved to the end; otherwise each
/// keeps its place relative to the others.
pub open spec fn deprecated_last(entries: Seq<EntryView>) -> Seq<EntryView> {
    entries.filter(flagged(false)) + entries.filter(flagged(true))
}

/// The first `limit` entries, or all of them where there are fewer.
pub open spec fn cut_off(entries: Seq<EntryView>, limit: int) -> Seq<EntryView> {
    if entries.len() > limit {
        entries.take(limit)
    } else {
        entries
    }
}

/// The ranking of annotated entries: those that score at least 90, ordered by
/// similarity, then the deprecated ones moved to the end, then the first 25.
pub open spec fn ranked(scored: Seq<EntryView>) -> Seq<EntryView> {
    cut_off(
        deprecated_last(
            by_similarity(scored.filter(scoring_at_least(SCORE_FLOOR)), SCORE_FLOOR as int),
        ),
        RESULT_LIMIT as int,
    )
}

/// A choice among entries: those of one score, or those with one
/// deprecation flag.
#[derive(Clone, Copy, Debug)]
pub enum Pick {
    Score(u8),
    Deprecated(bool),
}

impl Pick {
    /// The entries that the choice admits.
    pub open spec fn admitted(self) -> spec_fn(EntryView) -> bool {
        match self {
            Pick::Score(level) => scoring(level),
            Pick::Deprecated(flag) => flagged(flag),
        }
    }

    /// Tells whether the choice admits an entry.
    pub fn admits(&self, entry: &Entry) -> (hit: bool)
        ensures
            hit == (self.admitted())(entry@),
    {
        match self {
            Pick::Score(level) => entry.similarity == *level,
            Pick::Deprecated(flag) => entry.deprecated == *flag,
        }
    }
}

/// Appends to `out` the entries that `pick` admits, in their order.
pub fn append_matching(out: &mut Vec<Entry>, entries: &Vec<Entry>, pick: Pick)
    ensures
        views_of(final(out)@) == views_of(old(out)@) + views_of(entries@).filter(pick.admitted()),
{
    let ghost base = views_of(out@);
    let ghost all = views_of(entries@);
    let ghost wanted = pick.admitted();
    let mut j: usize = 0;
    proof {
        reveal(Seq::filter);
        assert(all.take(0).filter(wanted) =~= Seq::<EntryView>::empty());
        assert(views_of(out@) =~= base + all.take(0).filter(wanted));
    }
    while j < entries.len()
        invariant
            j <= entries.len(),
            all == views_of(entries@),
            wanted == pick.admitted(),
            views_of(out@) == base + all.take(j as int).filter(wanted),
        decreases entries.len() - j,
    {
        let ghost before = views_of(out@);
        let hit = pick.admits(&entries[j]);
        if hit {
            out.push(entries[j].clone());
        }
        proof {
            broadcast use Seq::lemma_filter_push;

            assert(all.take(j + 1) =~= all.take(j as int).push(all[j as int]));
            if hit {
                assert(views_of(out@) =~= before.push(all[j as int]));
            }
            assert(views_of(out@) =~= base + all.take(j + 1).filter(wanted));
        }
        j += 1;
    }
    proof {
        assert(all.take(entries.len() as int) =~= all);
    }
}

/// Lists the entries that score at least `floor`, the highest score first,
/// entries of one score in their given order.
pub fn sort_by_similarity(entries: &Vec<Entry>, floor: u8) -> (sorted: Vec<Entry>)
    ensures
        views_of(sorted@) == by_similarity(views_of(entries@), floor as int),
{
    let ghost all = views_of(entries@);
    let mut sorted: Vec<Entry> = Vec::new();
    let mut level: u16 = 256;
    proof {
        assert(views_of(sorted@) =~= by_similarity(all, 256));
    }
    while level > floor as u16
        invariant
            floor <= level <= 256,
            all == views_of(entries@),
            views_of(sorted@) == by_similarity(all, level as int),
        decreases level,
    {
        level -= 1;
        append_matching(&mut sorted, entries, Pick::Score(level as u8));
    }
    sorted
}

/// Moves the deprecated entries to the end of the list and keeps every other
/// order.
pub fn move_deprecated_last(entries: &Vec<Entry>) -> (parted: Vec<Entry>)
    ensures
        views_of(parted@) == deprecated_last(views_of(entries@)),
{
    let mut parted: Vec<Entry> = Vec::new();
    proof {
        assert(views_of(parted@) =~= Seq::<EntryView>::empty());
    }
    append_matching(&mut parted, entries, Pick::Deprecated(false));
    append_matching(&mut parted, entries, Pick::Deprecated(true));
    parted
}

/// Keeps the entries that score at least `floor`, in their order.
pub fn keep_scoring_at_least(entries: &Vec<Entry>, floor: u8) -> (kept: Vec<Entry>)
    ensures
        views_of(kept@) == views_of(entries@).filter(scoring_at_least(floor)),
{
    let ghost all = views_of(entries@);
    let ghost wanted = scoring_at_least(floor);
    let mut kept: Vec<Entry> = Vec::new();
    let mut j: usize = 0;
    proof {
        reveal(Seq::filter);
        assert(views_of(kept@) =~= all.take(0).filter(wanted));
    }
    while j < entries.len()
        invariant
            j <= entries.len(),
            all == views_of(entries@),
            wanted == scoring_at_least(floor),
            views_of(kept@) == all.take(j as int).filter(wanted),
        decreases entries.len() - j,
    {
        let ghost before = views_of(kept@);
        if entries[j].similarity >= floor {
            kept.push(entries[j].clone());
            proof {
                assert(views_of(kept@) =~= before.push(all[j as int]));
            }
        }
        proof {
            broadcast use Seq::lemma_filter_push;

            assert(all.take(j + 1) =~= all.take(j as int).push(all[j as int]));
        }
        j += 1;
    }
    proof {
        assert(all.take(entries.len() as int) =~= all);
    }
    kept
}

/// Ranks annotated entries.
pub fn rank(scored: &Vec<Entry>) -> (list: Vec<Entry>)
    ensures
        views_of(list@) == ranked(views_of(scored@)),
{
    let kept = keep_scoring_at_least(scored, SCORE_FLOOR);
    let sorted = sort_by_similarity(&kept, SCORE_FLOOR);
    let mut list = move_deprecated_last(&sorted);
    let ghost parted = views_of(list@);
    list.truncate(RESULT_LIMIT);
    proof {
        assert(views_of(list@) =~= cut_off(parted, RESULT_LIMIT as int));
    }
    list
}

/// Annotates every entry of the gazetteer for a normalized query.
pub fn annotate(query: &str, entries: &Vec<Entry>, likeness: &Vec<NameLikeness>) -> (scored: Vec<
    Entry,
>)
    requires
        likeness.len() == entries.len(),
    ensures
        views_of(scored@) == annotate_all(views_of(entries@), query@, likeness@),
{
    let ghost all = views_of(entries@);
    let ghost codes = ambiguous_codes(all, Seq::empty());
    let parts = parse_structured(query);
    let collisions = ambiguous_zips(entries, "");
    proof {
        reveal_strlit("");
        assert(""@ =~= Seq::<char>::empty());
    }
    let mut scored: Vec<Entry> = Vec::new();
    let mut i: usize = 0;
    while i < entries.len()
        invariant
            i <= entries.len(),
            likeness.len() == entries.len(),
            all == views_of(entries@),
            codes == ambiguous_codes(all, Seq::empty()),
            structured_view(parts) == structured_query(query@),
            forall|zip: Seq<char>| fields_of(collisions@).contains(zip) <==> codes.contains(zip),
            scored.len() == i,
            forall|k: int|
                0 <= k < i ==> (#[trigger] scored[k])@ == annotated(
                    all[k],
                    query@,
                    structured_query(query@),
                    likeness[k],
                    codes,
                ),
        decreases entries.len() - i,
    {
        let entry = &entries[i];
        let similarity = similarity_for(query, &parts, entry, likeness[i]);
        let zip_collision = contains_text(&collisions, &entry.plz);
        scored.push(entry.clone().with_similarity(similarity).with_zip_collision(zip_collision));
        i += 1;
    }
    proof {
        assert(views_of(scored@) =~= annotate_all(all, query@, likeness@));
    }
    scored
}

/// The ranked entries for a query, at most 25 of them.
///
/// The query is normalized first; a query that is empty then has no result.
/// `likeness[i]` is the likeness of the place name of `entries[i]` to the
/// needle of the normalized query.
pub fn find_entries(query: &str, entries: &Vec<Entry>, likeness: &Vec<NameLikeness>) -> (list:
    Vec<Entry>)
    requires
        likeness.len() == entries.len(),
    ensures
        views_of(list@) == if normalized(query@).len() == 0 {
            Seq::<EntryView>::empty()
        } else {
            ranked(annotate_all(views_of(entries@), normalized(query@), likeness@))
        },
        query@.len() == 0 ==> list.len() == 0,
        list.len() <= RESULT_LIMIT,
        forall|i: int| 0 <= i < list.len() ==> (#[trigger] list[i]).similarity >= SCORE_FLOOR,
{
    let key = normalize_query(query);
    if key.as_str().unicode_len() == 0 {
        let list: Vec<Entry> = Vec::new();
        proof {
            assert(views_of(list@) =~= Seq::<EntryView>::empty());
        }
        return list;
    }
    let scored = annotate(key.as_str(), entries, likeness);
    let list = rank(&scored);
    proof {
        ranked_is_bounded(views_of(scored@));
        assert forall|i: int| 0 <= i < list.len() implies (#[trigger] list[i]).similarity
            >= SCORE_FLOOR by {
            assert(views_of(list@)[i] == list[i]@);
        }
    }
    list
}

/// The key under which the result for a query is remembered: the normalized
/// query, or nothing where that is empty, since such a query has no result
/// to remember.
pub fn cache_key(query: &str) -> (key: Option<String>)
    ensures
        key is Some <==> normalized(query@).len() > 0,
        key is Some ==> key->0@ == normalized(query@),
        query@.len() == 0 ==> key is None,
{
    let key = normalize_query(query);
    if key.as_str().unicode_len() == 0 {
        None
    } else {
        Some(key)
    }
}

/// No entry scores less than a later one.
pub open spec fn descending(entries: Seq<EntryView>) -> bool {
    forall|i: int, j: int|
        0 <= i < j < entries.len() ==> (#[trigger] entries[i]).similarity >= (
        #[trigger] entries[j]).similarity
}

/// Ordering by similarity lists entries of the input only, none of which
/// scores less than the floor, and none of which scores less than a later one.
pub proof fn by_similarity_descends(entries: Seq<EntryView>, floor: int)
    requires
        0 <= floor <= 256,
    ensures
        descending(by_similarity(entries, floor)),
        forall|i: int|
            0 <= i < by_similarity(entries, floor).len() ==> {
                &&& (#[trigger] by_similarity(entries, floor)[i]).similarity >= floor
                &&& entries.contains(by_similarity(entries, floor)[i])
            },
    decreases 256 - floor,
{
    if floor <= 255 {
        by_similarity_descends(entries, floor + 1);
        let head = by_similarity(entries, floor + 1);
        let tail = entries.filter(scoring(floor as u8));
        let whole = by_similarity(entries, floor);
        assert(whole == head + tail);
        assert forall|i: int| 0 <= i < tail.len() implies (#[trigger] tail[i]).similarity
            == floor && entries.contains(tail[i]) by {
            entries.lemma_filter_pred(scoring(floor as u8), i);
            assert(tail.contains(tail[i]));
            entries.lemma_filter_contains_rev(scoring(floor as u8), tail[i]);
        }
        assert forall|i: int| 0 <= i < whole.len() implies (#[trigger] whole[i]).similarity
            >= floor && entries.contains(whole[i]) by {
            if i < head.len() {
                assert(whole[i] == head[i]);
            } else {
                assert(whole[i] == tail[i - head.len()]);
            }
        }
        assert forall|i: int, j: int| 0 <= i < j < whole.len() implies (
        #[trigger] whole[i]).similarity >= (#[trigger] whole[j]).similarity by {
            if j < head.len() {
                assert(whole[i] == head[i] && whole[j] == head[j]);
            } else if i < head.len() {
                assert(whole[i] == head[i] && whole[j] == tail[j - head.len()]);
            } else {
                assert(whole[i] == tail[i - head.len()] && whole[j] == tail[j - head.len()]);
            }
        }
    }
}

/// Ordering by similarity lists every entry of the input that scores at
/// least the floor.
pub proof fn by_similarity_keeps(entries: Seq<EntryView>, floor: int, i: int)
    requires
        0 <= floor <= 256,
        0 <= i < entries.len(),
        entries[i].similarity >= floor,
    ensures
        by_similarity(entries, floor).contains(entries[i]),
    decreases 256 - floor,
{
    let head = by_similarity(entries, floor + 1);
    let tail = entries.filter(scoring(floor as u8));
    if entries[i].similarity == floor {
        entries.lemma_filter_contains(scoring(floor as u8), i);
        let at = choose|at: int| 0 <= at < tail.len() && tail[at] == entries[i];
        assert((head + tail)[head.len() + at] == entries[i]);
    } else {
        by_similarity_keeps(entries, floor + 1, i);
        let at = choose|at: int| 0 <= at < head.len() && head[at] == entries[i];
        assert((head + tail)[at] == entries[i]);
    }
}

/// A ranking that lists fewer than 25 entries lists every annotated entry
/// with a similarity of at least 90.
pub proof fn ranked_is_complete(scored: Seq<EntryView>, i: int)
    requires
        ranked(scored).len() < RESULT_LIMIT,
        0 <= i < scored.len(),
        scored[i].similarity >= SCORE_FLOOR,
    ensures
        ranked(scored).contains(scored[i]),
{
    let kept = scored.filter(scoring_at_least(SCORE_FLOOR));
    let sorted = by_similarity(kept, SCORE_FLOOR as int);
    let current = sorted.filter(flagged(false));
    let outdated = sorted.filter(flagged(true));
    let parted = current + outdated;
    scored.lemma_filter_contains(scoring_at_least(SCORE_FLOOR), i);
    let k = choose|k: int| 0 <= k < kept.len() && kept[k] == scored[i];
    by_similarity_keeps(kept, SCORE_FLOOR as int, k);
    let s = choose|s: int| 0 <= s < sorted.len() && sorted[s] == scored[i];
    if scored[i].deprecated {
        sorted.lemma_filter_contains(flagged(true), s);
        let at = choose|at: int| 0 <= at < outdated.len() && outdated[at] == scored[i];
        assert(parted[current.len() + at] == scored[i]);
    } else {
        sorted.lemma_filter_contains(flagged(false), s);
        let at = choose|at: int| 0 <= at < current.len() && current[at] == scored[i];
        assert(parted[at] == scored[i]);
    }
    assert(ranked(scored) == parted);
}

/// Leaving entries out of a list in which no entry scores less than a later
/// one gives such a list again.
pub proof fn filter_keeps_descending(entries: Seq<EntryView>, wanted: spec_fn(EntryView) -> bool)
    requires
        descending(entries),
    ensures
        descending(entries.filter(wanted)),
    decreases entries.len(),
{
    reveal(Seq::filter);
    if entries.len() > 0 {
        let front = entries.drop_last();
        let last = entries.last();
        assert forall|i: int, j: int| 0 <= i < j < front.len() implies (
        #[trigger] front[i]).similarity >= (#[trigger] front[j]).similarity by {
            assert(front[i] == entries[i] && front[j] == entries[j]);
        }
        filter_keeps_descending(front, wanted);
        let kept = front.filter(wanted);
        if wanted(last) {
            let whole = entries.filter(wanted);
            assert(whole == kept.push(last));
            assert forall|i: int, j: int| 0 <= i < j < whole.len() implies (
            #[trigger] whole[i]).similarity >= (#[trigger] whole[j]).similarity by {
                if j < kept.len() {
                    assert(whole[i] == kept[i] && whole[j] == kept[j]);
                } else {
                    assert(whole[i] == kept[i] && whole[j] == last);
                    assert(kept.contains(kept[i]));
                    front.lemma_filter_contains_rev(wanted, kept[i]);
                    let at = choose|at: int| 0 <= at < front.len() && front[at] == kept[i];
                    assert(entries[at] == kept[i]);
                    assert(entries[entries.len() - 1] == last);
                }
            }
        }
    }
}

/// A list of which no entry is wanted has nothing left after filtering.
pub proof fn filter_of_unwanted_is_empty(
    entries: Seq<EntryView>,
    wanted: spec_fn(EntryView) -> bool,
)
    requires
        forall|i: int| 0 <= i < entries.len() ==> !wanted(#[trigger] entries[i]),
    ensures
        entries.filter(wanted) == Seq::<EntryView>::empty(),
    decreases entries.len(),
{
    reveal(Seq::filter);
    if entries.len() > 0 {
        let front = entries.drop_last();
        assert forall|i: int| 0 <= i < front.len() implies !wanted(#[trigger] front[i]) by {
            assert(front[i] == entries[i]);
        }
        filter_of_unwanted_is_empty(front, wanted);
        assert(!wanted(entries[entries.len() - 1]));
    }
}

/// A list of which every entry is wanted is left as it is by filtering.
pub proof fn filter_of_wanted_is_whole(entries: Seq<EntryView>, wanted: spec_fn(EntryView) -> bool)
    requires
        forall|i: int| 0 <= i < entries.len() ==> wanted(#[trigger] entries[i]),
    ensures
        entries.filter(wanted) == entries,
    decreases entries.len(),
{
    reveal(Seq::filter);
    if entries.len() > 0 {
        let front = entries.drop_last();
        assert forall|i: int| 0 <= i < front.len() implies wanted(#[trigger] front[i]) by {
            assert(front[i] == entries[i]);
        }
        filter_of_wanted_is_whole(front, wanted);
        assert(wanted(entries[entries.len() - 1]));
        assert(front.push(entries.last()) =~= entries);
    }
}

/// Ordering by similarity is stable: the entries of one score stand in the
/// order in which the input has them.
pub proof fn by_similarity_is_stable(entries: Seq<EntryView>, floor: int, level: u8)
    requires
        0 <= floor <= level,
    ensures
        by_similarity(entries, floor).filter(scoring(level)) == entries.filter(scoring(level)),
    decreases 256 - floor,
{
    let head = by_similarity(entries, floor + 1);
    let tail = entries.filter(scoring(floor as u8));
    Seq::filter_distributes_over_add(head, tail, scoring(level));
    if floor == level {
        by_similarity_descends(entries, floor + 1);
        filter_of_unwanted_is_empty(head, scoring(level));
        assert forall|i: int| 0 <= i < tail.len() implies scoring(level)(#[trigger] tail[i]) by {
            entries.lemma_filter_pred(scoring(floor as u8), i);
        }
        filter_of_wanted_is_whole(tail, scoring(level));
        assert(head.filter(scoring(level)) + tail.filter(scoring(level)) =~= tail);
    } else {
        by_similarity_is_stable(entries, floor + 1, level);
        assert forall|i: int| 0 <= i < tail.len() implies !scoring(level)(#[trigger] tail[i]) by {
            entries.lemma_filter_pred(scoring(floor as u8), i);
        }
        filter_of_unwanted_is_empty(tail, scoring(level));
        assert(head.filter(scoring(level)) + tail.filter(scoring(level)) =~= head.filter(
            scoring(level),
        ));
    }
}

/// Moving the deprecated entries to the end is stable: the current entries
/// keep their order among themselves, and so do the deprecated ones.
pub proof fn deprecated_last_is_stable(entries: Seq<EntryView>, deprecated: bool)
    ensures
        deprecated_last(entries).filter(flagged(deprecated)) == entries.filter(
            flagged(deprecated),
        ),
{
    let current = entries.filter(flagged(false));
    let outdated = entries.filter(flagged(true));
    Seq::filter_distributes_over_add(current, outdated, flagged(deprecated));
    assert forall|i: int| 0 <= i < current.len() implies flagged(false)(
        #[trigger] current[i],
    ) by {
        entries.lemma_filter_pred(flagged(false), i);
    }
    assert forall|i: int| 0 <= i < outdated.len() implies flagged(true)(
        #[trigger] outdated[i],
    ) by {
        entries.lemma_filter_pred(flagged(true), i);
    }
    if deprecated {
        filter_of_unwanted_is_empty(current, flagged(true));
        filter_of_wanted_is_whole(outdated, flagged(true));
        assert(current.filter(flagged(true)) + outdated.filter(flagged(true)) =~= outdated);
    } else {
        filter_of_wanted_is_whole(current, flagged(false));
        filter_of_unwanted_is_empty(outdated, flagged(false));
        assert(current.filter(flagged(false)) + outdated.filter(flagged(false)) =~= current);
    }
}

/// A ranking lists at most 25 entries, each of them one of the annotated
/// entries and none with a similarity under 90.
pub proof fn ranked_is_bounded(scored: Seq<EntryView>)
    ensures
        ranked(scored).len() <= RESULT_LIMIT,
        forall|i: int|
            0 <= i < ranked(scored).len() ==> {
                &&& (#[trigger] ranked(scored)[i]).similarity >= SCORE_FLOOR
                &&& scored.contains(ranked(scored)[i])
            },
{
    let kept = scored.filter(scoring_at_least(SCORE_FLOOR));
    let sorted = by_similarity(kept, SCORE_FLOOR as int);
    let current = sorted.filter(flagged(false));
    let outdated = sorted.filter(flagged(true));
    let parted = current + outdated;
    let list = ranked(scored);
    by_similarity_descends(kept, SCORE_FLOOR as int);
    assert forall|i: int| 0 <= i < list.len() implies (#[trigger] list[i]).similarity
        >= SCORE_FLOOR && scored.contains(list[i]) by {
        assert(list[i] == parted[i]);
        if i < current.len() {
            assert(parted[i] == current[i]);
            assert(current.contains(current[i]));
            sorted.lemma_filter_contains_rev(flagged(false), current[i]);
        } else {
            assert(parted[i] == outdated[i - current.len()]);
            assert(outdated.contains(outdated[i - current.len()]));
            sorted.lemma_filter_contains_rev(flagged(true), outdated[i - current.len()]);
        }
        let at = choose|at: int| 0 <= at < sorted.len() && sorted[at] == list[i];
        assert(kept.contains(sorted[at]));
        scored.lemma_filter_contains_rev(scoring_at_least(SCORE_FLOOR), list[i]);
    }
}

/// In a ranking no deprecated entry stands before a current one, and of two
/// entries with the same deprecation flag the earlier one scores at least as
/// high as the later one.
pub proof fn ranked_is_ordered(scored: Seq<EntryView>, i: int, j: int)
    requires
        0 <= i < j < ranked(scored).len(),
    ensures
        ranked(scored)[i].deprecated ==> ranked(scored)[j].deprecated,
        ranked(scored)[i].deprecated == ranked(scored)[j].deprecated ==> ranked(
            scored,
        )[i].similarity >= ranked(scored)[j].similarity,
{
    let kept = scored.filter(scoring_at_least(SCORE_FLOOR));
    let sorted = by_similarity(kept, SCORE_FLOOR as int);
    let current = sorted.filter(flagged(false));
    let outdated = sorted.filter(flagged(true));
    let parted = current + outdated;
    let list = ranked(scored);
    by_similarity_descends(kept, SCORE_FLOOR as int);
    filter_keeps_descending(sorted, flagged(false));
    filter_keeps_descending(sorted, flagged(true));
    assert(list[i] == parted[i] && list[j] == parted[j]);
    if i < current.len() {
        assert(parted[i] == current[i]);
        sorted.lemma_filter_pred(flagged(false), i);
    } else {
        assert(parted[i] == outdated[i - current.len()]);
        sorted.lemma_filter_pred(flagged(true), i - current.len());
    }
    if j < current.len() {
        assert(parted[j] == current[j]);
        sorted.lemma_filter_pred(flagged(false), j);
    } else {
        assert(parted[j] == outdated[j - current.len()]);
        sorted.lemma_filter_pred(flagged(true), j - current.len());
    }
}

} // verus!

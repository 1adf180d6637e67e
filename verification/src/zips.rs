//! Postal codes that are split across districts, and the districts they touch.

use vstd::prelude::*;
use vstd::string::*;
use crate::ags::{fields_of, views_of, Entry, EntryView};
use crate::text::starts_with;

verus! {

/// The part of a state filter that counts: its first two characters.
pub open spec fn scope_of(state: Seq<char>) -> Seq<char> {
    if state.len() > 2 {
        state.subrange(0, 2)
    } else {
        state
    }
}

/// Two entries carry the postal code `zip` and lie in different districts.
pub open spec fn split_across_districts(entries: Seq<EntryView>, zip: Seq<char>) -> bool {
    exists|i: int, j: int|
        #![trigger entries[i], entries[j]]
        {
            &&& 0 <= i < entries.len()
            &&& 0 <= j < entries.len()
            &&& entries[i].plz == zip
            &&& entries[j].plz == zip
            &&& entries[i].kreisschluessel != entries[j].kreisschluessel
        }
}

/// Some entry carries the postal code `zip` and has a municipality code that
/// begins with `scope`.
pub open spec fn zip_in_scope(entries: Seq<EntryView>, scope: Seq<char>, zip: Seq<char>) -> bool {
    exists|i: int|
        #![trigger entries[i]]
        {
            &&& 0 <= i < entries.len()
            &&& entries[i].plz == zip
            &&& scope.is_prefix_of(entries[i].gemeindeschluessel)
        }
}

/// The ambiguous postal codes of a state: those that are split across
/// districts anywhere in the gazetteer and occur in the state. The empty
/// filter stands for every state.
pub open spec fn ambiguous_codes(entries: Seq<EntryView>, state: Seq<char>) -> Set<Seq<char>> {
    Set::new(
        |zip: Seq<char>|
            split_across_districts(entries, zip) && zip_in_scope(entries, scope_of(state), zip),
    )
}

/// The districts that take part in an ambiguous postal code of a state.
pub open spec fn ambiguous_districts(entries: Seq<EntryView>, state: Seq<char>) -> Set<
    Seq<char>,
> {
    Set::new(
        |district: Seq<char>|
            exists|i: int|
                #![trigger entries[i]]
                {
                    &&& 0 <= i < entries.len()
                    &&& entries[i].kreisschluessel == district
                    &&& ambiguous_codes(entries, state).contains(entries[i].plz)
                },
    )
}

/// The label of the bucket of the postal codes that begin with `lead`.
pub open spec fn label_of(lead: char) -> Seq<char> {
    seq![lead, '.', '.', '.']
}

/// Every entry has a postal code of at least one character.
pub open spec fn has_postal_codes(entries: Seq<EntryView>) -> bool {
    forall|i: int| 0 <= i < entries.len() ==> (#[trigger] entries[i]).plz.len() > 0
}

/// The ambiguous postal codes that begin with one character.
#[derive(Debug)]
pub struct ZipGroup {
    pub lead: char,
    pub label: String,
    pub zips: Vec<String>,
}

/// The texts that begin with `lead`.
pub open spec fn led_by(lead: char) -> spec_fn(Seq<char>) -> bool {
    |text: Seq<char>| text.len() > 0 && text[0] == lead
}

/// No text is empty.
pub open spec fn all_nonempty(texts: Seq<Seq<char>>) -> bool {
    forall|i: int| 0 <= i < texts.len() ==> (#[trigger] texts[i]).len() > 0
}

/// The characters stand in strictly ascending order.
pub open spec fn ascending(leads: Seq<char>) -> bool {
    forall|a: int, b: int|
        0 <= a < b < leads.len() ==> (#[trigger] leads[a]) < (#[trigger] leads[b])
}

/// Some text among the first `upto` begins with `lead`.
pub open spec fn begins_one(texts: Seq<Seq<char>>, upto: int, lead: char) -> bool {
    exists|m: int| 0 <= m < upto && m < texts.len() && (#[trigger] texts[m])[0] == lead
}

/// The buckets of `texts` by first character: one bucket for each character
/// that begins a text, in ascending order of that character, each with its
/// label and with the texts that begin so, in their order.
pub open spec fn grouped(groups: Seq<ZipGroup>, texts: Seq<Seq<char>>) -> bool {
    &&& ascending(Seq::new(groups.len(), |g: int| groups[g].lead))
    &&& forall|g: int|
        0 <= g < groups.len() ==> is_bucket(#[trigger] groups[g], groups[g].lead, texts)
    &&& forall|i: int|
        0 <= i < texts.len() ==> Seq::new(groups.len(), |g: int| groups[g].lead).contains(
            (#[trigger] texts[i])[0],
        )
}

/// Tells whether every entry has a postal code of at least one character.
pub fn check_postal_codes(entries: &Vec<Entry>) -> (ok: bool)
    ensures
        ok == has_postal_codes(views_of(entries@)),
{
    let ghost all = views_of(entries@);
    let mut i: usize = 0;
    while i < entries.len()
        invariant
            i <= entries.len(),
            all == views_of(entries@),
            forall|k: int| 0 <= k < i ==> (#[trigger] all[k]).plz.len() > 0,
        decreases entries.len() - i,
    {
        if entries[i].plz.as_str().unicode_len() == 0 {
            assert(all[i as int].plz.len() == 0);
            return false;
        }
        i += 1;
    }
    true
}

/// Cuts a state filter down to the part that counts.
pub fn scope_text(state: &str) -> (scope: &str)
    ensures
        scope@ == scope_of(state@),
{
    if state.unicode_len() > 2 {
        state.substring_char(0, 2)
    } else {
        state
    }
}

/// Tells whether `text` occurs in `list`.
pub fn contains_text(list: &Vec<String>, text: &String) -> (found: bool)
    ensures
        found == fields_of(list@).contains(text@),
{
    let mut i: usize = 0;
    while i < list.len()
        invariant
            i <= list.len(),
            forall|k: int| 0 <= k < i ==> fields_of(list@)[k] != text@,
        decreases list.len() - i,
    {
        if list[i] == *text {
            assert(fields_of(list@)[i as int] == text@);
            return true;
        }
        i += 1;
    }
    false
}

/// Tells whether two entries carry `zip` and lie in different districts.
pub fn is_split(entries: &Vec<Entry>, zip: &String) -> (split: bool)
    ensures
        split == split_across_districts(views_of(entries@), zip@),
{
    let ghost all = views_of(entries@);
    let mut first: Option<usize> = None;
    let mut i: usize = 0;
    while i < entries.len()
        invariant
            i <= entries.len(),
            all == views_of(entries@),
            match first {
                Some(f) => f < i && all[f as int].plz == zip@ && forall|k: int|
                    0 <= k < i && (#[trigger] all[k]).plz == zip@ ==> all[k].kreisschluessel
                        == all[f as int].kreisschluessel,
                None => forall|k: int| 0 <= k < i ==> (#[trigger] all[k]).plz != zip@,
            },
        decreases entries.len() - i,
    {
        if entries[i].plz == *zip {
            match first {
                Some(f) => {
                    if !(entries[f].kreisschluessel == entries[i].kreisschluessel) {
                        proof {
                            let a = all[f as int];
                            let b = all[i as int];
                            assert(a.plz == zip@ && b.plz == zip@ && a.kreisschluessel
                                != b.kreisschluessel);
                        }
                        return true;
                    }
                },
                None => {
                    first = Some(i);
                },
            }
        }
        i += 1;
    }
    false
}

/// Tells whether some entry carries `zip` and lies in `scope`.
pub fn occurs_in_scope(entries: &Vec<Entry>, scope: &str, zip: &String) -> (found: bool)
    ensures
        found == zip_in_scope(views_of(entries@), scope@, zip@),
{
    let ghost all = views_of(entries@);
    let mut i: usize = 0;
    while i < entries.len()
        invariant
            i <= entries.len(),
            all == views_of(entries@),
            forall|k: int|
                0 <= k < i ==> !((#[trigger] all[k]).plz == zip@ && scope@.is_prefix_of(
                    all[k].gemeindeschluessel,
                )),
        decreases entries.len() - i,
    {
        if entries[i].plz == *zip && starts_with(entries[i].gemeindeschluessel.as_str(), scope) {
            proof {
                let a = all[i as int];
                assert(a.plz == zip@ && scope@.is_prefix_of(a.gemeindeschluessel));
            }
            return true;
        }
        i += 1;
    }
    false
}

/// Tells whether `zip` is an ambiguous postal code of a state.
pub fn is_ambiguous(entries: &Vec<Entry>, state: &str, zip: &String) -> (hit: bool)
    ensures
        hit == ambiguous_codes(views_of(entries@), state@).contains(zip@),
{
    is_split(entries, zip) && occurs_in_scope(entries, scope_text(state), zip)
}

/// The ambiguous postal codes of a state, each once.
pub fn ambiguous_zips(entries: &Vec<Entry>, state: &str) -> (zips: Vec<String>)
    ensures
        fields_of(zips@).no_duplicates(),
        forall|zip: Seq<char>|
            fields_of(zips@).contains(zip) <==> ambiguous_codes(
                views_of(entries@),
                state@,
            ).contains(zip),
{
    let ghost all = views_of(entries@);
    let ghost codes = ambiguous_codes(all, state@);
    let mut zips: Vec<String> = Vec::new();
    let mut i: usize = 0;
    while i < entries.len()
        invariant
            i <= entries.len(),
            all == views_of(entries@),
            codes == ambiguous_codes(all, state@),
            fields_of(zips@).no_duplicates(),
            forall|k: int| 0 <= k < zips.len() ==> codes.contains(#[trigger] fields_of(zips@)[k]),
            forall|k: int|
                0 <= k < i && codes.contains((#[trigger] all[k]).plz) ==> fields_of(
                    zips@,
                ).contains(all[k].plz),
        decreases entries.len() - i,
    {
        let zip = &entries[i].plz;
        if !contains_text(&zips, zip) && is_ambiguous(entries, state, zip) {
            let ghost before = fields_of(zips@);
            zips.push(zip.clone());
            proof {
                assert(fields_of(zips@) =~= before.push(zip@));
                assert(fields_of(zips@)[zips.len() - 1] == zip@);
                assert forall|k: int|
                    0 <= k < i + 1 && codes.contains(
                        (#[trigger] all[k]).plz,
                    ) implies fields_of(zips@).contains(all[k].plz) by {
                    if k < i {
                        let at = choose|at: int|
                            0 <= at < before.len() && before[at] == all[k].plz;
                        assert(fields_of(zips@)[at] == all[k].plz);
                    }
                }
            }
        }
        i += 1;
    }
    proof {
        assert forall|zip: Seq<char>| codes.contains(zip) implies fields_of(zips@).contains(
            zip,
        ) by {
            let at = choose|at: int|
                #![trigger all[at]]
                0 <= at < all.len() && all[at].plz == zip && scope_of(state@).is_prefix_of(
                    all[at].gemeindeschluessel,
                );
            assert(codes.contains(all[at].plz));
        }
    }
    zips
}

/// The first characters of the texts, each once, in ascending order.
pub fn leading_characters(texts: &Vec<String>) -> (leads: Vec<char>)
    requires
        all_nonempty(fields_of(texts@)),
    ensures
        ascending(leads@),
        forall|k: int|
            0 <= k < leads.len() ==> begins_one(
                fields_of(texts@),
                texts.len() as int,
                #[trigger] leads@[k],
            ),
        forall|i: int|
            0 <= i < texts.len() ==> leads@.contains((#[trigger] fields_of(texts@)[i])[0]),
{
    let ghost all = fields_of(texts@);
    let mut leads: Vec<char> = Vec::new();
    let mut i: usize = 0;
    while i < texts.len()
        invariant
            i <= texts.len(),
            all == fields_of(texts@),
            all_nonempty(all),
            ascending(leads@),
            forall|k: int| 0 <= k < leads.len() ==> begins_one(all, i as int, #[trigger] leads@[k]),
            forall|m: int| 0 <= m < i ==> leads@.contains((#[trigger] all[m])[0]),
        decreases texts.len() - i,
    {
        assert(all[i as int].len() > 0);
        let lead = texts[i].as_str().get_char(0);
        let mut at: usize = 0;
        while at < leads.len() && leads[at] < lead
            invariant
                at <= leads.len(),
                forall|k: int| 0 <= k < at ==> (#[trigger] leads@[k]) < lead,
            decreases leads.len() - at,
        {
            at += 1;
        }
        let ghost before = leads@;
        proof {
            assert(all[i as int][0] == lead);
            assert(begins_one(all, i + 1, lead));
            assert forall|c: char| begins_one(all, i as int, c) implies begins_one(
                all,
                i + 1,
                c,
            ) by {
                let m = choose|m: int| 0 <= m < i && m < all.len() && (#[trigger] all[m])[0] == c;
                assert(all[m][0] == c);
            }
        }
        if at == leads.len() || leads[at] != lead {
            leads.insert(at, lead);
            proof {
                assert(leads@[at as int] == lead);
                assert forall|k: int| 0 <= k < leads.len() implies begins_one(
                    all,
                    i + 1,
                    #[trigger] leads@[k],
                ) by {
                    if k < at {
                        assert(leads@[k] == before[k]);
                    } else if k > at {
                        assert(leads@[k] == before[k - 1]);
                    }
                }
                assert forall|a: int, b: int| 0 <= a < b < leads.len() implies (
                #[trigger] leads@[a]) < (#[trigger] leads@[b]) by {
                    if a < at {
                        assert(leads@[a] == before[a]);
                    } else if a > at {
                        assert(leads@[a] == before[a - 1]);
                    }
                    if b < at {
                        assert(leads@[b] == before[b]);
                    } else if b > at {
                        assert(leads@[b] == before[b - 1]);
                    }
                }
                assert forall|m: int| 0 <= m < i + 1 implies leads@.contains(
                    (#[trigger] all[m])[0],
                ) by {
                    if m < i {
                        let k = choose|k: int| 0 <= k < before.len() && before[k] == all[m][0];
                        if k < at {
                            assert(leads@[k] == all[m][0]);
                        } else {
                            assert(leads@[k + 1] == all[m][0]);
                        }
                    } else {
                        assert(leads@[at as int] == all[m][0]);
                    }
                }
            }
        } else {
            proof {
                assert(leads@[at as int] == all[i as int][0]);
            }
        }
        i += 1;
    }
    leads
}

/// The texts that begin with `lead`, in their order.
pub fn texts_led_by(texts: &Vec<String>, lead: char) -> (members: Vec<String>)
    ensures
        fields_of(members@) == fields_of(texts@).filter(led_by(lead)),
{
    let ghost all = fields_of(texts@);
    let ghost wanted = led_by(lead);
    let mut members: Vec<String> = Vec::new();
    let mut j: usize = 0;
    proof {
        reveal(Seq::filter);
        assert(fields_of(members@) =~= all.take(0).filter(wanted));
    }
    while j < texts.len()
        invariant
            j <= texts.len(),
            all == fields_of(texts@),
            wanted == led_by(lead),
            fields_of(members@) == all.take(j as int).filter(wanted),
        decreases texts.len() - j,
    {
        let ghost before = fields_of(members@);
        let text = texts[j].as_str();
        if text.unicode_len() > 0 && text.get_char(0) == lead {
            members.push(texts[j].clone());
            proof {
                assert(fields_of(members@) =~= before.push(all[j as int]));
            }
        }
        proof {
            broadcast use Seq::lemma_filter_push;

            assert(all.take(j + 1) =~= all.take(j as int).push(all[j as int]));
        }
        j += 1;
    }
    proof {
        assert(all.take(texts.len() as int) =~= all);
    }
    members
}

/// The label of the bucket that a non-empty text belongs to: its first
/// character and three dots.
pub fn bucket_label(text: &str) -> (label: String)
    requires
        text@.len() > 0,
    ensures
        label@ == label_of(text@[0]),
{
    let mut label = text.substring_char(0, 1).to_owned();
    label.append("...");
    proof {
        reveal_strlit("...");
        assert(label@ =~= label_of(text@[0]));
    }
    label
}

/// The bucket of one first character: its label and the texts that begin
/// with it, in their order.
pub open spec fn is_bucket(group: ZipGroup, lead: char, texts: Seq<Seq<char>>) -> bool {
    &&& group.lead == lead
    &&& group.label@ == label_of(lead)
    &&& fields_of(group.zips@) == texts.filter(led_by(lead))
    &&& group.zips.len() > 0
}

/// Builds the bucket of a character that begins some text.
pub fn bucket_of(texts: &Vec<String>, lead: char) -> (group: ZipGroup)
    requires
        begins_one(fields_of(texts@), texts.len() as int, lead),
        all_nonempty(fields_of(texts@)),
    ensures
        is_bucket(group, lead, fields_of(texts@)),
{
    let ghost all = fields_of(texts@);
    let zips = texts_led_by(texts, lead);
    proof {
        let i = choose|i: int|
            0 <= i < texts.len() && i < all.len() && (#[trigger] all[i])[0] == lead;
        assert(led_by(lead)(all[i]));
        all.lemma_filter_contains(led_by(lead), i);
        all.lemma_filter_pred(led_by(lead), 0);
    }
    let label = bucket_label(zips[0].as_str());
    ZipGroup { lead, label, zips }
}

/// Sorts texts into buckets by their first character.
pub fn group_by_first_digit(texts: &Vec<String>) -> (groups: Vec<ZipGroup>)
    requires
        all_nonempty(fields_of(texts@)),
    ensures
        grouped(groups@, fields_of(texts@)),
{
    let ghost all = fields_of(texts@);
    let leads = leading_characters(texts);
    let mut groups: Vec<ZipGroup> = Vec::new();
    let mut g: usize = 0;
    while g < leads.len()
        invariant
            g <= leads.len(),
            all == fields_of(texts@),
            all_nonempty(all),
            groups.len() == g,
            forall|k: int|
                0 <= k < leads.len() ==> begins_one(all, texts.len() as int, #[trigger] leads@[k]),
            forall|k: int| 0 <= k < g ==> is_bucket(#[trigger] groups@[k], leads@[k], all),
        decreases leads.len() - g,
    {
        assert(begins_one(all, texts.len() as int, leads@[g as int]));
        let group = bucket_of(texts, leads[g]);
        groups.push(group);
        g += 1;
    }
    proof {
        let heads = Seq::new(groups@.len(), |k: int| groups@[k].lead);
        assert forall|a: int, b: int| 0 <= a < b < heads.len() implies (#[trigger] heads[a]) < (
        #[trigger] heads[b]) by {
            assert(is_bucket(groups@[a], leads@[a], all));
            assert(is_bucket(groups@[b], leads@[b], all));
        }
        assert forall|i: int| 0 <= i < all.len() implies heads.contains((#[trigger] all[i])[0]) by {
            let k = choose|k: int| 0 <= k < leads.len() && leads@[k] == all[i][0];
            assert(is_bucket(groups@[k], leads@[k], all));
            assert(heads[k] == all[i][0]);
        }
        assert forall|k: int| 0 <= k < groups.len() implies is_bucket(
            #[trigger] groups@[k],
            groups@[k].lead,
            all,
        ) by {
            assert(is_bucket(groups@[k], leads@[k], all));
        }
    }
    groups
}

/// The order of texts by their characters, the first difference deciding and
/// a text standing before those that continue it.
pub open spec fn text_before(left: Seq<char>, right: Seq<char>) -> bool
    decreases left.len(),
{
    if right.len() == 0 {
        false
    } else if left.len() == 0 {
        true
    } else if left[0] != right[0] {
        left[0] < right[0]
    } else {
        text_before(left.drop_first(), right.drop_first())
    }
}

/// Buckets in ascending order of their first characters are in ascending
/// order of their labels.
pub proof fn labels_ascend_with_leads(first: char, second: char)
    requires
        first < second,
    ensures
        text_before(label_of(first), label_of(second)),
{
}

/// A postal code that two entries share while they lie in different
/// districts is ambiguous over all states, and both districts take part in it.
pub proof fn shared_code_is_ambiguous(entries: Seq<EntryView>, i: int, j: int)
    requires
        0 <= i < entries.len(),
        0 <= j < entries.len(),
        entries[i].plz == entries[j].plz,
        entries[i].kreisschluessel != entries[j].kreisschluessel,
    ensures
        ambiguous_codes(entries, Seq::empty()).contains(entries[i].plz),
        ambiguous_districts(entries, Seq::empty()).contains(entries[i].kreisschluessel),
        ambiguous_districts(entries, Seq::empty()).contains(entries[j].kreisschluessel),
{
    let zip = entries[i].plz;
    let a = entries[i];
    let b = entries[j];
    assert(a.plz == zip && b.plz == zip && a.kreisschluessel != b.kreisschluessel);
    assert(split_across_districts(entries, zip));
    assert(Seq::<char>::empty().is_prefix_of(a.gemeindeschluessel));
    assert(zip_in_scope(entries, scope_of(Seq::empty()), zip));
    assert(ambiguous_codes(entries, Seq::empty()).contains(a.plz));
    assert(ambiguous_codes(entries, Seq::empty()).contains(b.plz));
}

/// A postal code that is ambiguous in one state is ambiguous over all states.
pub proof fn ambiguous_in_state_is_ambiguous(
    entries: Seq<EntryView>,
    state: Seq<char>,
    zip: Seq<char>,
)
    requires
        ambiguous_codes(entries, state).contains(zip),
    ensures
        ambiguous_codes(entries, Seq::empty()).contains(zip),
{
    let at = choose|at: int|
        #![trigger entries[at]]
        0 <= at < entries.len() && entries[at].plz == zip && scope_of(state).is_prefix_of(
            entries[at].gemeindeschluessel,
        );
    assert(Seq::<char>::empty().is_prefix_of(entries[at].gemeindeschluessel));
    assert(zip_in_scope(entries, scope_of(Seq::empty()), zip));
}

/// A state filter of more than two characters counts as its first two.
pub proof fn long_filter_is_cut(entries: Seq<EntryView>, state: Seq<char>)
    requires
        state.len() > 2,
    ensures
        ambiguous_codes(entries, state) == ambiguous_codes(entries, state.subrange(0, 2)),
        ambiguous_districts(entries, state) == ambiguous_districts(entries, state.subrange(0, 2)),
{
    assert(scope_of(state) == scope_of(state.subrange(0, 2)));
    assert(ambiguous_codes(entries, state) =~= ambiguous_codes(entries, state.subrange(0, 2)));
    assert(ambiguous_districts(entries, state) =~= ambiguous_districts(
        entries,
        state.subrange(0, 2),
    ));
}

/// Leaving texts out of a list that names no text twice gives such a list
/// again.
pub proof fn filter_keeps_distinct(texts: Seq<Seq<char>>, wanted: spec_fn(Seq<char>) -> bool)
    requires
        texts.no_duplicates(),
    ensures
        texts.filter(wanted).no_duplicates(),
    decreases texts.len(),
{
    reveal(Seq::filter);
    if texts.len() > 0 {
        let front = texts.drop_last();
        let last = texts.last();
        filter_keeps_distinct(front, wanted);
        let kept = front.filter(wanted);
        if wanted(last) {
            assert forall|i: int| 0 <= i < kept.len() implies kept[i] != last by {
                assert(kept.contains(kept[i]));
                front.lemma_filter_contains_rev(wanted, kept[i]);
                let at = choose|at: int| 0 <= at < front.len() && front[at] == kept[i];
                assert(texts[at] == kept[i] && texts[texts.len() - 1] == last);
            }
        }
    }
}

/// The ambiguous postal codes of a state in buckets by their first character,
/// the buckets in ascending order of that character.
pub fn find_multiple_assigned_zips(entries: &Vec<Entry>, state: &str) -> (groups: Vec<ZipGroup>)
    requires
        has_postal_codes(views_of(entries@)),
    ensures
        ascending(Seq::new(groups@.len(), |g: int| groups@[g].lead)),
        forall|g: int|
            0 <= g < groups.len() ==> {
                &&& (#[trigger] groups@[g]).label@ == label_of(groups@[g].lead)
                &&& groups@[g].zips.len() > 0
                &&& fields_of(groups@[g].zips@).no_duplicates()
            },
        forall|g: int, zip: Seq<char>|
            0 <= g < groups.len() ==> (#[trigger] fields_of(groups@[g].zips@).contains(zip) <==> {
                &&& ambiguous_codes(views_of(entries@), state@).contains(zip)
                &&& zip[0] == groups@[g].lead
            }),
        forall|zip: Seq<char>| #[trigger]
            ambiguous_codes(views_of(entries@), state@).contains(zip) ==> Seq::new(
                groups@.len(),
                |g: int| groups@[g].lead,
            ).contains(zip[0]),
{
    let ghost all = views_of(entries@);
    let ghost codes = ambiguous_codes(all, state@);
    let zips = ambiguous_zips(entries, state);
    let ghost texts = fields_of(zips@);
    proof {
        assert forall|i: int| 0 <= i < texts.len() implies (#[trigger] texts[i]).len() > 0 by {
            assert(texts.contains(texts[i]));
            assert(codes.contains(texts[i]));
            assert(zip_in_scope(all, scope_of(state@), texts[i]));
            let at = choose|at: int|
                #![trigger all[at]]
                0 <= at < all.len() && all[at].plz == texts[i] && scope_of(state@).is_prefix_of(
                    all[at].gemeindeschluessel,
                );
            assert(all[at].plz.len() > 0);
        }
    }
    let groups = group_by_first_digit(&zips);
    proof {
        let heads = Seq::new(groups@.len(), |g: int| groups@[g].lead);
        assert forall|g: int, zip: Seq<char>| 0 <= g < groups.len() implies (#[trigger] fields_of(
            groups@[g].zips@,
        ).contains(zip) <==> {
            &&& codes.contains(zip)
            &&& zip[0] == groups@[g].lead
        }) by {
            let wanted = led_by(groups@[g].lead);
            let members = texts.filter(wanted);
            assert(is_bucket(groups@[g], groups@[g].lead, texts));
            if members.contains(zip) {
                texts.lemma_filter_contains_rev(wanted, zip);
                let at = choose|at: int| 0 <= at < members.len() && members[at] == zip;
                texts.lemma_filter_pred(wanted, at);
                assert(texts.contains(zip));
            }
            if codes.contains(zip) && zip[0] == groups@[g].lead {
                assert(texts.contains(zip));
                let at = choose|at: int| 0 <= at < texts.len() && texts[at] == zip;
                assert(texts[at].len() > 0);
                texts.lemma_filter_contains(wanted, at);
            }
        }
        assert forall|g: int| 0 <= g < groups.len() implies {
            &&& (#[trigger] groups@[g]).label@ == label_of(groups@[g].lead)
            &&& groups@[g].zips.len() > 0
            &&& fields_of(groups@[g].zips@).no_duplicates()
        } by {
            assert(is_bucket(groups@[g], groups@[g].lead, texts));
            filter_keeps_distinct(texts, led_by(groups@[g].lead));
        }
        assert forall|zip: Seq<char>| #[trigger] codes.contains(zip) implies heads.contains(
            zip[0],
        ) by {
            assert(texts.contains(zip));
            let at = choose|at: int| 0 <= at < texts.len() && texts[at] == zip;
            assert(heads.contains(texts[at][0]));
        }
    }
    groups
}

/// The districts that take part in an ambiguous postal code of a state, each
/// once.
pub fn find_counties_multiple_assigned_zips(entries: &Vec<Entry>, state: &str) -> (districts:
    Vec<String>)
    ensures
        fields_of(districts@).no_duplicates(),
        forall|district: Seq<char>|
            fields_of(districts@).contains(district) <==> ambiguous_districts(
                views_of(entries@),
                state@,
            ).contains(district),
{
    let ghost all = views_of(entries@);
    let ghost codes = ambiguous_codes(all, state@);
    let ghost wanted = ambiguous_districts(all, state@);
    let mut districts: Vec<String> = Vec::new();
    let mut i: usize = 0;
    while i < entries.len()
        invariant
            i <= entries.len(),
            all == views_of(entries@),
            codes == ambiguous_codes(all, state@),
            wanted == ambiguous_districts(all, state@),
            fields_of(districts@).no_duplicates(),
            forall|k: int|
                0 <= k < districts.len() ==> wanted.contains(#[trigger] fields_of(districts@)[k]),
            forall|k: int|
                0 <= k < i && codes.contains((#[trigger] all[k]).plz) ==> fields_of(
                    districts@,
                ).contains(all[k].kreisschluessel),
        decreases entries.len() - i,
    {
        let district = &entries[i].kreisschluessel;
        if !contains_text(&districts, district) && is_ambiguous(entries, state, &entries[i].plz) {
            let ghost before = fields_of(districts@);
            districts.push(district.clone());
            proof {
                assert(fields_of(districts@) =~= before.push(district@));
                assert(fields_of(districts@)[districts.len() - 1] == district@);
                let a = all[i as int];
                assert(a.kreisschluessel == district@ && codes.contains(a.plz));
                assert(wanted.contains(district@));
                assert forall|k: int|
                    0 <= k < i + 1 && codes.contains(
                        (#[trigger] all[k]).plz,
                    ) implies fields_of(districts@).contains(all[k].kreisschluessel) by {
                    if k < i {
                        let at = choose|at: int|
                            0 <= at < before.len() && before[at] == all[k].kreisschluessel;
                        assert(fields_of(districts@)[at] == all[k].kreisschluessel);
                    }
                }
            }
        }
        i += 1;
    }
    districts
}

} // verus!

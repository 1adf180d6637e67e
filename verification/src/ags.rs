//! The entries of the gazetteer and how one is built from a row of the dataset.

use vstd::prelude::*;
use vstd::string::*;

verus! {

/// One row of the gazetteer. `similarity` and `zip_collision` are annotations
/// of a single query; every other field comes from the dataset.
#[derive(Debug)]
pub struct Entry {
    pub gemeindeschluessel: String,
    pub kreisschluessel: String,
    pub kreisfrei: bool,
    pub plz: String,
    pub ort: String,
    pub lat: String,
    pub lon: String,
    pub kreis: String,
    pub kreis_lat: String,
    pub kreis_lon: String,
    pub bundesland: String,
    pub deprecated: bool,
    pub einwohner: Option<String>,
    pub similarity: u8,
    pub zip_collision: bool,
    pub primary_zip: bool,
}

/// The mathematical value of an [`Entry`]: every text field as its sequence
/// of characters.
pub ghost struct EntryView {
    pub gemeindeschluessel: Seq<char>,
    pub kreisschluessel: Seq<char>,
    pub kreisfrei: bool,
    pub plz: Seq<char>,
    pub ort: Seq<char>,
    pub lat: Seq<char>,
    pub lon: Seq<char>,
    pub kreis: Seq<char>,
    pub kreis_lat: Seq<char>,
    pub kreis_lon: Seq<char>,
    pub bundesland: Seq<char>,
    pub deprecated: bool,
    pub einwohner: Option<Seq<char>>,
    pub similarity: u8,
    pub zip_collision: bool,
    pub primary_zip: bool,
}

impl View for Entry {
    type V = EntryView;

    open spec fn view(&self) -> EntryView {
        EntryView {
            gemeindeschluessel: self.gemeindeschluessel@,
            kreisschluessel: self.kreisschluessel@,
            kreisfrei: self.kreisfrei,
            plz: self.plz@,
            ort: self.ort@,
            lat: self.lat@,
            lon: self.lon@,
            kreis: self.kreis@,
            kreis_lat: self.kreis_lat@,
            kreis_lon: self.kreis_lon@,
            bundesland: self.bundesland@,
            deprecated: self.deprecated,
            einwohner: match self.einwohner {
                Some(s) => Some(s@),
                None => None,
            },
            similarity: self.similarity,
            zip_collision: self.zip_collision,
            primary_zip: self.primary_zip,
        }
    }
}

/// The characters of each field of a row.
pub open spec fn fields_of(record: Seq<String>) -> Seq<Seq<char>> {
    Seq::new(record.len(), |i: int| record[i]@)
}

/// The mathematical values of a sequence of entries.
pub open spec fn views_of(entries: Seq<Entry>) -> Seq<EntryView> {
    Seq::new(entries.len(), |i: int| entries[i]@)
}

/// The three characters that end the municipality code of a district-free city.
pub open spec fn district_free_suffix() -> Seq<char> {
    seq!['0', '0', '0']
}

/// The single character that marks a set flag in the dataset.
pub open spec fn flag_set() -> Seq<char> {
    seq!['1']
}

impl EntryView {
    /// The municipality code has eight characters, the district code is its
    /// first five, and the entry is district-free exactly when the code ends
    /// in three zeros.
    pub open spec fn well_formed(self) -> bool {
        &&& self.gemeindeschluessel.len() == 8
        &&& self.kreisschluessel == self.gemeindeschluessel.subrange(0, 5)
        &&& self.kreisfrei == (self.gemeindeschluessel.subrange(5, 8) == district_free_suffix())
    }

    /// The state that the entry lies in: the first two characters of the
    /// district code, or all of it where it is shorter.
    pub open spec fn state_id(self) -> Seq<char> {
        if self.kreisschluessel.len() >= 2 {
            self.kreisschluessel.subrange(0, 2)
        } else {
            self.kreisschluessel
        }
    }
}

/// A row can become an entry: it has the nine leading fields and its first
/// field is an eight-character municipality code.
pub open spec fn record_ok(fields: Seq<Seq<char>>) -> bool {
    fields.len() >= 9 && fields[0].len() == 8
}

/// The entry that a row stands for. Fields beyond the ninth may be missing:
/// a missing deprecation flag means deprecated, a missing or empty population
/// means unknown, a missing primary flag means not primary.
pub open spec fn entry_of(fields: Seq<Seq<char>>) -> EntryView
    recommends
        record_ok(fields),
{
    EntryView {
        gemeindeschluessel: fields[0],
        kreisschluessel: fields[0].subrange(0, 5),
        kreisfrei: fields[0].subrange(5, 8) == district_free_suffix(),
        plz: fields[1],
        ort: fields[2],
        lat: fields[5],
        lon: fields[6],
        kreis: fields[3],
        kreis_lat: fields[7],
        kreis_lon: fields[8],
        bundesland: fields[4],
        deprecated: fields.len() > 9 ==> fields[9] == flag_set(),
        einwohner: if fields.len() > 10 && fields[10].len() > 0 {
            Some(fields[10])
        } else {
            None
        },
        similarity: 0,
        zip_collision: false,
        primary_zip: fields.len() > 11 && fields[11] == flag_set(),
    }
}

/// The entry of a row that can become one is well formed.
pub proof fn entry_of_is_well_formed(fields: Seq<Seq<char>>)
    requires
        record_ok(fields),
    ensures
        entry_of(fields).well_formed(),
{
}

/// Whether `text` is the one-character string `"1"`.
fn is_flag_set(text: &String) -> (r: bool)
    ensures
        r == (text@ == flag_set()),
{
    let s = text.as_str();
    let r = s.unicode_len() == 1 && s.get_char(0) == '1';
    proof {
        if r {
            assert(text@ =~= flag_set());
        }
    }
    r
}

/// Tells whether a row can become an entry.
pub fn check_record(record: &Vec<String>) -> (ok: bool)
    ensures
        ok == record_ok(fields_of(record@)),
{
    record.len() >= 9 && record[0].as_str().unicode_len() == 8
}

impl Entry {
    /// Builds the entry of a dataset row, with no similarity and no collision.
    pub fn from_record(record: &Vec<String>) -> (entry: Entry)
        requires
            record_ok(fields_of(record@)),
        ensures
            entry@ == entry_of(fields_of(record@)),
            entry@.well_formed(),
    {
        let code = record[0].as_str();
        let tail = code.substring_char(5, 8);
        let kreisfrei = tail.get_char(0) == '0' && tail.get_char(1) == '0' && tail.get_char(2)
            == '0';
        let deprecated = if record.len() > 9 {
            is_flag_set(&record[9])
        } else {
            true
        };
        let einwohner = if record.len() > 10 && record[10].as_str().unicode_len() > 0 {
            Some(record[10].clone())
        } else {
            None
        };
        let primary_zip = record.len() > 11 && is_flag_set(&record[11]);
        proof {
            if kreisfrei {
                assert(tail@ =~= district_free_suffix());
            }
        }
        Entry {
            gemeindeschluessel: record[0].clone(),
            kreisschluessel: code.substring_char(0, 5).to_owned(),
            kreisfrei,
            plz: record[1].clone(),
            ort: record[2].clone(),
            lat: record[5].clone(),
            lon: record[6].clone(),
            kreis: record[3].clone(),
            kreis_lat: record[7].clone(),
            kreis_lon: record[8].clone(),
            bundesland: record[4].clone(),
            deprecated,
            einwohner,
            similarity: 0,
            zip_collision: false,
            primary_zip,
        }
    }

    /// The same entry with its similarity set.
    pub fn with_similarity(self, similarity: u8) -> (entry: Entry)
        ensures
            entry@ == (EntryView { similarity, ..self@ }),
    {
        let mut entry = self;
        entry.similarity = similarity;
        entry
    }

    /// The same entry with its collision flag set.
    pub fn with_zip_collision(self, zip_collision: bool) -> (entry: Entry)
        ensures
            entry@ == (EntryView { zip_collision, ..self@ }),
    {
        let mut entry = self;
        entry.zip_collision = zip_collision;
        entry
    }

    /// The state that the entry lies in.
    pub fn get_state_id(&self) -> (state: String)
        ensures
            state@ == self@.state_id(),
    {
        let district = self.kreisschluessel.as_str();
        if district.unicode_len() >= 2 {
            district.substring_char(0, 2).to_owned()
        } else {
            district.to_owned()
        }
    }
}

/// The data rows of a comma-separated text, as `csv::Reader::records` yields
/// them with the reader's default settings: the first row is a header and is
/// left out, and so is every row that the reader reports as an error.
pub uninterp spec fn csv_rows(text: Seq<char>) -> Seq<Seq<Seq<char>>>;

/// The characters of each field of each row.
pub open spec fn rows_view(rows: Seq<Vec<String>>) -> Seq<Seq<Seq<char>>> {
    Seq::new(rows.len(), |i: int| fields_of(rows[i]@))
}

/// Every row can become an entry.
pub open spec fn rows_ok(rows: Seq<Seq<Seq<char>>>) -> bool {
    forall|i: int| 0 <= i < rows.len() ==> record_ok(#[trigger] rows[i])
}

/// The entries that the rows stand for, in their order.
pub open spec fn entries_of(rows: Seq<Seq<Seq<char>>>) -> Seq<EntryView> {
    Seq::new(rows.len(), |i: int| entry_of(rows[i]))
}

/// Every entry is well formed.
pub open spec fn all_well_formed(entries: Seq<EntryView>) -> bool {
    forall|i: int| 0 <= i < entries.len() ==> (#[trigger] entries[i]).well_formed()
}

/// Reads a comma-separated text with a `csv::Reader` built by
/// `csv::ReaderBuilder::new` and collects what `records` yields, skipping the
/// rows that come back as errors. Trusted: the result is those rows, field by
/// field.
#[verifier::external_body]
pub(crate) fn read_rows(text: &str) -> (rows: Vec<Vec<String>>)
    ensures
        rows_view(rows@) == csv_rows(text@),
{
    csv::ReaderBuilder::new()
        .from_reader(text.as_bytes())
        .records()
        .flatten()
        .map(|record| record.iter().map(|field| field.to_owned()).collect())
        .collect()
}

/// Builds the entries of the rows, or nothing where a row cannot become one.
pub fn entries_from_rows(rows: &Vec<Vec<String>>) -> (entries: Option<Vec<Entry>>)
    ensures
        entries is Some <==> rows_ok(rows_view(rows@)),
        entries is Some ==> views_of(entries->0@) == entries_of(rows_view(rows@)),
        entries is Some ==> all_well_formed(views_of(entries->0@)),
{
    let ghost all = rows_view(rows@);
    let mut entries: Vec<Entry> = Vec::new();
    let mut i: usize = 0;
    while i < rows.len()
        invariant
            i <= rows.len(),
            all == rows_view(rows@),
            entries.len() == i,
            forall|k: int| 0 <= k < i ==> record_ok(#[trigger] all[k]),
            forall|k: int| 0 <= k < i ==> (#[trigger] entries@[k])@ == entry_of(all[k]),
            forall|k: int| 0 <= k < i ==> (#[trigger] entries@[k])@.well_formed(),
        decreases rows.len() - i,
    {
        if !check_record(&rows[i]) {
            assert(!record_ok(all[i as int]));
            return None;
        }
        entries.push(Entry::from_record(&rows[i]));
        i += 1;
    }
    proof {
        assert(views_of(entries@) =~= entries_of(all));
    }
    Some(entries)
}

/// Reads the gazetteer from its comma-separated text: one entry for each data
/// row, or nothing where a row cannot become an entry.
pub fn all_entries(text: &str) -> (entries: Option<Vec<Entry>>)
    ensures
        entries is Some <==> rows_ok(csv_rows(text@)),
        entries is Some ==> views_of(entries->0@) == entries_of(csv_rows(text@)),
        entries is Some ==> all_well_formed(views_of(entries->0@)),
{
    let rows = read_rows(text);
    entries_from_rows(&rows)
}

impl Clone for Entry {
    fn clone(&self) -> (copy: Entry)
        ensures
            copy@ == self@,
    {
        Entry {
            gemeindeschluessel: self.gemeindeschluessel.clone(),
            kreisschluessel: self.kreisschluessel.clone(),
            kreisfrei: self.kreisfrei,
            plz: self.plz.clone(),
            ort: self.ort.clone(),
            lat: self.lat.clone(),
            lon: self.lon.clone(),
            kreis: self.kreis.clone(),
            kreis_lat: self.kreis_lat.clone(),
            kreis_lon: self.kreis_lon.clone(),
            bundesland: self.bundesland.clone(),
            deprecated: self.deprecated,
            einwohner: match &self.einwohner {
                Some(s) => Some(s.clone()),
                None => None,
            },
            similarity: self.similarity,
            zip_collision: self.zip_collision,
            primary_zip: self.primary_zip,
        }
    }
}

} // verus!

//! Fuzzy lookup over a gazetteer of German municipalities and postal codes:
//! the entry records, the similarity score of a query against an entry, the
//! detection of postal codes that are split across districts, and the ranking
//! of the entries for a query.

pub mod ags;
pub mod similarity;
pub mod text;
pub mod zips;
pub mod ranking;
pub mod lookup;
pub mod negotiation;

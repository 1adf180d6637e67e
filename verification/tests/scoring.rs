use ags_example::ags::Entry;
use ags_example::similarity::{
    get_similarity, name_needle, parse_structured, similarity_for, structured_from_groups,
    NameLikeness,
};
use ags_example::text::normalize_query;

fn place(plz: &str, ort: &str) -> Entry {
    let record: Vec<String> = ["11000000", plz, ort, "", "Berlin", "52.5", "13.4", "52.5", "13.4", "0"]
        .iter()
        .map(|f| f.to_string())
        .collect();
    Entry::from_record(&record)
}

fn likeness_to(query: &str, entry: &Entry) -> NameLikeness {
    let needle = name_needle(query);
    let similarity = strsim::jaro_winkler(&needle, &entry.ort.to_lowercase());
    NameLikeness { percent: (100.0 * similarity) as u8, close: similarity >= 0.85 }
}

fn score(query: &str, entry: &Entry) -> u8 {
    get_similarity(query, entry, likeness_to(query, entry))
}

#[test]
fn prefix_of_postal_code_scores_full() {
    assert_eq!(score("1011", &place("10115", "Berlin")), 100);
}

#[test]
fn prefix_of_place_name_scores_full() {
    assert_eq!(score("berl", &place("10115", "Berlin")), 100);
}

#[test]
fn prefix_of_code_and_name_scores_full() {
    assert_eq!(score("10115 berlin", &place("10115", "Berlin")), 100);
    assert_eq!(score("10115 be", &place("10115", "Berlin")), 100);
}

#[test]
fn prefix_hit_ignores_the_likeness() {
    let unlike = NameLikeness { percent: 0, close: false };
    assert_eq!(get_similarity("berl", &place("10115", "Berlin"), unlike), 100);
}

#[test]
fn structured_query_with_close_name_scores_full() {
    assert!(strsim::jaro_winkler("berlim", "berlin") >= 0.85);
    assert_eq!(score("10115 berlim", &place("10115", "Berlin")), 100);
}

#[test]
fn structured_query_with_other_code_keeps_the_score() {
    assert_eq!(score("10117 berlim", &place("10115", "Berlin")), 0);
    let carried = place("10115", "Berlin").with_similarity(42);
    assert_eq!(score("10117 berlim", &carried), 42);
}

#[test]
fn structured_query_with_distant_name_keeps_the_score() {
    assert!(strsim::jaro_winkler("hamburg", "berlin") < 0.85);
    assert_eq!(score("10115 hamburg", &place("10115", "Berlin")), 0);
}

#[test]
fn free_text_scores_the_likeness() {
    assert_eq!(score("berlim", &place("10115", "Berlin")), 93);
    assert_eq!(score("xyz", &place("10115", "Berlin")), 0);
}

#[test]
fn free_text_passes_the_percent_through() {
    let entry = place("10115", "Berlin");
    let given = NameLikeness { percent: 57, close: true };
    assert_eq!(get_similarity("bxrlin", &entry, given), 57);
}

#[test]
fn similarity_for_goes_by_the_given_parts() {
    let entry = place("10115", "Berlin");
    let close = NameLikeness { percent: 12, close: true };
    let parts = parse_structured("10115 berlim");
    assert_eq!(similarity_for("10115 berlim", &parts, &entry, close), 100);
    assert_eq!(similarity_for("10115 berlim", &None, &entry, close), 12);
    let far = NameLikeness { percent: 99, close: false };
    assert_eq!(similarity_for("10115 berlim", &parts, &entry, far), 0);
}

#[test]
fn parse_structured_takes_code_and_name() {
    let parts = parse_structured("10115 berlin mitte").expect("structured");
    assert_eq!(parts.plz, "10115");
    assert_eq!(parts.ort, "berlin mitte");
    let spaced = parse_structured("10115 \t  berlin").expect("structured");
    assert_eq!(spaced.plz, "10115");
    assert_eq!(spaced.ort, "berlin");
}

#[test]
fn parse_structured_refuses_other_shapes() {
    assert!(parse_structured("berlin").is_none());
    assert!(parse_structured("1011 berlin").is_none());
    assert!(parse_structured("10115").is_none());
    assert!(parse_structured("10115berlin").is_none());
    assert!(parse_structured("x10115 berlin").is_none());
    assert!(parse_structured("").is_none());
}

#[test]
fn structured_from_groups_wants_four_groups() {
    let some = |s: &str| Some(s.to_string());
    let groups = Some(vec![some("10115 b"), some("10115"), some(" "), some("b")]);
    let parts = structured_from_groups(&groups).expect("four groups");
    assert_eq!(parts.plz, "10115");
    assert_eq!(parts.ort, "b");
    assert!(structured_from_groups(&Some(vec![some("a"), some("b")])).is_none());
    assert!(structured_from_groups(&Some(vec![some("a"), None, some("c"), some("d")])).is_none());
    assert!(structured_from_groups(&None).is_none());
}

#[test]
fn name_needle_is_the_name_part_or_the_query() {
    assert_eq!(name_needle("10115 berlim"), "berlim");
    assert_eq!(name_needle("berlim"), "berlim");
    assert_eq!(name_needle("1011 berlim"), "1011 berlim");
}

#[test]
fn normalize_query_trims_and_lowercases() {
    assert_eq!(normalize_query("  BerLin \n"), "berlin");
    assert_eq!(normalize_query("ÄÖÜ"), "äöü");
    assert_eq!(normalize_query(" \t "), "");
    assert_eq!(normalize_query(""), "");
}

#[test]
fn place_name_is_compared_in_lowercase() {
    assert_eq!(score("münc", &place("80331", "MÜNCHEN")), 100);
    assert_eq!(score("80331 mün", &place("80331", "München")), 100);
}

#[test]
fn score_stays_within_a_hundred() {
    let entry = place("10115", "Berlin");
    for query in ["b", "berlin", "10115 berlin", "99999 berlin", "nowhere", "1"] {
        assert!(score(query, &entry) <= 100);
    }
}

use ags_example::ags::Entry;
use ags_example::zips::{
    ambiguous_zips, bucket_label, check_postal_codes, contains_text,
    find_counties_multiple_assigned_zips, find_multiple_assigned_zips, group_by_first_digit,
    is_ambiguous, is_split, leading_characters, occurs_in_scope, scope_text, texts_led_by,
};

fn located(code: &str, plz: &str) -> Entry {
    let record: Vec<String> = [code, plz, "Ort", "Kreis", "Land", "1", "2", "3", "4", "0"]
        .iter()
        .map(|f| f.to_string())
        .collect();
    Entry::from_record(&record)
}

fn texts(items: &[&str]) -> Vec<String> {
    items.iter().map(|t| t.to_string()).collect()
}

fn shared_zip() -> Vec<Entry> {
    vec![
        located("01001000", "99999"),
        located("01001001", "99999"),
        located("02002000", "99999"),
    ]
}

fn mixed() -> Vec<Entry> {
    vec![
        located("01001000", "24937"),
        located("03101000", "38100"),
        located("01002000", "24937"),
        located("03102000", "38100"),
        located("03102001", "31000"),
        located("03103000", "31000"),
        located("05111000", "40210"),
        located("05111001", "40210"),
        located("01003000", "10000"),
        located("05112000", "10000"),
    ]
}

#[test]
fn shared_zip_names_both_districts() {
    let districts = find_counties_multiple_assigned_zips(&shared_zip(), "");
    assert_eq!(districts.len(), 2);
    assert!(districts.contains(&"01001".to_string()));
    assert!(districts.contains(&"02002".to_string()));
}

#[test]
fn shared_zip_stands_under_its_first_digit() {
    let groups = find_multiple_assigned_zips(&shared_zip(), "");
    assert_eq!(groups.len(), 1);
    assert_eq!(groups[0].label, "9...");
    assert_eq!(groups[0].lead, '9');
    assert_eq!(groups[0].zips, texts(&["99999"]));
}

#[test]
fn one_district_is_not_ambiguous() {
    let entries = vec![located("01001000", "99999"), located("01001001", "99999")];
    assert!(find_multiple_assigned_zips(&entries, "").is_empty());
    assert!(find_counties_multiple_assigned_zips(&entries, "").is_empty());
    assert!(ambiguous_zips(&entries, "").is_empty());
}

#[test]
fn groups_come_in_ascending_order() {
    let groups = find_multiple_assigned_zips(&mixed(), "");
    let labels: Vec<&str> = groups.iter().map(|g| g.label.as_str()).collect();
    assert_eq!(labels, vec!["1...", "2...", "3..."]);
    assert_eq!(groups[0].zips, texts(&["10000"]));
    assert_eq!(groups[1].zips, texts(&["24937"]));
    assert_eq!(groups[2].zips, texts(&["38100", "31000"]));
}

#[test]
fn state_filter_keeps_codes_that_occur_in_the_state() {
    let groups = find_multiple_assigned_zips(&mixed(), "01");
    let labels: Vec<&str> = groups.iter().map(|g| g.label.as_str()).collect();
    assert_eq!(labels, vec!["1...", "2..."]);
    let lower_saxony = find_multiple_assigned_zips(&mixed(), "03");
    assert_eq!(lower_saxony.len(), 1);
    assert_eq!(lower_saxony[0].zips, texts(&["38100", "31000"]));
}

#[test]
fn state_filter_is_cut_to_two_characters() {
    let cut = ambiguous_zips(&mixed(), "01999");
    assert_eq!(cut, ambiguous_zips(&mixed(), "01"));
    assert_eq!(scope_text("01999"), "01");
    assert_eq!(scope_text("01"), "01");
    assert_eq!(scope_text("0"), "0");
    assert_eq!(scope_text(""), "");
    assert_eq!(scope_text("äöü"), "äö");
}

#[test]
fn short_state_filter_matches_by_prefix() {
    let zips = ambiguous_zips(&mixed(), "0");
    assert_eq!(zips, texts(&["24937", "38100", "31000", "10000"]));
    assert!(ambiguous_zips(&mixed(), "9").is_empty());
}

#[test]
fn ambiguity_is_judged_over_the_whole_gazetteer() {
    let zips = ambiguous_zips(&mixed(), "05");
    assert_eq!(zips, texts(&["10000"]));
    let districts = find_counties_multiple_assigned_zips(&mixed(), "05");
    assert_eq!(districts, texts(&["01003", "05112"]));
}

#[test]
fn districts_are_listed_once() {
    let districts = find_counties_multiple_assigned_zips(&mixed(), "");
    assert_eq!(districts, texts(&["01001", "03101", "01002", "03102", "03103", "01003", "05112"]));
}

#[test]
fn ambiguous_zips_are_listed_once() {
    assert_eq!(ambiguous_zips(&shared_zip(), ""), texts(&["99999"]));
    assert_eq!(ambiguous_zips(&mixed(), ""), texts(&["24937", "38100", "31000", "10000"]));
}

#[test]
fn is_split_needs_two_districts() {
    assert!(is_split(&mixed(), &"24937".to_string()));
    assert!(!is_split(&mixed(), &"40210".to_string()));
    assert!(!is_split(&mixed(), &"00000".to_string()));
    assert!(!is_split(&Vec::new(), &"24937".to_string()));
}

#[test]
fn occurs_in_scope_goes_by_the_municipality_code() {
    assert!(occurs_in_scope(&mixed(), "01", &"24937".to_string()));
    assert!(!occurs_in_scope(&mixed(), "03", &"24937".to_string()));
    assert!(occurs_in_scope(&mixed(), "", &"40210".to_string()));
    assert!(!occurs_in_scope(&mixed(), "", &"4021".to_string()));
}

#[test]
fn is_ambiguous_joins_both_conditions() {
    assert!(is_ambiguous(&mixed(), "01", &"10000".to_string()));
    assert!(is_ambiguous(&mixed(), "0512", &"10000".to_string()));
    assert!(!is_ambiguous(&mixed(), "03", &"10000".to_string()));
    assert!(!is_ambiguous(&mixed(), "05", &"40210".to_string()));
}

#[test]
fn contains_text_compares_whole_texts() {
    let list = texts(&["abc", "de"]);
    assert!(contains_text(&list, &"de".to_string()));
    assert!(!contains_text(&list, &"d".to_string()));
    assert!(!contains_text(&Vec::new(), &"".to_string()));
}

#[test]
fn leading_characters_are_sorted_and_distinct() {
    let leads = leading_characters(&texts(&["31", "10", "39", "ä1", "12", "05"]));
    assert_eq!(leads, vec!['0', '1', '3', 'ä']);
    assert!(leading_characters(&Vec::new()).is_empty());
}

#[test]
fn texts_led_by_keeps_the_order() {
    let list = texts(&["31", "10", "39", "", "3"]);
    assert_eq!(texts_led_by(&list, '3'), texts(&["31", "39", "3"]));
    assert!(texts_led_by(&list, '7').is_empty());
}

#[test]
fn bucket_label_is_first_character_and_dots() {
    assert_eq!(bucket_label("99999"), "9...");
    assert_eq!(bucket_label("ä"), "ä...");
}

#[test]
fn group_by_first_digit_makes_one_bucket_per_character() {
    let groups = group_by_first_digit(&texts(&["31000", "10000", "38100"]));
    assert_eq!(groups.len(), 2);
    assert_eq!(groups[0].label, "1...");
    assert_eq!(groups[0].zips, texts(&["10000"]));
    assert_eq!(groups[1].label, "3...");
    assert_eq!(groups[1].zips, texts(&["31000", "38100"]));
}

#[test]
fn check_postal_codes_finds_an_empty_code() {
    assert!(check_postal_codes(&mixed()));
    let mut entries = mixed();
    entries.push(located("01001000", ""));
    assert!(!check_postal_codes(&entries));
}

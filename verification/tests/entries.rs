use ags_example::ags::{all_entries, check_record, entries_from_rows, Entry};

fn row(fields: &[&str]) -> Vec<String> {
    fields.iter().map(|f| f.to_string()).collect()
}

fn flensburg_row() -> Vec<String> {
    row(&[
        "01001000", "24937", "Flensburg", "", "Schleswig-Holstein", "54.78", "9.43", "54.79",
        "9.44", "0", "92550", "1",
    ])
}

#[test]
fn from_record_reads_every_field() {
    let entry = Entry::from_record(&flensburg_row());
    assert_eq!(entry.gemeindeschluessel, "01001000");
    assert_eq!(entry.kreisschluessel, "01001");
    assert!(entry.kreisfrei);
    assert_eq!(entry.plz, "24937");
    assert_eq!(entry.ort, "Flensburg");
    assert_eq!(entry.kreis, "");
    assert_eq!(entry.bundesland, "Schleswig-Holstein");
    assert_eq!(entry.lat, "54.78");
    assert_eq!(entry.lon, "9.43");
    assert_eq!(entry.kreis_lat, "54.79");
    assert_eq!(entry.kreis_lon, "9.44");
    assert!(!entry.deprecated);
    assert_eq!(entry.einwohner, Some("92550".to_string()));
    assert_eq!(entry.similarity, 0);
    assert!(!entry.zip_collision);
    assert!(entry.primary_zip);
}

#[test]
fn from_record_derives_district_from_code() {
    let entry = Entry::from_record(&row(&[
        "09162123", "80331", "München", "Kreis", "Bayern", "1", "2", "3", "4",
    ]));
    assert_eq!(entry.gemeindeschluessel.chars().count(), 8);
    assert_eq!(entry.kreisschluessel, "09162");
    assert!(!entry.kreisfrei);
    assert_eq!(entry.get_state_id(), "09");
}

#[test]
fn from_record_defaults_for_missing_fields() {
    let entry = Entry::from_record(&row(&[
        "09162000", "80331", "München", "", "Bayern", "1", "2", "3", "4",
    ]));
    assert!(entry.deprecated);
    assert_eq!(entry.einwohner, None);
    assert!(!entry.primary_zip);
    assert!(entry.kreisfrei);
}

#[test]
fn from_record_empty_population_is_unknown() {
    let entry = Entry::from_record(&row(&[
        "09162000", "80331", "München", "", "Bayern", "1", "2", "3", "4", "1", "", "0",
    ]));
    assert!(entry.deprecated);
    assert_eq!(entry.einwohner, None);
    assert!(!entry.primary_zip);
}

#[test]
fn from_record_flag_must_be_exactly_one() {
    let entry = Entry::from_record(&row(&[
        "09162000", "80331", "München", "", "Bayern", "1", "2", "3", "4", "11", "7", "10",
    ]));
    assert!(!entry.deprecated);
    assert!(!entry.primary_zip);
    assert_eq!(entry.einwohner, Some("7".to_string()));
}

#[test]
fn check_record_wants_nine_fields_and_an_eight_character_code() {
    assert!(check_record(&flensburg_row()));
    assert!(!check_record(&row(&["01001000", "24937", "Flensburg"])));
    assert!(!check_record(&row(&["0100100", "2", "3", "4", "5", "6", "7", "8", "9"])));
    assert!(!check_record(&row(&["010010000", "2", "3", "4", "5", "6", "7", "8", "9"])));
    assert!(check_record(&row(&["0100100ä", "2", "3", "4", "5", "6", "7", "8", "9"])));
}

#[test]
fn with_similarity_changes_only_the_similarity() {
    let entry = Entry::from_record(&flensburg_row()).with_similarity(97);
    assert_eq!(entry.similarity, 97);
    assert_eq!(entry.plz, "24937");
    assert!(!entry.zip_collision);
}

#[test]
fn with_zip_collision_changes_only_the_flag() {
    let entry = Entry::from_record(&flensburg_row()).with_similarity(5).with_zip_collision(true);
    assert!(entry.zip_collision);
    assert_eq!(entry.similarity, 5);
    assert_eq!(entry.ort, "Flensburg");
}

#[test]
fn get_state_id_is_the_first_two_characters() {
    let entry = Entry::from_record(&flensburg_row());
    assert_eq!(entry.get_state_id(), "01");
    let mut short = entry.clone();
    short.kreisschluessel = "7".to_string();
    assert_eq!(short.get_state_id(), "7");
}

#[test]
fn clone_keeps_every_field() {
    let entry = Entry::from_record(&flensburg_row()).with_similarity(91);
    let copy = entry.clone();
    assert_eq!(copy.gemeindeschluessel, entry.gemeindeschluessel);
    assert_eq!(copy.einwohner, entry.einwohner);
    assert_eq!(copy.similarity, 91);
    assert_eq!(copy.primary_zip, entry.primary_zip);
}

#[test]
fn all_entries_skips_the_header_row() {
    let text = "ags,plz,ort,kreis,land,lat,lon,klat,klon,dep,ew,prim\n\
                01001000,24937,Flensburg,,Schleswig-Holstein,54.78,9.43,54.79,9.44,0,92550,1\n\
                09162000,80331,\"München, Stadt\",,Bayern,48.1,11.5,48.1,11.5,1,,0\n";
    let entries = all_entries(text).expect("every row is valid");
    assert_eq!(entries.len(), 2);
    assert_eq!(entries[0].ort, "Flensburg");
    assert!(!entries[0].deprecated);
    assert_eq!(entries[1].ort, "München, Stadt");
    assert_eq!(entries[1].kreisschluessel, "09162");
    assert!(entries[1].deprecated);
    assert_eq!(entries[1].einwohner, None);
}

#[test]
fn all_entries_refuses_a_short_code() {
    let text = "ags,plz,ort,kreis,land,lat,lon,klat,klon\n\
                0100,24937,Flensburg,,Schleswig-Holstein,54.78,9.43,54.79,9.44\n";
    assert!(all_entries(text).is_none());
}

#[test]
fn all_entries_of_a_header_alone_is_empty() {
    let entries = all_entries("ags,plz,ort\n").expect("no row, no fault");
    assert!(entries.is_empty());
}

#[test]
fn entries_from_rows_keeps_the_order() {
    let rows = vec![
        row(&["02000000", "20095", "Hamburg", "", "Hamburg", "1", "2", "3", "4"]),
        flensburg_row(),
    ];
    let entries = entries_from_rows(&rows).expect("both rows are valid");
    assert_eq!(entries[0].ort, "Hamburg");
    assert_eq!(entries[1].ort, "Flensburg");
    let bad = vec![flensburg_row(), row(&["x"])];
    assert!(entries_from_rows(&bad).is_none());
}

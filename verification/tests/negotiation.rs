use ags_example::negotiation::{
    get_mimetype, negotiate, same_text, wants_multiple_assigned, Format,
};

#[test]
fn no_accept_header_gives_a_page() {
    assert_eq!(negotiate(None, None), Format::Html);
    assert_eq!(negotiate(None, Some("json")), Format::Html);
}

#[test]
fn json_accept_header_gives_json() {
    assert_eq!(negotiate(Some("application/json"), None), Format::Json);
    assert_eq!(negotiate(Some("application/json"), Some("html")), Format::Json);
}

#[test]
fn format_parameter_gives_json_beside_another_accept_header() {
    assert_eq!(negotiate(Some("text/html"), Some("json")), Format::Json);
    assert_eq!(negotiate(Some(""), Some("json")), Format::Json);
    assert_eq!(negotiate(Some("text/html"), Some("JSON")), Format::Html);
    assert_eq!(negotiate(Some("text/html"), None), Format::Html);
    assert_eq!(negotiate(Some("application/json, text/html"), None), Format::Html);
}

#[test]
fn multiple_assigned_flag_must_be_one() {
    assert!(wants_multiple_assigned(Some("1")));
    assert!(!wants_multiple_assigned(Some("0")));
    assert!(!wants_multiple_assigned(Some("11")));
    assert!(!wants_multiple_assigned(Some("")));
    assert!(!wants_multiple_assigned(None));
}

#[test]
fn mimetype_is_known_for_styles_and_scripts() {
    assert_eq!(get_mimetype(Some("css")), Some("text/css"));
    assert_eq!(get_mimetype(Some("js")), Some("application/javascript"));
    assert_eq!(get_mimetype(Some("png")), None);
    assert_eq!(get_mimetype(Some("")), None);
    assert_eq!(get_mimetype(None), None);
}

#[test]
fn same_text_compares_character_by_character() {
    assert!(same_text("", ""));
    assert!(same_text("äb", "äb"));
    assert!(!same_text("ab", "abc"));
    assert!(!same_text("ab", "aB"));
}

//! What a request asks for: the form of the answer, the listing of ambiguous
//! postal codes, and the content type of an asset.

use vstd::prelude::*;
use vstd::string::*;

verus! {

/// The form of an answer.
#[derive(Clone, Copy, Debug, PartialEq, Eq, Structural)]
pub enum Format {
    Html,
    Json,
}

/// Tells whether two texts are the same.
pub fn same_text(left: &str, right: &str) -> (same: bool)
    ensures
        same == (left@ == right@),
{
    left.to_owned() == right.to_owned()
}

/// The form that a request asks for. Without an `Accept` header the answer is
/// a page. With one, the answer is JSON where the header is exactly
/// `application/json` or the `format` parameter is `json`, and a page
/// otherwise.
pub open spec fn format_of(accept: Option<Seq<char>>, format: Option<Seq<char>>) -> Format {
    match accept {
        Some(header) => if header == "application/json"@ || format == Some("json"@) {
            Format::Json
        } else {
            Format::Html
        },
        None => Format::Html,
    }
}

/// The view of an optional text.
pub open spec fn text_view(text: Option<&str>) -> Option<Seq<char>> {
    match text {
        Some(t) => Some(t@),
        None => None,
    }
}

/// Chooses the form of the answer from the `Accept` header and the `format`
/// parameter of a request.
pub fn negotiate(accept: Option<&str>, format: Option<&str>) -> (form: Format)
    ensures
        form == format_of(text_view(accept), text_view(format)),
{
    match accept {
        Some(header) => {
            if same_text(header, "application/json") {
                Format::Json
            } else {
                match format {
                    Some(name) => if same_text(name, "json") {
                        Format::Json
                    } else {
                        Format::Html
                    },
                    None => Format::Html,
                }
            }
        },
        None => Format::Html,
    }
}

/// Tells whether a request asks for the ambiguous postal codes: its `ma`
/// parameter is `1`.
pub fn wants_multiple_assigned(flag: Option<&str>) -> (wanted: bool)
    ensures
        wanted == (text_view(flag) == Some("1"@)),
{
    match flag {
        Some(value) => same_text(value, "1"),
        None => false,
    }
}

/// The content type of a file extension: known for `css` and `js` only.
pub open spec fn mimetype_of(extension: Option<Seq<char>>) -> Option<Seq<char>> {
    if extension == Some("css"@) {
        Some("text/css"@)
    } else if extension == Some("js"@) {
        Some("application/javascript"@)
    } else {
        None
    }
}

/// The content type with which an asset of a given file extension is served.
pub fn get_mimetype(extension: Option<&str>) -> (mime: Option<&'static str>)
    ensures
        text_view(mime) == mimetype_of(text_view(extension)),
{
    match extension {
        Some(name) => {
            if same_text(name, "css") {
                Some("text/css")
            } else if same_text(name, "js") {
                Some("application/javascript")
            } else {
                None
            }
        },
        None => None,
    }
}

} // verus!

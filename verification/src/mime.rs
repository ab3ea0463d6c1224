//! Media types by file extension.

use vstd::prelude::*;
use crate::text::{chars_of, copy_range, last_index_of, last_position, spells, string_of};

verus! {

/// The lower case form of a text, as `str::to_lowercase` gives it.
pub uninterp spec fn lowercase(text: Seq<char>) -> Seq<char>;

/// `str::to_lowercase` gives the lower case form of the text, which is a
/// function of the text alone.
pub assume_specification[ str::to_lowercase ](text: &str) -> (lower: String)
    ensures
        lower@ == lowercase(text@),
;

/// The extension of a file name: what follows its last full stop, or the
/// whole name where it has none.
pub open spec fn extension(filename: Seq<char>) -> Seq<char> {
    filename.skip(last_index_of(filename, '.') + 1)
}

/// The media type of an extension in lower case.
pub open spec fn mime_of(extension: Seq<char>) -> Seq<char> {
    if extension == "css"@ {
        "text/css"@
    } else if extension == "html"@ {
        "text/html"@
    } else if extension == "htm"@ {
        "text/html"@
    } else if extension == "jpeg"@ {
        "image/jpeg"@
    } else if extension == "jpg"@ {
        "image/jpg"@
    } else if extension == "js"@ {
        "application/javascript"@
    } else if extension == "json"@ {
        "application/json"@
    } else if extension == "png"@ {
        "image/png"@
    } else {
        "application/octet-stream"@
    }
}

/// The media type of an extension in lower case; that of arbitrary bytes
/// for an extension that is not known.
pub fn from_extension(extension: &str) -> (mime: String)
    ensures
        mime@ == mime_of(extension@),
{
    let chars = chars_of(extension);
    let name = if spells(&chars, "css") {
        "text/css"
    } else if spells(&chars, "html") {
        "text/html"
    } else if spells(&chars, "htm") {
        "text/html"
    } else if spells(&chars, "jpeg") {
        "image/jpeg"
    } else if spells(&chars, "jpg") {
        "image/jpg"
    } else if spells(&chars, "js") {
        "application/javascript"
    } else if spells(&chars, "json") {
        "application/json"
    } else if spells(&chars, "png") {
        "image/png"
    } else {
        "application/octet-stream"
    };
    string_of(&chars_of(name))
}

/// The media type of a file by the extension of its name, whatever the case
/// of its letters.
pub fn from_filename(filename: &str) -> (mime: String)
    ensures
        mime@ == mime_of(lowercase(extension(filename@))),
{
    let chars = chars_of(filename);
    let from: usize = match last_position(&chars, '.') {
        Some(i) => i + 1,
        None => 0,
    };
    let extension = string_of(&copy_range(&chars, from, chars.len()));
    let lower = extension.as_str().to_lowercase();
    from_extension(lower.as_str())
}

} // verus!

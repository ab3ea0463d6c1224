//! The responder that serves files of text: it reads the request itself
//! and answers with the file as text, with its type, its length and the
//! date of its last change.

use vstd::prelude::*;
use vstd::utf8::{decode_utf8, valid_utf8};
use crate::application_layer::http::request;
use crate::application_layer::http::scan::{parse, MessageView};
use crate::application_layer::http::syntax::protocol_text;
use crate::decimal::{decimal, decimal_of};
use crate::mime;
use crate::response::tcp::http::filesystem;
use crate::response::tcp::http::filesystem::{
    first_question, open_error, read_error, requested_path, rfc7231_text, text_of, with_header,
    ContentView, FactsView, FileContent, FileFacts, Resolution, ResolutionView, Timestamp,
};
use crate::text::{append_chars, chars_of, decode, string_of};
use crate::text_map::TextMap;
use crate::transport_protocol::http::response::{response_text, Message, TextResponseView};
use crate::Config;

verus! {

/// The responder that serves files of text.
#[derive(Debug)]
pub struct Responder {
    pub filename: Option<String>,
    pub request_message: Option<request::Message>,
}

/// The headers of a file of text: its type, its length where that is known,
/// and with the length the date of its last change, where that is known and
/// can be written.
pub open spec fn text_file_headers(filename: Seq<char>, facts: FactsView) -> Map<
    Seq<char>,
    Seq<char>,
> {
    let typed = Map::<Seq<char>, Seq<char>>::empty().insert(
        "Content-Type"@,
        mime::mime_of(mime::lowercase(mime::extension(filename))),
    );
    match (facts.length, facts.modified) {
        (Some(length), Some(modified)) => with_header(
            typed.insert("Content-Length"@, decimal(length as nat)),
            "Last-Modified"@,
            rfc7231_text(modified.seconds as int, modified.nanoseconds as int),
        ),
        (Some(length), None) => typed.insert("Content-Length"@, decimal(length as nat)),
        _ => typed,
    }
}

/// The response that a file of text makes to a request: `200 OK` with the
/// text of the file. A file that could not be opened or read makes an
/// error, and so does one that is not valid UTF-8.
pub open spec fn text_file_response(filename: Seq<char>, request: MessageView, facts: FactsView)
    -> Result<TextResponseView, Seq<char>> {
    match facts.content {
        ContentView::Unopened(why) => Err(open_error(filename, why)),
        ContentView::Unread(why) => Err(read_error(filename, why)),
        ContentView::Read(bytes) => if valid_utf8(bytes) {
            Ok(
                TextResponseView {
                    protocol: protocol_text(request.request_line.protocol),
                    status: "200 OK"@,
                    headers: text_file_headers(filename, facts),
                    body: decode_utf8(bytes),
                },
            )
        } else {
            Err(read_error(filename, "the content is not text in UTF-8"@))
        },
    }
}

/// The error of a file that could not be opened, read or taken as text.
fn file_error(start: &str, filename: &String, why: &str) -> (text: String)
    ensures
        text@ == start@ + filename@ + ", error: "@ + why@,
{
    let mut text = chars_of(start);
    append_chars(&mut text, &chars_of(filename.as_str()));
    append_chars(&mut text, &chars_of(", error: "));
    append_chars(&mut text, &chars_of(why));
    string_of(&text)
}

impl Responder {
    /// A responder that has read no request and found no file.
    pub fn new() -> (responder: Responder)
        ensures
            responder.filename is None,
            responder.request_message is None,
    {
        Responder { filename: None, request_message: None }
    }

    /// The date of a point in time in the form
    /// `Sun, 06 Nov 1994 08:49:37 GMT`.
    pub fn get_metadata_modified_as_rfc7231(modified: Timestamp) -> (text: Option<String>)
        ensures
            text_of(text) == rfc7231_text(modified.seconds as int, modified.nanoseconds as int),
    {
        filesystem::Responder::get_metadata_modified_as_rfc7231(modified)
    }

    /// Reads the request and gives the first question in the search for
    /// its file; bytes that hold no request name no file.
    pub fn get_matching_filename(&mut self, request: &[u8], config: &Config) -> (state: Resolution)
        ensures
            match parse(request@) {
                Some(message) => state@ == ResolutionView::Canonicalize(
                    requested_path(config.filesystem_root@, message.request_line.request_uri_base),
                ) && final(self).request_message is Some && final(self).request_message->0@
                    == message,
                None => state@ is NotFound && final(self).request_message == old(
                    self,
                ).request_message,
            },
            final(self).filename == old(self).filename,
    {
        match request::Message::from_tcp_stream(request) {
            Some(message) => {
                let state = first_question(&message, config);
                self.request_message = Some(message);
                state
            },
            None => Resolution::NotFound,
        }
    }

    /// Whether the search found a file; the responder then keeps its name.
    pub fn matches(&mut self, _request: &[u8], _config: &Config, resolution: Resolution) -> (b: bool)
        ensures
            b == (resolution@ is Found),
            b ==> text_of(final(self).filename) == Some(resolution@->Found_0),
            !b ==> final(self).filename == old(self).filename,
            final(self).request_message == old(self).request_message,
    {
        match resolution {
            Resolution::Found(filename) => {
                self.filename = Some(filename);
                true
            },
            _ => false,
        }
    }

    /// The response of a file of text to a request.
    pub fn get_response(filename: &String, request_message: &request::Message, file: FileFacts) -> (r:
        Result<Message, String>)
        ensures
            match r {
                Ok(message) => text_file_response(filename@, request_message@, file@) == Ok::<
                    TextResponseView,
                    Seq<char>,
                >(message@) && message.headers.distinct(),
                Err(text) => text_file_response(filename@, request_message@, file@) == Err::<
                    TextResponseView,
                    Seq<char>,
                >(text@),
            },
    {
        let FileFacts { content, length, modified } = file;
        let bytes = match content {
            FileContent::Read(bytes) => bytes,
            FileContent::Unopened(why) => {
                return Err(file_error("Error: Failed to open file ", filename, why.as_str()));
            },
            FileContent::Unread(why) => {
                return Err(file_error("Error: Failed to read file ", filename, why.as_str()));
            },
        };
        let body = match decode(bytes.as_slice()) {
            Some(text) => string_of(&text),
            None => {
                return Err(
                    file_error(
                        "Error: Failed to read file ",
                        filename,
                        "the content is not text in UTF-8",
                    ),
                );
            },
        };
        let protocol = request::Message::get_protocol_text(&request_message.request_line.protocol);
        let mut headers: TextMap<String> = TextMap::new();
        headers.insert("Content-Type".to_string(), mime::from_filename(filename.as_str()));
        if let Some(size) = length {
            headers.insert("Content-Length".to_string(), decimal_of(size));
            if let Some(last_modified) = modified {
                match Responder::get_metadata_modified_as_rfc7231(last_modified) {
                    Some(text) => {
                        headers.insert("Last-Modified".to_string(), text);
                    },
                    None => {},
                }
            }
        }
        Ok(Message::new(protocol, "200 OK".to_string(), headers, body))
    }

    /// The text of the response of the file that the responder has found.
    pub fn respond(&self, _request: &[u8], _config: &Config, file: FileFacts) -> (r: Result<
        String,
        String,
    >)
        ensures
            match (self.filename, self.request_message) {
                (Some(filename), Some(message)) => match r {
                    Ok(text) => text_file_response(filename@, message@, file@) is Ok && text@
                        == response_text(text_file_response(filename@, message@, file@)->Ok_0),
                    Err(text) => text_file_response(filename@, message@, file@) == Err::<
                        TextResponseView,
                        Seq<char>,
                    >(text@),
                },
                _ => r matches Err(text) && text@ == "Error: Filename missing"@,
            },
    {
        match (&self.filename, &self.request_message) {
            (Some(filename), Some(message)) => {
                match Responder::get_response(filename, message, file) {
                    Ok(response) => Ok(response.to_string()),
                    Err(text) => Err(text),
                }
            },
            _ => Err("Error: Filename missing".to_string()),
        }
    }
}

} // verus!

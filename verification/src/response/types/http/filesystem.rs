//! The responder that serves files, for callers that hold the settings
//! alone and send the bytes of the response themselves.

use vstd::prelude::*;
use crate::application_layer::http::request;
use crate::application_layer::http::response;
use crate::application_layer::http::response::{response_bytes, ResponseView};
use crate::response::tcp::http::filesystem;
use crate::response::tcp::http::filesystem::{
    answers, etag_of, file_response, first_question, next_question, requested_path, resolve,
    respond_with_file, rfc7231_text, text_of, FileFacts, Finding, Resolution, ResolutionView,
    Timestamp,
};
use crate::Config;

verus! {

/// The responder that serves files.
#[derive(Debug)]
pub struct Responder {
    pub filename: Option<String>,
}

/// Whether `r` holds the bytes of the response, or the error, that
/// `expected` says.
pub open spec fn sends(r: Result<Vec<u8>, String>, expected: Result<ResponseView, Seq<char>>) -> bool {
    match r {
        Ok(bytes) => expected is Ok && bytes@ == response_bytes(expected->Ok_0),
        Err(text) => expected == Err::<ResponseView, Seq<char>>(text@),
    }
}

/// The bytes of a response, or its error.
pub fn send(r: Result<response::Message, String>) -> (sent: Result<Vec<u8>, String>)
    ensures
        match r {
            Ok(message) => sent matches Ok(bytes) && bytes@ == response_bytes(message@),
            Err(text) => sent == Err::<Vec<u8>, String>(text),
        },
{
    match r {
        Ok(message) => {
            let mut message = message;
            Ok(message.to_bytes())
        },
        Err(text) => Err(text),
    }
}

impl Responder {
    /// The date of a point in time in the form
    /// `Sun, 06 Nov 1994 08:49:37 GMT`.
    pub fn get_metadata_modified_as_rfc7231(modified: Timestamp) -> (text: Option<String>)
        ensures
            text_of(text) == rfc7231_text(modified.seconds as int, modified.nanoseconds as int),
    {
        filesystem::Responder::get_metadata_modified_as_rfc7231(modified)
    }

    /// The entity tag of a file last changed at `data`.
    pub fn get_modified_hash(data: &Timestamp) -> (tag: String)
        ensures
            tag@ == etag_of(*data),
    {
        filesystem::Responder::get_modified_hash(data)
    }

    /// A responder that has found no file yet.
    pub fn new() -> (responder: Responder)
        ensures
            responder.filename is None,
    {
        Responder { filename: None }
    }

    /// For how long a response may be kept.
    pub fn get_cache_control(_config: &Config) -> (text: String)
        ensures
            text@ == "max-age=2592000"@,
    {
        "max-age=2592000".to_string()
    }

    /// The first question in the search for the file of a request: the
    /// canonical form of its path under the root.
    pub fn get_matching_filename(request_message: &request::Message, config: &Config) -> (state:
        Resolution)
        ensures
            state@ == ResolutionView::Canonicalize(
                requested_path(
                    config.filesystem_root@,
                    request_message.request_line.request_uri_base@,
                ),
            ),
    {
        first_question(request_message, config)
    }

    /// The next question in the search, or its answer.
    pub fn resolve(state: Resolution, finding: Finding, config: &Config) -> (next: Resolution)
        ensures
            next@ == resolve(
                state@,
                finding@,
                config.filesystem_root@,
                config.filesystem_directory_index@,
            ),
    {
        next_question(state, finding, config)
    }

    /// Whether the search found a file; the responder then keeps its name.
    pub fn matches(
        &mut self,
        _request_message: &request::Message,
        _config: &Config,
        resolution: Resolution,
    ) -> (b: bool)
        ensures
            b == (resolution@ is Found),
            b ==> text_of(final(self).filename) == Some(resolution@->Found_0),
            !b ==> final(self).filename == old(self).filename,
    {
        match resolution {
            Resolution::Found(filename) => {
                self.filename = Some(filename);
                true
            },
            _ => false,
        }
    }

    /// The response that a file makes to a request.
    pub fn get_response(
        filename: &String,
        request_message: &request::Message,
        _config: &Config,
        file: FileFacts,
    ) -> (r: Result<response::Message, String>)
        ensures
            answers(r, file_response(filename@, request_message@, file@)),
    {
        respond_with_file(filename, request_message, file)
    }

    /// The bytes of the response of the file that the responder has found.
    pub fn respond(&self, request_message: &request::Message, config: &Config, file: FileFacts) -> (r:
        Result<Vec<u8>, String>)
        ensures
            match self.filename {
                Some(filename) => sends(r, file_response(filename@, request_message@, file@)),
                None => r matches Err(text) && text@ == "Error: Filename missing"@,
            },
    {
        match &self.filename {
            Some(filename) => send(Responder::get_response(filename, request_message, config, file)),
            None => Err("Error: Filename missing".to_string()),
        }
    }
}

} // verus!

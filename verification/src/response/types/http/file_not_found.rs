//! The responder that answers with the file that stands for a missing one,
//! for callers that hold the settings alone.

use vstd::prelude::*;
use crate::application_layer::http::request;
use crate::application_layer::http::response;
use crate::response::tcp::http::file_not_found::not_found_response;
use crate::response::tcp::http::filesystem::{
    answers, index_path, respond_with_file, FileFacts,
};
use crate::text::{append_chars, chars_of, string_of};
use crate::Config;
use super::filesystem::{send, sends};

verus! {

/// The responder that answers with the file that stands for a missing one.
#[derive(Debug)]
pub struct Responder {
    pub filename: Option<String>,
}

impl Responder {
    /// A responder that has looked for no file yet.
    pub fn new() -> (responder: Responder)
        ensures
            responder.filename is None,
    {
        Responder { filename: None }
    }

    /// The path of the file that stands for a missing one: its name under
    /// the root.
    pub fn get_filename(config: &Config) -> (path: String)
        ensures
            path@ == index_path(config.filesystem_root@, config.file_not_found_file@),
    {
        let mut path = chars_of(config.filesystem_root.as_str());
        path.push('/');
        append_chars(&mut path, &chars_of(config.file_not_found_file.as_str()));
        assert(path@ =~= index_path(config.filesystem_root@, config.file_not_found_file@));
        string_of(&path)
    }

    /// Whether the file that stands for a missing one can be served: it is
    /// there and is no directory. The responder keeps its path either way.
    pub fn matches(
        &mut self,
        _request_message: &request::Message,
        config: &Config,
        exists: bool,
        is_dir: bool,
    ) -> (b: bool)
        ensures
            b == (exists && !is_dir),
            final(self).filename matches Some(path) && path@ == index_path(
                config.filesystem_root@,
                config.file_not_found_file@,
            ),
    {
        self.filename = Some(Responder::get_filename(config));
        exists && !is_dir
    }

    /// The response of the file that stands for a missing one, with the
    /// status `404 File Not Found`.
    pub fn get_response(
        filename: &String,
        request_message: &request::Message,
        _config: &Config,
        file: FileFacts,
    ) -> (r: Result<response::Message, String>)
        ensures
            answers(r, not_found_response(filename@, request_message@, file@)),
    {
        match respond_with_file(filename, request_message, file) {
            Ok(mut response) => {
                response.status = "404 File Not Found".to_string();
                Ok(response)
            },
            Err(text) => Err(text),
        }
    }

    /// The bytes of the response of the file that stands for a missing one,
    /// with the status `404 File Not Found`.
    pub fn respond(&self, request_message: &request::Message, config: &Config, file: FileFacts) -> (r:
        Result<Vec<u8>, String>)
        ensures
            match self.filename {
                Some(filename) => sends(r, not_found_response(filename@, request_message@, file@)),
                None => r matches Err(text) && text@
                    == "Error: File Not Found Filename missing"@,
            },
    {
        match &self.filename {
            Some(filename) => send(
                Responder::get_response(filename, request_message, config, file),
            ),
            None => Err("Error: File Not Found Filename missing".to_string()),
        }
    }
}

} // verus!

//! The responder that answers with the file that stands for a missing one.

use vstd::prelude::*;
use crate::application_layer::http::request;
use crate::application_layer::http::response;
use crate::application_layer::http::response::ResponseView;
use crate::application_layer::http::scan::MessageView;
use crate::text::{append_chars, chars_of, string_of};
use crate::Application;
use super::filesystem;
use super::filesystem::{answers, file_response, index_path, FactsView, FileFacts};

verus! {

/// The responder that answers with the file that stands for a missing one.
#[derive(Clone, Debug)]
pub struct Responder {
    pub filename: Option<String>,
}

/// The response that the file for a missing one makes: that of the file,
/// with the status `404 File Not Found`.
pub open spec fn not_found_response(filename: Seq<char>, request: MessageView, facts: FactsView)
    -> Result<ResponseView, Seq<char>> {
    match file_response(filename, request, facts) {
        Ok(response) => Ok(ResponseView { status: "404 File Not Found"@, ..response }),
        Err(text) => Err(text),
    }
}

impl Responder {
    /// A responder that has looked for no file yet.
    pub fn new() -> (responder: Responder)
        ensures
            responder.filename is None,
    {
        Responder { filename: None }
    }

    /// The path of the file that stands for a missing one: its name under
    /// the root.
    pub fn get_filename(application: &Application) -> (path: String)
        ensures
            path@ == index_path(
                application.config().filesystem_root@,
                application.config().file_not_found_file@,
            ),
    {
        let config = application.get_config();
        let mut path = chars_of(config.filesystem_root.as_str());
        path.push('/');
        append_chars(&mut path, &chars_of(config.file_not_found_file.as_str()));
        assert(path@ =~= index_path(config.filesystem_root@, config.file_not_found_file@));
        string_of(&path)
    }

    /// Whether the file that stands for a missing one can be served: it is
    /// there and is no directory. The responder keeps its path either way.
    pub fn matches(
        &mut self,
        _request_message: &request::Message,
        application: &Application,
        _socket: &str,
        _overflow_bytes: &u64,
        exists: bool,
        is_dir: bool,
    ) -> (b: bool)
        ensures
            b == (exists && !is_dir),
            final(self).filename matches Some(path) && path@ == index_path(
                application.config().filesystem_root@,
                application.config().file_not_found_file@,
            ),
    {
        self.filename = Some(Responder::get_filename(application));
        exists && !is_dir
    }

    /// The response of the file that stands for a missing one, with the
    /// status `404 File Not Found`.
    pub fn respond(
        &self,
        request_message: &request::Message,
        application: &Application,
        _socket: &str,
        _overflow_bytes: &u64,
        file: FileFacts,
    ) -> (r: Result<response::Message, String>)
        ensures
            match self.filename {
                Some(filename) => answers(
                    r,
                    not_found_response(filename@, request_message@, file@),
                ),
                None => r matches Err(text) && text@
                    == "Error: File Not Found Filename missing"@,
            },
    {
        match &self.filename {
            Some(filename) => {
                match filesystem::Responder::get_response(
                    filename,
                    request_message,
                    application,
                    file,
                ) {
                    Ok(mut response) => {
                        response.status = "404 File Not Found".to_string();
                        Ok(response)
                    },
                    Err(text) => Err(text),
                }
            },
            None => Err("Error: File Not Found Filename missing".to_string()),
        }
    }
}

} // verus!

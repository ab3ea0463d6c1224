//! The responder that answers every request with an error, for callers
//! that hold the settings alone.

use vstd::prelude::*;
use crate::application_layer::http::request;
use crate::application_layer::http::response::response_bytes;
use crate::response::tcp::http::error;
use crate::response::tcp::http::error::error_response;
use crate::Config;

verus! {

/// The responder that answers every request with an error.
#[derive(Debug)]
pub struct Responder {
    pub filename: Option<String>,
}

impl Responder {
    /// A responder, which keeps no file.
    pub fn new() -> (responder: Responder)
        ensures
            responder.filename is None,
    {
        Responder { filename: None }
    }

    /// Every request matches.
    pub fn matches(&mut self, _request_message: &request::Message, _config: &Config) -> (b: bool)
        ensures
            b,
            final(self).filename == old(self).filename,
    {
        true
    }

    /// The bytes of the response of status 500, without headers or body.
    pub fn respond(&self, request_message: &request::Message, _config: &Config) -> (r: Result<
        Vec<u8>,
        String,
    >)
        ensures
            r matches Ok(bytes) && bytes@ == response_bytes(error_response(request_message@)),
    {
        let mut response = error::Responder::get_response(request_message);
        Ok(response.to_bytes())
    }
}

} // verus!

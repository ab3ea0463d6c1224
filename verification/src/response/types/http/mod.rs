//! Responses to HTTP requests.

pub mod error;
pub mod file_not_found;
pub mod filesystem;

use vstd::prelude::*;
use crate::application_layer::http;
use crate::application_layer::http::scan::parse;
use crate::Config;

verus! {

/// Reads a request, which responders then answer.
#[derive(Debug)]
pub struct Dispatcher {
    pub request_message: Option<http::request::Message>,
}

impl Dispatcher {
    /// A dispatcher that has read no request yet.
    pub fn new() -> (dispatcher: Dispatcher)
        ensures
            dispatcher.request_message is None,
    {
        Dispatcher { request_message: None }
    }

    /// Whether the bytes hold a request; the dispatcher then keeps it.
    pub fn matches(&mut self, request: &[u8], _config: &Config) -> (b: bool)
        ensures
            b == parse(request@) is Some,
            b ==> (final(self).request_message matches Some(message) && parse(request@) == Some(
                message@,
            )),
            !b ==> final(self).request_message == old(self).request_message,
    {
        match http::request::Message::from_tcp_stream(request) {
            Some(message) => {
                self.request_message = Some(message);
                true
            },
            None => false,
        }
    }
}

} // verus!

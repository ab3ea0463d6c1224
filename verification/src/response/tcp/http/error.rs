//! The responder that answers every request with an error: the last of a
//! chain, so that a request is never left without a response.

use vstd::prelude::*;
use crate::application_layer::http::request;
use crate::application_layer::http::response;
use crate::application_layer::http::response::ResponseView;
use crate::application_layer::http::scan::MessageView;
use crate::application_layer::http::syntax::protocol_text;
use crate::text_map::TextMap;
use crate::Application;
use super::ResponderInterface;

verus! {

/// The responder that answers every request with an error.
#[derive(Clone, Debug)]
pub struct Responder {}

/// The response to a request that nothing else answers.
pub open spec fn error_response(request: MessageView) -> ResponseView {
    ResponseView {
        protocol: protocol_text(request.request_line.protocol),
        status: "500 Internal Server Error"@,
        headers: Map::empty(),
        body: Seq::empty(),
    }
}

impl Responder {
    /// A responder, which keeps nothing.
    pub fn new() -> Responder {
        Responder {  }
    }

    /// The response to a request that nothing else answers: status 500,
    /// no headers and no body.
    pub fn get_response(request_message: &request::Message) -> (message: response::Message)
        ensures
            message@ == error_response(request_message@),
            message.headers.distinct(),
    {
        let protocol = request::Message::get_protocol_text(&request_message.request_line.protocol);
        response::Message::new(
            protocol,
            "500 Internal Server Error".to_string(),
            TextMap::new(),
            Vec::new(),
        )
    }
}

impl ResponderInterface for Responder {
    /// Every request matches.
    fn matches(
        &mut self,
        _request_message: &request::Message,
        _application: &Application,
        _socket: &str,
        _overflow_bytes: &u64,
    ) -> (b: bool)
        ensures
            b,
    {
        true
    }

    /// The response of status 500.
    fn respond(
        &self,
        request_message: &request::Message,
        _application: &Application,
        _socket: &str,
        _overflow_bytes: &u64,
    ) -> (r: Result<response::Message, String>)
        ensures
            r matches Ok(message) && message@ == error_response(request_message@),
    {
        Ok(Responder::get_response(request_message))
    }
}

} // verus!

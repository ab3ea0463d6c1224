//! The HTTP responders and the chain in which they are asked.
//!
//! A responder says whether a request is its to answer, and answers it. A
//! chain of responders is asked in order; the first that matches and gives
//! a response has the last word.

pub mod chain;
pub mod error;
pub mod file_not_found;
pub mod filesystem;

use vstd::prelude::*;
use crate::application_layer::http::request;
use crate::application_layer::http::response;
use crate::application_layer::http::response::{response_bytes, ResponseView};
use crate::application_layer::http::scan::{parse, MessageView};
use crate::application_layer::http::syntax::{value_text, ValueView};
use crate::decimal::{decimal, decimal_of};
use crate::text::{append_chars, chars_of, string_of};
use crate::Application;
use self::chain::{Dispatch, Outcome};

verus! {

/// What a responder does: it says whether a request is its to answer, and
/// may keep what it found for its answer; and it answers.
pub trait ResponderInterface: Send {
    fn matches(
        &mut self,
        request_message: &request::Message,
        application: &Application,
        socket: &str,
        overflow_bytes: &u64,
    ) -> bool;

    fn respond(
        &self,
        request_message: &request::Message,
        application: &Application,
        socket: &str,
        overflow_bytes: &u64,
    ) -> Result<response::Message, String>;
}

/// The text of a header of a request, or the empty text where the request
/// has no such header.
pub open spec fn header_text(headers: Map<Seq<char>, ValueView>, key: Seq<char>) -> Seq<char> {
    if headers.contains_key(key) {
        value_text(headers[key])
    } else {
        Seq::empty()
    }
}

/// The line that records a request and its response: the peer, the URI,
/// the client, the referring page, the status and the length of the body,
/// each in quotes, with commas between.
pub open spec fn access_log(socket: Seq<char>, request: MessageView, response: ResponseView) -> Seq<
    char,
> {
    "HTTP access - \""@ + socket + "\",\""@ + request.request_line.request_uri + "\",\""@
        + header_text(request.headers, "User-Agent"@) + "\",\""@ + header_text(
        request.headers,
        "Referer"@,
    ) + "\",\""@ + response.status + "\",\""@ + decimal(response.body.len()) + "\""@
}

/// Whether `sent` holds the bytes of the response and the line that records
/// it.
pub open spec fn answered(
    sent: (Vec<u8>, String),
    socket: Seq<char>,
    request: MessageView,
    response: ResponseView,
) -> bool {
    sent.0@ == response_bytes(response) && sent.1@ == access_log(socket, request, response)
}

/// Whether `sent` holds the bytes of some response and the line that
/// records it.
pub open spec fn delivered(sent: (Vec<u8>, String), socket: Seq<char>, request: MessageView) -> bool {
    exists|response: ResponseView| #[trigger] answered(sent, socket, request, response)
}

/// The error of a chain in which no responder answers.
pub open spec fn no_responder() -> Seq<char> {
    "Found no matching HTTP responder"@
}

/// Reads a request and has a chain of responders answer it.
#[derive(Debug)]
pub struct Dispatcher {
    pub request_message: Option<request::Message>,
}

impl Dispatcher {
    /// A dispatcher that has read no request yet.
    pub fn new() -> (dispatcher: Dispatcher)
        ensures
            dispatcher.request_message is None,
    {
        Dispatcher { request_message: None }
    }

    /// Whether the bytes hold a request; the dispatcher then keeps it.
    pub fn matches(
        &mut self,
        request: &[u8],
        _application: &Application,
        _socket: &str,
        _overflow_bytes: &u64,
    ) -> (b: bool)
        ensures
            b == parse(request@) is Some,
            b ==> (final(self).request_message matches Some(message) && parse(request@) == Some(
                message@,
            )),
            !b ==> final(self).request_message == old(self).request_message,
    {
        match request::Message::from_tcp_stream(request) {
            Some(message) => {
                self.request_message = Some(message);
                true
            },
            None => false,
        }
    }

    /// The text of a header of the request, or the empty text.
    fn header_text(request_message: &request::Message, key: &str) -> (text: Vec<char>)
        ensures
            text@ == header_text(request_message@.headers, key@),
    {
        match request_message.headers.get(key) {
            Some(value) => chars_of(value.to_string().as_str()),
            None => Vec::new(),
        }
    }

    /// The bytes of a response and the line that records it.
    pub fn answer(request_message: &request::Message, socket: &str, response: response::Message) -> (r:
        (Vec<u8>, String))
        ensures
            answered(r, socket@, request_message@, response@),
    {
        let mut response = response;
        let mut log = chars_of("HTTP access - \"");
        append_chars(&mut log, &chars_of(socket));
        append_chars(&mut log, &chars_of("\",\""));
        append_chars(&mut log, &chars_of(request_message.request_line.request_uri.as_str()));
        append_chars(&mut log, &chars_of("\",\""));
        append_chars(&mut log, &Dispatcher::header_text(request_message, "User-Agent"));
        append_chars(&mut log, &chars_of("\",\""));
        append_chars(&mut log, &Dispatcher::header_text(request_message, "Referer"));
        append_chars(&mut log, &chars_of("\",\""));
        append_chars(&mut log, &chars_of(response.status.as_str()));
        append_chars(&mut log, &chars_of("\",\""));
        append_chars(&mut log, &chars_of(decimal_of(response.body.len() as u64).as_str()));
        append_chars(&mut log, &chars_of("\""));
        let bytes = response.to_bytes();
        (bytes, string_of(&log))
    }

    /// Asks the responders in the order of [`chain`] and gives the bytes and
    /// the record of the first response: that of the first responder that
    /// matches and answers. A responder that matches and fails is passed
    /// over. Without a request, and where no responder answers, the result
    /// is an error.
    pub fn respond(
        &self,
        _request: &[u8],
        application: &Application,
        socket: &str,
        responders: Vec<Box<dyn ResponderInterface>>,
        overflow_bytes: &u64,
    ) -> (r: Result<(Vec<u8>, String), String>)
        ensures
            self.request_message is None ==> r is Err,
            responders.len() == 0 ==> r is Err,
            match r {
                Ok(sent) => self.request_message is Some && delivered(
                    sent,
                    socket@,
                    self.request_message->0@,
                ),
                Err(text) => text@ == no_responder(),
            },
    {
        let request_message = match &self.request_message {
            Some(message) => message,
            None => {
                return Err("Found no matching HTTP responder".to_string());
            },
        };
        let count = responders.len();
        let mut rest = responders;
        let mut state = chain::start(true, count);
        while rest.len() > 0
            invariant
                count == responders.len(),
                rest.len() <= count,
                state is Responded ==> count > 0,
            decreases rest.len(),
        {
            if let Dispatch::Parsed(_) = &state {
                let mut responder = rest.remove(0);
                let matches = responder.matches(
                    request_message,
                    application,
                    socket,
                    overflow_bytes,
                );
                state = chain::next(state, Outcome::Matches(matches), count);
                if let Dispatch::Matched(_) = &state {
                    let response = responder.respond(
                        request_message,
                        application,
                        socket,
                        overflow_bytes,
                    );
                    state = chain::next(state, Outcome::Responds(response), count);
                }
            } else {
                break ;
            }
        }
        if let Dispatch::Responded(response) = state {
            let ghost given = response@;
            let sent = Dispatcher::answer(request_message, socket, response);
            assert(answered(sent, socket@, request_message@, given));
            return Ok(sent);
        }
        Err("Found no matching HTTP responder".to_string())
    }
}

} // verus!

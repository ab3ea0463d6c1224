//! Requests with plain headers, under the names of the protocol versions by
//! their numbers. They are read as every request is, by
//! [`crate::application_layer::http::request::Message`].

use vstd::prelude::*;
use crate::application_layer::http::request::{Line, Message, Method, Protocol, SettingValence};
use crate::application_layer::http::scan::parse;
use crate::application_layer::http::syntax::{
    query_args, request_body_policy, request_line, LineView,
};
use crate::text_map::TextMap;
use super::{plain_body, plain_body_of, plain_field, plain_headers, plain_headers_of};

verus! {

/// The method of a request.
pub type RequestMethod = Method;

/// The protocol version of a request.
#[derive(Debug, Clone, Copy, PartialEq, Eq, Structural)]
pub enum RequestProtocol {
    Invalid,
    OneDotZero,
    OneDotOne,
    TwoDotZero,
    ZeroDotNine,
}

/// Which part of a request is being read.
#[derive(Debug, Clone, Copy, PartialEq, Eq, Structural)]
pub enum RequestSection {
    RequestLine,
    HeaderFields,
    MessageBody,
}

/// A request line.
pub ghost struct RequestLineView {
    pub method: Method,
    pub protocol: RequestProtocol,
    pub request_uri: Seq<char>,
    pub request_uri_base: Seq<char>,
    pub query_arguments: Map<Seq<char>, Seq<char>>,
    pub query_string: Seq<char>,
}

/// A request line.
#[derive(Debug)]
pub struct RequestLine {
    pub method: RequestMethod,
    pub protocol: RequestProtocol,
    pub request_uri: String,
    pub request_uri_base: String,
    pub query_arguments: TextMap<String>,
    pub query_string: String,
}

impl View for RequestLine {
    type V = RequestLineView;

    open spec fn view(&self) -> RequestLineView {
        RequestLineView {
            method: self.method,
            protocol: self.protocol,
            request_uri: self.request_uri@,
            request_uri_base: self.request_uri_base@,
            query_arguments: self.query_arguments@,
            query_string: self.query_string@,
        }
    }
}

impl RequestLine {
    /// No argument of the query stands twice.
    pub open spec fn distinct(&self) -> bool {
        self.query_arguments.distinct()
    }
}

/// A request: its line, its headers and the arguments of its body.
#[derive(Debug)]
pub struct RequestMessage {
    pub body: TextMap<String>,
    pub headers: TextMap<String>,
    pub request_line: RequestLine,
}

/// What a request holds.
pub ghost struct RequestView {
    pub body: Map<Seq<char>, Seq<char>>,
    pub headers: Map<Seq<char>, Seq<char>>,
    pub request_line: RequestLineView,
}

impl View for RequestMessage {
    type V = RequestView;

    open spec fn view(&self) -> RequestView {
        RequestView {
            body: self.body@,
            headers: self.headers@,
            request_line: self.request_line@,
        }
    }
}

/// The protocol version under its name in this module.
pub open spec fn version_of(protocol: Protocol) -> RequestProtocol {
    match protocol {
        Protocol::Invalid => RequestProtocol::Invalid,
        Protocol::V0_9 => RequestProtocol::ZeroDotNine,
        Protocol::V1_0 => RequestProtocol::OneDotZero,
        Protocol::V1_1 => RequestProtocol::OneDotOne,
        Protocol::V2_0 => RequestProtocol::TwoDotZero,
    }
}

/// The request line under the names of this module.
pub open spec fn plain_line(line: LineView) -> RequestLineView {
    RequestLineView {
        method: line.method,
        protocol: version_of(line.protocol),
        request_uri: line.request_uri,
        request_uri_base: line.request_uri_base,
        query_arguments: line.query_arguments,
        query_string: line.query_string,
    }
}

/// The request line that a line of text holds: `METHOD URI PROTOCOL` with a
/// known method and protocol, or a lone path.
pub open spec fn plain_request_line(line: Seq<char>) -> Option<RequestLineView> {
    match request_line(line) {
        Some(parsed) => Some(plain_line(parsed)),
        None => None,
    }
}

/// The request that the bytes hold, with its headers as plain text and the
/// arguments of its body.
pub open spec fn request(bytes: Seq<u8>) -> Option<RequestView> {
    match parse(bytes) {
        Some(message) => Some(
            RequestView {
                body: plain_body(message.body),
                headers: plain_headers(message.headers),
                request_line: plain_line(message.request_line),
            },
        ),
        None => None,
    }
}

/// The protocol version under its name in this module.
pub fn version(protocol: Protocol) -> (r: RequestProtocol)
    ensures
        r == version_of(protocol),
{
    match protocol {
        Protocol::Invalid => RequestProtocol::Invalid,
        Protocol::V0_9 => RequestProtocol::ZeroDotNine,
        Protocol::V1_0 => RequestProtocol::OneDotZero,
        Protocol::V1_1 => RequestProtocol::OneDotOne,
        Protocol::V2_0 => RequestProtocol::TwoDotZero,
    }
}

impl RequestMessage {
    /// Each map of the request holds each of its keys once.
    pub open spec fn distinct(&self) -> bool {
        &&& self.body.distinct()
        &&& self.headers.distinct()
        &&& self.request_line.distinct()
    }

    /// Whether a request with this method carries a body.
    pub fn method_has_request_body(method: &RequestMethod) -> (valence: SettingValence)
        ensures
            valence == request_body_policy(*method),
    {
        Message::method_has_request_body(method)
    }

    /// Whether the response to this method carries a body: all but `HEAD`.
    pub fn _method_has_response_body(method: &RequestMethod) -> (b: bool)
        ensures
            b == (*method != Method::Head),
    {
        Message::_method_has_response_body(method)
    }

    /// Whether this method leaves the resource as it is.
    pub fn _method_is_safe(method: &RequestMethod) -> (b: bool)
        ensures
            b == (*method == Method::Get || *method == Method::Head || *method == Method::Options
                || *method == Method::Trace || *method == Method::Invalid),
    {
        Message::_method_is_safe(method)
    }

    /// Whether a repeated request with this method does what one does.
    pub fn _method_is_idempotent(method: &RequestMethod) -> (b: bool)
        ensures
            b == (*method != Method::Connect && *method != Method::Patch && *method
                != Method::Post),
    {
        Message::_method_is_idempotent(method)
    }

    /// Whether the response to this method may be kept and served again.
    pub fn _method_is_cacheable(method: &RequestMethod) -> (b: bool)
        ensures
            b == (*method == Method::Get || *method == Method::Head || *method == Method::Post),
    {
        Message::_method_is_cacheable(method)
    }

    /// The arguments of a query string or of a body line; nothing where the
    /// text is empty.
    pub fn get_query_args_from_string(subject: &str) -> (r: Option<TextMap<String>>)
        ensures
            match r {
                Some(arguments) => query_args(subject@) == Some(arguments@)
                    && arguments.distinct(),
                None => query_args(subject@) is None,
            },
    {
        Message::get_query_args_from_string(subject)
    }

    /// The arguments of a body line; nothing where the line is empty.
    pub fn get_message_body(body: &str) -> (r: Option<TextMap<String>>)
        ensures
            match r {
                Some(arguments) => query_args(body@) == Some(arguments@) && arguments.distinct(),
                None => query_args(body@) is None,
            },
    {
        RequestMessage::get_query_args_from_string(body)
    }

    /// The key of a header line and the text of its value; nothing where
    /// the line has no colon.
    pub fn get_header_field(line: &str) -> (r: Option<(String, String)>)
        ensures
            match r {
                Some((key, value)) => plain_field(line@) == Some((key@, value@)),
                None => plain_field(line@) is None,
            },
    {
        match Message::get_header_field(line) {
            Some((key, value)) => Some((key, value.to_string())),
            None => None,
        }
    }

    /// The request line under the names of this module.
    fn line_of(line: Line) -> (r: RequestLine)
        ensures
            r@ == plain_line(line@),
            line.distinct() ==> r.distinct(),
    {
        let Line {
            method,
            protocol,
            request_uri,
            request_uri_base,
            query_arguments,
            query_string,
        } = line;
        RequestLine {
            method,
            protocol: version(protocol),
            request_uri,
            request_uri_base,
            query_arguments,
            query_string,
        }
    }

    /// The request line that a line of text holds.
    pub fn get_request_line(line: &str) -> (r: Option<RequestLine>)
        ensures
            match r {
                Some(parsed) => plain_request_line(line@) == Some(parsed@) && parsed.distinct(),
                None => plain_request_line(line@) is None,
            },
    {
        match Message::get_request_line(line) {
            Some(parsed) => Some(RequestMessage::line_of(parsed)),
            None => None,
        }
    }

    /// The request that the bytes hold, with its headers as plain text and
    /// the arguments of its body.
    pub fn from_tcp_stream(request: &[u8]) -> (r: Option<RequestMessage>)
        ensures
            match r {
                Some(message) => self::request(request@) == Some(message@) && message.distinct(),
                None => self::request(request@) is None,
            },
    {
        match Message::from_tcp_stream(request) {
            Some(message) => {
                let Message { body, headers, request_line } = message;
                Some(
                    RequestMessage {
                        body: plain_body_of(body),
                        headers: plain_headers_of(&headers),
                        request_line: RequestMessage::line_of(request_line),
                    },
                )
            },
            None => None,
        }
    }
}

} // verus!

//! Requests with plain headers: each header a key and the text of its value,
//! as a header value is written. They are read as every request is, by
//! [`crate::application_layer::http::request::Message`].

pub mod http;

use vstd::prelude::*;
use crate::application_layer::http::request::{
    BodyContentType, HeaderValueParts, Line, Message, Method, Protocol,
};
use crate::application_layer::http::scan::{parse, BodyView};
use crate::application_layer::http::syntax::{
    header_field, query_args, request_line, value_text, LineView, ValueView,
};
use crate::text_map::TextMap;

verus! {

/// The method of a request.
pub type HttpRequestMethod = Method;

/// The protocol version of a request.
#[derive(Debug, Clone, Copy, PartialEq, Eq, Structural)]
pub enum HttpRequestProtocol {
    Invalid,
    TwoDotZero,
    OneDotZero,
    OneDotOne,
    ZeroDotNine,
}

/// Which part of a request is being read.
#[derive(Debug, Clone, Copy, PartialEq, Eq, Structural)]
pub enum HttpRequestSection {
    RequestLine,
    HeaderFields,
    MessageBody,
}

/// The protocol version under its name in this module.
pub open spec fn version_of(protocol: Protocol) -> HttpRequestProtocol {
    match protocol {
        Protocol::Invalid => HttpRequestProtocol::Invalid,
        Protocol::V0_9 => HttpRequestProtocol::ZeroDotNine,
        Protocol::V1_0 => HttpRequestProtocol::OneDotZero,
        Protocol::V1_1 => HttpRequestProtocol::OneDotOne,
        Protocol::V2_0 => HttpRequestProtocol::TwoDotZero,
    }
}

/// A request line.
pub ghost struct HttpRequestLineView {
    pub method: Method,
    pub protocol: HttpRequestProtocol,
    pub request_uri: Seq<char>,
    pub request_uri_base: Seq<char>,
    pub query_arguments: Map<Seq<char>, Seq<char>>,
    pub query_string: Seq<char>,
}

/// A request line.
#[derive(Debug)]
pub struct HttpRequestLine {
    pub method: HttpRequestMethod,
    pub protocol: HttpRequestProtocol,
    pub request_uri: String,
    pub request_uri_base: String,
    pub query_arguments: TextMap<String>,
    pub query_string: String,
}

impl View for HttpRequestLine {
    type V = HttpRequestLineView;

    open spec fn view(&self) -> HttpRequestLineView {
        HttpRequestLineView {
            method: self.method,
            protocol: self.protocol,
            request_uri: self.request_uri@,
            request_uri_base: self.request_uri_base@,
            query_arguments: self.query_arguments@,
            query_string: self.query_string@,
        }
    }
}

impl HttpRequestLine {
    /// No argument of the query stands twice.
    pub open spec fn distinct(&self) -> bool {
        self.query_arguments.distinct()
    }
}

/// A request: its line, its headers and the arguments of its body.
#[derive(Debug)]
pub struct HttpRequestMessage {
    pub body: TextMap<String>,
    pub headers: TextMap<String>,
    pub request_line: HttpRequestLine,
}

/// What a request holds.
pub ghost struct HttpRequestView {
    pub body: Map<Seq<char>, Seq<char>>,
    pub headers: Map<Seq<char>, Seq<char>>,
    pub request_line: HttpRequestLineView,
}

impl View for HttpRequestMessage {
    type V = HttpRequestView;

    open spec fn view(&self) -> HttpRequestView {
        HttpRequestView {
            body: self.body@,
            headers: self.headers@,
            request_line: self.request_line@,
        }
    }
}

/// The headers as plain text: under each key the text of its value.
pub open spec fn plain_headers(headers: Map<Seq<char>, ValueView>) -> Map<Seq<char>, Seq<char>> {
    Map::new(|key: Seq<char>| headers.contains_key(key), |key: Seq<char>| value_text(headers[key]))
}

/// The arguments of a body; a body in parts has none.
pub open spec fn plain_body(body: BodyView) -> Map<Seq<char>, Seq<char>> {
    match body {
        BodyView::SinglePart(arguments) => arguments,
        BodyView::MultiPart(_) => Map::empty(),
    }
}

/// The key and the text of the value of a header line; nothing where the
/// line has no colon.
pub open spec fn plain_field(line: Seq<char>) -> Option<(Seq<char>, Seq<char>)> {
    match header_field(line) {
        Some((key, value)) => Some((key, value_text(value))),
        None => None,
    }
}

/// The request line under the names of this module.
pub open spec fn http_line(line: LineView) -> HttpRequestLineView {
    HttpRequestLineView {
        method: line.method,
        protocol: version_of(line.protocol),
        request_uri: line.request_uri,
        request_uri_base: line.request_uri_base,
        query_arguments: line.query_arguments,
        query_string: line.query_string,
    }
}

/// The request line that a line of text holds: `METHOD URI PROTOCOL` with a
/// known method and protocol, or a lone path.
pub open spec fn http_request_line(line: Seq<char>) -> Option<HttpRequestLineView> {
    match request_line(line) {
        Some(parsed) => Some(http_line(parsed)),
        None => None,
    }
}

/// The request that the bytes hold, with its headers as plain text and the
/// arguments of its body.
pub open spec fn http_request(bytes: Seq<u8>) -> Option<HttpRequestView> {
    match parse(bytes) {
        Some(message) => Some(
            HttpRequestView {
                body: plain_body(message.body),
                headers: plain_headers(message.headers),
                request_line: http_line(message.request_line),
            },
        ),
        None => None,
    }
}

/// The protocol version under its name in this module.
pub fn version(protocol: Protocol) -> (r: HttpRequestProtocol)
    ensures
        r == version_of(protocol),
{
    match protocol {
        Protocol::Invalid => HttpRequestProtocol::Invalid,
        Protocol::V0_9 => HttpRequestProtocol::ZeroDotNine,
        Protocol::V1_0 => HttpRequestProtocol::OneDotZero,
        Protocol::V1_1 => HttpRequestProtocol::OneDotOne,
        Protocol::V2_0 => HttpRequestProtocol::TwoDotZero,
    }
}

/// The headers as plain text: under each key the text of its value.
pub fn plain_headers_of(headers: &TextMap<HeaderValueParts>) -> (plain: TextMap<String>)
    ensures
        plain@ == plain_headers(headers@),
        plain.distinct(),
{
    let mut plain: TextMap<String> = TextMap::new();
    let n = headers.len();
    let ghost keys = headers.key_seq();
    let mut i: usize = 0;
    while i < n
        invariant
            i <= n,
            n == keys.len(),
            keys == headers.key_seq(),
            plain.distinct(),
            plain@ == Map::new(
                |key: Seq<char>| keys.take(i as int).contains(key),
                |key: Seq<char>| value_text(headers@[key]),
            ),
        decreases n - i,
    {
        let key = headers.key_at(i);
        let ghost before = plain@;
        proof {
            let more = keys.take(i + 1);
            let fewer = keys.take(i as int);
            assert forall|k: Seq<char>| more.contains(k) <==> (fewer.contains(k) || k == key@) by {
                if more.contains(k) {
                    let q = choose|q: int| 0 <= q < more.len() && more[q] == k;
                    if q < i {
                        assert(fewer[q] == k);
                    }
                }
                if fewer.contains(k) {
                    let q = choose|q: int| 0 <= q < fewer.len() && fewer[q] == k;
                    assert(more[q] == k);
                }
                if k == key@ {
                    assert(more[i as int] == k);
                }
            }
        }
        match headers.get(key.as_str()) {
            Some(value) => {
                plain.insert(key.clone(), value.to_string());
            },
            None => {},
        }
        assert(plain@ =~= Map::new(
            |key: Seq<char>| keys.take(i + 1).contains(key),
            |key: Seq<char>| value_text(headers@[key]),
        ));
        i += 1;
    }
    proof {
        assert(keys.take(n as int) =~= keys);
        headers.lemma_keys();
        assert(plain@ =~= plain_headers(headers@));
    }
    plain
}

/// The arguments of a body; a body in parts has none.
pub fn plain_body_of(body: BodyContentType) -> (arguments: TextMap<String>)
    requires
        body.distinct(),
    ensures
        arguments@ == plain_body(body@),
        arguments.distinct(),
{
    match body {
        BodyContentType::SinglePart(arguments) => arguments,
        BodyContentType::MultiPart(_) => TextMap::new(),
    }
}

impl HttpRequestMessage {
    /// Each map of the request holds each of its keys once.
    pub open spec fn distinct(&self) -> bool {
        &&& self.body.distinct()
        &&& self.headers.distinct()
        &&& self.request_line.distinct()
    }

    /// The arguments of a body line; nothing where the line is empty.
    pub fn get_message_body(body: &str) -> (r: Option<TextMap<String>>)
        ensures
            match r {
                Some(arguments) => query_args(body@) == Some(arguments@) && arguments.distinct(),
                None => query_args(body@) is None,
            },
    {
        Message::get_query_args_from_string(body)
    }

    /// The key of a header line and the text of its value; nothing where
    /// the line has no colon.
    pub fn get_header_field(line: &str) -> (r: Option<(String, String)>)
        ensures
            match r {
                Some((key, value)) => plain_field(line@) == Some((key@, value@)),
                None => plain_field(line@) is None,
            },
    {
        match Message::get_header_field(line) {
            Some((key, value)) => Some((key, value.to_string())),
            None => None,
        }
    }

    /// The request line under the names of this module.
    fn line_of(line: Line) -> (r: HttpRequestLine)
        ensures
            r@ == http_line(line@),
            line.distinct() ==> r.distinct(),
    {
        let Line {
            method,
            protocol,
            request_uri,
            request_uri_base,
            query_arguments,
            query_string,
        } = line;
        HttpRequestLine {
            method,
            protocol: version(protocol),
            request_uri,
            request_uri_base,
            query_arguments,
            query_string,
        }
    }

    /// The request line that a line of text holds.
    pub fn get_request_line(line: &str) -> (r: Option<HttpRequestLine>)
        ensures
            match r {
                Some(parsed) => http_request_line(line@) == Some(parsed@) && parsed.distinct(),
                None => http_request_line(line@) is None,
            },
    {
        match Message::get_request_line(line) {
            Some(parsed) => Some(HttpRequestMessage::line_of(parsed)),
            None => None,
        }
    }

    /// The request that the bytes hold, with its headers as plain text and
    /// the arguments of its body.
    pub fn from_tcp_stream(request: &[u8]) -> (r: Option<HttpRequestMessage>)
        ensures
            match r {
                Some(message) => http_request(request@) == Some(message@) && message.distinct(),
                None => http_request(request@) is None,
            },
    {
        match Message::from_tcp_stream(request) {
            Some(message) => {
                let Message { body, headers, request_line } = message;
                Some(
                    HttpRequestMessage {
                        body: plain_body_of(body),
                        headers: plain_headers_of(&headers),
                        request_line: HttpRequestMessage::line_of(request_line),
                    },
                )
            },
            None => None,
        }
    }
}

} // verus!

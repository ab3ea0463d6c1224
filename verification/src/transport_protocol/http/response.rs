//! A response whose body is text.

use vstd::prelude::*;
use crate::application_layer::http::response::{
    append_text, head_lines, header_lines_text, status_line_text,
};
use crate::lexical::sorted_keys;
use crate::text::string_of;
use crate::text_map::TextMap;

verus! {

/// What a response holds.
pub ghost struct TextResponseView {
    pub protocol: Seq<char>,
    pub status: Seq<char>,
    pub headers: Map<Seq<char>, Seq<char>>,
    pub body: Seq<char>,
}

/// A response: protocol, status, headers and a body of text.
#[derive(Debug)]
pub struct Message {
    pub protocol: String,
    pub status: String,
    pub headers: TextMap<String>,
    pub body: String,
}

impl View for Message {
    type V = TextResponseView;

    open spec fn view(&self) -> TextResponseView {
        TextResponseView {
            protocol: self.protocol@,
            status: self.status@,
            headers: self.headers@,
            body: self.body@,
        }
    }
}

/// The response as text: the status line, the headers in ascending order
/// of their keys, a blank line, and the body.
pub open spec fn response_text(response: TextResponseView) -> Seq<char> {
    status_line_text(response.protocol, response.status) + header_lines_text(
        sorted_keys(response.headers),
        response.headers,
    ) + seq!['\r', '\n'] + response.body
}

impl Message {
    /// A response of these four parts.
    pub fn new(protocol: String, status: String, headers: TextMap<String>, body: String) -> (message:
        Message)
        ensures
            message.protocol == protocol,
            message.status == status,
            message.headers == headers,
            message.body == body,
    {
        Message { protocol, status, headers, body }
    }

    /// The response as text.
    pub fn to_string(&self) -> (text: String)
        ensures
            text@ == response_text(self@),
    {
        let mut out = head_lines(self.protocol.as_str(), self.status.as_str(), &self.headers);
        out.push('\r');
        out.push('\n');
        append_text(&mut out, self.body.as_str());
        assert(out@ =~= response_text(self@));
        string_of(&out)
    }
}

} // verus!

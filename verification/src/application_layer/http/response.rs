//! The response and the bytes that it is sent as.

use vstd::prelude::*;
use vstd::utf8::{decode_utf8, encode_utf8, valid_utf8};
use crate::lexical::{picked, sorted_keys, sorted_keys_of, sorted_order};
use crate::text::decode;
use crate::text_map::TextMap;

verus! {

/// What a response holds.
pub ghost struct ResponseView {
    pub protocol: Seq<char>,
    pub status: Seq<char>,
    pub headers: Map<Seq<char>, Seq<char>>,
    pub body: Seq<u8>,
}

/// A response: protocol, status, headers and body.
#[derive(Debug)]
pub struct Message {
    pub protocol: String,
    pub status: String,
    pub headers: TextMap<String>,
    pub body: Vec<u8>,
}

impl View for Message {
    type V = ResponseView;

    open spec fn view(&self) -> ResponseView {
        ResponseView {
            protocol: self.protocol@,
            status: self.status@,
            headers: self.headers@,
            body: self.body@,
        }
    }
}

/// The status line as text: protocol, a space, status, CR LF.
pub open spec fn status_line_text(protocol: Seq<char>, status: Seq<char>) -> Seq<char> {
    protocol + seq![' '] + status + seq!['\r', '\n']
}

/// One header as text: key, a colon and a space, value, CR LF.
pub open spec fn header_line_text(key: Seq<char>, value: Seq<char>) -> Seq<char> {
    key + seq![':', ' '] + value + seq!['\r', '\n']
}

/// The headers of the keys `keys` as text, one line each.
pub open spec fn header_lines_text(keys: Seq<Seq<char>>, headers: Map<Seq<char>, Seq<char>>) -> Seq<
    char,
>
    decreases keys.len(),
{
    if keys.len() == 0 {
        Seq::empty()
    } else {
        header_lines_text(keys.drop_last(), headers) + header_line_text(
            keys.last(),
            headers[keys.last()],
        )
    }
}

/// The status line and the headers as text, the headers in ascending order
/// of their keys and, where there are any, a blank line after them.
pub open spec fn head_text(response: ResponseView) -> Seq<char> {
    let lines = header_lines_text(sorted_keys(response.headers), response.headers);
    if response.headers == Map::<Seq<char>, Seq<char>>::empty() {
        status_line_text(response.protocol, response.status)
    } else {
        status_line_text(response.protocol, response.status) + lines + seq!['\r', '\n']
    }
}

/// The response as text: status line, headers in ascending order of their
/// keys, a blank line, and the body where it is valid UTF-8.
pub open spec fn response_text(response: ResponseView) -> Seq<char> {
    status_line_text(response.protocol, response.status) + header_lines_text(
        sorted_keys(response.headers),
        response.headers,
    ) + seq!['\r', '\n'] + (if valid_utf8(response.body) {
        decode_utf8(response.body)
    } else {
        Seq::empty()
    })
}

/// The status line as bytes.
pub open spec fn status_line(protocol: Seq<char>, status: Seq<char>) -> Seq<u8> {
    encode_utf8(protocol) + seq![32u8] + encode_utf8(status) + seq![13u8, 10u8]
}

/// One header as bytes.
pub open spec fn header_line(key: Seq<char>, value: Seq<char>) -> Seq<u8> {
    encode_utf8(key) + seq![58u8, 32u8] + encode_utf8(value) + seq![13u8, 10u8]
}

/// The headers of the keys `keys` as bytes, one line each.
pub open spec fn header_lines(keys: Seq<Seq<char>>, headers: Map<Seq<char>, Seq<char>>) -> Seq<u8>
    decreases keys.len(),
{
    if keys.len() == 0 {
        Seq::empty()
    } else {
        header_lines(keys.drop_last(), headers) + header_line(keys.last(), headers[keys.last()])
    }
}

/// The bytes that a response is sent as: the status line, the headers in
/// ascending order of their keys, a blank line, and the body as it is.
pub open spec fn response_bytes(response: ResponseView) -> Seq<u8> {
    status_line(response.protocol, response.status) + header_lines(
        sorted_keys(response.headers),
        response.headers,
    ) + seq![13u8, 10u8] + response.body
}

/// Appends `tail` to `out`.
pub fn append_bytes(out: &mut Vec<u8>, tail: &[u8])
    ensures
        final(out)@ == old(out)@ + tail@,
{
    let mut i: usize = 0;
    while i < tail.len()
        invariant
            i <= tail.len(),
            out@ == old(out)@ + tail@.take(i as int),
        decreases tail.len() - i,
    {
        out.push(tail[i]);
        assert(tail@.take(i + 1) =~= tail@.take(i as int).push(tail@[i as int]));
        i += 1;
    }
    assert(tail@.take(tail@.len() as int) =~= tail@);
}

/// Appends the text `tail` to `out`.
pub fn append_text(out: &mut Vec<char>, tail: &str)
    ensures
        final(out)@ == old(out)@ + tail@,
{
    let chars = crate::text::chars_of(tail);
    crate::text::append_chars(out, &chars);
}

/// The status line and the headers as text, the headers in ascending order
/// of their keys.
pub fn head_lines(protocol: &str, status: &str, headers: &TextMap<String>) -> (out: Vec<char>)
    ensures
        out@ == status_line_text(protocol@, status@) + header_lines_text(
            sorted_keys(headers@),
            headers@,
        ),
        sorted_keys_of(sorted_keys(headers@), headers@),
{
    let mut out: Vec<char> = Vec::new();
    append_text(&mut out, protocol);
    out.push(' ');
    append_text(&mut out, status);
    out.push('\r');
    out.push('\n');
    assert(out@ =~= status_line_text(protocol@, status@));
    let order = sorted_order(headers);
    let ghost keys = sorted_keys(headers@);
    let ghost first = out@;
    let mut i: usize = 0;
    while i < order.len()
        invariant
            i <= order.len(),
            forall|j: int| 0 <= j < order.len() ==> (#[trigger] order@[j]) < headers.key_seq().len(),
            keys == picked(headers.key_seq(), order@),
            out@ == first + header_lines_text(keys.take(i as int), headers@),
        decreases order.len() - i,
    {
        let key = headers.key_at(order[i]);
        let ghost head = out@;
        let ghost done = keys.take(i + 1);
        proof {
            assert(done.drop_last() =~= keys.take(i as int));
            assert(done.last() == key@);
        }
        match headers.get(key.as_str()) {
            Some(value) => {
                append_text(&mut out, key.as_str());
                out.push(':');
                out.push(' ');
                append_text(&mut out, value.as_str());
                out.push('\r');
                out.push('\n');
                assert(out@ =~= head + header_line_text(key@, value@));
            },
            None => {},
        }
        assert(out@ =~= first + header_lines_text(done, headers@));
        i += 1;
    }
    assert(keys.take(order.len() as int) =~= keys);
    out
}

impl Message {
    /// A response of these four parts.
    pub fn new(protocol: String, status: String, headers: TextMap<String>, body: Vec<u8>) -> (message:
        Message)
        ensures
            message.protocol == protocol,
            message.status == status,
            message.headers == headers,
            message.body == body,
    {
        Message { protocol, status, headers, body }
    }

    /// The status line as bytes.
    fn status_bytes(&self) -> (out: Vec<u8>)
        ensures
            out@ == status_line(self.protocol@, self.status@),
    {
        let mut out: Vec<u8> = Vec::new();
        append_bytes(&mut out, self.protocol.as_str().as_bytes());
        out.push(32);
        append_bytes(&mut out, self.status.as_str().as_bytes());
        out.push(13);
        out.push(10);
        assert(out@ =~= status_line(self.protocol@, self.status@));
        out
    }

    /// The status line and the headers as text, the headers in ascending
    /// order of their keys and, where there are any, a blank line after them.
    pub fn _header_to_string(&self) -> (text: String)
        ensures
            text@ == head_text(self@),
    {
        let mut out = head_lines(self.protocol.as_str(), self.status.as_str(), &self.headers);
        if !self.headers.is_empty() {
            out.push('\r');
            out.push('\n');
            assert(out@ =~= head_text(self@));
        } else {
            proof {
                let keys = sorted_keys(self.headers@);
                if keys.len() > 0 {
                    assert(keys.contains(keys[0]));
                }
                assert(out@ =~= head_text(self@));
            }
        }
        crate::text::string_of(&out)
    }

    /// The response as text: status line, headers in ascending order of
    /// their keys, a blank line, and the body where it is valid UTF-8.
    pub fn _to_string(&self) -> (text: String)
        ensures
            text@ == response_text(self@),
    {
        let mut out = head_lines(self.protocol.as_str(), self.status.as_str(), &self.headers);
        out.push('\r');
        out.push('\n');
        let ghost head = out@;
        match decode(self.body.as_slice()) {
            Some(chars) => {
                crate::text::append_chars(&mut out, &chars);
            },
            None => {},
        }
        assert(out@ =~= response_text(self@));
        crate::text::string_of(&out)
    }

    /// The bytes that the response is sent as: the status line, the headers
    /// in ascending order of their keys, a blank line, and the body as it
    /// is. The response is left as it was.
    pub fn to_bytes(&mut self) -> (bytes: Vec<u8>)
        ensures
            bytes@ == response_bytes(old(self)@),
            *final(self) == *old(self),
    {
        let mut out = self.status_bytes();
        let order = sorted_order(&self.headers);
        let ghost keys = sorted_keys(self.headers@);
        let ghost first = out@;
        let mut i: usize = 0;
        while i < order.len()
            invariant
                i <= order.len(),
                forall|j: int|
                    0 <= j < order.len() ==> (#[trigger] order@[j]) < self.headers.key_seq().len(),
                keys == picked(self.headers.key_seq(), order@),
                out@ == first + header_lines(keys.take(i as int), self.headers@),
            decreases order.len() - i,
        {
            let key = self.headers.key_at(order[i]);
            let ghost head = out@;
            let ghost done = keys.take(i + 1);
            proof {
                assert(done.drop_last() =~= keys.take(i as int));
                assert(done.last() == key@);
            }
            match self.headers.get(key.as_str()) {
                Some(value) => {
                    append_bytes(&mut out, key.as_str().as_bytes());
                    out.push(58);
                    out.push(32);
                    append_bytes(&mut out, value.as_str().as_bytes());
                    out.push(13);
                    out.push(10);
                    assert(out@ =~= head + header_line(key@, value@));
                },
                None => {},
            }
            assert(out@ =~= first + header_lines(done, self.headers@));
            i += 1;
        }
        assert(keys.take(order.len() as int) =~= keys);
        out.push(13);
        out.push(10);
        append_bytes(&mut out, self.body.as_slice());
        assert(out@ =~= response_bytes(old(self)@));
        out
    }
}

/// The place of the first CR LF in the bytes, or their length where they
/// hold none.
pub open spec fn line_end(bytes: Seq<u8>) -> int
    decreases bytes.len(),
{
    if bytes.len() < 2 {
        bytes.len() as int
    } else if bytes[0] == 13 && bytes[1] == 10 {
        0
    } else {
        1 + line_end(bytes.drop_first())
    }
}

/// The first line of the bytes: what stands before their first CR LF.
pub open spec fn first_line(bytes: Seq<u8>) -> Seq<u8> {
    bytes.take(line_end(bytes))
}

/// Whether the bytes hold a CR LF.
pub open spec fn has_line_end(bytes: Seq<u8>) -> bool {
    exists|i: int| 0 <= i < bytes.len() - 1 && bytes[i] == 13 && #[trigger] bytes[i + 1] == 10
}

proof fn lemma_line_end_is(bytes: Seq<u8>, k: int)
    requires
        0 <= k,
        k + 1 < bytes.len(),
        bytes[k] == 13,
        bytes[k + 1] == 10,
        forall|j: int| 0 <= j < k ==> !(bytes[j] == 13 && #[trigger] bytes[j + 1] == 10),
    ensures
        line_end(bytes) == k,
    decreases k,
{
    if k > 0 {
        let rest = bytes.drop_first();
        assert(!(bytes[0] == 13 && bytes[0int + 1] == 10));
        assert forall|j: int| 0 <= j < k - 1 implies !(rest[j] == 13 && #[trigger] rest[j + 1]
            == 10) by {
            assert(rest[j] == bytes[j + 1]);
            assert(rest[j + 1] == bytes[j + 1 + 1]);
        }
        lemma_line_end_is(rest, k - 1);
    }
}

/// The first line of the bytes of a response is its protocol, a space and
/// its status, byte for byte, where these hold no CR LF.
pub proof fn status_line_round_trip(response: ResponseView)
    requires
        !has_line_end(
            encode_utf8(response.protocol) + seq![32u8] + encode_utf8(response.status),
        ),
    ensures
        first_line(response_bytes(response)) == encode_utf8(response.protocol) + seq![32u8]
            + encode_utf8(response.status),
{
    let line = encode_utf8(response.protocol) + seq![32u8] + encode_utf8(response.status);
    let bytes = response_bytes(response);
    let k = line.len() as int;
    assert(line.last() == 32 || line.last() == encode_utf8(response.status).last());
    assert forall|j: int| 0 <= j < k implies !(bytes[j] == 13 && #[trigger] bytes[j + 1]
        == 10) by {
        if j + 1 < k {
            assert(bytes[j] == line[j]);
            assert(bytes[j + 1] == line[j + 1]);
        } else {
            assert(bytes[j + 1] == 13);
        }
    }
    assert(bytes[k] == 13);
    assert(bytes[k + 1] == 10);
    lemma_line_end_is(bytes, k);
    assert(bytes.take(k) =~= line);
}

/// The bytes of a response depend on what it holds alone: two responses
/// with the same protocol, status, headers and body have the same bytes, in
/// whatever order their headers were written.
pub proof fn response_bytes_by_content(first: Message, second: Message)
    requires
        first@ == second@,
    ensures
        response_bytes(first@) == response_bytes(second@),
{
}

} // verus!

//! The request: its parts and the parser that reads it from bytes.

use vstd::prelude::*;
use vstd::slice::slice_subrange;
use crate::text::{
    chars_of, copy_range, decode, position, split, split_on, spells, string_of, stripped, texts,
    trimmed,
};
use crate::text_map::TextMap;
use super::scan::{
    boundary_step, end_of_headers, feed_bytes, feed_line, initial, line_step, multipart_part,
    parse, part_byte_step, part_headers, run, scan_inv, with_part, BodyView, MessageView,
    MultiPartSection, MultiPartView, ParserSection, PartScan, Scan,
};
use super::syntax::{
    block_lookup, block_parts, block_text, header_field, header_sides, header_value, line_of,
    lookup, method_of, part_text, protocol_of, protocol_text, query_args, query_arguments,
    query_map, request_body_policy, request_line, sub_part, uri_arguments, uri_base, uri_query,
    value_text, LineView, PartView, ValueView,
};

verus! {

/// The method of a request.
#[derive(Debug, Clone, Copy, PartialEq, Eq, Structural)]
pub enum Method {
    Connect,
    Delete,
    Get,
    Head,
    Invalid,
    Options,
    Patch,
    Post,
    Put,
    Trace,
}

/// The protocol version of a request.
#[derive(Debug, Clone, Copy, PartialEq, Eq, Structural)]
pub enum Protocol {
    Invalid,
    V1_0,
    V1_1,
    V2_0,
    V0_9,
}

/// Whether something is required, refused or left open.
#[derive(Debug, Clone, Copy, PartialEq, Eq, Structural)]
pub enum SettingValence {
    Optional,
    No,
    Yes,
}

/// One sub-part of a header value: a bare token or a key with its value.
#[derive(Debug)]
pub enum HeaderValuePart {
    Single(String),
    KeyValue(String, String),
}

impl View for HeaderValuePart {
    type V = PartView;

    open spec fn view(&self) -> PartView {
        match self {
            HeaderValuePart::Single(token) => PartView::Single(token@),
            HeaderValuePart::KeyValue(key, value) => PartView::KeyValue(key@, value@),
        }
    }
}

/// The sub-parts that a block holds.
pub open spec fn block_view(block: Seq<HeaderValuePart>) -> Seq<PartView> {
    Seq::new(block.len(), |i: int| block[i]@)
}

/// The blocks that a header value holds.
pub open spec fn parts_view(parts: Seq<Vec<HeaderValuePart>>) -> ValueView {
    Seq::new(parts.len(), |i: int| block_view(parts[i]@))
}

/// A header value: parameter blocks in order, each a sequence of sub-parts.
#[derive(Debug)]
pub struct HeaderValueParts {
    pub parts: Vec<Vec<HeaderValuePart>>,
}

impl View for HeaderValueParts {
    type V = ValueView;

    open spec fn view(&self) -> ValueView {
        parts_view(self.parts@)
    }
}

/// The kind of body that the headers announce.
#[derive(Debug)]
pub enum HeaderContentType {
    /// A body in parts, with the boundary that separates them.
    MultiPart(String),
    SinglePart,
}

proof fn lemma_block_lookup_skip(block: Seq<PartView>, key: Seq<char>, n: int)
    requires
        0 <= n <= block.len(),
        forall|j: int|
            0 <= j < n ==> !(#[trigger] block[j] matches PartView::KeyValue(k, _) && k == key),
    ensures
        block_lookup(block, key) == block_lookup(block.skip(n), key),
    decreases n,
{
    if n == 0 {
        assert(block.skip(0) =~= block);
    } else {
        let t = block.drop_first();
        assert(!(block[0] matches PartView::KeyValue(k, _) && k == key));
        assert forall|j: int| 0 <= j < n - 1 implies !(#[trigger] t[j] matches PartView::KeyValue(
            k,
            _,
        ) && k == key) by {
            assert(t[j] == block[j + 1]);
        }
        lemma_block_lookup_skip(t, key, n - 1);
        assert(t.skip(n - 1) =~= block.skip(n));
    }
}

proof fn lemma_lookup_skip(value: ValueView, key: Seq<char>, n: int)
    requires
        0 <= n <= value.len(),
        forall|j: int| 0 <= j < n ==> (#[trigger] block_lookup(value[j], key)) is None,
    ensures
        lookup(value, key) == lookup(value.skip(n), key),
    decreases n,
{
    if n == 0 {
        assert(value.skip(0) =~= value);
    } else {
        let t = value.drop_first();
        assert(block_lookup(value[0], key) is None);
        assert forall|j: int| 0 <= j < n - 1 implies (#[trigger] block_lookup(t[j], key)) is None by {
            assert(t[j] == value[j + 1]);
        }
        lemma_lookup_skip(t, key, n - 1);
        assert(t.skip(n - 1) =~= value.skip(n));
    }
}

/// The value of the first sub-part of `block` whose key is `key`.
fn block_key_value(block: &Vec<HeaderValuePart>, key: &str) -> (r: Option<String>)
    ensures
        r.is_some() == block_lookup(block_view(block@), key@).is_some(),
        r matches Some(v) ==> block_lookup(block_view(block@), key@) == Some(v@),
{
    let ghost view = block_view(block@);
    let mut i: usize = 0;
    while i < block.len()
        invariant
            i <= block.len(),
            view == block_view(block@),
            forall|j: int|
                0 <= j < i ==> !(#[trigger] view[j] matches PartView::KeyValue(k, _) && k == key@),
        decreases block.len() - i,
    {
        if let HeaderValuePart::KeyValue(k, v) = &block[i] {
            if crate::text_map::same_text(k.as_str(), key) {
                proof {
                    lemma_block_lookup_skip(view, key@, i as int);
                    assert(view.skip(i as int)[0] == view[i as int]);
                }
                return Some(v.clone());
            }
        }
        i += 1;
    }
    proof {
        lemma_block_lookup_skip(view, key@, i as int);
    }
    None
}

impl HeaderValueParts {
    /// The value of the first sub-part whose key is `key`, the blocks taken
    /// in order and the sub-parts of a block in order.
    pub fn get_key_value(&self, key: &str) -> (r: Option<String>)
        ensures
            r.is_some() == lookup(self@, key@).is_some(),
            r matches Some(v) ==> lookup(self@, key@) == Some(v@),
    {
        let mut i: usize = 0;
        while i < self.parts.len()
            invariant
                i <= self.parts.len(),
                forall|j: int| 0 <= j < i ==> (#[trigger] block_lookup(self@[j], key@)) is None,
            decreases self.parts.len() - i,
        {
            let found = block_key_value(&self.parts[i], key);
            if found.is_some() {
                proof {
                    lemma_lookup_skip(self@, key@, i as int);
                    assert(self@.skip(i as int)[0] == self@[i as int]);
                }
                return found;
            }
            i += 1;
        }
        proof {
            lemma_lookup_skip(self@, key@, i as int);
        }
        None
    }

    /// The header value as text: the blocks joined by `"; "`, the sub-parts
    /// of a block by `", "`, a key and its value by `=`.
    pub fn to_string(&self) -> (text: String)
        ensures
            text@ == value_text(self@),
    {
        let mut output: Vec<char> = Vec::new();
        let mut i: usize = 0;
        while i < self.parts.len()
            invariant
                i <= self.parts.len(),
                output@ == value_text(self@.take(i as int)),
            decreases self.parts.len() - i,
        {
            if i > 0 {
                output.push(';');
                output.push(' ');
            }
            let block = &self.parts[i];
            let ghost before = output@;
            let ghost view = block_view(block@);
            let mut j: usize = 0;
            while j < block.len()
                invariant
                    j <= block.len(),
                    view == block_view(block@),
                    output@ == before + block_text(view.take(j as int)),
                decreases block.len() - j,
            {
                if j > 0 {
                    output.push(',');
                    output.push(' ');
                }
                let ghost head = output@;
                match &block[j] {
                    HeaderValuePart::Single(token) => {
                        let chars = chars_of(token.as_str());
                        crate::text::append_chars(&mut output, &chars);
                    },
                    HeaderValuePart::KeyValue(key, value) => {
                        let key_chars = chars_of(key.as_str());
                        crate::text::append_chars(&mut output, &key_chars);
                        output.push('=');
                        let value_chars = chars_of(value.as_str());
                        crate::text::append_chars(&mut output, &value_chars);
                    },
                }
                proof {
                    let next = view.take(j + 1);
                    assert(next.drop_last() =~= view.take(j as int));
                    assert(next.last() == view[j as int]);
                    assert(output@ =~= head + part_text(view[j as int]));
                    if j == 0 {
                        assert(block_text(view.take(0)) =~= Seq::<char>::empty());
                        assert(output@ =~= before + block_text(next));
                    } else {
                        assert(head =~= before + block_text(view.take(j as int)) + seq![',', ' ']);
                        assert(output@ =~= before + block_text(next));
                    }
                }
                j += 1;
            }
            proof {
                assert(view.take(block.len() as int) =~= view);
                let next = self@.take(i + 1);
                assert(next.drop_last() =~= self@.take(i as int));
                assert(next.last() == view);
                if i == 0 {
                    assert(value_text(self@.take(0)) =~= Seq::<char>::empty());
                    assert(output@ =~= value_text(next));
                } else {
                    assert(before =~= value_text(self@.take(i as int)) + seq![';', ' ']);
                    assert(output@ =~= value_text(next));
                }
            }
            i += 1;
        }
        assert(self@.take(self.parts.len() as int) =~= self@);
        string_of(&output)
    }
}

/// One sub-part of a header value.
fn parse_sub_part(text: &Vec<char>) -> (part: HeaderValuePart)
    ensures
        part@ == sub_part(text@),
{
    let i = position(text, '=');
    if i < text.len() {
        let key = trimmed(&copy_range(text, 0, i));
        let value = trimmed(&copy_range(text, i + 1, text.len()));
        HeaderValuePart::KeyValue(string_of(&key), string_of(&value))
    } else {
        HeaderValuePart::Single(string_of(&trimmed(text)))
    }
}

/// The sub-parts of a parameter block.
fn parse_block(block: &Vec<char>) -> (parts: Vec<HeaderValuePart>)
    ensures
        block_view(parts@) == block_parts(block@),
{
    let pieces = split_on(block, ',');
    let mut parts: Vec<HeaderValuePart> = Vec::new();
    let mut i: usize = 0;
    while i < pieces.len()
        invariant
            i <= pieces.len(),
            parts.len() == i,
            texts(pieces@) == split(block@, ','),
            forall|j: int| 0 <= j < i ==> (#[trigger] parts@[j])@ == sub_part(pieces@[j]@),
        decreases pieces.len() - i,
    {
        parts.push(parse_sub_part(&pieces[i]));
        i += 1;
    }
    proof {
        let expected = block_parts(block@);
        assert(block_view(parts@).len() == expected.len());
        assert forall|j: int| 0 <= j < expected.len() implies block_view(parts@)[j]
            == expected[j] by {
            assert(parts@[j]@ == sub_part(pieces@[j]@));
            assert(texts(pieces@)[j] == pieces@[j]@);
        }
        assert(block_view(parts@) =~= expected);
    }
    parts
}

/// The parameter blocks of a header value.
fn parse_header_value(value: &Vec<char>) -> (parts: HeaderValueParts)
    ensures
        parts@ == header_value(value@),
{
    let blocks = split_on(value, ';');
    let mut parts: Vec<Vec<HeaderValuePart>> = Vec::new();
    let mut i: usize = 0;
    while i < blocks.len()
        invariant
            i <= blocks.len(),
            parts.len() == i,
            texts(blocks@) == split(value@, ';'),
            forall|j: int|
                0 <= j < i ==> block_view((#[trigger] parts@[j])@) == block_parts(blocks@[j]@),
        decreases blocks.len() - i,
    {
        parts.push(parse_block(&blocks[i]));
        i += 1;
    }
    proof {
        let expected = header_value(value@);
        assert(parts_view(parts@).len() == expected.len());
        assert forall|j: int| 0 <= j < expected.len() implies parts_view(parts@)[j]
            == expected[j] by {
            assert(block_view(parts@[j]@) == block_parts(blocks@[j]@));
            assert(texts(blocks@)[j] == blocks@[j]@);
        }
        assert(parts_view(parts@) =~= expected);
    }
    HeaderValueParts { parts }
}

/// The two sides of a header line, split at its first colon and trimmed.
pub fn split_header_line(line: &Vec<char>) -> (sides: Option<(Vec<char>, Vec<char>)>)
    ensures
        match sides {
            Some((key, value)) => header_sides(line@) == Some((key@, value@)),
            None => header_sides(line@) is None,
        },
{
    let t = trimmed(line);
    let i = position(&t, ':');
    if i < t.len() {
        let key = trimmed(&copy_range(&t, 0, i));
        let value = trimmed(&copy_range(&t, i + 1, t.len()));
        Some((key, value))
    } else {
        None
    }
}

/// The arguments of a text in which `&` separates them.
pub fn parse_query_arguments(subject: &Vec<char>) -> (arguments: TextMap<String>)
    ensures
        arguments@ == query_arguments(subject@),
        arguments.distinct(),
{
    let items = split_on(subject, '&');
    let mut arguments: TextMap<String> = TextMap::new();
    let mut i: usize = 0;
    while i < items.len()
        invariant
            i <= items.len(),
            arguments@ == query_map(texts(items@).take(i as int)),
            arguments.distinct(),
        decreases items.len() - i,
    {
        let sides = split_on(&items[i], '=');
        proof {
            let done = texts(items@).take(i + 1);
            assert(done.drop_last() =~= texts(items@).take(i as int));
            assert(done.last() == items@[i as int]@);
            assert(texts(sides@)[0] == sides@[0]@);
            if sides.len() == 2 {
                assert(texts(sides@)[1] == sides@[1]@);
            }
        }
        if sides.len() == 2 {
            arguments.insert(string_of(&sides[0]), string_of(&sides[1]));
        } else {
            let mut one: Vec<char> = Vec::new();
            one.push('1');
            assert(one@ =~= seq!['1']);
            arguments.insert(string_of(&sides[0]), string_of(&one));
        }
        i += 1;
    }
    assert(texts(items@).take(items.len() as int) =~= texts(items@));
    arguments
}

/// A request line.
#[derive(Debug)]
pub struct Line {
    pub method: Method,
    pub protocol: Protocol,
    pub request_uri: String,
    pub request_uri_base: String,
    pub query_arguments: TextMap<String>,
    pub query_string: String,
}

impl View for Line {
    type V = LineView;

    open spec fn view(&self) -> LineView {
        LineView {
            method: self.method,
            protocol: self.protocol,
            request_uri: self.request_uri@,
            request_uri_base: self.request_uri_base@,
            query_arguments: self.query_arguments@,
            query_string: self.query_string@,
        }
    }
}

impl Line {
    /// No argument of the query stands twice.
    pub open spec fn distinct(&self) -> bool {
        self.query_arguments.distinct()
    }
}

/// The method that a token names.
pub fn parse_method(token: &Vec<char>) -> (method: Method)
    ensures
        method == method_of(token@),
{
    if spells(token, "CONNECT") {
        Method::Connect
    } else if spells(token, "DELETE") {
        Method::Delete
    } else if spells(token, "GET") {
        Method::Get
    } else if spells(token, "HEAD") {
        Method::Head
    } else if spells(token, "OPTIONS") {
        Method::Options
    } else if spells(token, "PATCH") {
        Method::Patch
    } else if spells(token, "PUT") {
        Method::Put
    } else if spells(token, "POST") {
        Method::Post
    } else if spells(token, "TRACE") {
        Method::Trace
    } else {
        Method::Invalid
    }
}

/// The protocol version that a token names.
pub fn parse_protocol(token: &Vec<char>) -> (protocol: Protocol)
    ensures
        protocol == protocol_of(token@),
{
    if spells(token, "HTTP/0.9") {
        Protocol::V0_9
    } else if spells(token, "HTTP/1.0") {
        Protocol::V1_0
    } else if spells(token, "HTTP/1.1") {
        Protocol::V1_1
    } else if spells(token, "HTTP/2.0") {
        Protocol::V2_0
    } else {
        Protocol::Invalid
    }
}

/// The path, the query string and the arguments of a URI.
pub fn uri_parts(uri: &Vec<char>) -> (parts: (String, String, TextMap<String>))
    ensures
        parts.0@ == uri_base(uri@),
        parts.1@ == uri_query(uri@),
        parts.2@ == uri_arguments(uri@),
        parts.2.distinct(),
{
    let i = position(uri, '?');
    if i < uri.len() {
        let base = copy_range(uri, 0, i);
        let query = copy_range(uri, i + 1, uri.len());
        let arguments = if query.len() == 0 {
            TextMap::new()
        } else {
            parse_query_arguments(&query)
        };
        (string_of(&base), string_of(&query), arguments)
    } else {
        (string_of(uri), String::new(), TextMap::new())
    }
}

/// The request line that a method, a URI and a protocol make.
pub fn make_line(method: Method, uri: &Vec<char>, protocol: Protocol) -> (line: Line)
    ensures
        line@ == line_of(method, uri@, protocol),
        line.distinct(),
{
    let (request_uri_base, query_string, query_arguments) = uri_parts(uri);
    Line {
        method,
        protocol,
        request_uri: string_of(uri),
        request_uri_base,
        query_arguments,
        query_string,
    }
}

/// The text that names a protocol version.
pub fn protocol_name(protocol: Protocol) -> (text: &'static str)
    ensures
        text@ == protocol_text(protocol),
{
    match protocol {
        Protocol::V0_9 => "HTTP/0.9",
        Protocol::V1_0 => "HTTP/1.0",
        Protocol::V1_1 => "HTTP/1.1",
        Protocol::V2_0 => "HTTP/2.0",
        Protocol::Invalid => "INVALID",
    }
}

/// The body of a request: the arguments of one line, or parts by name.
#[derive(Debug)]
pub enum BodyContentType {
    SinglePart(TextMap<String>),
    MultiPart(TextMap<MultiPartValue>),
}

/// One part of a body in parts: its bytes and its own headers.
#[derive(Debug)]
pub struct MultiPartValue {
    pub body: Vec<u8>,
    pub headers: TextMap<HeaderValueParts>,
}

impl View for MultiPartValue {
    type V = MultiPartView;

    open spec fn view(&self) -> MultiPartView {
        MultiPartView { body: self.body@, headers: self.headers@ }
    }
}

impl View for BodyContentType {
    type V = BodyView;

    open spec fn view(&self) -> BodyView {
        match self {
            BodyContentType::SinglePart(arguments) => BodyView::SinglePart(arguments@),
            BodyContentType::MultiPart(parts) => BodyView::MultiPart(parts@),
        }
    }
}

impl MultiPartValue {
    /// No header of the part stands twice.
    pub open spec fn distinct(&self) -> bool {
        self.headers.distinct()
    }
}

/// Whether no part stands twice, nor a header in any part.
pub open spec fn distinct_parts(parts: TextMap<MultiPartValue>) -> bool {
    &&& parts.distinct()
    &&& forall|part: MultiPartValue| #[trigger]
        parts.value_seq().contains(part) ==> part.distinct()
}

impl BodyContentType {
    /// No argument or part stands twice, nor a header in any part.
    pub open spec fn distinct(&self) -> bool {
        match self {
            BodyContentType::SinglePart(arguments) => arguments.distinct(),
            BodyContentType::MultiPart(parts) => distinct_parts(*parts),
        }
    }
}

/// A request: its line, its headers and its body.
#[derive(Debug)]
pub struct Message {
    pub body: BodyContentType,
    pub headers: TextMap<HeaderValueParts>,
    pub request_line: Line,
}

impl View for Message {
    type V = MessageView;

    open spec fn view(&self) -> MessageView {
        MessageView {
            body: self.body@,
            headers: self.headers@,
            request_line: self.request_line@,
        }
    }
}

impl Message {
    /// Each map of the request holds each of its keys once, so that the
    /// number of its entries is the number of its keys.
    pub open spec fn distinct(&self) -> bool {
        &&& self.body.distinct()
        &&& self.headers.distinct()
        &&& self.request_line.distinct()
    }

    /// Whether a request with this method carries a body.
    pub fn method_has_request_body(method: &Method) -> (valence: SettingValence)
        ensures
            valence == request_body_policy(*method),
    {
        match method {
            Method::Connect => SettingValence::Yes,
            Method::Delete => SettingValence::No,
            Method::Get => SettingValence::Optional,
            Method::Head => SettingValence::No,
            Method::Options => SettingValence::Optional,
            Method::Patch => SettingValence::Yes,
            Method::Post => SettingValence::Yes,
            Method::Put => SettingValence::Yes,
            Method::Trace => SettingValence::Yes,
            Method::Invalid => SettingValence::Optional,
        }
    }

    /// Whether the response to this method carries a body: all but `HEAD`.
    pub fn _method_has_response_body(method: &Method) -> (b: bool)
        ensures
            b == (*method != Method::Head),
    {
        match method {
            Method::Head => false,
            _ => true,
        }
    }

    /// Whether this method leaves the resource as it is.
    pub fn _method_is_safe(method: &Method) -> (b: bool)
        ensures
            b == (*method == Method::Get || *method == Method::Head || *method == Method::Options
                || *method == Method::Trace || *method == Method::Invalid),
    {
        match method {
            Method::Get | Method::Head | Method::Options | Method::Trace | Method::Invalid => true,
            _ => false,
        }
    }

    /// Whether a repeated request with this method does what one does.
    pub fn _method_is_idempotent(method: &Method) -> (b: bool)
        ensures
            b == (*method != Method::Connect && *method != Method::Patch && *method
                != Method::Post),
    {
        match method {
            Method::Connect | Method::Patch | Method::Post => false,
            _ => true,
        }
    }

    /// Whether the response to this method may be kept and served again.
    pub fn _method_is_cacheable(method: &Method) -> (b: bool)
        ensures
            b == (*method == Method::Get || *method == Method::Head || *method == Method::Post),
    {
        match method {
            Method::Get | Method::Head | Method::Post => true,
            _ => false,
        }
    }

    /// The arguments of a query string or of a body line; nothing where the
    /// text is empty.
    pub fn get_query_args_from_string(subject: &str) -> (r: Option<TextMap<String>>)
        ensures
            match r {
                Some(arguments) => query_args(subject@) == Some(arguments@)
                    && arguments.distinct(),
                None => query_args(subject@) is None,
            },
    {
        let chars = chars_of(subject);
        if chars.len() == 0 {
            None
        } else {
            Some(parse_query_arguments(&chars))
        }
    }

    /// The text that names a protocol version.
    pub fn get_protocol_text(protocol: &Protocol) -> (text: String)
        ensures
            text@ == protocol_text(*protocol),
    {
        string_of(&chars_of(protocol_name(*protocol)))
    }

    /// The body that one line of arguments makes; nothing where the line is
    /// empty.
    pub fn get_message_body(body: &str) -> (r: Option<BodyContentType>)
        ensures
            match r {
                Some(content) => query_args(body@) matches Some(arguments) && content@
                    == BodyView::SinglePart(arguments) && content.distinct(),
                None => query_args(body@) is None,
            },
    {
        match Message::get_query_args_from_string(body) {
            Some(arguments) => Some(BodyContentType::SinglePart(arguments)),
            None => None,
        }
    }

    /// The key and the structured value of a header line; nothing where the
    /// line has no colon.
    pub fn get_header_field(line: &str) -> (r: Option<(String, HeaderValueParts)>)
        ensures
            match r {
                Some((key, value)) => header_field(line@) == Some((key@, value@)),
                None => header_field(line@) is None,
            },
    {
        let chars = chars_of(line);
        Message::header_field_of(&chars)
    }

    /// The key and the structured value of a header line already in
    /// characters.
    pub fn header_field_of(line: &Vec<char>) -> (r: Option<(String, HeaderValueParts)>)
        ensures
            match r {
                Some((key, value)) => header_field(line@) == Some((key@, value@)),
                None => header_field(line@) is None,
            },
    {
        match split_header_line(line) {
            Some((key, value)) => Some((string_of(&key), parse_header_value(&value))),
            None => None,
        }
    }

    /// The request line that a line of text holds: `METHOD URI PROTOCOL`
    /// with a known method and protocol, or a lone path.
    pub fn get_request_line(line: &str) -> (r: Option<Line>)
        ensures
            match r {
                Some(parsed) => request_line(line@) == Some(parsed@) && parsed.distinct(),
                None => request_line(line@) is None,
            },
    {
        let chars = chars_of(line);
        Message::request_line_of(&chars)
    }

    /// The request line that a line already in characters holds.
    pub fn request_line_of(line: &Vec<char>) -> (r: Option<Line>)
        ensures
            match r {
                Some(parsed) => request_line(line@) == Some(parsed@) && parsed.distinct(),
                None => request_line(line@) is None,
            },
    {
        let t = trimmed(line);
        let tokens = split_on(&t, ' ');
        proof {
            assert(texts(tokens@)[0] == tokens@[0]@);
        }
        if tokens.len() == 3 {
            proof {
                assert(texts(tokens@)[1] == tokens@[1]@);
                assert(texts(tokens@)[2] == tokens@[2]@);
            }
            let method = parse_method(&tokens[0]);
            let protocol = parse_protocol(&tokens[2]);
            if method != Method::Invalid && protocol != Protocol::Invalid {
                Some(make_line(method, &tokens[1], protocol))
            } else {
                None
            }
        } else if tokens.len() == 1 {
            let uri = stripped(&tokens[0], '\0');
            if uri.len() > 0 {
                Some(make_line(Method::Get, &uri, Protocol::V0_9))
            } else {
                None
            }
        } else {
            None
        }
    }
}

/// How the parser reads the body: line by line, or in parts between the
/// lines that hold the boundary.
#[derive(Debug)]
pub enum ParserMode {
    Boundaries(Vec<u8>),
    Lines,
}

impl View for ParserMode {
    type V = Option<Seq<u8>>;

    open spec fn view(&self) -> Option<Seq<u8>> {
        match self {
            ParserMode::Boundaries(boundary) => Some(boundary@),
            ParserMode::Lines => None,
        }
    }
}

/// What the parser holds between two bytes, but for the mode.
struct Parser {
    request_line: Option<Line>,
    headers: TextMap<HeaderValueParts>,
    arguments: TextMap<String>,
    parts: TextMap<MultiPartValue>,
    in_parts: bool,
    section: ParserSection,
    part: MultiPartSection,
    plain: bool,
    dashed: bool,
    start: usize,
    start_data: usize,
    end_data: usize,
    stopped: bool,
}

impl Parser {
    /// The state of the parser, with the mode that is kept beside it.
    spec fn scan(&self, mode: ParserMode) -> Scan {
        Scan {
            request_line: match self.request_line {
                Some(line) => Some(line@),
                None => None,
            },
            headers: self.headers@,
            body: if self.in_parts {
                BodyView::MultiPart(self.parts@)
            } else {
                BodyView::SinglePart(self.arguments@)
            },
            section: self.section,
            boundary: mode@,
            part: self.part,
            plain: self.plain,
            dashed: self.dashed,
            start: self.start as int,
            start_data: self.start_data as int,
            end_data: self.end_data as int,
            stopped: self.stopped,
        }
    }

    /// Each map of the parser holds each of its keys once.
    spec fn distinct(&self) -> bool {
        &&& self.headers.distinct()
        &&& self.arguments.distinct()
        &&& distinct_parts(self.parts)
        &&& self.request_line matches Some(line) ==> line.distinct()
    }

    fn new() -> (parser: Parser)
        ensures
            parser.scan(ParserMode::Lines) == initial(),
            parser.distinct(),
    {
        Parser {
            request_line: None,
            headers: TextMap::new(),
            arguments: TextMap::new(),
            parts: TextMap::new(),
            in_parts: false,
            section: ParserSection::Line,
            part: MultiPartSection::Start,
            plain: true,
            dashed: true,
            start: 0,
            start_data: 0,
            end_data: 0,
            stopped: false,
        }
    }

    /// The blank line that ends the headers.
    fn end_of_headers(&mut self, mode: &mut ParserMode)
        requires
            old(self).distinct(),
            old(self).request_line is Some,
            *old(mode) == ParserMode::Lines,
        ensures
            final(self).distinct(),
            final(self).scan(*final(mode)) == end_of_headers(old(self).scan(*old(mode))),
    {
        let policy = match &self.request_line {
            Some(line) => Message::method_has_request_body(&line.method),
            None => SettingValence::Optional,
        };
        if policy == SettingValence::No {
            self.stopped = true;
            return ;
        }
        let mut boundary: Option<String> = None;
        if let Some(content_type) = self.headers.get("Content-Type") {
            boundary = content_type.get_key_value("boundary");
        }
        match boundary {
            Some(text) => {
                *mode = ParserMode::Boundaries(text.as_str().as_bytes_vec());
                self.section = ParserSection::MessageBody;
                self.in_parts = true;
                self.parts = TextMap::new();
                self.part = MultiPartSection::Start;
                self.plain = true;
                self.dashed = true;
            },
            None => {
                self.section = ParserSection::MessageBody;
            },
        }
    }
}

impl Message {
    /// Reads one line of text into the parser's state, by the section that
    /// the parser is in.
    fn parse_line(line: &Vec<char>, parser: &mut Parser, mode: &mut ParserMode)
        requires
            old(parser).distinct(),
            old(parser).section != ParserSection::Line ==> old(parser).request_line is Some,
            *old(mode) == ParserMode::Lines,
            !old(parser).in_parts,
        ensures
            final(parser).distinct(),
            final(parser).scan(*final(mode)) == feed_line(old(parser).scan(*old(mode)), line@),
    {
        match parser.section {
            ParserSection::Line => {
                match Message::request_line_of(line) {
                    Some(parsed) => {
                        parser.request_line = Some(parsed);
                        parser.section = ParserSection::HeaderFields;
                    },
                    None => {
                        parser.stopped = true;
                    },
                }
            },
            ParserSection::HeaderFields => {
                if trimmed(line).len() == 0 {
                    parser.end_of_headers(mode);
                } else {
                    match Message::header_field_of(line) {
                        Some((key, value)) => {
                            parser.headers.insert(key, value);
                        },
                        None => {},
                    }
                }
            },
            ParserSection::MessageBody => {
                if line.len() > 0 {
                    parser.arguments = parse_query_arguments(line);
                }
            },
        }
    }
}

impl Parser {
    /// Reads the bytes of one line.
    fn feed_bytes(&mut self, mode: &mut ParserMode, line: &[u8])
        requires
            old(self).distinct(),
            old(self).section != ParserSection::Line ==> old(self).request_line is Some,
            *old(mode) == ParserMode::Lines,
            !old(self).in_parts,
        ensures
            final(self).distinct(),
            final(self).scan(*final(mode)) == feed_bytes(old(self).scan(*old(mode)), line@),
            final(self).start == old(self).start,
            final(self).start_data == old(self).start_data,
            final(self).end_data == old(self).end_data,
    {
        match decode(line) {
            Some(text) => {
                Message::parse_line(&text, self, mode);
            },
            None => {
                if self.section == ParserSection::Line {
                    self.stopped = true;
                }
            },
        }
    }

    /// Reads the byte at `i` while the parser reads lines.
    fn line_step(&mut self, mode: &mut ParserMode, request: &[u8], i: usize)
        requires
            old(self).distinct(),
            i < request.len(),
            *old(mode) == ParserMode::Lines,
            scan_inv(request@, old(self).scan(*old(mode)), i as int),
            !old(self).in_parts,
        ensures
            final(self).distinct(),
            final(self).scan(*final(mode)) == line_step(
                request@,
                old(self).scan(*old(mode)),
                i as int,
            ),
            scan_inv(request@, final(self).scan(*final(mode)), i + 1),
    {
        let b = request[i];
        if b == 10 && i > 0 && request[i - 1] == 13 {
            let line = slice_subrange(request, self.start, i - 1);
            self.feed_bytes(mode, line);
            self.start = i + 1;
        } else if b != 13 && (b == 0 || i == request.len() - 1) {
            let end = if b == 0 {
                i
            } else {
                i + 1
            };
            let line = slice_subrange(request, self.start, end);
            self.feed_bytes(mode, line);
            self.stopped = true;
        }
    }

    /// Keeps the part that the bytes between the last two boundaries hold.
    fn with_part(&mut self, request: &[u8], Ghost(mode): Ghost<ParserMode>)
        requires
            old(self).distinct(),
            old(self).in_parts,
        ensures
            final(self).distinct(),
            final(self).scan(mode) == with_part(request@, old(self).scan(mode)),
            final(self).in_parts,
    {
        if self.start_data < self.end_data && self.end_data < request.len() {
            let data = slice_subrange(request, self.start_data, self.end_data);
            match Message::get_query_args_from_multipart_blob(data) {
                Some((name, value)) => {
                    self.parts.insert(name, value);
                },
                None => {},
            }
        }
    }

    /// Reads the byte at `i` at the start of a line that may be a boundary.
    fn boundary_step(&mut self, boundary: &Vec<u8>, request: &[u8], i: usize, inside: bool)
        requires
            old(self).distinct(),
            i < request.len(),
            old(self).in_parts,
            old(self).start <= i,
        ensures
            final(self).distinct(),
            final(self).scan(ParserMode::Boundaries(*boundary)) == boundary_step(
                request@,
                boundary@,
                old(self).scan(ParserMode::Boundaries(*boundary)),
                i as int,
                inside,
            ),
            final(self).in_parts,
    {
        let b = request[i];
        let k = i - self.start;
        let plain = self.plain && k < boundary.len() && boundary[k] == b;
        let dashed = self.dashed && (if k < 2 {
            b == 45
        } else {
            k - 2 < boundary.len() && boundary[k - 2] == b
        });
        if boundary.len() > 0 && ((plain && k + 1 == boundary.len()) || (dashed && k >= 1 && k
            - 1 == boundary.len())) {
            if inside {
                self.with_part(request, Ghost(ParserMode::Boundaries(*boundary)));
            }
            self.part = MultiPartSection::StartSuffix;
            self.plain = true;
            self.dashed = true;
        } else if !plain && !dashed {
            self.part = if inside {
                MultiPartSection::End
            } else {
                MultiPartSection::Skipping
            };
            self.plain = true;
            self.dashed = true;
        } else {
            self.plain = plain;
            self.dashed = dashed;
        }
    }

    /// Reads the byte at `i` while the parser reads a body in parts.
    fn part_byte_step(&mut self, boundary: &Vec<u8>, request: &[u8], i: usize)
        requires
            old(self).distinct(),
            i < request.len(),
            old(self).in_parts,
            scan_inv(request@, old(self).scan(ParserMode::Boundaries(*boundary)), i as int),
        ensures
            final(self).distinct(),
            final(self).scan(ParserMode::Boundaries(*boundary)) == part_byte_step(
                request@,
                boundary@,
                old(self).scan(ParserMode::Boundaries(*boundary)),
                i as int,
            ),
            scan_inv(request@, final(self).scan(ParserMode::Boundaries(*boundary)), i + 1),
            final(self).in_parts,
    {
        let b = request[i];
        if b == 0 {
            self.stopped = true;
            return ;
        }
        let ends_line = b == 10 && i > 0 && request[i - 1] == 13;
        match self.part {
            MultiPartSection::Skipping => {
                if ends_line {
                    self.part = MultiPartSection::Start;
                    self.start = i + 1;
                    self.plain = true;
                    self.dashed = true;
                }
            },
            MultiPartSection::Start => {
                self.boundary_step(boundary, request, i, false);
            },
            MultiPartSection::StartSuffix => {
                if ends_line {
                    self.part = MultiPartSection::End;
                    self.start_data = i + 1;
                } else if b != 13 {
                    self.part = MultiPartSection::Skipping;
                }
            },
            MultiPartSection::End => {
                if ends_line {
                    self.part = MultiPartSection::EndBoundary;
                    self.end_data = i - 1;
                    self.start = i + 1;
                    self.plain = true;
                    self.dashed = true;
                }
            },
            MultiPartSection::EndBoundary => {
                self.boundary_step(boundary, request, i, true);
            },
        }
    }
}

impl Message {
    /// The part that the bytes between two boundaries hold: its name, its
    /// headers and the bytes after the blank line that ends the headers.
    /// Nothing where the part has no name or no bytes.
    pub fn get_query_args_from_multipart_blob(data: &[u8]) -> (r: Option<(String, MultiPartValue)>)
        ensures
            match r {
                Some((name, value)) => multipart_part(data@) == Some((name@, value@))
                    && value.distinct(),
                None => multipart_part(data@) is None,
            },
    {
        let mut headers: TextMap<HeaderValueParts> = TextMap::new();
        let mut start: usize = 0;
        let mut stopped = false;
        let mut index: usize = 0;
        let ghost first = PartScan { start: 0, headers: Map::empty(), stopped: false };
        while index < data.len() && !stopped
            invariant
                start <= index <= data.len(),
                headers.distinct(),
                part_headers(data@, first, 0) == part_headers(
                    data@,
                    PartScan { start: start as int, headers: headers@, stopped },
                    index as int,
                ),
            decreases data.len() - index,
        {
            if data[index] == 10 && index > 0 && data[index - 1] == 13 {
                let line = slice_subrange(data, start, index);
                match decode(line) {
                    Some(text) => {
                        if trimmed(&text).len() == 0 {
                            stopped = true;
                        } else {
                            match Message::header_field_of(&text) {
                                Some((key, value)) => {
                                    headers.insert(key, value);
                                },
                                None => {},
                            }
                        }
                    },
                    None => {},
                }
                start = index + 1;
            }
            index += 1;
        }
        let mut name: Vec<char> = Vec::new();
        if let Some(disposition) = headers.get("Content-Disposition") {
            if let Some(quoted) = disposition.get_key_value("name") {
                name = stripped(&chars_of(quoted.as_str()), '"');
            }
        }
        if name.len() > 0 && start < data.len() {
            let body = vstd::slice::slice_to_vec(slice_subrange(data, start, data.len()));
            assert(body@ =~= data@.skip(start as int));
            Some((string_of(&name), MultiPartValue { body, headers }))
        } else {
            None
        }
    }

    /// The request that the bytes hold. The first line is the request line;
    /// header lines follow until a blank line; then comes the body, unless
    /// the method carries none. A NUL byte or the end of the bytes ends the
    /// request. There is no request where the first line is no request line.
    pub fn from_tcp_stream(request: &[u8]) -> (r: Option<Message>)
        ensures
            reads(r, request@),
            r matches Some(message) ==> message.distinct(),
    {
        let mut parser = Parser::new();
        let mut mode = ParserMode::Lines;
        let mut i: usize = 0;
        while i < request.len() && !parser.stopped
            invariant
                i <= request.len(),
                scan_inv(request@, parser.scan(mode), i as int),
                parser.distinct(),
                parser.in_parts == (mode@ is Some),
                run(request@, initial(), 0) == run(request@, parser.scan(mode), i as int),
            decreases request.len() - i,
        {
            match &mode {
                ParserMode::Boundaries(boundary) => {
                    parser.part_byte_step(boundary, request, i);
                },
                ParserMode::Lines => {
                    parser.line_step(&mut mode, request, i);
                },
            }
            i += 1;
        }
        let Parser { request_line, headers, arguments, parts, in_parts, .. } = parser;
        let body = if in_parts {
            BodyContentType::MultiPart(parts)
        } else {
            BodyContentType::SinglePart(arguments)
        };
        match request_line {
            Some(line) => Some(Message { body, headers, request_line: line }),
            None => None,
        }
    }
}

/// Whether `r` is what reading the bytes gives.
pub open spec fn reads(r: Option<Message>, bytes: Seq<u8>) -> bool {
    match r {
        Some(message) => parse(bytes) == Some(message@),
        None => parse(bytes) is None,
    }
}

/// Reading the same bytes twice gives the same: no request both times, or
/// two requests that hold the same line, headers and body.
pub proof fn same_bytes_same_request(first: Option<Message>, second: Option<Message>, bytes: Seq<u8>)
    requires
        reads(first, bytes),
        reads(second, bytes),
    ensures
        first is Some == second is Some,
        first is Some ==> first->0@ == second->0@,
{
}

} // verus!

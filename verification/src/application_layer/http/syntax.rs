//! The syntax of an HTTP request, stated on sequences of characters.

use vstd::prelude::*;
use crate::text::{
    index_of, is_whitespace, lemma_index_of_bounds, lemma_index_of_is, lemma_split_concat,
    lemma_split_first, lemma_split_none, lemma_strip_same, lemma_trim_after_space,
    lemma_trim_same, split, strip, trim, trim_end, trim_start,
};
use super::request::{Method, Protocol, SettingValence};

verus! {

/// One sub-part of a header value: a bare token or a key with its value.
pub ghost enum PartView {
    Single(Seq<char>),
    KeyValue(Seq<char>, Seq<char>),
}

/// A header value: parameter blocks in order, each a sequence of sub-parts.
pub type ValueView = Seq<Seq<PartView>>;

/// The method that a token of the request line names.
pub open spec fn method_of(token: Seq<char>) -> Method {
    if token == "CONNECT"@ {
        Method::Connect
    } else if token == "DELETE"@ {
        Method::Delete
    } else if token == "GET"@ {
        Method::Get
    } else if token == "HEAD"@ {
        Method::Head
    } else if token == "OPTIONS"@ {
        Method::Options
    } else if token == "PATCH"@ {
        Method::Patch
    } else if token == "PUT"@ {
        Method::Put
    } else if token == "POST"@ {
        Method::Post
    } else if token == "TRACE"@ {
        Method::Trace
    } else {
        Method::Invalid
    }
}

/// The text that names a protocol version.
pub open spec fn protocol_text(protocol: Protocol) -> Seq<char> {
    match protocol {
        Protocol::V0_9 => "HTTP/0.9"@,
        Protocol::V1_0 => "HTTP/1.0"@,
        Protocol::V1_1 => "HTTP/1.1"@,
        Protocol::V2_0 => "HTTP/2.0"@,
        Protocol::Invalid => "INVALID"@,
    }
}

/// The protocol version that a token of the request line names.
pub open spec fn protocol_of(token: Seq<char>) -> Protocol {
    if token == "HTTP/0.9"@ {
        Protocol::V0_9
    } else if token == "HTTP/1.0"@ {
        Protocol::V1_0
    } else if token == "HTTP/1.1"@ {
        Protocol::V1_1
    } else if token == "HTTP/2.0"@ {
        Protocol::V2_0
    } else {
        Protocol::Invalid
    }
}

/// Whether a request with this method carries a body.
pub open spec fn request_body_policy(method: Method) -> SettingValence {
    match method {
        Method::Delete | Method::Head => SettingValence::No,
        Method::Get | Method::Options | Method::Invalid => SettingValence::Optional,
        _ => SettingValence::Yes,
    }
}

/// The text of one sub-part: the token, or key, `=` and value.
pub open spec fn part_text(part: PartView) -> Seq<char> {
    match part {
        PartView::Single(token) => token,
        PartView::KeyValue(key, value) => key + seq!['='] + value,
    }
}

/// The sub-parts of a block, joined by a comma and a space.
pub open spec fn block_text(block: Seq<PartView>) -> Seq<char>
    decreases block.len(),
{
    if block.len() == 0 {
        Seq::empty()
    } else if block.len() == 1 {
        part_text(block[0])
    } else {
        block_text(block.drop_last()) + seq![',', ' '] + part_text(block.last())
    }
}

/// The blocks of a header value, joined by a semicolon and a space.
pub open spec fn value_text(value: ValueView) -> Seq<char>
    decreases value.len(),
{
    if value.len() == 0 {
        Seq::empty()
    } else if value.len() == 1 {
        block_text(value[0])
    } else {
        value_text(value.drop_last()) + seq![';', ' '] + block_text(value.last())
    }
}

/// The value of the first sub-part of `block` whose key is `key`.
pub open spec fn block_lookup(block: Seq<PartView>, key: Seq<char>) -> Option<Seq<char>>
    decreases block.len(),
{
    if block.len() == 0 {
        None
    } else {
        match block[0] {
            PartView::KeyValue(k, v) if k == key => Some(v),
            _ => block_lookup(block.drop_first(), key),
        }
    }
}

/// The value of the first sub-part whose key is `key`, the blocks taken in
/// order and the sub-parts of a block in order.
pub open spec fn lookup(value: ValueView, key: Seq<char>) -> Option<Seq<char>>
    decreases value.len(),
{
    if value.len() == 0 {
        None
    } else {
        match block_lookup(value[0], key) {
            Some(v) => Some(v),
            None => lookup(value.drop_first(), key),
        }
    }
}

/// One sub-part of a header value: split at its first `=`, both sides
/// trimmed; a bare token where there is no `=`.
pub open spec fn sub_part(text: Seq<char>) -> PartView {
    let i = index_of(text, '=');
    if 0 <= i < text.len() {
        PartView::KeyValue(trim(text.take(i)), trim(text.skip(i + 1)))
    } else {
        PartView::Single(trim(text))
    }
}

/// The sub-parts of a parameter block, which commas separate.
pub open spec fn block_parts(block: Seq<char>) -> Seq<PartView> {
    let pieces = split(block, ',');
    Seq::new(pieces.len(), |i: int| sub_part(pieces[i]))
}

/// The parameter blocks of a header value, which semicolons separate.
pub open spec fn header_value(value: Seq<char>) -> ValueView {
    let blocks = split(value, ';');
    Seq::new(blocks.len(), |i: int| block_parts(blocks[i]))
}

/// The two sides of a header line, split at its first colon and trimmed,
/// or nothing where the line has no colon.
pub open spec fn header_sides(line: Seq<char>) -> Option<(Seq<char>, Seq<char>)> {
    let t = trim(line);
    let i = index_of(t, ':');
    if 0 <= i < t.len() {
        Some((trim(t.take(i)), trim(t.skip(i + 1))))
    } else {
        None
    }
}

/// The key and the structured value of a header line.
pub open spec fn header_field(line: Seq<char>) -> Option<(Seq<char>, ValueView)> {
    match header_sides(line) {
        Some((key, value)) => Some((key, header_value(value))),
        None => None,
    }
}

/// The key and the value of one argument: the two sides of its only `=`;
/// with no `=`, or with more than one, the text before the first `=` and the
/// value `1`.
pub open spec fn query_pair(item: Seq<char>) -> (Seq<char>, Seq<char>) {
    let sides = split(item, '=');
    if sides.len() == 2 {
        (sides[0], sides[1])
    } else {
        (sides[0], seq!['1'])
    }
}

/// The map that the arguments make, a later one overwriting an earlier one
/// of the same key.
pub open spec fn query_map(items: Seq<Seq<char>>) -> Map<Seq<char>, Seq<char>>
    decreases items.len(),
{
    if items.len() == 0 {
        Map::empty()
    } else {
        let pair = query_pair(items.last());
        query_map(items.drop_last()).insert(pair.0, pair.1)
    }
}

/// The arguments of a text in which `&` separates them.
pub open spec fn query_arguments(subject: Seq<char>) -> Map<Seq<char>, Seq<char>> {
    query_map(split(subject, '&'))
}

/// The arguments of a query string or of a body line; nothing where the
/// text is empty.
pub open spec fn query_args(subject: Seq<char>) -> Option<Map<Seq<char>, Seq<char>>> {
    if subject.len() == 0 {
        None
    } else {
        Some(query_arguments(subject))
    }
}

/// A request line.
pub ghost struct LineView {
    pub method: Method,
    pub protocol: Protocol,
    pub request_uri: Seq<char>,
    pub request_uri_base: Seq<char>,
    pub query_arguments: Map<Seq<char>, Seq<char>>,
    pub query_string: Seq<char>,
}

/// The path of a URI: what stands before its first `?`.
pub open spec fn uri_base(uri: Seq<char>) -> Seq<char> {
    let i = index_of(uri, '?');
    if 0 <= i < uri.len() {
        uri.take(i)
    } else {
        uri
    }
}

/// The query string of a URI: what stands after its first `?`.
pub open spec fn uri_query(uri: Seq<char>) -> Seq<char> {
    let i = index_of(uri, '?');
    if 0 <= i < uri.len() {
        uri.skip(i + 1)
    } else {
        Seq::empty()
    }
}

/// The arguments of a URI: those of its query string, none where it is empty.
pub open spec fn uri_arguments(uri: Seq<char>) -> Map<Seq<char>, Seq<char>> {
    match query_args(uri_query(uri)) {
        Some(arguments) => arguments,
        None => Map::empty(),
    }
}

/// The request line that a method, a URI and a protocol make.
pub open spec fn line_of(method: Method, uri: Seq<char>, protocol: Protocol) -> LineView {
    LineView {
        method,
        protocol,
        request_uri: uri,
        request_uri_base: uri_base(uri),
        query_arguments: uri_arguments(uri),
        query_string: uri_query(uri),
    }
}

/// The request line that three tokens make, if method and protocol are known.
pub open spec fn full_line(tokens: Seq<Seq<char>>) -> Option<LineView>
    recommends
        tokens.len() == 3,
{
    let method = method_of(tokens[0]);
    let protocol = protocol_of(tokens[2]);
    if method != Method::Invalid && protocol != Protocol::Invalid {
        Some(line_of(method, tokens[1], protocol))
    } else {
        None
    }
}

/// The request line of a lone path: a `GET` of the oldest protocol version.
/// NUL characters around the path do not count; an empty path is no request.
pub open spec fn path_line(token: Seq<char>) -> Option<LineView> {
    let uri = strip(token, '\0');
    if uri.len() > 0 {
        Some(line_of(Method::Get, uri, Protocol::V0_9))
    } else {
        None
    }
}

/// The request line that a line of text holds: three tokens that single
/// spaces separate, or one token, the path alone.
pub open spec fn request_line(line: Seq<char>) -> Option<LineView> {
    let tokens = split(trim(line), ' ');
    if tokens.len() == 3 {
        full_line(tokens)
    } else if tokens.len() == 1 {
        path_line(tokens[0])
    } else {
        None
    }
}

/// Whether `c` is one of the characters of which the names of methods and
/// protocols are made: capital letters, digits, `/` and `.`.
pub open spec fn is_name_char(c: char) -> bool {
    ('A' <= c <= 'Z') || ('0' <= c <= '9') || c == '/' || c == '.'
}

/// The name of a known method is made of capital letters.
pub proof fn lemma_method_name(token: Seq<char>)
    requires
        method_of(token) != Method::Invalid,
    ensures
        token.len() > 0,
        forall|i: int| 0 <= i < token.len() ==> is_name_char(#[trigger] token[i]),
{
    reveal_strlit("CONNECT");
    reveal_strlit("DELETE");
    reveal_strlit("GET");
    reveal_strlit("HEAD");
    reveal_strlit("OPTIONS");
    reveal_strlit("PATCH");
    reveal_strlit("PUT");
    reveal_strlit("POST");
    reveal_strlit("TRACE");
}

/// The name of a known protocol version is made of capital letters,
/// digits, `/` and `.`.
pub proof fn lemma_protocol_name(token: Seq<char>)
    requires
        protocol_of(token) != Protocol::Invalid,
    ensures
        token.len() > 0,
        forall|i: int| 0 <= i < token.len() ==> is_name_char(#[trigger] token[i]),
{
    reveal_strlit("HTTP/0.9");
    reveal_strlit("HTTP/1.0");
    reveal_strlit("HTTP/1.1");
    reveal_strlit("HTTP/2.0");
}

/// A line of a known method, a path without a space and a known protocol,
/// with single spaces between them, is the request line of that method and
/// that protocol; its path is what stands before the first `?` of the URI,
/// and its query string what stands after it.
pub proof fn request_line_of_triple(method: Seq<char>, path: Seq<char>, protocol: Seq<char>)
    requires
        method_of(method) != Method::Invalid,
        protocol_of(protocol) != Protocol::Invalid,
        !path.contains(' '),
    ensures
        request_line(method + seq![' '] + path + seq![' '] + protocol) == Some(
            line_of(method_of(method), path, protocol_of(protocol)),
        ),
        index_of(path, '?') < path.len() ==> path == uri_base(path) + seq!['?'] + uri_query(path),
        index_of(path, '?') >= path.len() ==> path == uri_base(path) && uri_query(path).len() == 0,
        !uri_base(path).contains('?'),
{
    lemma_method_name(method);
    lemma_protocol_name(protocol);
    let line = method + seq![' '] + path + seq![' '] + protocol;
    assert(line[0] == method[0]);
    assert(line.last() == protocol.last());
    assert(is_name_char(method[0]));
    assert(is_name_char(protocol[protocol.len() - 1]));
    lemma_trim_same(line);
    assert(!method.contains(' ')) by {
        if method.contains(' ') {
            let i = choose|i: int| 0 <= i < method.len() && method[i] == ' ';
            assert(is_name_char(method[i]));
        }
    }
    assert(!protocol.contains(' ')) by {
        if protocol.contains(' ') {
            let i = choose|i: int| 0 <= i < protocol.len() && protocol[i] == ' ';
            assert(is_name_char(protocol[i]));
        }
    }
    let rest = path + seq![' '] + protocol;
    assert(line =~= method + seq![' '] + rest);
    lemma_split_first(method, rest, ' ');
    lemma_split_first(path, protocol, ' ');
    lemma_split_none(protocol, ' ');
    let tokens = split(line, ' ');
    assert(tokens =~= seq![method, path, protocol]);
    lemma_index_of_bounds(path, '?');
    let i = index_of(path, '?');
    if i < path.len() {
        assert(path =~= path.take(i) + seq!['?'] + path.skip(i + 1));
    }
    if uri_base(path).contains('?') {
        let j = choose|j: int| 0 <= j < uri_base(path).len() && uri_base(path)[j] == '?';
        assert(path[j] == '?');
    }
}

/// A line that is one token, a path that is not empty and has no white
/// space or NUL at its ends, is the request line of a `GET` of that path
/// with the oldest protocol version.
pub proof fn request_line_of_path(path: Seq<char>)
    requires
        path.len() > 0,
        !path.contains(' '),
        !is_whitespace(path[0]) && !is_whitespace(path.last()),
        path[0] != '\0' && path.last() != '\0',
    ensures
        request_line(path) == Some(line_of(Method::Get, path, Protocol::V0_9)),
{
    lemma_trim_same(path);
    lemma_split_none(path, ' ');
    lemma_strip_same(path, '\0');
}

/// A line of two tokens is no request line.
pub proof fn request_line_of_two_tokens(line: Seq<char>)
    requires
        split(trim(line), ' ').len() == 2,
    ensures
        request_line(line) is None,
{
}

/// Whatever the method and the URI, a line whose third token names no known
/// protocol version is no request line; and so is one whose first token
/// names no known method.
pub proof fn request_line_needs_known_names(line: Seq<char>)
    requires
        split(trim(line), ' ').len() == 3,
        protocol_of(split(trim(line), ' ')[2]) == Protocol::Invalid || method_of(
            split(trim(line), ' ')[0],
        ) == Method::Invalid,
    ensures
        request_line(line) is None,
{
}

/// A request line has a known method and a known protocol version.
pub proof fn request_line_is_valid(line: Seq<char>)
    ensures
        request_line(line) matches Some(parsed) ==> parsed.method != Method::Invalid
            && parsed.protocol != Protocol::Invalid,
{
}

/// Of two arguments with the same key the later one gives the value: after
/// any arguments, one more argument has its own value under its key.
pub proof fn later_argument_wins(items: Seq<Seq<char>>, item: Seq<char>)
    ensures
        query_map(items.push(item)).contains_key(query_pair(item).0),
        query_map(items.push(item))[query_pair(item).0] == query_pair(item).1,
        forall|key: Seq<char>|
            key != query_pair(item).0 && query_map(items).contains_key(key) ==> query_map(
                items.push(item),
            ).contains_key(key) && #[trigger] query_map(items.push(item))[key] == query_map(
                items,
            )[key],
{
    let all = items.push(item);
    assert(all.drop_last() =~= items);
    assert(all.last() == item);
}

/// Whether a text neither begins nor ends with white space.
pub open spec fn is_trimmed(text: Seq<char>) -> bool {
    text.len() > 0 ==> !is_whitespace(text[0]) && !is_whitespace(text.last())
}

/// Whether a text can stand in a header value as it is: it neither begins
/// nor ends with white space and holds neither `;` nor `,`.
pub open spec fn is_token(text: Seq<char>) -> bool {
    is_trimmed(text) && !text.contains(';') && !text.contains(',')
}

/// Whether the texts of a sub-part can stand in a header value as they are:
/// they are tokens, and neither a bare token nor a key holds `=`.
pub open spec fn is_plain_part(part: PartView) -> bool {
    match part {
        PartView::Single(token) => is_token(token) && !token.contains('='),
        PartView::KeyValue(key, value) => is_token(key) && !key.contains('=') && is_token(value),
    }
}

/// Whether a block has a sub-part, and each can stand as it is.
pub open spec fn is_plain_block(block: Seq<PartView>) -> bool {
    block.len() > 0 && forall|i: int| 0 <= i < block.len() ==> is_plain_part(#[trigger] block[i])
}

/// Whether a header value has a block, and each can stand as it is.
pub open spec fn is_plain_value(value: ValueView) -> bool {
    value.len() > 0 && forall|i: int| 0 <= i < value.len() ==> is_plain_block(#[trigger] value[i])
}

/// The space that the text of a header value has before each block and
/// each sub-part but the first.
spec fn lead(first: bool) -> Seq<char> {
    if first {
        Seq::empty()
    } else {
        seq![' ']
    }
}

proof fn lemma_lacks(a: Seq<char>, b: Seq<char>, c: char)
    requires
        !a.contains(c),
        !b.contains(c),
    ensures
        !(a + b).contains(c),
{
    let whole = a + b;
    if whole.contains(c) {
        let j = choose|j: int| 0 <= j < whole.len() && whole[j] == c;
        if j < a.len() {
            assert(a[j] == c);
            assert(a.contains(c));
        } else {
            assert(b[j - a.len()] == c);
            assert(b.contains(c));
        }
    }
}

proof fn lemma_one_lacks(x: char, c: char)
    requires
        x != c,
    ensures
        !seq![x].contains(c),
        !lead(true).contains(c),
{
    if seq![x].contains(c) {
        let j = choose|j: int| 0 <= j < seq![x].len() && seq![x][j] == c;
        assert(seq![x][j] == x);
    }
}

proof fn lemma_part_round_trip(part: PartView, first: bool)
    requires
        is_plain_part(part),
    ensures
        sub_part(lead(first) + part_text(part)) == part,
        !(lead(first) + part_text(part)).contains(','),
        !(lead(first) + part_text(part)).contains(';'),
{
    let text = lead(first) + part_text(part);
    lemma_one_lacks(' ', ',');
    lemma_one_lacks(' ', ';');
    lemma_one_lacks(' ', '=');
    lemma_one_lacks('=', ',');
    lemma_one_lacks('=', ';');
    match part {
        PartView::Single(token) => {
            lemma_lacks(lead(first), token, ',');
            lemma_lacks(lead(first), token, ';');
            lemma_lacks(lead(first), token, '=');
            lemma_index_of_bounds(text, '=');
            if index_of(text, '=') < text.len() {
                assert(text.contains(text[index_of(text, '=')]));
            }
            if first {
                assert(text =~= token);
                lemma_trim_same(token);
            } else {
                lemma_trim_after_space(token);
            }
        },
        PartView::KeyValue(key, value) => {
            lemma_lacks(key, seq!['='], ',');
            lemma_lacks(key, seq!['='], ';');
            lemma_lacks(key + seq!['='], value, ',');
            lemma_lacks(key + seq!['='], value, ';');
            lemma_lacks(lead(first), key + seq!['='] + value, ',');
            lemma_lacks(lead(first), key + seq!['='] + value, ';');
            let before = lead(first) + key;
            lemma_lacks(lead(first), key, '=');
            assert(text =~= before + seq!['='] + value);
            assert forall|j: int| 0 <= j < before.len() implies text[j] != '=' by {
                assert(text[j] == before[j]);
                if before[j] == '=' {
                    assert(before.contains('='));
                }
            }
            assert(text[before.len() as int] == '=');
            lemma_index_of_is(text, '=', before.len() as int);
            assert(text.take(before.len() as int) =~= before);
            assert(text.skip(before.len() as int + 1) =~= value);
            lemma_trim_same(value);
            if first {
                assert(before =~= key);
                lemma_trim_same(key);
            } else {
                lemma_trim_after_space(key);
            }
        },
    }
}

/// The pieces between the commas of the text of a block.
spec fn block_pieces(block: Seq<PartView>, first: bool) -> Seq<Seq<char>> {
    Seq::new(block.len(), |i: int| lead(first && i == 0) + part_text(block[i]))
}

proof fn lemma_block_split(block: Seq<PartView>, first: bool)
    requires
        is_plain_block(block),
    ensures
        split(lead(first) + block_text(block), ',') == block_pieces(block, first),
        !(lead(first) + block_text(block)).contains(';'),
    decreases block.len(),
{
    let text = lead(first) + block_text(block);
    if block.len() == 1 {
        lemma_part_round_trip(block[0], first);
        lemma_split_none(text, ',');
        assert(split(text, ',') =~= block_pieces(block, first));
    } else {
        let head = block.drop_last();
        let last = seq![' '] + part_text(block.last());
        assert(is_plain_block(head)) by {
            assert forall|i: int| 0 <= i < head.len() implies is_plain_part(#[trigger] head[i]) by {
                assert(head[i] == block[i]);
            }
        }
        lemma_block_split(head, first);
        lemma_part_round_trip(block.last(), false);
        assert(last == lead(false) + part_text(block.last()));
        let before = lead(first) + block_text(head);
        assert(text =~= before + seq![','] + last);
        lemma_split_concat(before, last, ',');
        lemma_split_none(last, ',');
        assert(split(text, ',') =~= block_pieces(block, first)) by {
            assert forall|i: int| 0 <= i < block.len() implies (block_pieces(head, first)
                + seq![last])[i] == block_pieces(block, first)[i] by {
                if i < head.len() {
                    assert(head[i] == block[i]);
                }
            }
        }
        lemma_one_lacks(',', ';');
        lemma_lacks(before, seq![','], ';');
        lemma_lacks(before + seq![','], last, ';');
    }
}

proof fn lemma_block_round_trip(block: Seq<PartView>, first: bool)
    requires
        is_plain_block(block),
    ensures
        block_parts(lead(first) + block_text(block)) == block,
{
    lemma_block_split(block, first);
    let pieces = block_pieces(block, first);
    assert forall|i: int| 0 <= i < block.len() implies sub_part(#[trigger] pieces[i])
        == block[i] by {
        lemma_part_round_trip(block[i], first && i == 0);
    }
    assert(block_parts(lead(first) + block_text(block)) =~= block);
}

/// The pieces between the semicolons of the text of a header value.
spec fn value_pieces(value: ValueView) -> Seq<Seq<char>> {
    Seq::new(value.len(), |i: int| lead(i == 0) + block_text(value[i]))
}

proof fn lemma_value_split(value: ValueView)
    requires
        is_plain_value(value),
    ensures
        split(value_text(value), ';') == value_pieces(value),
    decreases value.len(),
{
    let text = value_text(value);
    if value.len() == 1 {
        lemma_block_split(value[0], true);
        assert(lead(true) + block_text(value[0]) =~= text);
        lemma_split_none(text, ';');
        assert(split(text, ';') =~= value_pieces(value));
    } else {
        let head = value.drop_last();
        let last = seq![' '] + block_text(value.last());
        assert(is_plain_value(head)) by {
            assert forall|i: int| 0 <= i < head.len() implies is_plain_block(
                #[trigger] head[i],
            ) by {
                assert(head[i] == value[i]);
            }
        }
        lemma_value_split(head);
        lemma_block_split(value.last(), false);
        assert(last == lead(false) + block_text(value.last()));
        assert(text =~= value_text(head) + seq![';'] + last);
        lemma_split_concat(value_text(head), last, ';');
        lemma_split_none(last, ';');
        assert(split(text, ';') =~= value_pieces(value)) by {
            assert forall|i: int| 0 <= i < value.len() implies (value_pieces(head) + seq![last])[i]
                == value_pieces(value)[i] by {
                if i < head.len() {
                    assert(head[i] == value[i]);
                }
            }
        }
    }
}

/// A header value that is written as text and read again is the same:
/// where each block has a sub-part and the texts of the sub-parts can stand
/// as they are, the text of the value has the value as its blocks and
/// sub-parts.
pub proof fn header_value_round_trip(value: ValueView)
    requires
        is_plain_value(value),
    ensures
        header_value(value_text(value)) == value,
{
    lemma_value_split(value);
    let pieces = value_pieces(value);
    assert forall|i: int| 0 <= i < value.len() implies block_parts(#[trigger] pieces[i])
        == value[i] by {
        lemma_block_round_trip(value[i], i == 0);
    }
    assert(header_value(value_text(value)) =~= value);
}

/// A header line of a key, a colon, a space and the text of a value is read
/// as that key and that value, where the key is not empty, holds no colon
/// and, like the text of the value, neither begins nor ends with white
/// space.
pub proof fn header_field_round_trip(key: Seq<char>, value: ValueView)
    requires
        key.len() > 0,
        is_trimmed(key),
        !key.contains(':'),
        is_plain_value(value),
        is_trimmed(value_text(value)),
    ensures
        header_field(key + seq![':', ' '] + value_text(value)) == Some((key, value)),
{
    let text = value_text(value);
    let line = key + seq![':', ' '] + text;
    header_value_round_trip(value);
    lemma_trim_same(key);
    lemma_trim_same(text);
    assert(line[0] == key[0]);
    assert(trim_start(line) == line);
    if text.len() > 0 {
        assert(line.last() == text.last());
        lemma_trim_same(line);
        lemma_key_ends_at_colon(key, seq![' '] + text);
        assert(line =~= key + seq![':'] + (seq![' '] + text));
        lemma_trim_after_space(text);
    } else {
        let short = key + seq![':'];
        assert(line =~= short.push(' '));
        assert(line.drop_last() =~= short);
        assert(trim_end(line) == trim_end(short));
        assert(short.last() == ':');
        assert(trim_end(short) == short);
        lemma_key_ends_at_colon(key, Seq::<char>::empty());
        assert(short =~= key + seq![':'] + Seq::<char>::empty());
        assert(text =~= Seq::<char>::empty());
    }
}

proof fn lemma_key_ends_at_colon(key: Seq<char>, rest: Seq<char>)
    requires
        !key.contains(':'),
    ensures
        index_of(key + seq![':'] + rest, ':') == key.len(),
        (key + seq![':'] + rest).take(key.len() as int) == key,
        (key + seq![':'] + rest).skip(key.len() as int + 1) == rest,
{
    let line = key + seq![':'] + rest;
    assert forall|j: int| 0 <= j < key.len() implies line[j] != ':' by {
        assert(line[j] == key[j]);
        if key[j] == ':' {
            assert(key.contains(':'));
        }
    }
    assert(line[key.len() as int] == ':');
    lemma_index_of_is(line, ':', key.len() as int);
    assert(line.take(key.len() as int) =~= key);
    assert(line.skip(key.len() as int + 1) =~= rest);
}

} // verus!

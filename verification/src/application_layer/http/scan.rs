//! The request parser as a state machine over the bytes of a request.
//!
//! The parser reads lines that end in CR LF until the blank line that ends
//! the headers. Where the headers announce a boundary it then reads parts,
//! byte by byte, between the lines that begin with the boundary or with two
//! hyphens and the boundary; otherwise it goes on reading lines. A NUL byte
//! or the end of the bytes ends the parse.
//!
//! [`parse`] says what the bytes of a request hold; the functions at the
//! end of the file state what follows from it, among them the request of
//! bytes that are laid out line by line ([`parse_of_single_part`]). What
//! follows for a body in parts stands in [`super::parts`].

use vstd::prelude::*;
use vstd::utf8::{decode_utf8, encode_utf8, valid_utf8};
use crate::text::{is_whitespace, split, strip, trim};
use super::request::{Method, Protocol, SettingValence};
use super::syntax::{
    header_field, line_of, lookup, method_of, protocol_of, query_args, query_arguments,
    request_body_policy,
    request_line, request_line_needs_known_names, request_line_of_path,
    request_line_of_two_tokens, LineView, ValueView,
};

verus! {

/// Which part of a request the parser reads.
#[derive(Debug, Clone, Copy, PartialEq, Eq, Structural)]
pub enum ParserSection {
    Line,
    HeaderFields,
    MessageBody,
}

/// Where the parser stands in a body in parts.
#[derive(Debug, Clone, Copy, PartialEq, Eq, Structural)]
pub enum MultiPartSection {
    /// Inside a part, waiting for the end of a line.
    End,
    /// At the start of a line inside a part, comparing it with the boundary.
    EndBoundary,
    /// Outside a part, waiting for the end of a line.
    Skipping,
    /// At the start of a line outside a part, comparing it with the boundary.
    Start,
    /// After a boundary, waiting for the end of its line.
    StartSuffix,
}

/// One part of a body in parts.
pub ghost struct MultiPartView {
    pub body: Seq<u8>,
    pub headers: Map<Seq<char>, ValueView>,
}

/// The body of a request.
pub ghost enum BodyView {
    SinglePart(Map<Seq<char>, Seq<char>>),
    MultiPart(Map<Seq<char>, MultiPartView>),
}

/// A request.
pub ghost struct MessageView {
    pub body: BodyView,
    pub headers: Map<Seq<char>, ValueView>,
    pub request_line: LineView,
}

/// The headers with the field of one more line; a line that is no header
/// field changes nothing.
pub open spec fn with_field(headers: Map<Seq<char>, ValueView>, line: Seq<char>) -> Map<
    Seq<char>,
    ValueView,
> {
    match header_field(line) {
        Some((key, value)) => headers.insert(key, value),
        None => headers,
    }
}

/// Whether a line ends at `pos`: an LF that follows a CR.
pub open spec fn ends_line(data: Seq<u8>, pos: int) -> bool {
    pos >= 1 && data[pos] == 10 && data[pos - 1] == 13
}

/// The state of reading the headers of a part: where the line being read
/// began, and the headers so far.
pub ghost struct PartScan {
    pub start: int,
    pub headers: Map<Seq<char>, ValueView>,
    pub stopped: bool,
}

/// The headers of a part, read from `pos` on. Each line that ends in CR LF
/// and is valid UTF-8 is a header line, until the first blank one; a line
/// that is not valid UTF-8 is passed over.
pub open spec fn part_headers(data: Seq<u8>, scan: PartScan, pos: int) -> PartScan
    decreases data.len() - pos,
{
    if pos < 0 || pos >= data.len() || scan.stopped {
        scan
    } else {
        part_headers(data, part_step(data, scan, pos), pos + 1)
    }
}

/// What the byte at `pos` does to the state of reading a part's headers.
pub open spec fn part_step(data: Seq<u8>, scan: PartScan, pos: int) -> PartScan {
    if ends_line(data, pos) {
        let line = data.subrange(scan.start, pos);
        if !valid_utf8(line) {
            PartScan { start: pos + 1, ..scan }
        } else if trim(decode_utf8(line)).len() == 0 {
            PartScan { start: pos + 1, stopped: true, ..scan }
        } else {
            PartScan { start: pos + 1, headers: with_field(scan.headers, decode_utf8(line)), ..scan }
        }
    } else {
        scan
    }
}

/// The name under which a part is kept: the `name` parameter of its
/// `Content-Disposition` header without the quotes around it, or the empty
/// text.
pub open spec fn part_name(headers: Map<Seq<char>, ValueView>) -> Seq<char> {
    if headers.contains_key("Content-Disposition"@) {
        match lookup(headers["Content-Disposition"@], "name"@) {
            Some(name) => strip(name, '"'),
            None => Seq::empty(),
        }
    } else {
        Seq::empty()
    }
}

/// The part that the bytes between two boundaries hold: its name, its
/// headers and the bytes after the blank line. A part without a name or
/// without bytes is none.
pub open spec fn multipart_part(data: Seq<u8>) -> Option<(Seq<char>, MultiPartView)> {
    let scan = part_headers(
        data,
        PartScan { start: 0, headers: Map::empty(), stopped: false },
        0,
    );
    let name = part_name(scan.headers);
    let body = data.skip(scan.start);
    if name.len() > 0 && body.len() > 0 {
        Some((name, MultiPartView { body, headers: scan.headers }))
    } else {
        None
    }
}

/// The state of the parser before it reads a byte.
pub ghost struct Scan {
    pub request_line: Option<LineView>,
    pub headers: Map<Seq<char>, ValueView>,
    pub body: BodyView,
    pub section: ParserSection,
    /// The bytes of the boundary, once the body is read in parts.
    pub boundary: Option<Seq<u8>>,
    pub part: MultiPartSection,
    /// Whether the line read so far is the beginning of the boundary.
    pub plain: bool,
    /// Whether it is the beginning of two hyphens and the boundary.
    pub dashed: bool,
    /// Where the line being read began.
    pub start: int,
    /// Where the bytes of the part being read begin.
    pub start_data: int,
    /// Where they end.
    pub end_data: int,
    pub stopped: bool,
}

/// The state in which the parser starts.
pub open spec fn initial() -> Scan {
    Scan {
        request_line: None,
        headers: Map::empty(),
        body: BodyView::SinglePart(Map::empty()),
        section: ParserSection::Line,
        boundary: None,
        part: MultiPartSection::Start,
        plain: true,
        dashed: true,
        start: 0,
        start_data: 0,
        end_data: 0,
        stopped: false,
    }
}

/// The boundary that the headers announce: the `boundary` parameter of
/// `Content-Type`.
pub open spec fn announced_boundary(headers: Map<Seq<char>, ValueView>) -> Option<Seq<char>> {
    if headers.contains_key("Content-Type"@) {
        lookup(headers["Content-Type"@], "boundary"@)
    } else {
        None
    }
}

/// The state after the blank line that ends the headers. A method that
/// carries no body ends the parse; otherwise the body follows, in parts
/// where the headers announce a boundary.
pub open spec fn end_of_headers(st: Scan) -> Scan {
    if st.request_line is Some && request_body_policy(st.request_line->0.method)
        == SettingValence::No {
        Scan { stopped: true, ..st }
    } else {
        match announced_boundary(st.headers) {
            Some(boundary) => Scan {
                section: ParserSection::MessageBody,
                boundary: Some(encode_utf8(boundary)),
                body: BodyView::MultiPart(Map::empty()),
                part: MultiPartSection::Start,
                plain: true,
                dashed: true,
                ..st
            },
            None => Scan { section: ParserSection::MessageBody, ..st },
        }
    }
}

/// The state after a line of text, by the section that the parser is in. A
/// first line that is no request line ends the parse without a request.
pub open spec fn feed_line(st: Scan, line: Seq<char>) -> Scan {
    match st.section {
        ParserSection::Line => match request_line(line) {
            Some(parsed) => Scan {
                request_line: Some(parsed),
                section: ParserSection::HeaderFields,
                ..st
            },
            None => Scan { stopped: true, ..st },
        },
        ParserSection::HeaderFields => if trim(line).len() == 0 {
            end_of_headers(st)
        } else {
            Scan { headers: with_field(st.headers, line), ..st }
        },
        ParserSection::MessageBody => match query_args(line) {
            Some(arguments) => Scan { body: BodyView::SinglePart(arguments), ..st },
            None => st,
        },
    }
}

/// The state after the bytes of a line. A line that is not valid UTF-8 is
/// passed over, but for the first, without which there is no request.
pub open spec fn feed_bytes(st: Scan, line: Seq<u8>) -> Scan {
    if valid_utf8(line) {
        feed_line(st, decode_utf8(line))
    } else if st.section == ParserSection::Line {
        Scan { stopped: true, ..st }
    } else {
        st
    }
}

/// What the byte at `i` does while the parser reads lines. A line ends at
/// an LF that follows a CR, and neither is part of it. A NUL byte ends the
/// last line and the parse; so does the last byte, which is part of its
/// line, unless it is a CR.
pub open spec fn line_step(bytes: Seq<u8>, st: Scan, i: int) -> Scan {
    let b = bytes[i];
    if ends_line(bytes, i) {
        Scan { start: i + 1, ..feed_bytes(st, bytes.subrange(st.start, i - 1)) }
    } else if b == 13 {
        st
    } else if b == 0 {
        Scan { stopped: true, ..feed_bytes(st, bytes.subrange(st.start, i)) }
    } else if i == bytes.len() - 1 {
        Scan { stopped: true, ..feed_bytes(st, bytes.subrange(st.start, i + 1)) }
    } else {
        st
    }
}

/// Whether `b` at place `k` of a line goes on spelling the boundary.
pub open spec fn spells_plain(boundary: Seq<u8>, k: int, b: u8) -> bool {
    0 <= k < boundary.len() && boundary[k] == b
}

/// Whether `b` at place `k` of a line goes on spelling two hyphens and the
/// boundary.
pub open spec fn spells_dashed(boundary: Seq<u8>, k: int, b: u8) -> bool {
    if k < 2 {
        0 <= k && b == 45
    } else {
        k - 2 < boundary.len() && boundary[k - 2] == b
    }
}

/// The state with one more part, if the bytes between the last two
/// boundaries hold one.
pub open spec fn with_part(bytes: Seq<u8>, st: Scan) -> Scan {
    if 0 <= st.start_data < st.end_data < bytes.len() {
        match (multipart_part(bytes.subrange(st.start_data, st.end_data)), st.body) {
            (Some((name, value)), BodyView::MultiPart(parts)) => Scan {
                body: BodyView::MultiPart(parts.insert(name, value)),
                ..st
            },
            _ => st,
        }
    } else {
        st
    }
}

/// What the byte at `i` does at the start of a line that may be a boundary.
/// `inside` says whether a part is being read, which the boundary then ends.
/// The line is compared with the boundary and with two hyphens and the
/// boundary at once; the first that is spelled out is found. A byte that
/// goes on spelling neither ends the comparison.
pub open spec fn boundary_step(bytes: Seq<u8>, boundary: Seq<u8>, st: Scan, i: int, inside: bool)
    -> Scan {
    let b = bytes[i];
    let k = i - st.start;
    let plain = st.plain && spells_plain(boundary, k, b);
    let dashed = st.dashed && spells_dashed(boundary, k, b);
    if boundary.len() > 0 && ((plain && k + 1 == boundary.len()) || (dashed && k + 1
        == boundary.len() + 2)) {
        let found = if inside {
            with_part(bytes, st)
        } else {
            st
        };
        Scan { part: MultiPartSection::StartSuffix, plain: true, dashed: true, ..found }
    } else if !plain && !dashed {
        Scan {
            part: if inside {
                MultiPartSection::End
            } else {
                MultiPartSection::Skipping
            },
            plain: true,
            dashed: true,
            ..st
        }
    } else {
        Scan { plain, dashed, ..st }
    }
}

/// What the byte at `i` does while the parser reads a body in parts. A NUL
/// byte ends the parse. Outside a part, a line that begins with the boundary
/// begins a part, whose bytes follow the end of that line. Inside a part, a
/// line that begins with the boundary ends the part, whose bytes end before
/// the CR LF that precedes that line, and begins the next.
pub open spec fn part_byte_step(bytes: Seq<u8>, boundary: Seq<u8>, st: Scan, i: int) -> Scan {
    let b = bytes[i];
    if b == 0 {
        Scan { stopped: true, ..st }
    } else {
        match st.part {
            MultiPartSection::Skipping => if ends_line(bytes, i) {
                Scan {
                    part: MultiPartSection::Start,
                    start: i + 1,
                    plain: true,
                    dashed: true,
                    ..st
                }
            } else {
                st
            },
            MultiPartSection::Start => boundary_step(bytes, boundary, st, i, false),
            MultiPartSection::StartSuffix => if ends_line(bytes, i) {
                Scan { part: MultiPartSection::End, start_data: i + 1, ..st }
            } else if b == 13 {
                st
            } else {
                Scan { part: MultiPartSection::Skipping, ..st }
            },
            MultiPartSection::End => if ends_line(bytes, i) {
                Scan {
                    part: MultiPartSection::EndBoundary,
                    end_data: i - 1,
                    start: i + 1,
                    plain: true,
                    dashed: true,
                    ..st
                }
            } else {
                st
            },
            MultiPartSection::EndBoundary => boundary_step(bytes, boundary, st, i, true),
        }
    }
}

/// What the byte at `i` does to the state of the parser.
pub open spec fn step(bytes: Seq<u8>, st: Scan, i: int) -> Scan {
    match st.boundary {
        Some(boundary) => part_byte_step(bytes, boundary, st, i),
        None => line_step(bytes, st, i),
    }
}

/// The state in which the parser ends, from the state `st` before byte `i`.
pub open spec fn run(bytes: Seq<u8>, st: Scan, i: int) -> Scan
    decreases bytes.len() - i,
{
    if i < 0 || i >= bytes.len() || st.stopped {
        st
    } else {
        run(bytes, step(bytes, st, i), i + 1)
    }
}

/// The request that a final state holds, if it holds a request line.
pub open spec fn outcome(st: Scan) -> Option<MessageView> {
    match st.request_line {
        Some(line) => Some(MessageView { body: st.body, headers: st.headers, request_line: line }),
        None => None,
    }
}

/// The request that the bytes hold, if they hold one.
pub open spec fn parse(bytes: Seq<u8>) -> Option<MessageView> {
    outcome(run(bytes, initial(), 0))
}

/// What the parser keeps between two bytes: the line being read began
/// among the bytes read, at their start or after an LF, and after the
/// request line there is one.
pub open spec fn scan_inv(bytes: Seq<u8>, st: Scan, i: int) -> bool {
    &&& 0 <= st.start <= i
    &&& st.start > 0 ==> bytes[st.start - 1] == 10
    &&& 0 <= st.start_data
    &&& 0 <= st.end_data
    &&& st.section != ParserSection::Line ==> st.request_line is Some
    &&& st.boundary is Some ==> st.body is MultiPart
}

/// After the request line the parser keeps it to the end.
pub proof fn lemma_step_keeps_line(bytes: Seq<u8>, st: Scan, i: int)
    requires
        st.section != ParserSection::Line,
    ensures
        step(bytes, st, i).request_line == st.request_line,
        step(bytes, st, i).section != ParserSection::Line,
{
}

/// After the request line the parser keeps it to the end.
pub proof fn lemma_run_keeps_line(bytes: Seq<u8>, st: Scan, i: int)
    requires
        st.section != ParserSection::Line,
    ensures
        run(bytes, st, i).request_line == st.request_line,
    decreases bytes.len() - i,
{
    if 0 <= i < bytes.len() && !st.stopped {
        lemma_step_keeps_line(bytes, st, i);
        lemma_run_keeps_line(bytes, step(bytes, st, i), i + 1);
    }
}

/// Whether the request line that the parser holds, if it holds one, has a
/// known method and a known protocol version, and the parser is past the
/// request line only if it holds one.
pub open spec fn holds_valid_line(st: Scan) -> bool {
    &&& st.request_line matches Some(line) ==> line.method != Method::Invalid && line.protocol
        != Protocol::Invalid
    &&& st.section == ParserSection::Line ==> st.request_line is None
}

proof fn lemma_run_holds_valid_line(bytes: Seq<u8>, st: Scan, i: int)
    requires
        holds_valid_line(st),
    ensures
        holds_valid_line(run(bytes, st, i)),
    decreases bytes.len() - i,
{
    if 0 <= i < bytes.len() && !st.stopped {
        let next = step(bytes, st, i);
        assert(holds_valid_line(next));
        lemma_run_holds_valid_line(bytes, next, i + 1);
    }
}

/// A request that is read has a known method and a known protocol version:
/// bytes whose request line names another yield no request.
pub proof fn parsed_request_is_valid(bytes: Seq<u8>)
    ensures
        parse(bytes) matches Some(message) ==> message.request_line.method != Method::Invalid
            && message.request_line.protocol != Protocol::Invalid,
{
    lemma_run_holds_valid_line(bytes, initial(), 0);
}

/// No bytes hold no request.
pub proof fn parse_of_nothing()
    ensures
        parse(Seq::<u8>::empty()) is None,
{
}

/// Whether the byte is none of CR, LF and NUL.
pub open spec fn is_plain(b: u8) -> bool {
    b != 13 && b != 10 && b != 0
}

/// While the parser reads lines, bytes that are none of CR, LF and NUL,
/// and not the last, leave its state as it is.
pub proof fn plain_bytes_are_passed(bytes: Seq<u8>, st: Scan, from: int, to: int)
    requires
        st.boundary is None,
        0 <= from <= to,
        to < bytes.len(),
        forall|j: int| from <= j < to ==> is_plain(#[trigger] bytes[j]),
    ensures
        run(bytes, st, from) == run(bytes, st, to),
    decreases to - from,
{
    if from < to && !st.stopped {
        assert(is_plain(bytes[from]));
        assert(step(bytes, st, from) == st);
        plain_bytes_are_passed(bytes, st, from + 1, to);
    }
}

/// While the parser reads lines, a line that ends in CR LF is fed to it:
/// from the bytes of the line, none of them CR, LF or NUL, the parser goes
/// on after the LF in the state after the line.
pub proof fn ended_line_is_fed(bytes: Seq<u8>, st: Scan, end: int)
    requires
        st.boundary is None,
        !st.stopped,
        0 <= st.start <= end,
        end + 1 < bytes.len(),
        forall|j: int| st.start <= j < end ==> is_plain(#[trigger] bytes[j]),
        bytes[end] == 13,
        bytes[end + 1] == 10,
    ensures
        run(bytes, st, st.start) == run(
            bytes,
            Scan { start: end + 2, ..feed_bytes(st, bytes.subrange(st.start, end)) },
            end + 2,
        ),
{
    plain_bytes_are_passed(bytes, st, st.start, end);
    assert(step(bytes, st, end) == st);
    assert(run(bytes, st, end) == run(bytes, st, end + 1));
    assert(bytes.subrange(st.start, end + 1 - 1) =~= bytes.subrange(st.start, end));
    assert(run(bytes, st, end + 1) == run(bytes, step(bytes, st, end + 1), end + 2));
}

/// While the parser reads lines, the line that the end of the bytes ends is
/// fed to it, and the parse ends there.
pub proof fn last_line_is_fed(bytes: Seq<u8>, st: Scan)
    requires
        st.boundary is None,
        !st.stopped,
        0 <= st.start < bytes.len(),
        forall|j: int| st.start <= j < bytes.len() ==> is_plain(#[trigger] bytes[j]),
    ensures
        run(bytes, st, st.start) == (Scan {
            stopped: true,
            ..feed_bytes(st, bytes.subrange(st.start, bytes.len() as int))
        }),
{
    let last = bytes.len() - 1;
    plain_bytes_are_passed(bytes, st, st.start, last);
    assert(is_plain(bytes[last]));
    let end = step(bytes, st, last);
    assert(end.stopped);
    assert(run(bytes, st, last) == run(bytes, end, last + 1));
}

/// The request of bytes that are one line, without CR, LF or NUL: that of
/// the request line that the bytes hold, without headers or body; none
/// where the line is no request line or the bytes are not valid UTF-8.
pub proof fn parse_of_one_line(bytes: Seq<u8>)
    requires
        bytes.len() > 0,
        forall|j: int| 0 <= j < bytes.len() ==> is_plain(#[trigger] bytes[j]),
    ensures
        parse(bytes) == (if valid_utf8(bytes) {
            match request_line(decode_utf8(bytes)) {
                Some(line) => Some(
                    MessageView {
                        body: BodyView::SinglePart(Map::empty()),
                        headers: Map::empty(),
                        request_line: line,
                    },
                ),
                None => None,
            }
        } else {
            None
        }),
{
    last_line_is_fed(bytes, initial());
    assert(bytes.subrange(0, bytes.len() as int) =~= bytes);
}

/// The request line of a request is that of the first line of the bytes:
/// where the first line ends in CR LF and is no request line, or is not
/// valid UTF-8, there is no request, whatever follows.
pub proof fn first_line_decides(bytes: Seq<u8>, end: int)
    requires
        0 <= end,
        end + 1 < bytes.len(),
        forall|j: int| 0 <= j < end ==> is_plain(#[trigger] bytes[j]),
        bytes[end] == 13,
        bytes[end + 1] == 10,
    ensures
        match parse(bytes) {
            Some(message) => valid_utf8(bytes.take(end)) && request_line(
                decode_utf8(bytes.take(end)),
            ) == Some(message.request_line),
            None => !valid_utf8(bytes.take(end)) || request_line(decode_utf8(bytes.take(end)))
                is None,
        },
{
    ended_line_is_fed(bytes, initial(), end);
    let first = bytes.subrange(0, end);
    assert(first =~= bytes.take(end));
    let after = Scan { start: end + 2, ..feed_bytes(initial(), first) };
    if valid_utf8(first) && request_line(decode_utf8(first)) is Some {
        assert(after.section == ParserSection::HeaderFields);
        lemma_run_keeps_line(bytes, after, end + 2);
    } else {
        assert(after.stopped);
    }
}

/// Bytes that are one line of a lone path, which is not empty and has no
/// white space or NUL at its ends, hold a `GET` of that path with the oldest
/// protocol version, without headers or body.
pub proof fn one_line_of_a_path_is_a_get(bytes: Seq<u8>)
    requires
        bytes.len() > 0,
        forall|j: int| 0 <= j < bytes.len() ==> is_plain(#[trigger] bytes[j]),
        valid_utf8(bytes),
        decode_utf8(bytes).len() > 0,
        !decode_utf8(bytes).contains(' '),
        !is_whitespace(decode_utf8(bytes)[0]) && !is_whitespace(decode_utf8(bytes).last()),
        decode_utf8(bytes)[0] != '\0' && decode_utf8(bytes).last() != '\0',
    ensures
        parse(bytes) == Some(
            MessageView {
                body: BodyView::SinglePart(Map::empty()),
                headers: Map::empty(),
                request_line: line_of(Method::Get, decode_utf8(bytes), Protocol::V0_9),
            },
        ),
{
    parse_of_one_line(bytes);
    request_line_of_path(decode_utf8(bytes));
}

/// Bytes that are one line of two tokens hold no request.
pub proof fn one_line_of_two_tokens_is_no_request(bytes: Seq<u8>)
    requires
        bytes.len() > 0,
        forall|j: int| 0 <= j < bytes.len() ==> is_plain(#[trigger] bytes[j]),
        valid_utf8(bytes),
        split(trim(decode_utf8(bytes)), ' ').len() == 2,
    ensures
        parse(bytes) is None,
{
    parse_of_one_line(bytes);
    request_line_of_two_tokens(decode_utf8(bytes));
}

/// Bytes that are one line of three tokens hold no request where the third
/// names no known protocol version, or the first no known method, whatever
/// the other tokens are.
pub proof fn one_line_with_an_unknown_name_is_no_request(bytes: Seq<u8>)
    requires
        bytes.len() > 0,
        forall|j: int| 0 <= j < bytes.len() ==> is_plain(#[trigger] bytes[j]),
        valid_utf8(bytes),
        split(trim(decode_utf8(bytes)), ' ').len() == 3,
        protocol_of(split(trim(decode_utf8(bytes)), ' ')[2]) == Protocol::Invalid || method_of(
            split(trim(decode_utf8(bytes)), ' ')[0],
        ) == Method::Invalid,
    ensures
        parse(bytes) is None,
{
    parse_of_one_line(bytes);
    request_line_needs_known_names(decode_utf8(bytes));
}

/// Whether the bytes are a line of text: valid UTF-8 without CR, LF or NUL.
pub open spec fn is_text_line(line: Seq<u8>) -> bool {
    valid_utf8(line) && forall|j: int| 0 <= j < line.len() ==> is_plain(#[trigger] line[j])
}

/// The bytes of lines that each end in CR LF.
pub open spec fn ended_lines(lines: Seq<Seq<u8>>) -> Seq<u8>
    decreases lines.len(),
{
    if lines.len() == 0 {
        Seq::empty()
    } else {
        lines[0] + seq![13u8, 10u8] + ended_lines(lines.drop_first())
    }
}

/// The headers after the fields of the lines, one after the other.
pub open spec fn fields_after(headers: Map<Seq<char>, ValueView>, lines: Seq<Seq<u8>>) -> Map<
    Seq<char>,
    ValueView,
>
    decreases lines.len(),
{
    if lines.len() == 0 {
        headers
    } else {
        fields_after(with_field(headers, decode_utf8(lines[0])), lines.drop_first())
    }
}

/// Whether each of the lines is a line of text that is not blank.
pub open spec fn are_header_lines(lines: Seq<Seq<u8>>) -> bool {
    forall|i: int|
        0 <= i < lines.len() ==> is_text_line(#[trigger] lines[i]) && trim(
            decode_utf8(lines[i]),
        ).len() > 0
}

proof fn lemma_blank_line_and_body(bytes: Seq<u8>, st: Scan, body: Seq<u8>)
    requires
        st.boundary is None,
        !st.stopped,
        st.section == ParserSection::HeaderFields,
        st.request_line is Some,
        request_body_policy(st.request_line->0.method) != SettingValence::No,
        0 <= st.start <= bytes.len(),
        bytes.skip(st.start) == seq![13u8, 10u8] + body,
        is_text_line(body),
        body.len() > 0,
        announced_boundary(st.headers) is None,
    ensures
        outcome(run(bytes, st, st.start)) == Some(
            MessageView {
                body: BodyView::SinglePart(query_arguments(decode_utf8(body))),
                headers: st.headers,
                request_line: st.request_line->0,
            },
        ),
{
    let rest = bytes.skip(st.start);
    assert(rest.len() == 2 + body.len());
    assert(bytes[st.start] == rest[0] && bytes[st.start + 1] == rest[1]);
    ended_line_is_fed(bytes, st, st.start);
    let blank = bytes.subrange(st.start, st.start);
    assert(blank =~= Seq::<u8>::empty());
    assert(valid_utf8(blank));
    assert(decode_utf8(blank) =~= Seq::<char>::empty());
    let fed = feed_bytes(st, blank);
    assert(fed == end_of_headers(st));
    let after = Scan { start: st.start + 2, ..fed };
    assert(after.section == ParserSection::MessageBody);
    assert forall|j: int| after.start <= j < bytes.len() implies is_plain(#[trigger] bytes[j]) by {
        assert(bytes[j] == rest[j - st.start]);
        assert(rest[j - st.start] == body[j - st.start - 2]);
    }
    last_line_is_fed(bytes, after);
    assert(rest.skip(2) =~= body);
    assert(bytes.subrange(after.start, bytes.len() as int) =~= rest.skip(2));
    assert(decode_utf8(body).len() > 0);
}

proof fn lemma_header_line(bytes: Seq<u8>, st: Scan, line: Seq<u8>, tail: Seq<u8>)
    requires
        st.boundary is None,
        !st.stopped,
        st.section == ParserSection::HeaderFields,
        0 <= st.start <= bytes.len(),
        bytes.skip(st.start) == line + seq![13u8, 10u8] + tail,
        tail.len() > 0,
        is_text_line(line),
        trim(decode_utf8(line)).len() > 0,
    ensures
        run(bytes, st, st.start) == run(
            bytes,
            Scan {
                start: st.start + line.len() + 2,
                headers: with_field(st.headers, decode_utf8(line)),
                ..st
            },
            st.start + line.len() + 2,
        ),
        bytes.skip(st.start + line.len() + 2) == tail,
{
    let rest = bytes.skip(st.start);
    let end = st.start + line.len();
    assert(rest.len() == line.len() + 2 + tail.len());
    assert forall|j: int| st.start <= j < end implies is_plain(#[trigger] bytes[j]) by {
        assert(bytes[j] == rest[j - st.start]);
        assert(rest[j - st.start] == line[j - st.start]);
    }
    assert(bytes[end] == rest[line.len() as int]);
    assert(bytes[end + 1] == rest[line.len() as int + 1]);
    ended_line_is_fed(bytes, st, end);
    assert(bytes.subrange(st.start, end) =~= line);
    assert(bytes.skip(end + 2) =~= rest.skip(line.len() as int + 2));
    assert(rest.skip(line.len() as int + 2) =~= tail);
}

/// Header lines that each end in CR LF are read one after the other: after
/// them the parser holds their fields, a later one overwriting an earlier
/// one of the same key, and goes on with what follows them.
pub proof fn header_lines_are_read(bytes: Seq<u8>, st: Scan, lines: Seq<Seq<u8>>, tail: Seq<u8>)
    requires
        st.boundary is None,
        !st.stopped,
        st.section == ParserSection::HeaderFields,
        0 <= st.start <= bytes.len(),
        bytes.skip(st.start) == ended_lines(lines) + tail,
        tail.len() > 0,
        are_header_lines(lines),
    ensures
        run(bytes, st, st.start) == run(
            bytes,
            Scan {
                start: bytes.len() - tail.len(),
                headers: fields_after(st.headers, lines),
                ..st
            },
            bytes.len() - tail.len(),
        ),
        bytes.len() - tail.len() == st.start + ended_lines(lines).len(),
        bytes.skip(bytes.len() - tail.len()) == tail,
    decreases lines.len(),
{
    if lines.len() == 0 {
        assert(ended_lines(lines) + tail =~= tail);
        assert(Scan { start: st.start, headers: st.headers, ..st } == st);
    } else {
        let line = lines[0];
        let more = lines.drop_first();
        let rest = ended_lines(more) + tail;
        assert(is_text_line(line) && trim(decode_utf8(line)).len() > 0);
        assert(ended_lines(lines) + tail =~= line + seq![13u8, 10u8] + rest);
        lemma_header_line(bytes, st, line, rest);
        let after = Scan {
            start: st.start + line.len() + 2,
            headers: with_field(st.headers, decode_utf8(line)),
            ..st
        };
        assert(are_header_lines(more)) by {
            assert forall|i: int| 0 <= i < more.len() implies is_text_line(#[trigger] more[i])
                && trim(decode_utf8(more[i])).len() > 0 by {
                assert(more[i] == lines[i + 1]);
            }
        }
        header_lines_are_read(bytes, after, more, tail);
        assert(ended_lines(lines).len() == line.len() + 2 + ended_lines(more).len());
    }
}

proof fn lemma_header_block(bytes: Seq<u8>, st: Scan, lines: Seq<Seq<u8>>, body: Seq<u8>)
    requires
        st.boundary is None,
        !st.stopped,
        st.section == ParserSection::HeaderFields,
        st.request_line is Some,
        request_body_policy(st.request_line->0.method) != SettingValence::No,
        0 <= st.start <= bytes.len(),
        bytes.skip(st.start) == ended_lines(lines) + seq![13u8, 10u8] + body,
        are_header_lines(lines),
        is_text_line(body),
        body.len() > 0,
        announced_boundary(fields_after(st.headers, lines)) is None,
    ensures
        outcome(run(bytes, st, st.start)) == Some(
            MessageView {
                body: BodyView::SinglePart(query_arguments(decode_utf8(body))),
                headers: fields_after(st.headers, lines),
                request_line: st.request_line->0,
            },
        ),
{
    let tail = seq![13u8, 10u8] + body;
    assert(ended_lines(lines) + seq![13u8, 10u8] + body =~= ended_lines(lines) + tail);
    header_lines_are_read(bytes, st, lines, tail);
    let after = Scan {
        start: bytes.len() - tail.len(),
        headers: fields_after(st.headers, lines),
        ..st
    };
    lemma_blank_line_and_body(bytes, after, body);
}

/// The request of a request line, header lines, a blank line and one line
/// of arguments: where the lines are text and end in CR LF, the first is a
/// request line whose method may carry a body, and no header announces a
/// boundary, the request has that request line, the fields of the header
/// lines, a later one overwriting an earlier one of the same key, and the
/// arguments of the last line.
pub proof fn parse_of_single_part(first: Seq<u8>, lines: Seq<Seq<u8>>, body: Seq<u8>)
    requires
        is_text_line(first),
        request_line(decode_utf8(first)) is Some,
        request_body_policy(request_line(decode_utf8(first))->0.method) != SettingValence::No,
        are_header_lines(lines),
        announced_boundary(fields_after(Map::empty(), lines)) is None,
        is_text_line(body),
        body.len() > 0,
    ensures
        parse(first + seq![13u8, 10u8] + ended_lines(lines) + seq![13u8, 10u8] + body) == Some(
            MessageView {
                body: BodyView::SinglePart(query_arguments(decode_utf8(body))),
                headers: fields_after(Map::empty(), lines),
                request_line: request_line(decode_utf8(first))->0,
            },
        ),
{
    let bytes = first + seq![13u8, 10u8] + ended_lines(lines) + seq![13u8, 10u8] + body;
    let end = first.len() as int;
    assert forall|j: int| 0 <= j < end implies is_plain(#[trigger] bytes[j]) by {
        assert(bytes[j] == first[j]);
    }
    assert(bytes[end] == 13 && bytes[end + 1] == 10);
    ended_line_is_fed(bytes, initial(), end);
    assert(bytes.subrange(0, end) =~= first);
    let after = Scan { start: end + 2, ..feed_bytes(initial(), first) };
    assert(bytes.skip(end + 2) =~= ended_lines(lines) + seq![13u8, 10u8] + body);
    lemma_header_block(bytes, after, lines, body);
}

/// A part is kept only under a name that is not empty and with bytes.
pub proof fn kept_part_has_name_and_bytes(data: Seq<u8>)
    ensures
        multipart_part(data) matches Some((name, value)) ==> name.len() > 0 && value.body.len()
            > 0,
{
}

} // verus!

//! What the request parser does with a body in parts, stated line by line:
//! a line that begins with the boundary is found, another line is passed
//! over, and a part ends before the next line that begins with the boundary.

use vstd::prelude::*;
use vstd::utf8::{decode_utf8, encode_utf8, valid_utf8};
use super::request::SettingValence;
use super::scan::{
    announced_boundary, are_header_lines, boundary_step, ended_line_is_fed, ended_lines, ends_line,
    feed_bytes, fields_after, header_lines_are_read, initial, is_plain, is_text_line,
    multipart_part, outcome, parse, part_byte_step, run, step, with_part, BodyView, MessageView,
    MultiPartSection, MultiPartView, ParserSection, Scan,
};
use super::syntax::{request_body_policy, request_line};

verus! {

/// Whether none of the bytes is CR, LF or NUL.
pub open spec fn is_plain_text(text: Seq<u8>) -> bool {
    forall|j: int|
        0 <= j < text.len() ==> (#[trigger] text[j]) != 13 && text[j] != 10 && text[j] != 0
}

/// Whether the bytes hold `token` at the place `at`.
pub open spec fn begins_with(bytes: Seq<u8>, at: int, token: Seq<u8>) -> bool {
    &&& 0 <= at
    &&& at + token.len() <= bytes.len()
    &&& forall|j: int| 0 <= j < token.len() ==> bytes[at + j] == #[trigger] token[j]
}

/// Two hyphens and the boundary.
pub open spec fn dashed(boundary: Seq<u8>) -> Seq<u8> {
    seq![45u8, 45u8] + boundary
}

/// Whether the line that begins at `at` begins with the boundary, or with
/// two hyphens and the boundary.
pub open spec fn is_boundary_line(bytes: Seq<u8>, boundary: Seq<u8>, at: int) -> bool {
    begins_with(bytes, at, boundary) || begins_with(bytes, at, dashed(boundary))
}

/// How much of a line that begins with the boundary is the boundary.
pub open spec fn boundary_length(bytes: Seq<u8>, boundary: Seq<u8>, at: int) -> int {
    if begins_with(bytes, at, boundary) {
        boundary.len() as int
    } else {
        boundary.len() as int + 2
    }
}

/// Whether the parser compares a line with the boundary.
pub open spec fn compares(st: Scan, boundary: Seq<u8>, inside: bool) -> bool {
    &&& st.boundary == Some(boundary)
    &&& !st.stopped
    &&& st.part == (if inside {
        MultiPartSection::EndBoundary
    } else {
        MultiPartSection::Start
    })
    &&& 0 <= st.start
}

/// The state after a line that begins with the boundary was found: the
/// part that it ends, if it ends one, is kept, and the end of the line is
/// awaited.
pub open spec fn found(bytes: Seq<u8>, st: Scan, inside: bool) -> Scan {
    Scan {
        part: MultiPartSection::StartSuffix,
        plain: true,
        dashed: true,
        ..(if inside {
            with_part(bytes, st)
        } else {
            st
        })
    }
}

/// The state after a line that does not begin with the boundary: the part
/// goes on, or the wait for a part.
pub open spec fn passed(st: Scan, inside: bool) -> Scan {
    Scan {
        part: if inside {
            MultiPartSection::End
        } else {
            MultiPartSection::Skipping
        },
        plain: true,
        dashed: true,
        ..st
    }
}

proof fn lemma_plain_match(bytes: Seq<u8>, boundary: Seq<u8>, st: Scan, inside: bool, k: int)
    requires
        compares(st, boundary, inside),
        st.plain,
        is_plain_text(boundary),
        begins_with(bytes, st.start, boundary),
        0 <= k < boundary.len(),
    ensures
        run(bytes, st, st.start + k) == run(
            bytes,
            found(bytes, st, inside),
            st.start + boundary.len(),
        ),
    decreases boundary.len() - k,
{
    let i = st.start + k;
    assert(bytes[i] == boundary[k]);
    let next = step(bytes, st, i);
    assert(next == boundary_step(bytes, boundary, st, i, inside));
    assert(run(bytes, st, i) == run(bytes, next, i + 1));
    if k + 1 < boundary.len() {
        assert(next == Scan { plain: true, dashed: next.dashed, ..st });
        assert(found(bytes, next, inside) == found(bytes, st, inside));
        lemma_plain_match(bytes, boundary, next, inside, k + 1);
    } else {
        assert(next == found(bytes, st, inside));
    }
}

proof fn lemma_dashed_match(bytes: Seq<u8>, boundary: Seq<u8>, st: Scan, inside: bool, k: int)
    requires
        compares(st, boundary, inside),
        st.dashed,
        st.plain ==> k <= boundary.len() && forall|j: int|
            0 <= j < k ==> bytes[st.start + j] == #[trigger] boundary[j],
        boundary.len() > 0,
        is_plain_text(boundary),
        !begins_with(bytes, st.start, boundary),
        begins_with(bytes, st.start, dashed(boundary)),
        0 <= k < boundary.len() + 2,
    ensures
        run(bytes, st, st.start + k) == run(
            bytes,
            found(bytes, st, inside),
            st.start + boundary.len() + 2,
        ),
    decreases boundary.len() + 2 - k,
{
    let i = st.start + k;
    let token = dashed(boundary);
    assert(bytes[i] == token[k]);
    assert(k >= 2 ==> token[k] == boundary[k - 2]);
    assert(k < 2 ==> token[k] == 45);
    let next = step(bytes, st, i);
    assert(next == boundary_step(bytes, boundary, st, i, inside));
    assert(run(bytes, st, i) == run(bytes, next, i + 1));
    if k + 1 < boundary.len() + 2 {
        assert(next == Scan { plain: next.plain, dashed: true, ..st });
        assert(found(bytes, next, inside) == found(bytes, st, inside));
        lemma_dashed_match(bytes, boundary, next, inside, k + 1);
    } else {
        assert(next == found(bytes, st, inside));
    }
}

/// A line that begins with the boundary, or with two hyphens and the
/// boundary, is found: the parser goes on after the boundary, where it
/// awaits the end of the line, and a part that the line ends is kept.
pub proof fn boundary_line_is_found(bytes: Seq<u8>, boundary: Seq<u8>, st: Scan, inside: bool)
    requires
        compares(st, boundary, inside),
        st.plain,
        st.dashed,
        boundary.len() > 0,
        is_plain_text(boundary),
        is_boundary_line(bytes, boundary, st.start),
    ensures
        run(bytes, st, st.start) == run(
            bytes,
            found(bytes, st, inside),
            st.start + boundary_length(bytes, boundary, st.start),
        ),
{
    if begins_with(bytes, st.start, boundary) {
        lemma_plain_match(bytes, boundary, st, inside, 0);
    } else {
        lemma_dashed_match(bytes, boundary, st, inside, 0);
    }
}

/// Whether the parser waits for the end of a line, inside a part or
/// outside.
pub open spec fn waits(st: Scan, boundary: Seq<u8>) -> bool {
    &&& st.boundary == Some(boundary)
    &&& !st.stopped
    &&& (st.part == MultiPartSection::End || st.part == MultiPartSection::Skipping)
}

/// While the parser waits for the end of a line, bytes that are not NUL and
/// end no line leave its state as it is.
pub proof fn other_bytes_are_passed(bytes: Seq<u8>, boundary: Seq<u8>, st: Scan, from: int, to: int)
    requires
        waits(st, boundary),
        0 <= from <= to <= bytes.len(),
        forall|j: int| from <= j < to ==> (#[trigger] bytes[j]) != 0 && !ends_line(bytes, j),
    ensures
        run(bytes, st, from) == run(bytes, st, to),
    decreases to - from,
{
    if from < to {
        assert(bytes[from] != 0 && !ends_line(bytes, from));
        assert(step(bytes, st, from) == st);
        other_bytes_are_passed(bytes, boundary, st, from + 1, to);
    }
}

proof fn lemma_no_match(bytes: Seq<u8>, boundary: Seq<u8>, st: Scan, inside: bool, k: int, cr: int)
    requires
        compares(st, boundary, inside),
        boundary.len() > 0,
        is_plain_text(boundary),
        !is_boundary_line(bytes, boundary, st.start),
        0 <= k,
        st.start + k <= cr < bytes.len(),
        bytes[cr] == 13,
        forall|j: int| st.start + k <= j < cr ==> (#[trigger] bytes[j]) != 13 && bytes[j] != 0,
        k > 0 ==> bytes[st.start + k - 1] != 13,
        st.plain ==> k <= boundary.len() && forall|j: int|
            0 <= j < k ==> bytes[st.start + j] == #[trigger] boundary[j],
        st.dashed ==> k <= boundary.len() + 2 && forall|j: int|
            0 <= j < k ==> bytes[st.start + j] == #[trigger] dashed(boundary)[j],
    ensures
        run(bytes, st, st.start + k) == run(bytes, passed(st, inside), cr + 1),
    decreases cr - k,
{
    let i = st.start + k;
    let b = bytes[i];
    let token = dashed(boundary);
    let next = step(bytes, st, i);
    assert(b != 0);
    assert(next == boundary_step(bytes, boundary, st, i, inside));
    assert(run(bytes, st, i) == run(bytes, next, i + 1));
    let plain = st.plain && k < boundary.len() && boundary[k] == b;
    let dashed_on = st.dashed && (if k < 2 {
        b == 45
    } else {
        k - 2 < boundary.len() && boundary[k - 2] == b
    });
    assert(k >= 2 && k - 2 < boundary.len() ==> token[k] == boundary[k - 2]);
    assert(k < 2 ==> token[k] == 45);
    if plain && k + 1 == boundary.len() {
        assert(begins_with(bytes, st.start, boundary));
    }
    if dashed_on && k + 1 == boundary.len() + 2 {
        assert forall|j: int| 0 <= j < token.len() implies bytes[st.start + j]
            == #[trigger] token[j] by {
            if j < k {
                assert(bytes[st.start + j] == dashed(boundary)[j]);
            }
        }
        assert(begins_with(bytes, st.start, token));
    }
    if !plain && !dashed_on {
        assert(next == passed(st, inside));
        assert forall|j: int| i + 1 <= j < cr + 1 implies (#[trigger] bytes[j]) != 0 && !ends_line(
            bytes,
            j,
        ) by {
            if j < cr {
                assert(bytes[j] != 13 && bytes[j] != 0);
            }
            if j > i + 1 {
                assert(bytes[j - 1] != 13);
            }
            if j == i + 1 && i < cr {
                assert(bytes[i] != 13);
            }
        }
        if i < cr {
            other_bytes_are_passed(bytes, boundary, next, i + 1, cr + 1);
        }
    } else {
        assert(i < cr) by {
            if i == cr {
                assert(b == 13);
                if k < boundary.len() {
                    assert(boundary[k] != 13);
                }
                if k >= 2 && k - 2 < boundary.len() {
                    assert(boundary[k - 2] != 13);
                }
            }
        }
        assert(next == Scan { plain, dashed: dashed_on, ..st });
        assert(passed(next, inside) == passed(st, inside));
        assert(plain ==> forall|j: int|
            0 <= j < k + 1 ==> bytes[st.start + j] == #[trigger] boundary[j]);
        assert(dashed_on ==> forall|j: int|
            0 <= j < k + 1 ==> bytes[st.start + j] == #[trigger] token[j]);
        lemma_no_match(bytes, boundary, next, inside, k + 1, cr);
    }
}

/// A line that begins neither with the boundary nor with two hyphens and
/// the boundary is passed over: from its start up to its first CR, which no
/// NUL precedes, the parser comes to wait for the end of a line, its state
/// otherwise as it was.
pub proof fn other_line_is_passed(bytes: Seq<u8>, boundary: Seq<u8>, st: Scan, inside: bool, cr: int)
    requires
        compares(st, boundary, inside),
        st.plain,
        st.dashed,
        boundary.len() > 0,
        is_plain_text(boundary),
        !is_boundary_line(bytes, boundary, st.start),
        st.start <= cr < bytes.len(),
        bytes[cr] == 13,
        forall|j: int| st.start <= j < cr ==> (#[trigger] bytes[j]) != 13 && bytes[j] != 0,
    ensures
        run(bytes, st, st.start) == run(bytes, passed(st, inside), cr + 1),
{
    lemma_no_match(bytes, boundary, st, inside, 0, cr);
}

/// Whether no line that begins after `from` and before `next` begins with
/// the boundary.
pub open spec fn no_boundary_between(bytes: Seq<u8>, boundary: Seq<u8>, from: int, next: int) -> bool {
    forall|at: int|
        from < at < next && #[trigger] ends_line(bytes, at - 1) ==> !is_boundary_line(
            bytes,
            boundary,
            at,
        )
}

/// The state in which the bytes of a part end before the line at `next`.
pub open spec fn ended_before(st: Scan, next: int) -> Scan {
    Scan { end_data: next - 2, start: next, ..st }
}

/// A part ends before the next line that begins with the boundary: from
/// inside the part, over bytes without NUL and lines that do not begin with
/// the boundary, the parser comes to the line at `next` that does, keeps the
/// part, whose bytes end before the CR LF that precedes that line, and
/// goes on after the boundary.
pub proof fn part_ends_at_next_boundary(
    bytes: Seq<u8>,
    boundary: Seq<u8>,
    st: Scan,
    from: int,
    next: int,
)
    requires
        st.boundary == Some(boundary),
        !st.stopped,
        st.part == MultiPartSection::End,
        boundary.len() > 0,
        is_plain_text(boundary),
        0 <= from < next,
        ends_line(bytes, next - 1),
        is_boundary_line(bytes, boundary, next),
        no_boundary_between(bytes, boundary, from, next),
        forall|j: int| from <= j < next ==> (#[trigger] bytes[j]) != 0,
    ensures
        run(bytes, st, from) == run(
            bytes,
            found(bytes, ended_before(st, next), true),
            next + boundary_length(bytes, boundary, next),
        ),
    decreases next - from,
{
    assert(bytes[from] != 0);
    let after = step(bytes, st, from);
    assert(after == part_byte_step(bytes, boundary, st, from));
    assert(run(bytes, st, from) == run(bytes, after, from + 1));
    if ends_line(bytes, from) {
        let at = from + 1;
        assert(after == Scan {
            part: MultiPartSection::EndBoundary,
            end_data: from - 1,
            start: at,
            plain: true,
            dashed: true,
            ..st
        });
        if at == next {
            boundary_line_is_found(bytes, boundary, after, true);
            assert(found(bytes, after, true) == found(bytes, ended_before(st, next), true));
        } else {
            assert(!is_boundary_line(bytes, boundary, at));
            assert(at <= next - 2) by {
                if at == next - 1 {
                    assert(bytes[at] == 10);
                    assert(bytes[at - 1] == 13);
                }
            }
            let cr = first_cr(bytes, at, next - 2);
            lemma_first_cr(bytes, at, next - 2);
            assert forall|j: int| at <= j < cr implies (#[trigger] bytes[j]) != 13 && bytes[j]
                != 0 by {
                assert(bytes[j] != 0);
            }
            other_line_is_passed(bytes, boundary, after, true, cr);
            let waiting = passed(after, true);
            assert(found(bytes, ended_before(waiting, next), true) == found(
                bytes,
                ended_before(st, next),
                true,
            ));
            assert forall|later: int|
                cr + 1 < later < next && #[trigger] ends_line(
                    bytes,
                    later - 1,
                ) implies !is_boundary_line(bytes, boundary, later) by {
                assert(from < later);
            }
            part_ends_at_next_boundary(bytes, boundary, waiting, cr + 1, next);
        }
    } else {
        assert(after == st);
        assert(from + 1 < next) by {
            if from + 1 == next {
                assert(ends_line(bytes, from));
            }
        }
        assert forall|later: int|
            from + 1 < later < next && #[trigger] ends_line(
                bytes,
                later - 1,
            ) implies !is_boundary_line(bytes, boundary, later) by {
            assert(from < later);
        }
        part_ends_at_next_boundary(bytes, boundary, st, from + 1, next);
    }
}

/// The place of the first CR from `from` on, which is at `last` at the
/// latest.
pub open spec fn first_cr(bytes: Seq<u8>, from: int, last: int) -> int
    decreases last - from,
{
    if from >= last || bytes[from] == 13 {
        from
    } else {
        first_cr(bytes, from + 1, last)
    }
}

proof fn lemma_first_cr(bytes: Seq<u8>, from: int, last: int)
    requires
        0 <= from <= last < bytes.len(),
        bytes[last] == 13,
    ensures
        from <= first_cr(bytes, from, last) <= last,
        bytes[first_cr(bytes, from, last)] == 13,
        forall|j: int| from <= j < first_cr(bytes, from, last) ==> (#[trigger] bytes[j]) != 13,
    decreases last - from,
{
    if from < last && bytes[from] != 13 {
        lemma_first_cr(bytes, from + 1, last);
    }
}

/// The bytes of a body of one part: a boundary line, the bytes of the part,
/// and the boundary line that closes the body, the boundary written after
/// two hyphens and the closing one with two more after it.
pub open spec fn one_part_body(boundary: Seq<u8>, data: Seq<u8>) -> Seq<u8> {
    dashed(boundary) + seq![13u8, 10u8] + data + seq![13u8, 10u8] + dashed(boundary) + seq![
        45u8,
        45u8,
        13u8,
        10u8,
    ]
}

/// Whether the bytes of a part can stand between two boundary lines: they
/// hold no NUL, and no line after their first begins with the boundary.
pub open spec fn is_part_data(data: Seq<u8>, boundary: Seq<u8>) -> bool {
    &&& forall|j: int| 0 <= j < data.len() ==> (#[trigger] data[j]) != 0
    &&& forall|at: int|
        0 < at < data.len() && #[trigger] ends_line(data, at - 1) ==> !is_boundary_line(
            data,
            boundary,
            at,
        )
}

/// The parts of a body after the part that the bytes hold, if they hold
/// one.
pub open spec fn with_part_of(parts: Map<Seq<char>, MultiPartView>, data: Seq<u8>) -> Map<
    Seq<char>,
    MultiPartView,
> {
    match multipart_part(data) {
        Some((name, value)) => parts.insert(name, value),
        None => parts,
    }
}

/// Where the bytes of a body of one part stand, from the place `s` on.
spec fn laid_out(bytes: Seq<u8>, boundary: Seq<u8>, data: Seq<u8>, s: int) -> bool {
    let n = boundary.len() as int;
    let d = s + n + 4;
    let q = d + data.len() + 2;
    let t = q + n + 2;
    &&& 0 <= s
    &&& bytes.len() == t + 4
    &&& forall|j: int| 0 <= j < n + 2 ==> bytes[s + j] == #[trigger] dashed(boundary)[j]
    &&& bytes[d - 2] == 13
    &&& bytes[d - 1] == 10
    &&& forall|j: int| 0 <= j < data.len() ==> bytes[d + j] == #[trigger] data[j]
    &&& bytes[q - 2] == 13
    &&& bytes[q - 1] == 10
    &&& forall|j: int| 0 <= j < n + 2 ==> bytes[q + j] == #[trigger] dashed(boundary)[j]
    &&& bytes[t] == 45
    &&& bytes[t + 1] == 45
    &&& bytes[t + 2] == 13
    &&& bytes[t + 3] == 10
}

proof fn lemma_laid_out(bytes: Seq<u8>, boundary: Seq<u8>, data: Seq<u8>, s: int)
    requires
        0 <= s <= bytes.len(),
        bytes.skip(s) == one_part_body(boundary, data),
    ensures
        laid_out(bytes, boundary, data, s),
{
    let token = dashed(boundary);
    let n = boundary.len() as int;
    let d = s + n + 4;
    let q = d + data.len() + 2;
    let t = q + n + 2;
    let rest = bytes.skip(s);
    assert(rest.len() == n + 2 + 2 + data.len() + 2 + n + 2 + 4);
    assert forall|j: int| 0 <= j < n + 2 implies bytes[s + j] == #[trigger] token[j] by {
        assert(bytes[s + j] == rest[j]);
    }
    assert(bytes[d - 2] == rest[n + 2] && bytes[d - 1] == rest[n + 3]);
    assert forall|j: int| 0 <= j < data.len() implies bytes[d + j] == #[trigger] data[j] by {
        assert(bytes[d + j] == rest[n + 4 + j]);
    }
    assert(bytes[q - 2] == rest[n + 4 + data.len()] && bytes[q - 1] == rest[n + 5 + data.len()]);
    assert forall|j: int| 0 <= j < n + 2 implies bytes[q + j] == #[trigger] token[j] by {
        assert(bytes[q + j] == rest[n + 6 + data.len() + j]);
    }
    assert(bytes[t] == rest[2 * n + 8 + data.len()]);
    assert(bytes[t + 1] == rest[2 * n + 9 + data.len()]);
    assert(bytes[t + 2] == rest[2 * n + 10 + data.len()]);
    assert(bytes[t + 3] == rest[2 * n + 11 + data.len()]);
}

/// The state inside the part, after the boundary line that begins it.
spec fn opened(st: Scan, d: int) -> Scan {
    Scan {
        part: MultiPartSection::End,
        start_data: d,
        plain: true,
        dashed: true,
        ..st
    }
}

proof fn lemma_part_opens(bytes: Seq<u8>, boundary: Seq<u8>, st: Scan, data: Seq<u8>)
    requires
        compares(st, boundary, false),
        st.plain,
        st.dashed,
        boundary.len() > 0,
        is_plain_text(boundary),
        !begins_with(dashed(boundary), 0, boundary),
        laid_out(bytes, boundary, data, st.start),
    ensures
        run(bytes, st, st.start) == run(
            bytes,
            opened(st, st.start + boundary.len() + 4),
            st.start + boundary.len() + 4,
        ),
{
    let s1 = st.start + boundary.len() + 2;
    lemma_dashed_line(bytes, boundary, st.start);
    boundary_line_is_found(bytes, boundary, st, false);
    let after = found(bytes, st, false);
    assert(step(bytes, after, s1) == after);
    assert(run(bytes, after, s1) == run(bytes, after, s1 + 1));
    assert(step(bytes, after, s1 + 1) == opened(st, s1 + 2));
    assert(run(bytes, after, s1 + 1) == run(bytes, opened(st, s1 + 2), s1 + 2));
}

proof fn lemma_no_boundary_in_data(bytes: Seq<u8>, boundary: Seq<u8>, data: Seq<u8>, s: int)
    requires
        boundary.len() > 0,
        is_plain_text(boundary),
        is_part_data(data, boundary),
        laid_out(bytes, boundary, data, s),
    ensures
        no_boundary_between(
            bytes,
            boundary,
            s + boundary.len() + 4,
            s + boundary.len() + 4 + data.len() + 2,
        ),
        forall|j: int|
            s + boundary.len() + 4 <= j < s + boundary.len() + 4 + data.len() + 2 ==> (
            #[trigger] bytes[j]) != 0,
{
    let token = dashed(boundary);
    let d = s + boundary.len() + 4;
    let q = d + data.len() + 2;
    assert forall|at: int|
        d < at < q && #[trigger] ends_line(bytes, at - 1) implies !is_boundary_line(
            bytes,
            boundary,
            at,
        ) by {
        let a = at - d;
        assert(bytes[at - 1] == 10 && bytes[at - 2] == 13);
        assert(a - 1 < data.len());
        assert(a >= 2);
        assert(data[a - 1] == bytes[d + (a - 1)] && data[a - 2] == bytes[d + (a - 2)]);
        assert(ends_line(data, a - 1));
        if a < data.len() {
            assert(!is_boundary_line(data, boundary, a));
            lemma_token_inside(bytes, d, data, a, boundary);
            lemma_token_inside(bytes, d, data, a, token);
        } else {
            assert(bytes[at] == 13);
            assert(boundary[0] != 13);
            assert(token[0] == 45);
        }
    }
    assert forall|j: int| d <= j < q implies (#[trigger] bytes[j]) != 0 by {
        if j < d + data.len() {
            assert(bytes[j] == data[j - d]);
        }
    }
}

proof fn lemma_part_closes(bytes: Seq<u8>, boundary: Seq<u8>, st: Scan, data: Seq<u8>, s: int)
    requires
        st.boundary == Some(boundary),
        !st.stopped,
        st.part == MultiPartSection::End,
        st.start_data == s + boundary.len() + 4,
        st.body is MultiPart,
        boundary.len() > 0,
        is_plain_text(boundary),
        !begins_with(dashed(boundary), 0, boundary),
        is_part_data(data, boundary),
        laid_out(bytes, boundary, data, s),
    ensures
        outcome(run(bytes, st, st.start_data)) == outcome(
            Scan { body: BodyView::MultiPart(with_part_of(st.body->MultiPart_0, data)), ..st },
        ),
{
    let n = boundary.len() as int;
    let d = s + n + 4;
    let q = d + data.len() + 2;
    let t = q + n + 2;
    lemma_dashed_line(bytes, boundary, q);
    lemma_no_boundary_in_data(bytes, boundary, data, s);
    part_ends_at_next_boundary(bytes, boundary, st, d, q);
    let closed = found(bytes, ended_before(st, q), true);
    assert(bytes.subrange(d, q - 2) =~= data);
    assert(closed.body == BodyView::MultiPart(with_part_of(st.body->MultiPart_0, data))) by {
        if data.len() == 0 {
            assert(multipart_part(data) is None);
        }
    }
    let waiting = Scan { part: MultiPartSection::Skipping, ..closed };
    assert(step(bytes, closed, t) == waiting);
    assert(run(bytes, closed, t) == run(bytes, waiting, t + 1));
    assert(step(bytes, waiting, t + 1) == waiting);
    assert(run(bytes, waiting, t + 1) == run(bytes, waiting, t + 2));
    assert(step(bytes, waiting, t + 2) == waiting);
    assert(run(bytes, waiting, t + 2) == run(bytes, waiting, t + 3));
    let last = step(bytes, waiting, t + 3);
    assert(run(bytes, waiting, t + 3) == run(bytes, last, t + 4));
    assert(run(bytes, last, t + 4) == last);
}

proof fn lemma_one_part_body(bytes: Seq<u8>, boundary: Seq<u8>, st: Scan, data: Seq<u8>)
    requires
        compares(st, boundary, false),
        st.plain,
        st.dashed,
        st.body is MultiPart,
        boundary.len() > 0,
        is_plain_text(boundary),
        !begins_with(dashed(boundary), 0, boundary),
        is_part_data(data, boundary),
        st.start <= bytes.len(),
        bytes.skip(st.start) == one_part_body(boundary, data),
    ensures
        outcome(run(bytes, st, st.start)) == outcome(
            Scan { body: BodyView::MultiPart(with_part_of(st.body->MultiPart_0, data)), ..st },
        ),
{
    lemma_laid_out(bytes, boundary, data, st.start);
    lemma_part_opens(bytes, boundary, st, data);
    let d = st.start + boundary.len() + 4;
    lemma_part_closes(bytes, boundary, opened(st, d), data, st.start);
}

proof fn lemma_dashed_line(bytes: Seq<u8>, boundary: Seq<u8>, at: int)
    requires
        0 <= at,
        at + boundary.len() + 2 <= bytes.len(),
        forall|j: int|
            0 <= j < boundary.len() + 2 ==> bytes[at + j] == #[trigger] dashed(boundary)[j],
        !begins_with(dashed(boundary), 0, boundary),
    ensures
        is_boundary_line(bytes, boundary, at),
        boundary_length(bytes, boundary, at) == boundary.len() + 2,
{
    let token = dashed(boundary);
    assert(begins_with(bytes, at, token));
    if begins_with(bytes, at, boundary) {
        assert forall|j: int| 0 <= j < boundary.len() implies token[0 + j]
            == #[trigger] boundary[j] by {
            assert(bytes[at + j] == boundary[j]);
            assert(bytes[at + j] == token[j]);
        }
        assert(begins_with(token, 0, boundary));
    }
}

proof fn lemma_token_inside(bytes: Seq<u8>, d: int, data: Seq<u8>, a: int, token: Seq<u8>)
    requires
        0 <= d,
        0 <= a < data.len(),
        d + data.len() < bytes.len(),
        forall|j: int| 0 <= j < data.len() ==> bytes[d + j] == #[trigger] data[j],
        bytes[d + data.len()] == 13,
        forall|j: int| 0 <= j < token.len() ==> (#[trigger] token[j]) != 13,
    ensures
        begins_with(bytes, d + a, token) ==> begins_with(data, a, token),
{
    if begins_with(bytes, d + a, token) {
        if a + token.len() > data.len() {
            let j = data.len() - a;
            assert(bytes[d + a + j] == token[j]);
        }
        assert forall|j: int| 0 <= j < token.len() implies data[a + j] == #[trigger] token[j] by {
            assert(bytes[d + a + j] == token[j]);
            assert(bytes[d + (a + j)] == data[a + j]);
        }
    }
}

/// The request of a request line, header lines that announce a boundary, a
/// blank line and a body of one part between two boundary lines: the
/// request has that request line, the fields of the header lines, and a
/// body in parts that holds the part of the bytes between the boundary
/// lines, if these hold one, with all its bytes and none of the boundary.
pub proof fn parse_of_one_part(
    first: Seq<u8>,
    lines: Seq<Seq<u8>>,
    boundary: Seq<char>,
    data: Seq<u8>,
)
    requires
        is_text_line(first),
        request_line(decode_utf8(first)) is Some,
        request_body_policy(request_line(decode_utf8(first))->0.method) != SettingValence::No,
        are_header_lines(lines),
        announced_boundary(fields_after(Map::empty(), lines)) == Some(boundary),
        encode_utf8(boundary).len() > 0,
        is_plain_text(encode_utf8(boundary)),
        !begins_with(dashed(encode_utf8(boundary)), 0, encode_utf8(boundary)),
        is_part_data(data, encode_utf8(boundary)),
    ensures
        parse(
            first + seq![13u8, 10u8] + ended_lines(lines) + seq![13u8, 10u8] + one_part_body(
                encode_utf8(boundary),
                data,
            ),
        ) == Some(
            MessageView {
                body: BodyView::MultiPart(with_part_of(Map::empty(), data)),
                headers: fields_after(Map::empty(), lines),
                request_line: request_line(decode_utf8(first))->0,
            },
        ),
{
    let token = encode_utf8(boundary);
    let body = one_part_body(token, data);
    let bytes = first + seq![13u8, 10u8] + ended_lines(lines) + seq![13u8, 10u8] + body;
    let end = first.len() as int;
    assert forall|j: int| 0 <= j < end implies is_plain(#[trigger] bytes[j]) by {
        assert(bytes[j] == first[j]);
    }
    assert(bytes[end] == 13 && bytes[end + 1] == 10);
    ended_line_is_fed(bytes, initial(), end);
    assert(bytes.subrange(0, end) =~= first);
    let named = Scan { start: end + 2, ..feed_bytes(initial(), first) };
    let tail = seq![13u8, 10u8] + body;
    assert(bytes.skip(end + 2) =~= ended_lines(lines) + tail);
    header_lines_are_read(bytes, named, lines, tail);
    let blank = bytes.len() - tail.len();
    let read = Scan { start: blank, headers: fields_after(Map::empty(), lines), ..named };
    lemma_blank_line_before_parts(bytes, read, boundary, data);
}

proof fn lemma_blank_line_before_parts(
    bytes: Seq<u8>,
    st: Scan,
    boundary: Seq<char>,
    data: Seq<u8>,
)
    requires
        st.boundary is None,
        !st.stopped,
        st.section == ParserSection::HeaderFields,
        st.request_line is Some,
        request_body_policy(st.request_line->0.method) != SettingValence::No,
        announced_boundary(st.headers) == Some(boundary),
        0 <= st.start <= bytes.len(),
        bytes.skip(st.start) == seq![13u8, 10u8] + one_part_body(encode_utf8(boundary), data),
        is_part_data(data, encode_utf8(boundary)),
        encode_utf8(boundary).len() > 0,
        is_plain_text(encode_utf8(boundary)),
        !begins_with(dashed(encode_utf8(boundary)), 0, encode_utf8(boundary)),
    ensures
        outcome(run(bytes, st, st.start)) == Some(
            MessageView {
                body: BodyView::MultiPart(with_part_of(Map::empty(), data)),
                headers: st.headers,
                request_line: st.request_line->0,
            },
        ),
{
    let token = encode_utf8(boundary);
    let body = one_part_body(token, data);
    let rest = bytes.skip(st.start);
    assert(body.len() >= 4);
    assert(rest.len() == 2 + body.len());
    assert(bytes[st.start] == rest[0] && bytes[st.start + 1] == rest[1]);
    ended_line_is_fed(bytes, st, st.start);
    let line = bytes.subrange(st.start, st.start);
    assert(line =~= Seq::<u8>::empty());
    assert(valid_utf8(line));
    assert(decode_utf8(line) =~= Seq::<char>::empty());
    let parts = Scan { start: st.start + 2, ..feed_bytes(st, line) };
    assert(parts.boundary == Some(token));
    assert(rest.skip(2) =~= body);
    assert(bytes.skip(st.start + 2) =~= rest.skip(2));
    lemma_one_part_body(bytes, token, parts, data);
}

} // verus!

//! The order in which the responders of a chain are asked: each in turn
//! whether it matches, and one that matches for its response. The first
//! response that is given is sent; a responder that does not match, or that
//! matches and fails, is passed over.

use vstd::prelude::*;
use crate::application_layer::http::response;
use crate::application_layer::http::response::ResponseView;

verus! {

/// Where the dispatch of a request stands.
#[derive(Debug)]
pub enum Dispatch {
    /// The responder at this place is asked whether it matches.
    Parsed(usize),
    /// The responder at this place matches and is asked to respond.
    Matched(usize),
    /// This response is sent.
    Responded(response::Message),
    /// No responder answers.
    Unmatched,
}

/// What a responder did when it was asked.
#[derive(Debug)]
pub enum Outcome {
    /// Whether it matches.
    Matches(bool),
    /// Its response, or why it has none.
    Responds(Result<response::Message, String>),
}

/// Where a dispatch stands.
pub ghost enum DispatchView {
    Parsed(int),
    Matched(int),
    Responded(ResponseView),
    Unmatched,
}

/// What a responder did.
pub ghost enum OutcomeView {
    Matches(bool),
    Responds(Result<ResponseView, Seq<char>>),
}

impl View for Dispatch {
    type V = DispatchView;

    open spec fn view(&self) -> DispatchView {
        match self {
            Dispatch::Parsed(place) => DispatchView::Parsed(*place as int),
            Dispatch::Matched(place) => DispatchView::Matched(*place as int),
            Dispatch::Responded(response) => DispatchView::Responded(response@),
            Dispatch::Unmatched => DispatchView::Unmatched,
        }
    }
}

impl View for Outcome {
    type V = OutcomeView;

    open spec fn view(&self) -> OutcomeView {
        match self {
            Outcome::Matches(matches) => OutcomeView::Matches(*matches),
            Outcome::Responds(Ok(response)) => OutcomeView::Responds(Ok(response@)),
            Outcome::Responds(Err(why)) => OutcomeView::Responds(Err(why@)),
        }
    }
}

/// The dispatch that asks the responder at `place` of `count`, or that
/// ends without a response where there is no such responder.
pub open spec fn ask(place: int, count: int) -> DispatchView {
    if 0 <= place < count {
        DispatchView::Parsed(place)
    } else {
        DispatchView::Unmatched
    }
}

/// Where a dispatch begins: at the first responder, if a request was read
/// and there is a responder.
pub open spec fn begin(has_request: bool, count: int) -> DispatchView {
    if has_request {
        ask(0, count)
    } else {
        DispatchView::Unmatched
    }
}

/// Where a dispatch stands after what a responder did. A responder that
/// matches is asked to respond; its response ends the dispatch. After one
/// that does not match, or that fails, the next is asked.
pub open spec fn advance(state: DispatchView, outcome: OutcomeView, count: int) -> DispatchView {
    match (state, outcome) {
        (DispatchView::Parsed(place), OutcomeView::Matches(true)) => DispatchView::Matched(place),
        (DispatchView::Parsed(place), OutcomeView::Matches(false)) => ask(place + 1, count),
        (DispatchView::Matched(_), OutcomeView::Responds(Ok(response))) => DispatchView::Responded(
            response,
        ),
        (DispatchView::Matched(place), OutcomeView::Responds(Err(_))) => ask(place + 1, count),
        _ => state,
    }
}

/// What a responder does when it is asked: whether it matches, and its
/// response, or why it has none.
pub ghost struct Asked {
    pub matches: bool,
    pub response: Result<ResponseView, Seq<char>>,
}

/// The place of the first responder from `from` on that matches and
/// responds, or the number of responders where there is none.
pub open spec fn first_answer(asked: Seq<Asked>, from: int) -> int
    decreases asked.len() - from,
{
    if from < 0 || from >= asked.len() {
        asked.len() as int
    } else if asked[from].matches && asked[from].response is Ok {
        from
    } else {
        first_answer(asked, from + 1)
    }
}

/// How many questions a dispatch may still ask of `count` responders.
pub open spec fn questions_left(state: DispatchView, count: int) -> int {
    match state {
        DispatchView::Parsed(place) => 2 * (count - place),
        DispatchView::Matched(place) => 2 * (count - place) - 1,
        _ => 0,
    }
}

/// Where a dispatch ends when each responder does what `asked` says.
pub open spec fn walk(state: DispatchView, asked: Seq<Asked>) -> DispatchView
    decreases questions_left(state, asked.len() as int),
{
    match state {
        DispatchView::Parsed(place) => if 0 <= place < asked.len() {
            walk(
                advance(state, OutcomeView::Matches(asked[place].matches), asked.len() as int),
                asked,
            )
        } else {
            DispatchView::Unmatched
        },
        DispatchView::Matched(place) => if 0 <= place < asked.len() {
            walk(
                advance(state, OutcomeView::Responds(asked[place].response), asked.len() as int),
                asked,
            )
        } else {
            DispatchView::Unmatched
        },
        _ => state,
    }
}

/// The first responder that matches and responds has the last word: the
/// dispatch ends with its response, whatever the responders after it would
/// do; and without such a responder it ends without a response.
pub proof fn first_match_wins(asked: Seq<Asked>, from: int)
    requires
        0 <= from,
    ensures
        first_answer(asked, from) <= asked.len(),
        from <= first_answer(asked, from) || from >= asked.len(),
        forall|i: int|
            from <= i < first_answer(asked, from) ==> !((#[trigger] asked[i]).matches
                && asked[i].response is Ok),
        walk(ask(from, asked.len() as int), asked) == (if first_answer(asked, from) < asked.len() {
            DispatchView::Responded(asked[first_answer(asked, from)].response->Ok_0)
        } else {
            DispatchView::Unmatched
        }),
    decreases asked.len() - from,
{
    let count = asked.len() as int;
    if from < count {
        let here = asked[from];
        let parsed = DispatchView::Parsed(from);
        let matched = DispatchView::Matched(from);
        assert(ask(from, count) == parsed);
        if here.matches {
            assert(advance(parsed, OutcomeView::Matches(true), count) == matched);
            assert(walk(parsed, asked) == walk(matched, asked));
            let after = advance(matched, OutcomeView::Responds(here.response), count);
            assert(walk(matched, asked) == walk(after, asked));
            if here.response is Ok {
                assert(after == DispatchView::Responded(here.response->Ok_0));
                assert(walk(after, asked) == after);
            } else {
                assert(after == ask(from + 1, count));
                first_match_wins(asked, from + 1);
            }
        } else {
            assert(advance(parsed, OutcomeView::Matches(false), count) == ask(from + 1, count));
            assert(walk(parsed, asked) == walk(ask(from + 1, count), asked));
            first_match_wins(asked, from + 1);
        }
    }
}

/// Where a dispatch begins.
pub fn start(has_request: bool, count: usize) -> (state: Dispatch)
    ensures
        state@ == begin(has_request, count as int),
{
    if has_request && count > 0 {
        Dispatch::Parsed(0)
    } else {
        Dispatch::Unmatched
    }
}

/// Where a dispatch stands after what a responder did.
pub fn next(state: Dispatch, outcome: Outcome, count: usize) -> (after: Dispatch)
    ensures
        after@ == advance(state@, outcome@, count as int),
{
    match (state, outcome) {
        (Dispatch::Parsed(place), Outcome::Matches(true)) => Dispatch::Matched(place),
        (Dispatch::Parsed(place), Outcome::Matches(false)) => following(place, count),
        (Dispatch::Matched(_), Outcome::Responds(Ok(response))) => Dispatch::Responded(response),
        (Dispatch::Matched(place), Outcome::Responds(Err(_))) => following(place, count),
        (state, _) => state,
    }
}

/// The dispatch that asks the responder after the one at `place`.
fn following(place: usize, count: usize) -> (state: Dispatch)
    ensures
        state@ == ask(place + 1, count as int),
{
    if place < count && place + 1 < count {
        Dispatch::Parsed(place + 1)
    } else {
        Dispatch::Unmatched
    }
}

} // verus!

use vstd::prelude::*;

verus! {

/// Where a connection stands in the cycle of one request.
#[derive(Debug, Clone, Copy, PartialEq, Eq, Structural)]
pub enum Stage {
    /// Between requests.
    Idle,
    /// Reading until the header block is complete.
    Framing,
    /// The header block is complete and the fields are to be extracted.
    Parsed,
    /// The request is with the router.
    Dispatching,
    /// The response is being written; `keep_alive` says whether the
    /// connection goes on afterwards.
    Responding { keep_alive: bool },
    /// The connection is over.
    Closed,
}

/// What happened on a connection.
#[derive(Debug, Clone, Copy, PartialEq, Eq, Structural)]
pub enum Event {
    /// The connection was accepted, or the arena was emptied for the next
    /// request.
    Ready,
    /// A read was taken note of; `framed` says whether the header block is
    /// complete.
    Read { framed: bool },
    /// The fields of the request were extracted.
    Extracted,
    /// The router returned a response; `keep_alive` is false where the
    /// handler asked for the connection to be closed.
    Routed { keep_alive: bool },
    /// The response was written.
    Written,
    /// Something failed: a read or a write, a deadline, the end of the
    /// stream, or a request that cannot be parsed.
    Failed,
}

/// What the driver of a connection does next.
#[derive(Debug, Clone, Copy, PartialEq, Eq, Structural)]
pub enum Action {
    /// Read into the free space of the arena.
    Read,
    /// Run the field extractor.
    Extract,
    /// Hand the request to the router.
    Dispatch,
    /// Write the response.
    Write,
    /// Empty the arena for the next request.
    Reset,
    /// Release the stream.
    Close,
}

/// The cycle of a connection. Each stage goes on to the next on the event that
/// completes it, and reading repeats until the header block is complete. After
/// the response the connection starts over or is closed, as the router said.
/// A failure closes the connection in every stage, and so does an event that
/// the stage does not wait for. Nothing is retried, and a closed connection
/// stays closed.
pub open spec fn next_spec(stage: Stage, event: Event) -> (Stage, Action) {
    match (stage, event) {
        (Stage::Idle, Event::Ready) => (Stage::Framing, Action::Read),
        (Stage::Framing, Event::Read { framed: false }) => (Stage::Framing, Action::Read),
        (Stage::Framing, Event::Read { framed: true }) => (Stage::Parsed, Action::Extract),
        (Stage::Parsed, Event::Extracted) => (Stage::Dispatching, Action::Dispatch),
        (Stage::Dispatching, Event::Routed { keep_alive }) => (
            Stage::Responding { keep_alive },
            Action::Write,
        ),
        (Stage::Responding { keep_alive: true }, Event::Written) => (Stage::Idle, Action::Reset),
        _ => (Stage::Closed, Action::Close),
    }
}

/// The stage after a series of events.
pub open spec fn run(stage: Stage, events: Seq<Event>) -> Stage
    decreases events.len(),
{
    if events.len() == 0 {
        stage
    } else {
        next_spec(run(stage, events.drop_last()), events.last()).0
    }
}

/// The next stage of a connection and what its driver does next.
pub fn next(stage: Stage, event: Event) -> (step: (Stage, Action))
    ensures
        step == next_spec(stage, event),
{
    match (stage, event) {
        (Stage::Idle, Event::Ready) => (Stage::Framing, Action::Read),
        (Stage::Framing, Event::Read { framed: false }) => (Stage::Framing, Action::Read),
        (Stage::Framing, Event::Read { framed: true }) => (Stage::Parsed, Action::Extract),
        (Stage::Parsed, Event::Extracted) => (Stage::Dispatching, Action::Dispatch),
        (Stage::Dispatching, Event::Routed { keep_alive }) => (
            Stage::Responding { keep_alive },
            Action::Write,
        ),
        (Stage::Responding { keep_alive: true }, Event::Written) => (Stage::Idle, Action::Reset),
        _ => (Stage::Closed, Action::Close),
    }
}

/// A failure ends the connection whatever its stage, and what is closed stays
/// closed whatever happens.
pub proof fn lemma_closed_for_good(stage: Stage, events: Seq<Event>)
    ensures
        next_spec(stage, Event::Failed) == (Stage::Closed, Action::Close),
        run(Stage::Closed, events) == Stage::Closed,
        events.len() > 0 && events.last() == Event::Failed ==> run(stage, events) == Stage::Closed,
    decreases events.len(),
{
    if events.len() > 0 {
        lemma_closed_for_good(stage, events.drop_last());
    }
}

/// The stream is released exactly when the connection closes, and the arena is
/// emptied exactly when the connection starts over.
pub proof fn lemma_actions(stage: Stage, event: Event)
    ensures
        next_spec(stage, event).1 == Action::Close <==> next_spec(stage, event).0 == Stage::Closed,
        next_spec(stage, event).1 == Action::Reset <==> next_spec(stage, event).0 == Stage::Idle,
        next_spec(stage, event).1 == Action::Reset <==> stage == (Stage::Responding {
            keep_alive: true,
        }) && event == Event::Written,
{
}

} // verus!

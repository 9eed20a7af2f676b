//! The events that the relay hands to its subscriber.
use vstd::prelude::*;

verus! {

/// The mathematical value of a [`StreamEvent`].
pub struct EventView {
    pub content: Option<Seq<char>>,
    pub error: Option<Seq<char>>,
    pub done: bool,
}

/// One event published to the subscriber: a piece of content, or the end of
/// the stream, possibly with an error.
#[derive(Debug)]
pub struct StreamEvent {
    pub content: Option<String>,
    pub error: Option<String>,
    pub done: bool,
}

pub open spec fn opt_view(o: Option<String>) -> Option<Seq<char>> {
    match o {
        Some(s) => Some(s@),
        None => None,
    }
}

impl View for StreamEvent {
    type V = EventView;

    open spec fn view(&self) -> EventView {
        EventView { content: opt_view(self.content), error: opt_view(self.error), done: self.done }
    }
}

/// A non-terminal event carrying `c`.
pub open spec fn content_ev(c: Seq<char>) -> EventView {
    EventView { content: Some(c), error: None, done: false }
}

/// The terminal event of a stream that ended normally.
pub open spec fn done_ev() -> EventView {
    EventView { content: None, error: None, done: true }
}

/// The terminal event of a stream that ended with error `e`.
pub open spec fn error_ev(e: Seq<char>) -> EventView {
    EventView { content: None, error: Some(e), done: true }
}

/// The views of a sequence of events.
pub open spec fn views(v: Seq<StreamEvent>) -> Seq<EventView> {
    v.map_values(|e: StreamEvent| e@)
}

impl StreamEvent {
    /// A content event.
    pub fn content(c: String) -> (r: StreamEvent)
        ensures
            r@ == content_ev(c@),
    {
        StreamEvent { content: Some(c), error: None, done: false }
    }

    /// The terminal event of a normal end.
    pub fn done() -> (r: StreamEvent)
        ensures
            r@ == done_ev(),
    {
        StreamEvent { content: None, error: None, done: true }
    }

    /// The terminal event that reports `e`.
    pub fn error(e: String) -> (r: StreamEvent)
        ensures
            r@ == error_ev(e@),
    {
        StreamEvent { content: None, error: Some(e), done: true }
    }
}

} // verus!

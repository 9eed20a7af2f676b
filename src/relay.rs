//! The relay: line framing of the streamed body and the rules that turn each
//! line into events.
use vstd::prelude::*;
use vstd::string::*;
use crate::chunk::{chunk_of, decode_chunk, ChunkView};
use crate::event::{content_ev, done_ev, error_ev, views, EventView, StreamEvent};
use crate::text::{
    done_sentinel,
    is_blank,
    is_done_sentinel,
    line_payload,
    line_text,
    payload_of_text,
    text_of_line,
};

verus! {

/// The byte that ends a line.
pub const NEWLINE: u8 = 10;

/// Whether `s` holds no line end.
pub open spec fn no_newline(s: Seq<u8>) -> bool {
    forall|i: int| 0 <= i < s.len() ==> s[i] != NEWLINE
}

/// Whether `p` is where the first line of `s` ends.
pub open spec fn is_first_newline(s: Seq<u8>, p: int) -> bool {
    0 <= p < s.len() && s[p] == NEWLINE && no_newline(s.take(p))
}

/// Whether `s` holds a complete line.
pub open spec fn has_line(s: Seq<u8>) -> bool {
    exists|p: int| is_first_newline(s, p)
}

/// Where the first line of `s` ends.
pub open spec fn first_newline(s: Seq<u8>) -> int
    recommends
        has_line(s),
{
    choose|p: int| is_first_newline(s, p)
}

/// What one line does: the events it gives, and whether it ends the stream.
pub struct Step {
    pub events: Seq<EventView>,
    pub stop: bool,
}

/// The message of a payload that does not decode as a chunk.
pub open spec fn parse_failure_text(m: Seq<char>) -> Seq<char> {
    "Failed to parse chunk: "@ + m
}

/// The content event of a chunk, where it has content.
pub open spec fn content_events(c: Option<Seq<char>>) -> Seq<EventView> {
    match c {
        Some(t) => seq![content_ev(t)],
        None => seq![],
    }
}

/// Whether a decoded chunk ends the stream without an error.
pub open spec fn chunk_finishes(c: ChunkView) -> bool {
    c.done == Some(true) || c.finish_reason is Some
}

/// What the payload of a `data: ` line other than the sentinel does.
pub open spec fn chunk_step(p: Seq<char>) -> Step {
    match chunk_of(p) {
        Err(m) => Step { events: seq![error_ev(parse_failure_text(m))], stop: true },
        Ok(c) => if c.error is Some {
            Step { events: seq![error_ev(c.error->Some_0)], stop: true }
        } else if chunk_finishes(c) {
            Step { events: content_events(c.content).push(done_ev()), stop: true }
        } else {
            Step { events: content_events(c.content), stop: false }
        },
    }
}

/// The content that the text left after the sentinel yields, if any.
pub open spec fn drained_content(rest: Seq<u8>) -> Option<Seq<char>> {
    match line_text(rest) {
        Some(t) => if t.len() > 0 {
            match chunk_of(t) {
                Ok(c) => c.content,
                Err(_) => None,
            }
        } else {
            None
        },
        None => None,
    }
}

/// The events of the sentinel: the content left in `rest`, then the end.
pub open spec fn drain_events(rest: Seq<u8>) -> Seq<EventView> {
    content_events(drained_content(rest)).push(done_ev())
}

/// What a line does, given what is buffered after it.
pub open spec fn line_step(line: Seq<u8>, rest: Seq<u8>) -> Step {
    match line_payload(line) {
        None => Step { events: seq![], stop: false },
        Some(p) => if p == done_sentinel() {
            Step { events: drain_events(rest), stop: true }
        } else {
            chunk_step(p)
        },
    }
}

/// The outcome of framing a buffer: the events of its complete lines, the
/// incomplete line left over, and whether a line ended the stream.
pub struct Framed {
    pub events: Seq<EventView>,
    pub rest: Seq<u8>,
    pub finished: bool,
}

/// Processes every complete line of `s` in order, until one ends the stream.
pub open spec fn frame(s: Seq<u8>) -> Framed
    decreases s.len(),
{
    if has_line(s) {
        let p = first_newline(s);
        let st = line_step(s.take(p), s.skip(p + 1));
        if st.stop {
            Framed { events: st.events, rest: seq![], finished: true }
        } else {
            let f = frame(s.skip(p + 1));
            Framed { events: st.events + f.events, rest: f.rest, finished: f.finished }
        }
    } else {
        Framed { events: seq![], rest: s, finished: false }
    }
}

/// Two ends of the first line are one.
pub proof fn lemma_first_newline(s: Seq<u8>, p: int)
    requires
        is_first_newline(s, p),
    ensures
        has_line(s),
        first_newline(s) == p,
{
    let q = first_newline(s);
    if q < p {
        assert(s.take(p)[q] == s[q]);
    } else if p < q {
        assert(s.take(q)[p] == s[p]);
    }
}

fn push_event(out: &mut Vec<StreamEvent>, e: StreamEvent)
    ensures
        views(final(out)@) == views(old(out)@).push(e@),
{
    out.push(e);
    assert(views(final(out)@) =~= views(old(out)@).push(e@));
}

/// The position of the first line end in `v`, if any.
fn find_newline(v: &Vec<u8>) -> (r: Option<usize>)
    ensures
        r matches Some(p) ==> is_first_newline(v@, p as int),
        r is None ==> no_newline(v@),
{
    let mut i: usize = 0;
    while i < v.len()
        invariant
            i <= v@.len(),
            no_newline(v@.take(i as int)),
        decreases v@.len() - i,
    {
        if v[i] == NEWLINE {
            return Some(i);
        }
        assert(v@.take(i + 1) =~= v@.take(i as int).push(v@[i as int]));
        i = i + 1;
    }
    assert(v@.take(i as int) =~= v@);
    None
}

/// A copy of `v[from..to]`.
fn copy_range(v: &Vec<u8>, from: usize, to: usize) -> (r: Vec<u8>)
    requires
        from <= to <= v@.len(),
    ensures
        r@ == v@.subrange(from as int, to as int),
{
    let mut r: Vec<u8> = Vec::new();
    let mut i: usize = from;
    while i < to
        invariant
            from <= i <= to <= v@.len(),
            r@ == v@.subrange(from as int, i as int),
        decreases to - i,
    {
        r.push(v[i]);
        assert(v@.subrange(from as int, i + 1) =~= v@.subrange(from as int, i as int).push(
            v@[i as int],
        ));
        i = i + 1;
    }
    r
}

/// The event of a payload that does not decode.
fn parse_failure(m: String) -> (r: StreamEvent)
    ensures
        r@ == error_ev(parse_failure_text(m@)),
{
    let mut s = String::from_str("Failed to parse chunk: ");
    s.append(m.as_str());
    StreamEvent::error(s)
}

/// Appends what a payload other than the sentinel gives; tells whether it
/// ends the stream.
fn apply_chunk(p: &str, out: &mut Vec<StreamEvent>) -> (stop: bool)
    ensures
        views(final(out)@) == views(old(out)@) + chunk_step(p@).events,
        stop == chunk_step(p@).stop,
{
    let ghost start = views(out@);
    match decode_chunk(p) {
        Err(m) => {
            push_event(out, parse_failure(m));
            assert(views(out@) =~= start + chunk_step(p@).events);
            true
        },
        Ok(c) => {
            if let Some(e) = c.error {
                push_event(out, StreamEvent::error(e));
                assert(views(out@) =~= start + chunk_step(p@).events);
                return true;
            }
            let finishes = match c.done {
                Some(d) => d,
                None => false,
            } || c.finish_reason.is_some();
            if let Some(t) = c.content {
                push_event(out, StreamEvent::content(t));
            }
            if finishes {
                push_event(out, StreamEvent::done());
            }
            assert(views(out@) =~= start + chunk_step(p@).events);
            finishes
        },
    }
}

/// Appends the events of the sentinel, given what is buffered after it.
fn apply_sentinel(rest: Vec<u8>, out: &mut Vec<StreamEvent>)
    ensures
        views(final(out)@) == views(old(out)@) + drain_events(rest@),
{
    let ghost start = views(out@);
    let ghost r = rest@;
    if let Some(t) = text_of_line(rest) {
        if !is_blank(t.as_str()) {
            if let Ok(c) = decode_chunk(t.as_str()) {
                if let Some(x) = c.content {
                    push_event(out, StreamEvent::content(x));
                }
            }
        }
    }
    push_event(out, StreamEvent::done());
    assert(views(out@) =~= start + drain_events(r));
}

/// Appends the events of one line, given what is buffered after it; tells
/// whether the line ends the stream.
fn apply_line(line: Vec<u8>, rest: Vec<u8>, out: &mut Vec<StreamEvent>) -> (stop: bool)
    ensures
        views(final(out)@) == views(old(out)@) + line_step(line@, rest@).events,
        stop == line_step(line@, rest@).stop,
{
    let ghost l = line@;
    let text = match text_of_line(line) {
        Some(t) => t,
        None => {
            assert(views(out@) =~= views(out@) + line_step(l, rest@).events);
            return false;
        },
    };
    let payload = match payload_of_text(text.as_str()) {
        Some(p) => p,
        None => {
            assert(views(out@) =~= views(out@) + line_step(l, rest@).events);
            return false;
        },
    };
    if is_done_sentinel(payload.as_str()) {
        apply_sentinel(rest, out);
        true
    } else {
        apply_chunk(payload.as_str(), out)
    }
}

/// The mathematical value of a [`Relay`].
pub struct RelayView {
    pub buffer: Seq<u8>,
    pub finished: bool,
}

/// The relay of one chat turn: what it has buffered of an incomplete line,
/// and whether it has published its terminal event.
pub struct Relay {
    buffer: Vec<u8>,
    finished: bool,
}

impl View for Relay {
    type V = RelayView;

    closed spec fn view(&self) -> RelayView {
        RelayView { buffer: self.buffer@, finished: self.finished }
    }
}

/// The state and events after a buffer of the body arrives.
pub open spec fn feed_spec(s: RelayView, bytes: Seq<u8>) -> (RelayView, Seq<EventView>) {
    if s.finished {
        (s, seq![])
    } else {
        let f = frame(s.buffer + bytes);
        (RelayView { buffer: f.rest, finished: f.finished }, f.events)
    }
}

/// The state and events after a terminal condition outside the body (an
/// error status, a failed request, a failed transfer, the end of the body).
pub open spec fn finish_spec(s: RelayView, e: EventView) -> (RelayView, Seq<EventView>) {
    if s.finished {
        (s, seq![])
    } else {
        (RelayView { buffer: seq![], finished: true }, seq![e])
    }
}

/// Whether a status is a success (2xx).
pub open spec fn is_success(code: u16) -> bool {
    200 <= code < 300
}

/// How the response status reads (`500 Internal Server Error`).
pub uninterp spec fn status_display(code: u16) -> Seq<char>;

/// Relies on `reqwest::StatusCode::from_u16`, which accepts 100 to 999, and on
/// the status code's `Display`.
#[verifier::external_body]
fn status_text(code: u16) -> (r: Option<String>)
    ensures
        r is Some <==> 100 <= code <= 999,
        r matches Some(t) ==> t@ == status_display(code),
{
    match reqwest::StatusCode::from_u16(code) {
        Ok(s) => Some(s.to_string()),
        Err(_) => None,
    }
}

/// The message for an unsuccessful status.
pub open spec fn http_error_text(code: u16) -> Seq<char> {
    if 100 <= code <= 999 {
        "HTTP error: "@ + status_display(code)
    } else {
        "HTTP error: invalid status code"@
    }
}

/// The message for a request that got no response.
pub open spec fn request_error_text(detail: Seq<char>) -> Seq<char> {
    "Request error: "@ + detail
}

/// The message for a body whose transfer failed.
pub open spec fn stream_error_text(detail: Seq<char>) -> Seq<char> {
    "Stream error: "@ + detail
}

/// The state and events after the response status arrives.
pub open spec fn status_spec(s: RelayView, code: u16) -> (RelayView, Seq<EventView>) {
    if is_success(code) {
        (s, seq![])
    } else {
        finish_spec(s, error_ev(http_error_text(code)))
    }
}

fn prefixed(lit: &str, detail: &str) -> (r: String)
    ensures
        r@ == lit@ + detail@,
{
    let mut s = String::from_str(lit);
    s.append(detail);
    s
}

impl Relay {
    /// A relay that has received nothing.
    pub fn new() -> (r: Relay)
        ensures
            r@ == (RelayView { buffer: seq![], finished: false }),
    {
        Relay { buffer: Vec::new(), finished: false }
    }

    /// Whether the terminal event has been published.
    pub fn is_finished(&self) -> (r: bool)
        ensures
            r == self@.finished,
    {
        self.finished
    }

    fn finish(&mut self, e: StreamEvent) -> (r: Vec<StreamEvent>)
        ensures
            (final(self)@, views(r@)) == finish_spec(old(self)@, e@),
    {
        let mut out: Vec<StreamEvent> = Vec::new();
        if self.finished {
            assert(views(out@) =~= seq![]);
            return out;
        }
        self.buffer = Vec::new();
        self.finished = true;
        push_event(&mut out, e);
        assert(views(out@) =~= seq![e@]);
        out
    }

    /// The response status has arrived: anything but 2xx ends the stream
    /// with an error that shows the status.
    pub fn on_status(&mut self, code: u16) -> (r: Vec<StreamEvent>)
        ensures
            (final(self)@, views(r@)) == status_spec(old(self)@, code),
    {
        if 200 <= code && code < 300 {
            let out: Vec<StreamEvent> = Vec::new();
            assert(views(out@) =~= seq![]);
            return out;
        }
        let msg = match status_text(code) {
            Some(t) => prefixed("HTTP error: ", t.as_str()),
            None => String::from_str("HTTP error: invalid status code"),
        };
        self.finish(StreamEvent::error(msg))
    }

    /// The request failed before a response arrived.
    pub fn on_request_error(&mut self, detail: &str) -> (r: Vec<StreamEvent>)
        ensures
            (final(self)@, views(r@)) == finish_spec(
                old(self)@,
                error_ev(request_error_text(detail@)),
            ),
    {
        self.finish(StreamEvent::error(prefixed("Request error: ", detail)))
    }

    /// The transfer of the body failed.
    pub fn on_stream_error(&mut self, detail: &str) -> (r: Vec<StreamEvent>)
        ensures
            (final(self)@, views(r@)) == finish_spec(
                old(self)@,
                error_ev(stream_error_text(detail@)),
            ),
    {
        self.finish(StreamEvent::error(prefixed("Stream error: ", detail)))
    }

    /// The body ended: a stream that no line has ended gets its terminal
    /// event now.
    pub fn on_end(&mut self) -> (r: Vec<StreamEvent>)
        ensures
            (final(self)@, views(r@)) == finish_spec(old(self)@, done_ev()),
    {
        self.finish(StreamEvent::done())
    }

    /// A buffer of the body has arrived: its complete lines are processed in
    /// order, each event as soon as its line is read.
    pub fn on_bytes(&mut self, bytes: &[u8]) -> (r: Vec<StreamEvent>)
        ensures
            (final(self)@, views(r@)) == feed_spec(old(self)@, bytes@),
    {
        let mut out: Vec<StreamEvent> = Vec::new();
        if self.finished {
            assert(views(out@) =~= seq![]);
            return out;
        }
        let ghost all = old(self)@.buffer + bytes@;
        let mut i: usize = 0;
        while i < bytes.len()
            invariant
                i <= bytes@.len(),
                self.buffer@ == old(self)@.buffer + bytes@.take(i as int),
                !self.finished,
                !old(self)@.finished,
                all == old(self)@.buffer + bytes@,
            decreases bytes@.len() - i,
        {
            self.buffer.push(bytes[i]);
            assert(bytes@.take(i + 1) =~= bytes@.take(i as int).push(bytes@[i as int]));
            i = i + 1;
        }
        assert(bytes@.take(i as int) =~= bytes@);
        assert(views(out@) =~= seq![]);
        loop
            invariant
                !self.finished,
                !old(self)@.finished,
                all == old(self)@.buffer + bytes@,
                frame(all) == (Framed {
                    events: views(out@) + frame(self.buffer@).events,
                    rest: frame(self.buffer@).rest,
                    finished: frame(self.buffer@).finished,
                }),
            decreases self.buffer@.len(),
        {
            let ghost cur = self.buffer@;
            let ghost before = views(out@);
            match find_newline(&self.buffer) {
                None => {
                    assert(!has_line(cur));
                    assert(frame(cur) == (Framed { events: seq![], rest: cur, finished: false }));
                    assert(before + seq![] =~= before);
                    assert(self@ == (RelayView { buffer: frame(all).rest, finished: false }));
                    assert(views(out@) == frame(all).events);
                    return out;
                },
                Some(p) => {
                    proof {
                        lemma_first_newline(cur, p as int);
                    }
                    let n = self.buffer.len();
                    let line = copy_range(&self.buffer, 0, p);
                    let rest = copy_range(&self.buffer, p + 1, n);
                    assert(line@ =~= cur.take(p as int));
                    assert(rest@ =~= cur.skip(p + 1));
                    let stop = apply_line(line, rest.clone(), &mut out);
                    if stop {
                        self.buffer = Vec::new();
                        self.finished = true;
                        assert(frame(cur).events == line_step(
                            cur.take(p as int),
                            cur.skip(p + 1),
                        ).events);
                        assert(self@ == (RelayView { buffer: frame(all).rest, finished: true }));
                        return out;
                    }
                    self.buffer = rest;
                    assert(views(out@) + frame(self.buffer@).events =~= before + (
                    line_step(cur.take(p as int), cur.skip(p + 1)).events + frame(
                        self.buffer@,
                    ).events));
                },
            }
        }
    }
}

/// The state and events after the buffers `bufs` of the body arrive in order.
pub open spec fn run_spec(s: RelayView, bufs: Seq<Seq<u8>>) -> (RelayView, Seq<EventView>)
    decreases bufs.len(),
{
    if bufs.len() == 0 {
        (s, seq![])
    } else {
        let (s1, e1) = run_spec(s, bufs.drop_last());
        let (s2, e2) = feed_spec(s1, bufs.last());
        (s2, e1 + e2)
    }
}

/// The state of a relay that has received nothing.
pub open spec fn initial() -> RelayView {
    RelayView { buffer: seq![], finished: false }
}

/// Every event of one chat turn whose response has status `code` and whose
/// body arrives as `bufs` and then ends.
pub open spec fn session_spec(code: u16, bufs: Seq<Seq<u8>>) -> Seq<EventView> {
    let (s0, e0) = status_spec(initial(), code);
    let (s1, e1) = run_spec(s0, bufs);
    let (s2, e2) = finish_spec(s1, done_ev());
    e0 + e1 + e2
}

/// The views of the buffers of a body.
pub open spec fn buffers_view(body: Seq<Vec<u8>>) -> Seq<Seq<u8>> {
    body.map_values(|b: Vec<u8>| b@)
}

fn append_events(out: &mut Vec<StreamEvent>, evs: Vec<StreamEvent>)
    ensures
        views(final(out)@) == views(old(out)@) + views(evs@),
{
    let ghost added = evs@;
    let mut evs = evs;
    out.append(&mut evs);
    assert(views(out@) =~= views(old(out)@) + views(added));
}

/// Relays one chat turn whose response has status `code` and whose body
/// arrives as the buffers of `body`, then ends.
pub fn relay_session(code: u16, body: &Vec<Vec<u8>>) -> (r: Vec<StreamEvent>)
    ensures
        views(r@) == session_spec(code, buffers_view(body@)),
{
    let ghost bufs = buffers_view(body@);
    let mut relay = Relay::new();
    let mut out = relay.on_status(code);
    let ghost s0 = relay@;
    let ghost e0 = views(out@);
    let ghost acc: Seq<EventView> = seq![];
    let mut i: usize = 0;
    assert(bufs.take(0) =~= seq![]);
    assert(e0 + acc =~= e0);
    while i < body.len()
        invariant
            i <= body@.len(),
            bufs == buffers_view(body@),
            status_spec(initial(), code) == (s0, e0),
            run_spec(s0, bufs.take(i as int)) == (relay@, acc),
            views(out@) == e0 + acc,
        decreases body@.len() - i,
    {
        let evs = relay.on_bytes(body[i].as_slice());
        proof {
            assert(bufs.take(i + 1).drop_last() =~= bufs.take(i as int));
            assert(bufs.take(i + 1).last() == body@[i as int]@);
        }
        let ghost mid = views(evs@);
        append_events(&mut out, evs);
        proof {
            assert(e0 + acc + mid =~= e0 + (acc + mid));
            acc = acc + mid;
        }
        i = i + 1;
    }
    assert(bufs.take(i as int) =~= bufs);
    let last = relay.on_end();
    append_events(&mut out, last);
    out
}

} // verus!

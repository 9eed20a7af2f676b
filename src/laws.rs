//! What holds of every run of the relay.
use vstd::prelude::*;
use crate::chunk::chunk_of;
use crate::event::{content_ev, done_ev, EventView};
use crate::relay::{
    chunk_finishes, content_events, drained_content, feed_spec, finish_spec, first_newline, frame,
    has_line, http_error_text, initial, is_success, line_step, run_spec, session_spec, status_spec,
    RelayView, Framed, lemma_first_newline, no_newline, NEWLINE,
};
use crate::text::{done_sentinel, line_payload, line_text};

verus! {

/// `e` ends in one terminal event and holds no other, where `finished`;
/// otherwise it holds no terminal event.
pub open spec fn shaped(e: Seq<EventView>, finished: bool) -> bool {
    if finished {
        e.len() > 0 && e.last().done && forall|i: int| 0 <= i < e.len() - 1 ==> !(#[trigger] e[i]).done
    } else {
        forall|i: int| 0 <= i < e.len() ==> !(#[trigger] e[i]).done
    }
}

proof fn lemma_shaped_concat(e1: Seq<EventView>, e2: Seq<EventView>, f2: bool)
    requires
        shaped(e1, false),
        shaped(e2, f2),
    ensures
        shaped(e1 + e2, f2),
{
    let e = e1 + e2;
    assert forall|i: int| 0 <= i < e.len() && (f2 ==> i < e.len() - 1) implies !(#[trigger] e[i]).done by {
        if i >= e1.len() {
            assert(e[i] == e2[i - e1.len()]);
        }
    }
}

proof fn lemma_line_step_shaped(line: Seq<u8>, rest: Seq<u8>)
    ensures
        shaped(line_step(line, rest).events, line_step(line, rest).stop),
{
    let st = line_step(line, rest);
    match line_payload(line) {
        None => {},
        Some(p) => {
            if p == done_sentinel() {
                let c = drained_content(rest);
                assert(shaped(content_events(c), false));
                lemma_shaped_concat(content_events(c), seq![done_ev()], true);
                assert(content_events(c) + seq![done_ev()] =~= content_events(c).push(done_ev()));
            } else {
                match chunk_of(p) {
                    Err(m) => {},
                    Ok(c) => {
                        if c.error is None && chunk_finishes(c) {
                            assert(shaped(content_events(c.content), false));
                            lemma_shaped_concat(content_events(c.content), seq![done_ev()], true);
                            assert(content_events(c.content) + seq![done_ev()]
                                =~= content_events(c.content).push(done_ev()));
                        }
                    },
                }
            }
        },
    }
}

proof fn lemma_frame_shaped(s: Seq<u8>)
    ensures
        shaped(frame(s).events, frame(s).finished),
    decreases s.len(),
{
    if has_line(s) {
        let p = first_newline(s);
        let st = line_step(s.take(p), s.skip(p + 1));
        lemma_line_step_shaped(s.take(p), s.skip(p + 1));
        if !st.stop {
            lemma_frame_shaped(s.skip(p + 1));
            lemma_shaped_concat(st.events, frame(s.skip(p + 1)).events, frame(s.skip(p + 1)).finished);
        }
    }
}

proof fn lemma_feed_shaped(e: Seq<EventView>, s: RelayView, b: Seq<u8>)
    requires
        shaped(e, s.finished),
    ensures
        shaped(e + feed_spec(s, b).1, feed_spec(s, b).0.finished),
{
    if s.finished {
        assert(e + seq![] =~= e);
    } else {
        lemma_frame_shaped(s.buffer + b);
        lemma_shaped_concat(e, feed_spec(s, b).1, feed_spec(s, b).0.finished);
    }
}

proof fn lemma_finish_shaped(e: Seq<EventView>, s: RelayView, t: EventView)
    requires
        shaped(e, s.finished),
        t.done,
    ensures
        shaped(e + finish_spec(s, t).1, finish_spec(s, t).0.finished),
        finish_spec(s, t).0.finished,
{
    if s.finished {
        assert(e + seq![] =~= e);
    } else {
        lemma_shaped_concat(e, seq![t], true);
    }
}

proof fn lemma_run_shaped(e: Seq<EventView>, s: RelayView, bufs: Seq<Seq<u8>>)
    requires
        shaped(e, s.finished),
    ensures
        shaped(e + run_spec(s, bufs).1, run_spec(s, bufs).0.finished),
    decreases bufs.len(),
{
    if bufs.len() == 0 {
        assert(e + seq![] =~= e);
    } else {
        let (s1, e1) = run_spec(s, bufs.drop_last());
        lemma_run_shaped(e, s, bufs.drop_last());
        lemma_feed_shaped(e + e1, s1, bufs.last());
        assert(e + e1 + feed_spec(s1, bufs.last()).1 =~= e + (e1 + feed_spec(s1, bufs.last()).1));
    }
}

/// Every chat turn, whatever its status and its body, publishes exactly one
/// terminal event, and publishes it last.
pub proof fn law_one_terminal_event_last(code: u16, bufs: Seq<Seq<u8>>)
    ensures
        session_spec(code, bufs).len() > 0,
        session_spec(code, bufs).last().done,
        forall|i: int|
            0 <= i < session_spec(code, bufs).len() - 1 ==> !(#[trigger] session_spec(
                code,
                bufs,
            )[i]).done,
{
    let (s0, e0) = status_spec(initial(), code);
    let (s1, e1) = run_spec(s0, bufs);
    let e: Seq<EventView> = seq![];
    assert(shaped(e, false));
    if !is_success(code) {
        lemma_finish_shaped(e, initial(), crate::event::error_ev(http_error_text(code)));
        assert(e + e0 =~= e0);
    } else {
        assert(e0 =~= e);
    }
    lemma_run_shaped(e0, s0, bufs);
    lemma_finish_shaped(e0 + e1, s1, done_ev());
}

/// A line and its end, then `rest`.
pub open spec fn framed_line(line: Seq<u8>, rest: Seq<u8>) -> Seq<u8> {
    line + seq![NEWLINE] + rest
}

proof fn lemma_framed_line(line: Seq<u8>, rest: Seq<u8>)
    requires
        no_newline(line),
    ensures
        has_line(framed_line(line, rest)),
        first_newline(framed_line(line, rest)) == line.len(),
        framed_line(line, rest).take(line.len() as int) == line,
        framed_line(line, rest).skip(line.len() as int + 1) == rest,
{
    let s = framed_line(line, rest);
    assert(s.take(line.len() as int) =~= line);
    assert(s.skip(line.len() as int + 1) =~= rest);
    lemma_first_newline(s, line.len() as int);
}

/// A line that is not a `data: ` line has no effect: what follows it is
/// processed as if it were not there.
pub proof fn law_other_lines_ignored(line: Seq<u8>, rest: Seq<u8>)
    requires
        no_newline(line),
        line_payload(line) is None,
    ensures
        frame(framed_line(line, rest)) == frame(rest),
{
    lemma_framed_line(line, rest);
    assert(seq![] + frame(rest).events =~= frame(rest).events);
}

/// The sentinel ends the stream. With nothing but white space after it, it
/// gives the terminal event alone; with a chunk after it that has content,
/// that content and then the terminal event.
pub proof fn law_sentinel_ends_stream(line: Seq<u8>, rest: Seq<u8>)
    requires
        no_newline(line),
        line_payload(line) == Some(done_sentinel()),
    ensures
        frame(framed_line(line, rest)).finished,
        (rest.len() == 0 || line_text(rest) == Some(Seq::<char>::empty())) ==> frame(
            framed_line(line, rest),
        ).events == seq![done_ev()],
        ({
            let t = line_text(rest)->Some_0;
            line_text(rest) is Some && t.len() > 0 && chunk_of(t) is Ok && chunk_of(
                t,
            )->Ok_0.content is Some
        }) ==> frame(framed_line(line, rest)).events == seq![
            content_ev(chunk_of(line_text(rest)->Some_0)->Ok_0.content->Some_0),
            done_ev(),
        ],
{
    lemma_framed_line(line, rest);
    if rest.len() == 0 {
        assert(crate::text::trim_ws(Seq::<char>::empty()) =~= Seq::<char>::empty());
        assert(line_text(rest) == Some(Seq::<char>::empty()));
    }
    assert(seq![] + seq![done_ev()] =~= seq![done_ev()]);
    assert(seq![done_ev()] =~= Seq::<EventView>::empty().push(done_ev()));
    let c = drained_content(rest);
    if c is Some {
        assert(seq![content_ev(c->Some_0)].push(done_ev()) =~= seq![
            content_ev(c->Some_0),
            done_ev(),
        ]);
    }
}

/// Whether framing `s` ends at a sentinel line, whose events depend on what
/// is buffered after it.
pub open spec fn ends_at_sentinel(s: Seq<u8>) -> bool
    decreases s.len(),
{
    if has_line(s) {
        let p = first_newline(s);
        if line_payload(s.take(p)) == Some(done_sentinel()) {
            true
        } else if line_step(s.take(p), s.skip(p + 1)).stop {
            false
        } else {
            ends_at_sentinel(s.skip(p + 1))
        }
    } else {
        false
    }
}

proof fn lemma_frame_append(x: Seq<u8>, b: Seq<u8>)
    requires
        !ends_at_sentinel(x),
    ensures
        frame(x).finished ==> frame(x + b) == frame(x),
        !frame(x).finished ==> frame(x + b) == (Framed {
            events: frame(x).events + frame(frame(x).rest + b).events,
            rest: frame(frame(x).rest + b).rest,
            finished: frame(frame(x).rest + b).finished,
        }),
    decreases x.len(),
{
    if has_line(x) {
        let p = first_newline(x);
        let xb = x + b;
        assert(xb.take(p) =~= x.take(p));
        lemma_first_newline(xb, p);
        assert(xb.skip(p + 1) =~= x.skip(p + 1) + b);
        let st = line_step(x.take(p), x.skip(p + 1));
        assert(line_step(x.take(p), xb.skip(p + 1)) == st);
        if !st.stop {
            let x1 = x.skip(p + 1);
            lemma_frame_append(x1, b);
            if !frame(x1).finished {
                let h = frame(frame(x1).rest + b);
                assert(st.events + (frame(x1).events + h.events) =~= (st.events + frame(
                    x1,
                ).events) + h.events);
            }
        }
    } else {
        assert(x + b =~= frame(x).rest + b);
        assert(seq![] + frame(x + b).events =~= frame(x + b).events);
    }
}

/// Where the body is cut between two buffers does not change the events or
/// the state that follow, unless the first part ends at a sentinel line: what
/// the sentinel drains is what has arrived with it.
pub proof fn law_split_invariance(s: RelayView, a: Seq<u8>, b: Seq<u8>)
    requires
        !s.finished ==> !ends_at_sentinel(s.buffer + a),
    ensures
        feed_spec(feed_spec(s, a).0, b).0 == feed_spec(s, a + b).0,
        feed_spec(s, a).1 + feed_spec(feed_spec(s, a).0, b).1 == feed_spec(s, a + b).1,
{
    if s.finished {
        assert(seq![] + seq![] =~= Seq::<EventView>::empty());
    } else {
        let x = s.buffer + a;
        assert(s.buffer + (a + b) =~= x + b);
        lemma_frame_append(x, b);
        if frame(x).finished {
            assert(frame(x).events + seq![] =~= frame(x).events);
        }
    }
}

/// Whether `l` is a `data: ` line whose chunk carries the content `c` and
/// neither an error nor an end.
pub open spec fn is_content_line(l: Seq<u8>, c: Seq<char>) -> bool {
    &&& no_newline(l)
    &&& line_payload(l) matches Some(p)
    &&& p != done_sentinel()
    &&& chunk_of(p) matches Ok(ch)
    &&& ch.content == Some(c)
    &&& ch.error is None
    &&& !chunk_finishes(ch)
}

/// Each line of `ls` followed by its end.
pub open spec fn join_lines(ls: Seq<Seq<u8>>) -> Seq<u8>
    decreases ls.len(),
{
    if ls.len() == 0 {
        seq![]
    } else {
        framed_line(ls[0], join_lines(ls.drop_first()))
    }
}

/// The content events of `cs`, in order.
pub open spec fn content_evs(cs: Seq<Seq<char>>) -> Seq<EventView> {
    cs.map_values(|c: Seq<char>| content_ev(c))
}

proof fn lemma_content_lines(ls: Seq<Seq<u8>>, cs: Seq<Seq<char>>)
    requires
        ls.len() == cs.len(),
        forall|i: int| 0 <= i < ls.len() ==> is_content_line(#[trigger] ls[i], cs[i]),
    ensures
        frame(join_lines(ls)) == (Framed {
            events: content_evs(cs),
            rest: seq![],
            finished: false,
        }),
    decreases ls.len(),
{
    if ls.len() == 0 {
        assert(content_evs(cs) =~= seq![]);
    } else {
        assert(is_content_line(ls[0], cs[0]));
        let tail = join_lines(ls.drop_first());
        lemma_framed_line(ls[0], tail);
        assert forall|i: int| 0 <= i < ls.drop_first().len() implies is_content_line(
            #[trigger] ls.drop_first()[i],
            cs.drop_first()[i],
        ) by {
            assert(is_content_line(ls[i + 1], cs[i + 1]));
        }
        lemma_content_lines(ls.drop_first(), cs.drop_first());
        assert(content_events(Some(cs[0])) + content_evs(cs.drop_first()) =~= content_evs(cs));
    }
}

/// A body of content lines gives their contents as events, in order and one
/// by one, and then the terminal event at its end.
pub proof fn law_contents_in_order(ls: Seq<Seq<u8>>, cs: Seq<Seq<char>>)
    requires
        ls.len() == cs.len(),
        forall|i: int| 0 <= i < ls.len() ==> is_content_line(#[trigger] ls[i], cs[i]),
    ensures
        session_spec(200, seq![join_lines(ls)]) == content_evs(cs).push(done_ev()),
{
    lemma_content_lines(ls, cs);
    let body = join_lines(ls);
    assert(seq![body].drop_last() =~= Seq::<Seq<u8>>::empty());
    assert(Seq::<u8>::empty() + body =~= body);
    assert(run_spec(initial(), Seq::<Seq<u8>>::empty()) == (initial(), Seq::<EventView>::empty()));
    assert(Seq::<EventView>::empty() + Seq::<EventView>::empty() + content_evs(cs) + seq![done_ev()]
        =~= content_evs(cs).push(done_ev()));
}

/// The bytes of the buffers `bufs`, one after the other.
pub open spec fn concat_all(bufs: Seq<Seq<u8>>) -> Seq<u8>
    decreases bufs.len(),
{
    if bufs.len() == 0 {
        seq![]
    } else {
        concat_all(bufs.drop_last()) + bufs.last()
    }
}

proof fn lemma_run_is_feed(s: RelayView, bufs: Seq<Seq<u8>>)
    requires
        bufs.len() > 0,
        forall|k: int|
            1 <= k < bufs.len() ==> !s.finished ==> !ends_at_sentinel(
                s.buffer + concat_all(#[trigger] bufs.take(k)),
            ),
    ensures
        run_spec(s, bufs) == feed_spec(s, concat_all(bufs)),
    decreases bufs.len(),
{
    let init = bufs.drop_last();
    let last = bufs.last();
    assert(concat_all(bufs) == concat_all(init) + last);
    if bufs.len() == 1 {
        assert(init =~= Seq::<Seq<u8>>::empty());
        assert(run_spec(s, init) == (s, Seq::<EventView>::empty()));
        assert(concat_all(init) == Seq::<u8>::empty());
        assert(concat_all(init) + last =~= last);
        assert(Seq::<EventView>::empty() + feed_spec(s, last).1 =~= feed_spec(s, last).1);
    } else {
        assert forall|k: int|
            1 <= k < init.len() implies !s.finished ==> !ends_at_sentinel(
                s.buffer + concat_all(#[trigger] init.take(k)),
            ) by {
            assert(init.take(k) =~= bufs.take(k));
        }
        lemma_run_is_feed(s, init);
        assert(bufs.take(init.len() as int) =~= init);
        law_split_invariance(s, concat_all(init), last);
        let (s1, e1) = run_spec(s, init);
        assert(run_spec(s, bufs) == (feed_spec(s1, last).0, e1 + feed_spec(s1, last).1));
    }
}

/// Chunk-boundary invariance: a body cut into buffers anywhere gives the
/// same events as the whole body in one buffer, provided no cut falls after a
/// sentinel line that the body before it ends at (what the sentinel drains is
/// what has arrived with it).
pub proof fn law_body_split_invariance(code: u16, bufs: Seq<Seq<u8>>)
    requires
        bufs.len() > 0,
        forall|k: int| 1 <= k < bufs.len() ==> !ends_at_sentinel(concat_all(#[trigger] bufs.take(k))),
    ensures
        session_spec(code, bufs) == session_spec(code, seq![concat_all(bufs)]),
{
    let (s0, e0) = status_spec(initial(), code);
    assert(s0.buffer =~= Seq::<u8>::empty());
    assert forall|k: int|
        1 <= k < bufs.len() implies !s0.finished ==> !ends_at_sentinel(
            s0.buffer + concat_all(#[trigger] bufs.take(k)),
        ) by {
        assert(s0.buffer + concat_all(bufs.take(k)) =~= concat_all(bufs.take(k)));
    }
    lemma_run_is_feed(s0, bufs);
    let one = seq![concat_all(bufs)];
    assert(one.drop_last() =~= Seq::<Seq<u8>>::empty());
    assert(concat_all(one.drop_last()) == Seq::<u8>::empty());
    assert(Seq::<u8>::empty() + concat_all(bufs) =~= concat_all(bufs));
    assert(concat_all(one) == concat_all(bufs));
    lemma_run_is_feed(s0, one);
    assert(run_spec(s0, bufs) == run_spec(s0, one));
}

} // verus!

//! The decisions of the Unix event source: the parser that collects terminal
//! bytes into events, and what the source does with each handle that polling
//! reports ready.
use std::collections::VecDeque;

use vstd::prelude::*;

use crate::event::{Event, InternalEvent};
use crate::parse::{
    char_bytes, ev_key, is_printable, lemma_partial_char_waits, lemma_printable_char_is_read,
    parse_event, spec_parse_event,
};
use crate::event::KeyCode;

verus! {

/// The bytes held back and the events queued by a parser.
pub type ParserState = (Seq<u8>, Seq<InternalEvent>);

/// Taking the oldest queued event: the event, if any, and the state after.
pub open spec fn next_step(state: ParserState) -> (Option<InternalEvent>, ParserState) {
    if state.1.len() == 0 {
        (None, state)
    } else {
        (Some(state.1[0]), (state.0, state.1.drop_first()))
    }
}

/// Handling bytes read from the terminal: nothing for an empty read;
/// otherwise the bytes are read and the oldest queued event is taken.
pub open spec fn tty_step(state: ParserState, bytes: Seq<u8>, more: bool) -> (
    Option<InternalEvent>,
    ParserState,
) {
    if bytes.len() == 0 {
        (None, state)
    } else {
        next_step(spec_advance(state, bytes, more))
    }
}

/// One step of the event source on its parser: `None` takes the oldest
/// queued event (as a read does first); `Some((bytes, more))` handles bytes
/// read from the terminal.
pub open spec fn source_step(state: ParserState, action: Option<(Seq<u8>, bool)>) -> (
    Option<InternalEvent>,
    ParserState,
) {
    match action {
        None => next_step(state),
        Some((bytes, more)) => tty_step(state, bytes, more),
    }
}

/// The events that a run of steps delivers, in order, and the state after it.
pub open spec fn run_source(state: ParserState, actions: Seq<Option<(Seq<u8>, bool)>>) -> (
    Seq<InternalEvent>,
    ParserState,
)
    decreases actions.len(),
{
    if actions.len() == 0 {
        (Seq::empty(), state)
    } else {
        let (delivered, mid) = run_source(state, actions.drop_last());
        let (e, fin) = source_step(mid, actions.last());
        (
            match e {
                Some(x) => delivered.push(x),
                None => delivered,
            },
            fin,
        )
    }
}

/// The state after all the bytes of a run of steps have been read, with no
/// event taken.
pub open spec fn parse_all(state: ParserState, actions: Seq<Option<(Seq<u8>, bool)>>) -> ParserState
    decreases actions.len(),
{
    if actions.len() == 0 {
        state
    } else {
        let mid = parse_all(state, actions.drop_last());
        match actions.last() {
            None => mid,
            Some((bytes, more)) => spec_advance(mid, bytes, more),
        }
    }
}

/// One byte read: it joins the bytes held back; an event read from them is
/// queued and the bytes dropped; bytes that form no event are dropped; an
/// unfinished event is kept for the next byte.
pub open spec fn parser_step(state: ParserState, byte: u8, more: bool) -> ParserState {
    let buf = state.0.push(byte);
    match spec_parse_event(buf, more) {
        Ok(Some(e)) => (Seq::empty(), state.1.push(e)),
        Ok(None) => (buf, state.1),
        Err(_) => (Seq::empty(), state.1),
    }
}

/// The bytes of `input` read one after the other; every byte but the last is
/// read knowing that more input follows, the last one with `more`.
pub open spec fn spec_advance(state: ParserState, input: Seq<u8>, more: bool) -> ParserState
    decreases input.len(),
{
    if input.len() == 0 {
        state
    } else {
        parser_step(spec_advance(state, input.drop_last(), true), input.last(), more)
    }
}

/// Collects terminal bytes into events. Bytes are kept until they form an
/// event or are known to form none; events wait in a queue until taken.
pub struct Parser {
    buffer: Vec<u8>,
    internal_events: VecDeque<InternalEvent>,
}

impl Parser {
    /// The bytes held back, the start of an unfinished event.
    pub closed spec fn pending(&self) -> Seq<u8> {
        self.buffer@
    }

    /// The events read and not yet taken, oldest first.
    pub closed spec fn queued(&self) -> Seq<InternalEvent> {
        self.internal_events@
    }

    /// Both, as the state of the parser.
    pub open spec fn state(&self) -> ParserState {
        (self.pending(), self.queued())
    }

    /// Reads the bytes of `buffer`; `more` says whether further input is
    /// already waiting after them.
    pub fn advance(&mut self, buffer: &[u8], more: bool)
        ensures
            final(self).state() == spec_advance(old(self).state(), buffer@, more),
    {
        let ghost start = old(self).state();
        let len = buffer.len();
        let mut idx: usize = 0;
        assert(buffer@.take(0) =~= Seq::<u8>::empty());
        while idx < len
            invariant
                len == buffer@.len(),
                idx <= len,
                self.state() == spec_advance(
                    start,
                    buffer@.take(idx as int),
                    if idx == len {
                        more
                    } else {
                        true
                    },
                ),
            decreases len - idx,
        {
            let byte = buffer[idx];
            let more_here = idx + 1 < len || more;
            let ghost before = self.state();
            self.buffer.push(byte);
            assert(self.buffer@ == before.0.push(byte));
            match parse_event(self.buffer.as_slice(), more_here) {
                Ok(Some(ie)) => {
                    self.internal_events.push_back(ie);
                    self.buffer.clear();
                },
                Ok(None) => {},
                Err(_) => {
                    self.buffer.clear();
                },
            }
            assert(self.state() == parser_step(before, byte, more_here));
            assert(buffer@.take(idx + 1).drop_last() =~= buffer@.take(idx as int));
            idx = idx + 1;
        }
        assert(buffer@.take(len as int) =~= buffer@);
    }

    /// Takes the oldest queued event.
    pub fn next(&mut self) -> (r: Option<InternalEvent>)
        ensures
            old(self).queued().len() == 0 ==> r is None && final(self).state() == old(
                self,
            ).state(),
            old(self).queued().len() > 0 ==> r == Some(old(self).queued()[0])
                && final(self).pending() == old(self).pending() && final(self).queued()
                == old(self).queued().drop_first(),
            (r, final(self).state()) == next_step(old(self).state()),
    {
        self.internal_events.pop_front()
    }
}

impl Default for Parser {
    /// A parser with no byte held back and no event queued.
    fn default() -> (p: Parser)
        ensures
            p.pending() == Seq::<u8>::empty(),
            p.queued() == Seq::<InternalEvent>::empty(),
    {
        Parser { buffer: Vec::with_capacity(256), internal_events: VecDeque::with_capacity(128) }
    }
}

/// The poll token of the terminal.
pub const TTY_TOKEN: usize = 0;

/// The poll token of the window-size signal.
pub const SIGNAL_TOKEN: usize = 1;

/// The poll token of the wake-up pipe.
pub const WAKE_TOKEN: usize = 2;

/// A handle that polling reported ready, with what was read from it.
pub enum Ready {
    /// The terminal: the bytes read from it, and whether more terminal input
    /// was already waiting after them.
    Tty(Vec<u8>, bool),
    /// The window-size signal, with the new size (columns, rows).
    Resize(u16, u16),
    /// The signal handle, with no signal pending.
    NoSignal,
    /// The wake-up pipe of a cancelled read.
    Wake,
}

/// What the event source does next.
#[derive(Debug, Clone, Copy, PartialEq, Eq, Structural)]
pub enum Step {
    /// Return this event.
    Deliver(InternalEvent),
    /// Return with no event.
    Stop,
    /// Go on with the next ready handle, or poll again.
    Continue,
}

impl Parser {
    /// Handles one ready handle: bytes read from the terminal are parsed and
    /// the first event read is delivered; an empty read changes nothing; a
    /// window-size change is delivered as a resize event; a wake-up stops the
    /// read with no event.
    pub fn handle_ready(&mut self, ready: Ready) -> (s: Step)
        ensures
            match ready {
                Ready::Tty(bytes, more) => if bytes@.len() == 0 {
                    s == Step::Continue && final(self).state() == old(self).state()
                } else {
                    let st = spec_advance(old(self).state(), bytes@, more);
                    if st.1.len() == 0 {
                        s == Step::Continue && final(self).state() == st
                    } else {
                        s == Step::Deliver(st.1[0]) && final(self).state() == (
                            st.0,
                            st.1.drop_first(),
                        )
                    }
                },
                Ready::Resize(cols, rows) => s == Step::Deliver(
                    InternalEvent::Event(Event::Resize(cols, rows)),
                ) && final(self).state() == old(self).state(),
                Ready::NoSignal => s == Step::Continue && final(self).state() == old(
                    self,
                ).state(),
                Ready::Wake => s == Step::Stop && final(self).state() == old(self).state(),
            },
            ready matches Ready::Tty(bytes, more) ==> ({
                let (e, st) = tty_step(old(self).state(), bytes@, more);
                &&& final(self).state() == st
                &&& s == match e {
                    Some(x) => Step::Deliver(x),
                    None => Step::Continue,
                }
            }),
    {
        match ready {
            Ready::Tty(bytes, more) => {
                if bytes.len() == 0 {
                    return Step::Continue;
                }
                self.advance(bytes.as_slice(), more);
                match self.next() {
                    Some(e) => Step::Deliver(e),
                    None => Step::Continue,
                }
            },
            Ready::Resize(cols, rows) => Step::Deliver(
                InternalEvent::Event(Event::Resize(cols, rows)),
            ),
            Ready::NoSignal => Step::Continue,
            Ready::Wake => Step::Stop,
        }
    }
}

/// What the source does when a poll returns: with no handle ready the time
/// limit has passed, and the read ends with no event; otherwise the ready
/// handles are handled.
pub fn after_poll(any_ready: bool) -> (s: Step)
    ensures
        s == (if any_ready {
            Step::Continue
        } else {
            Step::Stop
        }),
{
    if any_ready {
        Step::Continue
    } else {
        Step::Stop
    }
}

/// What the source does when every ready handle was handled with no event
/// delivered: the read ends with no event once the time limit has passed
/// (handling takes time), and polls again otherwise.
pub fn after_handles(limit_passed: bool) -> (s: Step)
    ensures
        s == (if limit_passed {
            Step::Stop
        } else {
            Step::Continue
        }),
{
    if limit_passed {
        Step::Stop
    } else {
        Step::Continue
    }
}

/// Reading input in two pieces, the first one known to be followed by more
/// input, gives the same as reading it at once.
pub proof fn lemma_advance_in_pieces(state: ParserState, a: Seq<u8>, b: Seq<u8>, more: bool)
    requires
        b.len() > 0,
    ensures
        spec_advance(state, a + b, more) == spec_advance(spec_advance(state, a, true), b, more),
    decreases b.len(),
{
    assert((a + b).drop_last() =~= a + b.drop_last());
    assert((a + b).last() == b.last());
    if b.len() == 1 {
        assert(a + b.drop_last() =~= a);
        assert(spec_advance(spec_advance(state, a, true), b.drop_last(), true) == spec_advance(
            state,
            a,
            true,
        ));
    } else {
        lemma_advance_in_pieces(state, a, b.drop_last(), true);
    }
}

/// Reading input never takes back a queued event: the events queued before
/// stay first in the queue, in their order.
pub proof fn lemma_advance_keeps_queue(state: ParserState, input: Seq<u8>, more: bool)
    ensures
        spec_advance(state, input, more).1.len() >= state.1.len(),
        spec_advance(state, input, more).1.subrange(0, state.1.len() as int) == state.1,
    decreases input.len(),
{
    if input.len() > 0 {
        let mid = spec_advance(state, input.drop_last(), true);
        lemma_advance_keeps_queue(state, input.drop_last(), true);
        let fin = spec_advance(state, input, more);
        assert(fin.1.subrange(0, state.1.len() as int) =~= mid.1.subrange(
            0,
            state.1.len() as int,
        ));
    }
}

/// After input has been read, the bytes held back are either none or the
/// start of an event that needs more bytes.
pub proof fn lemma_pending_is_unfinished(state: ParserState, input: Seq<u8>, more: bool)
    requires
        input.len() > 0,
    ensures
        ({
            let fin = spec_advance(state, input, more);
            fin.0.len() == 0 || spec_parse_event(fin.0, more) == Ok::<_, crate::parse::ParseError>(
                None::<InternalEvent>,
            )
        }),
{
}

proof fn lemma_char_prefix_held(q: Seq<InternalEvent>, c: char, k: int)
    requires
        0 <= k < char_bytes(c).len(),
    ensures
        spec_advance((Seq::empty(), q), char_bytes(c).take(k), true) == (char_bytes(c).take(k), q),
    decreases k,
{
    let b = char_bytes(c);
    if k == 0 {
        assert(b.take(0) =~= Seq::<u8>::empty());
    } else {
        lemma_char_prefix_held(q, c, k - 1);
        assert(b.take(k).drop_last() =~= b.take(k - 1));
        assert(b.take(k - 1).push(b[k - 1]) =~= b.take(k));
        lemma_partial_char_waits(c, k, true);
    }
}

/// Typing a character that is not a control character queues exactly the
/// key event of that character and holds no byte back, however many bytes
/// its encoding takes.
pub proof fn lemma_typed_char_gives_its_event(q: Seq<InternalEvent>, c: char, more: bool)
    requires
        is_printable(c),
    ensures
        spec_advance((Seq::empty(), q), char_bytes(c), more) == (
            Seq::<u8>::empty(),
            q.push(ev_key(KeyCode::Char(c))),
        ),
{
    let b = char_bytes(c);
    lemma_printable_char_is_read(c, more);
    assert(b.len() >= 1) by {
        crate::parse::lemma_char_bytes_len(c);
    }
    let n = b.len() as int;
    lemma_char_prefix_held(q, c, n - 1);
    assert(b.drop_last() =~= b.take(n - 1));
    assert(b.take(n - 1).push(b[n - 1]) =~= b);
}

/// What reading input does to the bytes held back does not depend on the
/// events queued, and the events it reads are added after them.
pub proof fn lemma_advance_queue_independent(
    pending: Seq<u8>,
    queue: Seq<InternalEvent>,
    input: Seq<u8>,
    more: bool,
)
    ensures
        spec_advance((pending, queue), input, more).0 == spec_advance(
            (pending, Seq::empty()),
            input,
            more,
        ).0,
        spec_advance((pending, queue), input, more).1 == queue + spec_advance(
            (pending, Seq::empty()),
            input,
            more,
        ).1,
    decreases input.len(),
{
    if input.len() > 0 {
        lemma_advance_queue_independent(pending, queue, input.drop_last(), true);
        let a = spec_advance((pending, queue), input.drop_last(), true);
        let b = spec_advance((pending, Seq::empty()), input.drop_last(), true);
        let buf = a.0.push(input.last());
        match spec_parse_event(buf, more) {
            Ok(Some(e)) => {
                assert(a.1.push(e) =~= queue + b.1.push(e));
            },
            _ => {},
        }
    }
}

/// No event is lost, repeated or reordered by the event source: over any run
/// of reads, the events delivered followed by those still queued are exactly
/// the events read from all the terminal bytes, in order, and the bytes held
/// back are the same.
pub proof fn lemma_source_delivers_every_event_once(
    state: ParserState,
    actions: Seq<Option<(Seq<u8>, bool)>>,
)
    ensures
        ({
            let (delivered, fin) = run_source(state, actions);
            let all = parse_all(state, actions);
            fin.0 == all.0 && delivered + fin.1 == all.1
        }),
    decreases actions.len(),
{
    if actions.len() == 0 {
        assert(Seq::<InternalEvent>::empty() + state.1 =~= state.1);
    } else {
        let rest = actions.drop_last();
        lemma_source_delivers_every_event_once(state, rest);
        let (d1, f1) = run_source(state, rest);
        let g1 = parse_all(state, rest);
        match actions.last() {
            None => {
                if f1.1.len() > 0 {
                    assert(d1.push(f1.1[0]) + f1.1.drop_first() =~= d1 + f1.1);
                }
            },
            Some((bytes, more)) => {
                if bytes.len() > 0 {
                    lemma_advance_queue_independent(f1.0, f1.1, bytes, more);
                    lemma_advance_queue_independent(g1.0, g1.1, bytes, more);
                    let n = spec_advance((f1.0, Seq::empty()), bytes, more).1;
                    let st = spec_advance(f1, bytes, more);
                    assert(g1.1 + n =~= d1 + (f1.1 + n));
                    if st.1.len() > 0 {
                        assert(d1.push(st.1[0]) + st.1.drop_first() =~= d1 + st.1);
                    } else {
                        assert(d1 + st.1 =~= d1);
                    }
                }
            },
        }
    }
}

/// Reading one byte onto the bytes held back: when the parser reads an event
/// from them, that event is queued after the events already queued and no
/// byte is held back; when it needs more bytes, they are all held back and
/// the queue stays; when they form no event, they are dropped and the queue
/// stays.
pub proof fn lemma_byte_read_outcome(state: ParserState, byte: u8, more: bool)
    ensures
        ({
            let after = spec_advance(state, seq![byte], more);
            match spec_parse_event(state.0.push(byte), more) {
                Ok(Some(e)) => after.0.len() == 0 && after.1 == state.1.push(e),
                Ok(None) => after.0 == state.0.push(byte) && after.1 == state.1,
                Err(_) => after.0.len() == 0 && after.1 == state.1,
            }
        }),
{
    let one = seq![byte];
    assert(one.drop_last() =~= Seq::<u8>::empty());
    assert(one.last() == byte);
    assert(spec_advance(state, one.drop_last(), true) == state);
    assert(spec_advance(state, one, more) == parser_step(state, byte, more));
}

/// Reading input queues at most one event per byte read.
pub proof fn lemma_advance_queues_at_most_one_per_byte(
    state: ParserState,
    input: Seq<u8>,
    more: bool,
)
    ensures
        spec_advance(state, input, more).1.len() <= state.1.len() + input.len(),
    decreases input.len(),
{
    if input.len() > 0 {
        lemma_advance_queues_at_most_one_per_byte(state, input.drop_last(), true);
    }
}

} // verus!

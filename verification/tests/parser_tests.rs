use crossterm::event::{Event, InternalEvent, KeyCode, KeyEvent, KeyModifiers};
use crossterm::input::{MouseButton, MouseEvent};
use crossterm::unix_source::{
    after_handles, after_poll, Parser, Ready, Step, SIGNAL_TOKEN, TTY_TOKEN, WAKE_TOKEN,
};

fn key(code: KeyCode) -> InternalEvent {
    InternalEvent::Event(Event::Key(code.into()))
}

fn drain(parser: &mut Parser) -> Vec<InternalEvent> {
    let mut events = Vec::new();
    while let Some(e) = parser.next() {
        events.push(e);
    }
    events
}

#[test]
fn new_parser_has_no_event() {
    let mut parser = Parser::default();
    assert_eq!(parser.next(), None);
}

#[test]
fn advance_reads_several_events_in_order() {
    let mut parser = Parser::default();
    parser.advance(b"ab\x1B[A\r", false);
    assert_eq!(
        drain(&mut parser),
        vec![
            key(KeyCode::Char('a')),
            key(KeyCode::Char('b')),
            key(KeyCode::Up),
            key(KeyCode::Enter)
        ]
    );
}

#[test]
fn advance_in_pieces_gives_the_same_events() {
    let input: &[u8] = b"x\x1B[3~\x1B[<0;5;6M\xC3\xA9\x1B";
    let mut whole = Parser::default();
    whole.advance(input, false);
    let whole_events = drain(&mut whole);

    for split in 1..input.len() {
        let mut pieces = Parser::default();
        pieces.advance(&input[..split], true);
        pieces.advance(&input[split..], false);
        assert_eq!(drain(&mut pieces), whole_events, "split at {}", split);
    }
    assert_eq!(
        whole_events,
        vec![
            key(KeyCode::Char('x')),
            key(KeyCode::Delete),
            InternalEvent::Event(Event::Mouse(MouseEvent::Press(MouseButton::Left, 4, 5))),
            key(KeyCode::Char('é')),
            key(KeyCode::Esc),
        ]
    );
}

#[test]
fn escape_is_held_while_more_input_waits() {
    let mut parser = Parser::default();
    parser.advance(b"\x1B", true);
    assert_eq!(parser.next(), None);
    parser.advance(b"[B", false);
    assert_eq!(parser.next(), Some(key(KeyCode::Down)));
    assert_eq!(parser.next(), None);
}

#[test]
fn escape_alone_is_the_escape_key() {
    let mut parser = Parser::default();
    parser.advance(b"\x1B", false);
    assert_eq!(parser.next(), Some(key(KeyCode::Esc)));
}

#[test]
fn bad_sequence_is_dropped_and_reading_goes_on() {
    let mut parser = Parser::default();
    parser.advance(b"\x1B[!q", false);
    assert_eq!(drain(&mut parser), vec![key(KeyCode::Char('q'))]);
}

#[test]
fn multibyte_character_split_across_reads() {
    let mut parser = Parser::default();
    let bytes = "€".as_bytes();
    parser.advance(&bytes[..1], false);
    assert_eq!(parser.next(), None);
    parser.advance(&bytes[1..2], false);
    assert_eq!(parser.next(), None);
    parser.advance(&bytes[2..], false);
    assert_eq!(parser.next(), Some(key(KeyCode::Char('€'))));
}

#[test]
fn handle_ready_tty_delivers_first_event_and_keeps_the_rest() {
    let mut parser = Parser::default();
    let step = parser.handle_ready(Ready::Tty(b"ab".to_vec(), false));
    assert_eq!(step, Step::Deliver(key(KeyCode::Char('a'))));
    assert_eq!(parser.next(), Some(key(KeyCode::Char('b'))));
    assert_eq!(parser.next(), None);
}

#[test]
fn handle_ready_tty_without_event_continues() {
    let mut parser = Parser::default();
    assert_eq!(parser.handle_ready(Ready::Tty(Vec::new(), false)), Step::Continue);
    assert_eq!(parser.handle_ready(Ready::Tty(b"\x1B[".to_vec(), false)), Step::Continue);
    assert_eq!(
        parser.handle_ready(Ready::Tty(b"1;5C".to_vec(), false)),
        Step::Deliver(InternalEvent::Event(Event::Key(KeyEvent::new(
            KeyCode::Right,
            KeyModifiers::control()
        ))))
    );
}

#[test]
fn handle_ready_resize_and_wake() {
    let mut parser = Parser::default();
    assert_eq!(
        parser.handle_ready(Ready::Resize(80, 24)),
        Step::Deliver(InternalEvent::Event(Event::Resize(80, 24)))
    );
    assert_eq!(parser.handle_ready(Ready::Wake), Step::Stop);
}

#[test]
fn poll_tokens_are_distinct() {
    assert_eq!(TTY_TOKEN, 0);
    assert_eq!(SIGNAL_TOKEN, 1);
    assert_eq!(WAKE_TOKEN, 2);
}

#[test]
fn successive_reads_deliver_every_event_once_in_order() {
    let chunks: [&[u8]; 4] = [b"ab", b"\x1B[", b"A\rc", b"\x1B[3~"];
    let mut parser = Parser::default();
    let mut delivered = Vec::new();
    for (i, chunk) in chunks.iter().enumerate() {
        if i % 2 == 1 {
            if let Some(e) = parser.next() {
                delivered.push(e);
            }
        }
        if let Step::Deliver(e) = parser.handle_ready(Ready::Tty(chunk.to_vec(), false)) {
            delivered.push(e);
        }
    }
    delivered.extend(drain(&mut parser));

    let mut whole = Parser::default();
    for chunk in chunks.iter() {
        whole.advance(chunk, false);
    }
    assert_eq!(delivered, drain(&mut whole));
    assert_eq!(delivered.len(), 6);
}

#[test]
fn poll_decisions() {
    assert_eq!(after_poll(false), Step::Stop);
    assert_eq!(after_poll(true), Step::Continue);
    assert_eq!(after_handles(true), Step::Stop);
    assert_eq!(after_handles(false), Step::Continue);
    let mut parser = Parser::default();
    assert_eq!(parser.handle_ready(Ready::NoSignal), Step::Continue);
}

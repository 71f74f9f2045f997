use crossterm::event::{Event, InternalEvent, KeyCode, KeyEvent, KeyModifiers};
use crossterm::input::{MouseButton, MouseEvent};
use crossterm::parse::{parse_csi, parse_event, parse_utf8_char, ParseError, ParseResult};

fn key(code: KeyCode) -> ParseResult {
    Ok(Some(InternalEvent::Event(Event::Key(code.into()))))
}

fn key_with(code: KeyCode, modifiers: KeyModifiers) -> ParseResult {
    Ok(Some(InternalEvent::Event(Event::Key(KeyEvent::new(code, modifiers)))))
}

fn mouse(m: MouseEvent) -> ParseResult {
    Ok(Some(InternalEvent::Event(Event::Mouse(m))))
}

const ERR: ParseResult = Err(ParseError::CouldNotParse);

#[test]
fn empty_buffer_needs_more() {
    assert_eq!(parse_event(b"", false), Ok(None));
    assert_eq!(parse_event(b"", true), Ok(None));
}

#[test]
fn lone_escape_depends_on_waiting_input() {
    assert_eq!(parse_event(b"\x1B", false), key(KeyCode::Esc));
    assert_eq!(parse_event(b"\x1B", true), Ok(None));
}

#[test]
fn double_escape_is_escape() {
    assert_eq!(parse_event(b"\x1B\x1B", false), key(KeyCode::Esc));
}

#[test]
fn single_byte_keys() {
    assert_eq!(parse_event(b"\r", false), key(KeyCode::Enter));
    assert_eq!(parse_event(b"\n", false), key(KeyCode::Enter));
    assert_eq!(parse_event(b"\t", false), key(KeyCode::Tab));
    assert_eq!(parse_event(b"\x7F", false), key(KeyCode::Backspace));
    assert_eq!(parse_event(b"\0", false), key(KeyCode::Null));
}

#[test]
fn control_bytes_are_control_keys() {
    assert_eq!(parse_event(b"\x01", false), key_with(KeyCode::Char('a'), KeyModifiers::control()));
    assert_eq!(parse_event(b"\x03", false), key_with(KeyCode::Char('c'), KeyModifiers::control()));
    assert_eq!(parse_event(b"\x1A", false), key_with(KeyCode::Char('z'), KeyModifiers::control()));
    assert_eq!(parse_event(b"\x1C", false), key_with(KeyCode::Char('4'), KeyModifiers::control()));
    assert_eq!(parse_event(b"\x1F", false), key_with(KeyCode::Char('7'), KeyModifiers::control()));
}

#[test]
fn plain_characters() {
    assert_eq!(parse_event(b"a", false), key(KeyCode::Char('a')));
    assert_eq!(parse_event(b" ", false), key(KeyCode::Char(' ')));
    assert_eq!(parse_event("é".as_bytes(), false), key(KeyCode::Char('é')));
    assert_eq!(parse_event("€".as_bytes(), false), key(KeyCode::Char('€')));
    assert_eq!(parse_event("😀".as_bytes(), false), key(KeyCode::Char('😀')));
}

#[test]
fn partial_character_waits() {
    let bytes = "😀".as_bytes();
    for k in 1..bytes.len() {
        assert_eq!(parse_event(&bytes[..k], false), Ok(None));
    }
    assert_eq!(parse_event(&"é".as_bytes()[..1], true), Ok(None));
}

#[test]
fn invalid_utf8_is_refused() {
    assert_eq!(parse_event(b"\x80", false), ERR);
    assert_eq!(parse_event(b"\xFF", false), ERR);
    assert_eq!(parse_event(b"\xC3a", false), ERR);
    assert_eq!(parse_event(b"\xE2\x82", false), Ok(None));
    assert_eq!(parse_event(b"\xE2\x28", false), ERR);
}

#[test]
fn utf8_char_reader() {
    assert_eq!(parse_utf8_char(b"x"), Ok(Some('x')));
    assert_eq!(parse_utf8_char(b""), Err(ParseError::CouldNotParse));
    assert_eq!(parse_utf8_char(b"\xF0\x9F"), Ok(None));
    assert_eq!(parse_utf8_char(b"ab"), Ok(Some('a')));
    // A complete character followed by the start of another one is refused.
    assert_eq!(parse_utf8_char(b"a\xC3"), Err(ParseError::CouldNotParse));
}

#[test]
fn alt_characters() {
    assert_eq!(parse_event(b"\x1Bx", false), key_with(KeyCode::Char('x'), KeyModifiers::alt()));
    assert_eq!(
        parse_event("\x1Bé".as_bytes(), false),
        key_with(KeyCode::Char('é'), KeyModifiers::alt())
    );
}

#[test]
fn ss3_function_keys() {
    assert_eq!(parse_event(b"\x1BO", false), Ok(None));
    assert_eq!(parse_event(b"\x1BOP", false), key(KeyCode::F(1)));
    assert_eq!(parse_event(b"\x1BOQ", false), key(KeyCode::F(2)));
    assert_eq!(parse_event(b"\x1BOR", false), key(KeyCode::F(3)));
    assert_eq!(parse_event(b"\x1BOS", false), key(KeyCode::F(4)));
    assert_eq!(parse_event(b"\x1BOT", false), ERR);
}

#[test]
fn csi_cursor_keys() {
    assert_eq!(parse_event(b"\x1B[", false), Ok(None));
    assert_eq!(parse_event(b"\x1B[A", false), key(KeyCode::Up));
    assert_eq!(parse_event(b"\x1B[B", false), key(KeyCode::Down));
    assert_eq!(parse_event(b"\x1B[C", false), key(KeyCode::Right));
    assert_eq!(parse_event(b"\x1B[D", false), key(KeyCode::Left));
    assert_eq!(parse_event(b"\x1B[H", false), key(KeyCode::Home));
    assert_eq!(parse_event(b"\x1B[F", false), key(KeyCode::End));
    assert_eq!(parse_event(b"\x1B[Z", false), key(KeyCode::BackTab));
    assert_eq!(parse_event(b"\x1B[Q", false), ERR);
}

#[test]
fn csi_linux_console_function_keys() {
    assert_eq!(parse_event(b"\x1B[[", false), Ok(None));
    assert_eq!(parse_event(b"\x1B[[A", false), key(KeyCode::F(1)));
    assert_eq!(parse_event(b"\x1B[[E", false), key(KeyCode::F(5)));
    assert_eq!(parse_event(b"\x1B[[F", false), ERR);
}

#[test]
fn csi_special_keys() {
    assert_eq!(parse_event(b"\x1B[1~", false), key(KeyCode::Home));
    assert_eq!(parse_event(b"\x1B[2~", false), key(KeyCode::Insert));
    assert_eq!(parse_event(b"\x1B[3~", false), key(KeyCode::Delete));
    assert_eq!(parse_event(b"\x1B[4~", false), key(KeyCode::End));
    assert_eq!(parse_event(b"\x1B[5~", false), key(KeyCode::PageUp));
    assert_eq!(parse_event(b"\x1B[6~", false), key(KeyCode::PageDown));
    assert_eq!(parse_event(b"\x1B[7~", false), key(KeyCode::Home));
    assert_eq!(parse_event(b"\x1B[8~", false), key(KeyCode::End));
    assert_eq!(parse_event(b"\x1B[11~", false), key(KeyCode::F(1)));
    assert_eq!(parse_event(b"\x1B[15~", false), key(KeyCode::F(5)));
    assert_eq!(parse_event(b"\x1B[17~", false), key(KeyCode::F(6)));
    assert_eq!(parse_event(b"\x1B[21~", false), key(KeyCode::F(10)));
    assert_eq!(parse_event(b"\x1B[23~", false), key(KeyCode::F(11)));
    assert_eq!(parse_event(b"\x1B[24~", false), key(KeyCode::F(12)));
    // The introducer must be followed by a digit.
    assert_eq!(parse_event(b"\x1B[+3~", false), ERR);
    // A second number with a sign is still a number.
    assert_eq!(parse_event(b"\x1B[3;+2~", false), ERR);
    assert_eq!(parse_event(b"\x1B[9~", false), ERR);
    assert_eq!(parse_event(b"\x1B[300~", false), ERR);
    // A second number (a modifier) is refused.
    assert_eq!(parse_event(b"\x1B[3;2~", false), ERR);
    // A second field that is no number is ignored.
    assert_eq!(parse_event(b"\x1B[3;~", false), key(KeyCode::Delete));
}

#[test]
fn csi_numbered_sequence_waits_for_final_byte() {
    assert_eq!(parse_event(b"\x1B[1", false), Ok(None));
    assert_eq!(parse_event(b"\x1B[12", false), Ok(None));
    assert_eq!(parse_event(b"\x1B[1;", false), Ok(None));
    assert_eq!(parse_event(b"\x1B[1;5", false), Ok(None));
}

#[test]
fn csi_modified_arrows() {
    assert_eq!(parse_event(b"\x1B[1;5A", false), key_with(KeyCode::Up, KeyModifiers::control()));
    assert_eq!(parse_event(b"\x1B[1;5B", false), key_with(KeyCode::Down, KeyModifiers::control()));
    assert_eq!(parse_event(b"\x1B[1;5C", false), key_with(KeyCode::Right, KeyModifiers::control()));
    assert_eq!(parse_event(b"\x1B[1;5D", false), key_with(KeyCode::Left, KeyModifiers::control()));
    assert_eq!(parse_event(b"\x1B[1;2A", false), key_with(KeyCode::Up, KeyModifiers::shift()));
    assert_eq!(parse_event(b"\x1B[1;2D", false), key_with(KeyCode::Left, KeyModifiers::shift()));
    assert_eq!(parse_event(b"\x1B[1;3A", false), ERR);
    assert_eq!(parse_event(b"\x1B[1;5E", false), ERR);
}

#[test]
fn csi_cursor_position() {
    assert_eq!(parse_event(b"\x1B[20;10R", false), Ok(Some(InternalEvent::CursorPosition(9, 19))));
    assert_eq!(parse_event(b"\x1B[1;1R", false), Ok(Some(InternalEvent::CursorPosition(0, 0))));
    assert_eq!(parse_event(b"\x1B[0;1R", false), ERR);
    assert_eq!(parse_event(b"\x1B[5R", false), ERR);
    assert_eq!(parse_event(b"\x1B[5;+3R", false), Ok(Some(InternalEvent::CursorPosition(2, 4))));
    assert_eq!(parse_event(b"\x1B[5;-3R", false), ERR);
}

#[test]
fn csi_xterm_mouse() {
    assert_eq!(parse_event(b"\x1B[<", false), Ok(None));
    assert_eq!(parse_event(b"\x1B[<0;20;10", false), Ok(None));
    assert_eq!(
        parse_event(b"\x1B[<0;20;10M", false),
        mouse(MouseEvent::Press(MouseButton::Left, 19, 9))
    );
    assert_eq!(
        parse_event(b"\x1B[<1;20;10M", false),
        mouse(MouseEvent::Press(MouseButton::Middle, 19, 9))
    );
    assert_eq!(
        parse_event(b"\x1B[<2;20;10M", false),
        mouse(MouseEvent::Press(MouseButton::Right, 19, 9))
    );
    assert_eq!(
        parse_event(b"\x1B[<64;20;10M", false),
        mouse(MouseEvent::Press(MouseButton::WheelUp, 19, 9))
    );
    assert_eq!(
        parse_event(b"\x1B[<65;20;10M", false),
        mouse(MouseEvent::Press(MouseButton::WheelDown, 19, 9))
    );
    assert_eq!(parse_event(b"\x1B[<0;20;10m", false), mouse(MouseEvent::Release(19, 9)));
    assert_eq!(parse_event(b"\x1B[<3;20;10M", false), mouse(MouseEvent::Release(19, 9)));
    assert_eq!(parse_event(b"\x1B[<32;20;10M", false), mouse(MouseEvent::Hold(19, 9)));
    assert_eq!(parse_event(b"\x1B[<4;20;10M", false), ERR);
    assert_eq!(parse_event(b"\x1B[<0;0;10M", false), ERR);
    assert_eq!(parse_event(b"\x1B[<0;20M", false), ERR);
}

#[test]
fn csi_rxvt_mouse() {
    assert_eq!(
        parse_event(b"\x1B[32;30;40M", false),
        mouse(MouseEvent::Press(MouseButton::Left, 29, 39))
    );
    assert_eq!(
        parse_event(b"\x1B[33;30;40M", false),
        mouse(MouseEvent::Press(MouseButton::Middle, 29, 39))
    );
    assert_eq!(
        parse_event(b"\x1B[34;30;40M", false),
        mouse(MouseEvent::Press(MouseButton::Right, 29, 39))
    );
    assert_eq!(parse_event(b"\x1B[35;30;40M", false), mouse(MouseEvent::Release(29, 39)));
    assert_eq!(parse_event(b"\x1B[64;30;40M", false), mouse(MouseEvent::Hold(29, 39)));
    assert_eq!(
        parse_event(b"\x1B[96;30;40M", false),
        mouse(MouseEvent::Press(MouseButton::WheelUp, 29, 39))
    );
    assert_eq!(
        parse_event(b"\x1B[97;30;40M", false),
        mouse(MouseEvent::Press(MouseButton::WheelUp, 29, 39))
    );
    assert_eq!(parse_event(b"\x1B[36;30;40M", false), ERR);
    assert_eq!(parse_event(b"\x1B[32;70000;40M", false), ERR);
}

#[test]
fn csi_x10_mouse() {
    assert_eq!(parse_event(b"\x1B[M", false), Ok(None));
    assert_eq!(parse_event(b"\x1B[M\x20\x21", false), Ok(None));
    assert_eq!(
        parse_event(b"\x1B[M\x20\x21\x21", false),
        mouse(MouseEvent::Press(MouseButton::Left, 0, 0))
    );
    assert_eq!(
        parse_event(b"\x1B[M\x21\x2A\x2B", false),
        mouse(MouseEvent::Press(MouseButton::Middle, 9, 10))
    );
    assert_eq!(
        parse_event(b"\x1B[M\x22\x21\x21", false),
        mouse(MouseEvent::Press(MouseButton::Right, 0, 0))
    );
    assert_eq!(parse_event(b"\x1B[M\x23\x21\x21", false), mouse(MouseEvent::Release(0, 0)));
    assert_eq!(
        parse_event(b"\x1B[M\x60\x21\x21", false),
        mouse(MouseEvent::Press(MouseButton::WheelUp, 0, 0))
    );
    assert_eq!(
        parse_event(b"\x1B[M\x61\x21\x21", false),
        mouse(MouseEvent::Press(MouseButton::WheelDown, 0, 0))
    );
    assert_eq!(parse_event(b"\x1B[M\x1F\x21\x21", false), ERR);
    assert_eq!(parse_event(b"\x1B[M\x20\x20\x21", false), ERR);
}

#[test]
fn csi_unknown_introducer_is_refused() {
    assert_eq!(parse_event(b"\x1B[!", false), ERR);
    assert_eq!(parse_csi(b"\x1B["), Ok(None));
    assert_eq!(parse_csi(b"\x1B[A"), key(KeyCode::Up));
}

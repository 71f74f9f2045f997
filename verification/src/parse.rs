//! The escape-sequence parser of the Unix event source: it reads one event
//! from the start of a buffer of terminal bytes.
//!
//! Every result is one of: `Ok(None)`, more bytes are needed; `Err(_)`, the
//! bytes form no event and the buffer is to be dropped; `Ok(Some(event))`, the
//! buffer holds an event.
use vstd::prelude::*;
use vstd::string::StrSliceExecFns;
use vstd::utf8::*;

use crate::event::{Event, InternalEvent, KeyCode, KeyEvent, KeyModifiers, key_with, plain_key};
use crate::input::{MouseButton, MouseEvent};

verus! {

/// The escape byte.
pub const ESC: u8 = 0x1B;

/// The bytes could not be read as an event.
#[derive(Debug, Clone, Copy, PartialEq, Eq, Hash, Structural)]
pub enum ParseError {
    CouldNotParse,
}

/// The result of reading an event from a buffer.
pub type ParseResult = Result<Option<InternalEvent>, ParseError>;

// ---------------------------------------------------------------------------
// The grammar
// ---------------------------------------------------------------------------

/// The event of a key pressed with no modifier.
pub open spec fn ev_key(code: KeyCode) -> InternalEvent {
    InternalEvent::Event(Event::Key(plain_key(code)))
}

/// The event of a key pressed with the modifiers of the given bits.
pub open spec fn ev_key_with(code: KeyCode, bits: u8) -> InternalEvent {
    InternalEvent::Event(Event::Key(key_with(code, bits)))
}

/// The event of a mouse action.
pub open spec fn ev_mouse(m: MouseEvent) -> InternalEvent {
    InternalEvent::Event(Event::Mouse(m))
}

/// The number of bytes that the UTF-8 encoding announced by its first byte
/// takes; 0 where the byte cannot start an encoding.
pub open spec fn utf8_required_bytes(b: u8) -> int {
    if b <= 0x7F {
        1
    } else if 0xC0 <= b <= 0xDF {
        2
    } else if 0xE0 <= b <= 0xEF {
        3
    } else if 0xF0 <= b <= 0xF7 {
        4
    } else {
        0
    }
}

/// Reading a character: the first character of valid UTF-8; more bytes needed
/// where the bytes so far can begin a character; an error otherwise.
pub open spec fn spec_parse_utf8_char(s: Seq<u8>) -> Result<Option<char>, ParseError> {
    if valid_utf8(s) {
        if s.len() == 0 {
            Err(ParseError::CouldNotParse)
        } else {
            Ok(Some(decode_utf8(s)[0]))
        }
    } else {
        let required = utf8_required_bytes(s[0]);
        if required == 0 {
            Err(ParseError::CouldNotParse)
        } else if required > 1 && s.len() > 1 && exists|i: int|
            1 <= i < s.len() && !is_continuation_byte(#[trigger] s[i]) {
            Err(ParseError::CouldNotParse)
        } else if s.len() < required {
            Ok(None)
        } else {
            Err(ParseError::CouldNotParse)
        }
    }
}

/// The key event of a character read with the given modifier bits.
pub open spec fn char_event(r: Result<Option<char>, ParseError>, bits: u8) -> ParseResult {
    match r {
        Ok(Some(c)) => Ok(Some(ev_key_with(KeyCode::Char(c), bits))),
        Ok(None) => Ok(None),
        Err(e) => Err(e),
    }
}

/// The index of the first `;` in `s`, or its length where there is none.
pub open spec fn first_semicolon(s: Seq<u8>) -> int
    decreases s.len(),
{
    if s.len() == 0 {
        0
    } else if s[0] == 59 {
        0
    } else {
        1 + first_semicolon(s.drop_first())
    }
}

/// The `k`-th field of `s` split at each `;`, counting from 0.
pub open spec fn nth_field(s: Seq<u8>, k: nat) -> Option<Seq<u8>>
    decreases k,
{
    let p = first_semicolon(s);
    if k == 0 {
        Some(s.subrange(0, p))
    } else if p >= s.len() {
        None
    } else {
        nth_field(s.subrange(p + 1, s.len() as int), (k - 1) as nat)
    }
}

pub open spec fn is_digit(b: u8) -> bool {
    48 <= b <= 57
}

pub open spec fn all_digits(d: Seq<u8>) -> bool {
    forall|i: int| 0 <= i < d.len() ==> is_digit(#[trigger] d[i])
}

/// The value of a sequence of decimal digits.
pub open spec fn digits_value(d: Seq<u8>) -> nat
    decreases d.len(),
{
    if d.len() == 0 {
        0
    } else {
        digits_value(d.drop_last()) * 10 + (d.last() - 48) as nat
    }
}

/// A field without its leading `+`, if it has one.
pub open spec fn unsigned_digits(f: Seq<u8>) -> Seq<u8> {
    if f.len() > 0 && f[0] == 43 {
        f.drop_first()
    } else {
        f
    }
}

/// The unsigned number that a field spells, as the standard library reads an
/// unsigned integer no larger than `max`: an optional `+`, then at least one
/// decimal digit and nothing else.
pub open spec fn spec_parse_number(f: Seq<u8>, max: nat) -> Option<nat> {
    let d = unsigned_digits(f);
    if d.len() > 0 && all_digits(d) && digits_value(d) <= max {
        Some(digits_value(d))
    } else {
        None
    }
}

/// The number that the `k`-th field of `s` spells.
pub open spec fn field_number(s: Seq<u8>, k: nat, max: nat) -> Option<nat> {
    match nth_field(s, k) {
        Some(f) => spec_parse_number(f, max),
        None => None,
    }
}

/// The key of `ESC [ n ~`.
pub open spec fn special_key(v: nat) -> Option<KeyCode> {
    if v == 1 || v == 7 {
        Some(KeyCode::Home)
    } else if v == 2 {
        Some(KeyCode::Insert)
    } else if v == 3 {
        Some(KeyCode::Delete)
    } else if v == 4 || v == 8 {
        Some(KeyCode::End)
    } else if v == 5 {
        Some(KeyCode::PageUp)
    } else if v == 6 {
        Some(KeyCode::PageDown)
    } else if 11 <= v <= 15 {
        Some(KeyCode::F((v - 10) as u8))
    } else if 17 <= v <= 21 {
        Some(KeyCode::F((v - 11) as u8))
    } else if 23 <= v <= 24 {
        Some(KeyCode::F((v - 12) as u8))
    } else {
        None
    }
}

/// The arrow key of the final byte of a cursor-key sequence.
pub open spec fn arrow_key(k: u8) -> Option<KeyCode> {
    if k == 65 {
        Some(KeyCode::Up)
    } else if k == 66 {
        Some(KeyCode::Down)
    } else if k == 67 {
        Some(KeyCode::Right)
    } else if k == 68 {
        Some(KeyCode::Left)
    } else {
        None
    }
}

/// The mouse event of the rxvt encoding `ESC [ Cb ; Cx ; Cy M`.
pub open spec fn rxvt_event(cb: nat, x: u16, y: u16) -> Option<MouseEvent> {
    if cb == 32 {
        Some(MouseEvent::Press(MouseButton::Left, x, y))
    } else if cb == 33 {
        Some(MouseEvent::Press(MouseButton::Middle, x, y))
    } else if cb == 34 {
        Some(MouseEvent::Press(MouseButton::Right, x, y))
    } else if cb == 35 {
        Some(MouseEvent::Release(x, y))
    } else if cb == 64 {
        Some(MouseEvent::Hold(x, y))
    } else if cb == 96 || cb == 97 {
        Some(MouseEvent::Press(MouseButton::WheelUp, x, y))
    } else {
        None
    }
}

/// The button of the xterm encoding, for the codes that press one.
pub open spec fn xterm_button(cb: nat) -> Option<MouseButton> {
    if cb == 0 {
        Some(MouseButton::Left)
    } else if cb == 1 {
        Some(MouseButton::Middle)
    } else if cb == 2 {
        Some(MouseButton::Right)
    } else if cb == 64 {
        Some(MouseButton::WheelUp)
    } else if cb == 65 {
        Some(MouseButton::WheelDown)
    } else {
        None
    }
}

/// The mouse event of the xterm encoding `ESC [ < Cb ; Cx ; Cy (M or m)`.
pub open spec fn xterm_event(cb: nat, last: u8, x: u16, y: u16) -> Option<MouseEvent> {
    match xterm_button(cb) {
        Some(button) => if last == 77 {
            Some(MouseEvent::Press(button, x, y))
        } else {
            Some(MouseEvent::Release(x, y))
        },
        None => if cb == 32 {
            Some(MouseEvent::Hold(x, y))
        } else if cb == 3 {
            Some(MouseEvent::Release(x, y))
        } else {
            None
        },
    }
}

/// The mouse event of the X10 encoding `ESC [ M Cb Cx Cy`, from the button
/// code less 32.
pub open spec fn x10_event(cb: u8, x: u16, y: u16) -> MouseEvent {
    let low = cb % 4;
    let wheel = (cb / 64) % 2 == 1;
    if low == 0 {
        if wheel {
            MouseEvent::Press(MouseButton::WheelUp, x, y)
        } else {
            MouseEvent::Press(MouseButton::Left, x, y)
        }
    } else if low == 1 {
        if wheel {
            MouseEvent::Press(MouseButton::WheelDown, x, y)
        } else {
            MouseEvent::Press(MouseButton::Middle, x, y)
        }
    } else if low == 2 {
        MouseEvent::Press(MouseButton::Right, x, y)
    } else {
        MouseEvent::Release(x, y)
    }
}

/// The bytes between the introducer of a CSI sequence and its final byte.
pub open spec fn csi_params(b: Seq<u8>, from: int) -> Seq<u8> {
    b.subrange(from, b.len() - 1)
}

/// `ESC [ 1 ; m X` with `m` the digit 5 (control) or 2 (shift) and `X` an arrow.
pub open spec fn spec_parse_csi_modifier_key_code(b: Seq<u8>) -> ParseResult {
    let m = b[b.len() - 2];
    let k = b[b.len() - 1];
    match arrow_key(k) {
        Some(code) => if m == 53 {
            Ok(Some(ev_key_with(code, 2)))
        } else if m == 50 {
            Ok(Some(ev_key_with(code, 1)))
        } else {
            Err(ParseError::CouldNotParse)
        },
        None => Err(ParseError::CouldNotParse),
    }
}

/// `ESC [ n ~`, a special key; a second number is refused.
pub open spec fn spec_parse_csi_special_key_code(b: Seq<u8>) -> ParseResult {
    let p = csi_params(b, 2);
    if !valid_utf8(p) {
        Err(ParseError::CouldNotParse)
    } else {
        match field_number(p, 0, 255) {
            Some(v) => if field_number(p, 1, 255) is Some {
                Err(ParseError::CouldNotParse)
            } else {
                match special_key(v) {
                    Some(code) => Ok(Some(ev_key(code))),
                    None => Err(ParseError::CouldNotParse),
                }
            },
            None => Err(ParseError::CouldNotParse),
        }
    }
}

/// `ESC [ Cy ; Cx R`, the cursor position (row and column counted from 1),
/// reported counted from 0, column first.
pub open spec fn spec_parse_csi_cursor_position(b: Seq<u8>) -> ParseResult {
    let p = csi_params(b, 2);
    if !valid_utf8(p) {
        Err(ParseError::CouldNotParse)
    } else {
        match (field_number(p, 0, 65535), field_number(p, 1, 65535)) {
            (Some(y), Some(x)) => if y >= 1 && x >= 1 {
                Ok(Some(InternalEvent::CursorPosition((x - 1) as u16, (y - 1) as u16)))
            } else {
                Err(ParseError::CouldNotParse)
            },
            _ => Err(ParseError::CouldNotParse),
        }
    }
}

/// The three numbers `Cb ; Cx ; Cy` of a mouse report with coordinates counted
/// from 1, the coordinates returned counted from 0.
pub open spec fn mouse_numbers(p: Seq<u8>) -> Option<(nat, u16, u16)> {
    match (field_number(p, 0, 65535), field_number(p, 1, 65535), field_number(p, 2, 65535)) {
        (Some(cb), Some(x), Some(y)) => if x >= 1 && y >= 1 {
            Some((cb, (x - 1) as u16, (y - 1) as u16))
        } else {
            None
        },
        _ => None,
    }
}

/// `ESC [ Cb ; Cx ; Cy M`, the rxvt mouse encoding.
pub open spec fn spec_parse_csi_rxvt_mouse(b: Seq<u8>) -> ParseResult {
    let p = csi_params(b, 2);
    if !valid_utf8(p) {
        Err(ParseError::CouldNotParse)
    } else {
        match mouse_numbers(p) {
            Some((cb, x, y)) => match rxvt_event(cb, x, y) {
                Some(m) => Ok(Some(ev_mouse(m))),
                None => Err(ParseError::CouldNotParse),
            },
            None => Err(ParseError::CouldNotParse),
        }
    }
}

/// `ESC [ < Cb ; Cx ; Cy (M or m)`, the xterm mouse encoding.
pub open spec fn spec_parse_csi_xterm_mouse(b: Seq<u8>) -> ParseResult {
    let last = b[b.len() - 1];
    if last != 109 && last != 77 {
        Ok(None)
    } else {
        let p = csi_params(b, 3);
        if !valid_utf8(p) {
            Err(ParseError::CouldNotParse)
        } else {
            match mouse_numbers(p) {
                Some((cb, x, y)) => match xterm_event(cb, last, x, y) {
                    Some(m) => Ok(Some(ev_mouse(m))),
                    None => Err(ParseError::CouldNotParse),
                },
                None => Err(ParseError::CouldNotParse),
            }
        }
    }
}

/// `ESC [ M Cb Cx Cy`, the X10 mouse encoding: each byte is its value plus 32,
/// the coordinates counted from 1.
pub open spec fn spec_parse_csi_x10_mouse(b: Seq<u8>) -> ParseResult {
    if b.len() < 6 {
        Ok(None)
    } else if b[3] < 32 || b[4] <= 32 || b[5] <= 32 {
        Err(ParseError::CouldNotParse)
    } else {
        Ok(Some(ev_mouse(x10_event((b[3] - 32) as u8, (b[4] - 33) as u16, (b[5] - 33) as u16))))
    }
}

/// A control sequence, `ESC [ ...`.
pub open spec fn spec_parse_csi(b: Seq<u8>) -> ParseResult {
    if b.len() <= 2 {
        Ok(None)
    } else {
        let c = b[2];
        if c == 91 {
            if b.len() == 3 {
                Ok(None)
            } else if 65 <= b[3] <= 69 {
                Ok(Some(ev_key(KeyCode::F((1 + b[3] - 65) as u8))))
            } else {
                Err(ParseError::CouldNotParse)
            }
        } else if c == 68 {
            Ok(Some(ev_key(KeyCode::Left)))
        } else if c == 67 {
            Ok(Some(ev_key(KeyCode::Right)))
        } else if c == 65 {
            Ok(Some(ev_key(KeyCode::Up)))
        } else if c == 66 {
            Ok(Some(ev_key(KeyCode::Down)))
        } else if c == 72 {
            Ok(Some(ev_key(KeyCode::Home)))
        } else if c == 70 {
            Ok(Some(ev_key(KeyCode::End)))
        } else if c == 90 {
            Ok(Some(ev_key(KeyCode::BackTab)))
        } else if c == 77 {
            spec_parse_csi_x10_mouse(b)
        } else if c == 60 {
            spec_parse_csi_xterm_mouse(b)
        } else if is_digit(c) {
            if b.len() == 3 {
                Ok(None)
            } else {
                let last = b[b.len() - 1];
                if last < 64 || last > 126 {
                    Ok(None)
                } else if last == 77 {
                    spec_parse_csi_rxvt_mouse(b)
                } else if last == 126 {
                    spec_parse_csi_special_key_code(b)
                } else if last == 82 {
                    spec_parse_csi_cursor_position(b)
                } else {
                    spec_parse_csi_modifier_key_code(b)
                }
            }
        } else {
            Err(ParseError::CouldNotParse)
        }
    }
}

/// The event at the start of `b`; `more` says whether further input is
/// already waiting, which makes a lone escape byte the start of a sequence
/// rather than the escape key.
pub open spec fn spec_parse_event(b: Seq<u8>, more: bool) -> ParseResult {
    if b.len() == 0 {
        Ok(None)
    } else if b[0] == ESC {
        if b.len() == 1 {
            if more {
                Ok(None)
            } else {
                Ok(Some(ev_key(KeyCode::Esc)))
            }
        } else if b[1] == 79 {
            if b.len() == 2 {
                Ok(None)
            } else if 80 <= b[2] <= 83 {
                Ok(Some(ev_key(KeyCode::F((1 + b[2] - 80) as u8))))
            } else {
                Err(ParseError::CouldNotParse)
            }
        } else if b[1] == 91 {
            spec_parse_csi(b)
        } else if b[1] == ESC {
            Ok(Some(ev_key(KeyCode::Esc)))
        } else {
            char_event(spec_parse_utf8_char(b.subrange(1, b.len() as int)), 4)
        }
    } else if b[0] == 13 || b[0] == 10 {
        Ok(Some(ev_key(KeyCode::Enter)))
    } else if b[0] == 9 {
        Ok(Some(ev_key(KeyCode::Tab)))
    } else if b[0] == 127 {
        Ok(Some(ev_key(KeyCode::Backspace)))
    } else if 1 <= b[0] <= 26 {
        Ok(Some(ev_key_with(KeyCode::Char(((b[0] - 1 + 97) as u8) as char), 2)))
    } else if 28 <= b[0] <= 31 {
        Ok(Some(ev_key_with(KeyCode::Char(((b[0] - 28 + 52) as u8) as char), 2)))
    } else if b[0] == 0 {
        Ok(Some(ev_key(KeyCode::Null)))
    } else {
        char_event(spec_parse_utf8_char(b), 0)
    }
}

// ---------------------------------------------------------------------------
// Lemmas
// ---------------------------------------------------------------------------

proof fn lemma_first_semicolon_at(s: Seq<u8>, p: int)
    requires
        0 <= p <= s.len(),
        forall|i: int| 0 <= i < p ==> s[i] != 59,
        p == s.len() || s[p] == 59,
    ensures
        first_semicolon(s) == p,
    decreases s.len(),
{
    if s.len() > 0 && s[0] != 59 {
        lemma_first_semicolon_at(s.drop_first(), p - 1);
    }
}

// ---------------------------------------------------------------------------
// The parser
// ---------------------------------------------------------------------------

/// Calls `std::str::from_utf8`, which accepts exactly the well-formed UTF-8
/// byte sequences and then gives the string they encode.
#[verifier::external_body]
fn str_from_utf8(v: &[u8]) -> (r: Option<&str>)
    ensures
        r is Some <==> valid_utf8(v@),
        r matches Some(s) ==> s@ == decode_utf8(v@),
{
    match std::str::from_utf8(v) {
        Ok(s) => Some(s),
        Err(_) => None,
    }
}

/// Whether `buf[from..to]` is well-formed UTF-8.
fn is_utf8(buf: &[u8], from: usize, to: usize) -> (r: bool)
    requires
        from <= to <= buf@.len(),
    ensures
        r == valid_utf8(buf@.subrange(from as int, to as int)),
{
    let part = vstd::slice::slice_subrange(buf, from, to);
    str_from_utf8(part).is_some()
}

/// Reads one character from the start of `buf`.
#[verifier::loop_isolation(false)]
pub fn parse_utf8_char(buf: &[u8]) -> (r: Result<Option<char>, ParseError>)
    ensures
        r == spec_parse_utf8_char(buf@),
{
    match str_from_utf8(buf) {
        Some(s) => {
            if s.is_empty() {
                Err(ParseError::CouldNotParse)
            } else {
                Ok(Some(s.get_char(0)))
            }
        },
        None => {
            assert(buf@.len() > 0) by {
                if buf@.len() == 0 {
                    assert(valid_utf8(buf@));
                }
            }
            let first = buf[0];
            let required: usize = if first <= 0x7F {
                1
            } else if 0xC0 <= first && first <= 0xDF {
                2
            } else if 0xE0 <= first && first <= 0xEF {
                3
            } else if 0xF0 <= first && first <= 0xF7 {
                4
            } else {
                return Err(ParseError::CouldNotParse);
            };
            if required > 1 && buf.len() > 1 {
                let mut i: usize = 1;
                while i < buf.len()
                    invariant
                        1 <= i <= buf@.len(),
                        forall|j: int| 1 <= j < i ==> is_continuation_byte(#[trigger] buf@[j]),
                    decreases buf@.len() - i,
                {
                    if buf[i] < 0x80 || buf[i] > 0xBF {
                        assert(!is_continuation_byte(buf@[i as int]));
                        return Err(ParseError::CouldNotParse);
                    }
                    i = i + 1;
                }
            }
            if buf.len() < required {
                Ok(None)
            } else {
                Err(ParseError::CouldNotParse)
            }
        },
    }
}

/// The index of the first `;` in `buf[start..end]`, or `end`.
fn find_semicolon(buf: &[u8], start: usize, end: usize) -> (p: usize)
    requires
        start <= end <= buf@.len(),
    ensures
        start <= p <= end,
        p - start == first_semicolon(buf@.subrange(start as int, end as int)),
{
    let mut i = start;
    while i < end && buf[i] != 59
        invariant
            start <= i <= end <= buf@.len(),
            forall|j: int| start <= j < i ==> buf@[j] != 59,
        decreases end - i,
    {
        i = i + 1;
    }
    proof {
        let s = buf@.subrange(start as int, end as int);
        lemma_first_semicolon_at(s, i - start);
    }
    i
}

/// The bounds in `buf` of the `k`-th field of `buf[start..end]`.
#[verifier::loop_isolation(false)]
fn field_bounds(buf: &[u8], start: usize, end: usize, k: usize) -> (r: Option<(usize, usize)>)
    requires
        start <= end <= buf@.len(),
    ensures
        match nth_field(buf@.subrange(start as int, end as int), k as nat) {
            Some(f) => r matches Some((a, b)) && start <= a <= b <= end && buf@.subrange(
                a as int,
                b as int,
            ) == f,
            None => r is None,
        },
{
    let ghost whole = buf@.subrange(start as int, end as int);
    let mut cur = start;
    let mut j: usize = 0;
    while j < k
        invariant
            start <= cur <= end <= buf@.len(),
            j <= k,
            nth_field(whole, k as nat) == nth_field(
                buf@.subrange(cur as int, end as int),
                (k - j) as nat,
            ),
        decreases k - j,
    {
        let p = find_semicolon(buf, cur, end);
        let ghost s = buf@.subrange(cur as int, end as int);
        if p == end {
            assert(nth_field(s, (k - j) as nat) is None);
            return None;
        }
        assert(s.subrange((p - cur) + 1, s.len() as int) =~= buf@.subrange(p + 1, end as int));
        cur = p + 1;
        j = j + 1;
    }
    let p = find_semicolon(buf, cur, end);
    assert(buf@.subrange(cur as int, end as int).subrange(0, p - cur) =~= buf@.subrange(
        cur as int,
        p as int,
    ));
    Some((cur, p))
}

/// The number spelled by `buf[from..to]`, no larger than `max`.
fn parse_number(buf: &[u8], from: usize, to: usize, max: u32) -> (r: Option<u32>)
    requires
        from <= to <= buf@.len(),
        max <= 65535,
    ensures
        match spec_parse_number(buf@.subrange(from as int, to as int), max as nat) {
            Some(v) => r == Some(v as u32),
            None => r is None,
        },
{
    let ghost f = buf@.subrange(from as int, to as int);
    let mut start = from;
    if from < to && buf[from] == 43 {
        start = from + 1;
    }
    let ghost d = buf@.subrange(start as int, to as int);
    assert(d =~= unsigned_digits(f));
    if start == to {
        return None;
    }
    // The value read so far, held at `max + 1` once it is larger than `max`.
    let mut value: u32 = 0;
    let mut i = start;
    while i < to
        invariant
            from <= start <= i <= to <= buf@.len(),
            d == buf@.subrange(start as int, to as int),
            d == unsigned_digits(buf@.subrange(from as int, to as int)),
            max <= 65535,
            all_digits(buf@.subrange(start as int, i as int)),
            value == if digits_value(buf@.subrange(start as int, i as int)) <= max as nat {
                digits_value(buf@.subrange(start as int, i as int))
            } else {
                (max + 1) as nat
            },
        decreases to - i,
    {
        let c = buf[i];
        let ghost prefix = buf@.subrange(start as int, i as int);
        let ghost next = buf@.subrange(start as int, i + 1);
        assert(next.drop_last() =~= prefix);
        if c < 48 || c > 57 {
            assert(!is_digit(d[i - start]));
            return None;
        }
        let digit = (c - 48) as u32;
        let bigger = value * 10 + digit;
        if bigger > max {
            value = max + 1;
        } else {
            value = bigger;
        }
        assert(all_digits(next)) by {
            assert forall|j: int| 0 <= j < next.len() implies is_digit(#[trigger] next[j]) by {
                if j < prefix.len() {
                    assert(next[j] == prefix[j]);
                }
            }
        }
        i = i + 1;
    }
    assert(buf@.subrange(start as int, to as int) == d);
    if value > max {
        None
    } else {
        Some(value)
    }
}

/// The number of the `k`-th field of `buf[start..end]`, no larger than `max`.
fn parse_field(buf: &[u8], start: usize, end: usize, k: usize, max: u32) -> (r: Option<u32>)
    requires
        start <= end <= buf@.len(),
        max <= 65535,
    ensures
        match field_number(buf@.subrange(start as int, end as int), k as nat, max as nat) {
            Some(v) => r == Some(v as u32),
            None => r is None,
        },
{
    match field_bounds(buf, start, end, k) {
        Some((a, b)) => parse_number(buf, a, b, max),
        None => None,
    }
}


/// The key event of `code` with the modifiers `modifiers`, as an event.
fn key_event(code: KeyCode, modifiers: KeyModifiers) -> (e: InternalEvent)
    ensures
        e == ev_key_with(code, modifiers.bits),
{
    InternalEvent::Event(Event::Key(KeyEvent::new(code, modifiers)))
}

/// The mouse event `m`, as an event.
fn mouse_event(m: MouseEvent) -> (e: InternalEvent)
    ensures
        e == ev_mouse(m),
{
    InternalEvent::Event(Event::Mouse(m))
}

/// `ESC [ 1 ; m X`: an arrow key with control (`m` = 5) or shift (`m` = 2).
fn parse_csi_modifier_key_code(buffer: &[u8]) -> (r: ParseResult)
    requires
        buffer@.len() >= 4,
    ensures
        r == spec_parse_csi_modifier_key_code(buffer@),
{
    let m = buffer[buffer.len() - 2];
    let k = buffer[buffer.len() - 1];
    let code = if k == 65 {
        KeyCode::Up
    } else if k == 66 {
        KeyCode::Down
    } else if k == 67 {
        KeyCode::Right
    } else if k == 68 {
        KeyCode::Left
    } else {
        return Err(ParseError::CouldNotParse);
    };
    if m == 53 {
        Ok(Some(key_event(code, KeyModifiers::control())))
    } else if m == 50 {
        Ok(Some(key_event(code, KeyModifiers::shift())))
    } else {
        Err(ParseError::CouldNotParse)
    }
}

/// `ESC [ n ~`: a special key.
fn parse_csi_special_key_code(buffer: &[u8]) -> (r: ParseResult)
    requires
        buffer@.len() >= 3,
    ensures
        r == spec_parse_csi_special_key_code(buffer@),
{
    let end = buffer.len() - 1;
    if !is_utf8(buffer, 2, end) {
        return Err(ParseError::CouldNotParse);
    }
    let first = match parse_field(buffer, 2, end, 0, 255) {
        Some(v) => v,
        None => return Err(ParseError::CouldNotParse),
    };
    if parse_field(buffer, 2, end, 1, 255).is_some() {
        return Err(ParseError::CouldNotParse);
    }
    let code = if first == 1 || first == 7 {
        KeyCode::Home
    } else if first == 2 {
        KeyCode::Insert
    } else if first == 3 {
        KeyCode::Delete
    } else if first == 4 || first == 8 {
        KeyCode::End
    } else if first == 5 {
        KeyCode::PageUp
    } else if first == 6 {
        KeyCode::PageDown
    } else if 11 <= first && first <= 15 {
        KeyCode::F((first - 10) as u8)
    } else if 17 <= first && first <= 21 {
        KeyCode::F((first - 11) as u8)
    } else if 23 <= first && first <= 24 {
        KeyCode::F((first - 12) as u8)
    } else {
        return Err(ParseError::CouldNotParse);
    };
    Ok(Some(key_event(code, KeyModifiers::empty())))
}

/// `ESC [ Cy ; Cx R`: the cursor position.
fn parse_csi_cursor_position(buffer: &[u8]) -> (r: ParseResult)
    requires
        buffer@.len() >= 3,
    ensures
        r == spec_parse_csi_cursor_position(buffer@),
{
    let end = buffer.len() - 1;
    if !is_utf8(buffer, 2, end) {
        return Err(ParseError::CouldNotParse);
    }
    let y = parse_field(buffer, 2, end, 0, 65535);
    let x = parse_field(buffer, 2, end, 1, 65535);
    match (y, x) {
        (Some(y), Some(x)) => {
            if y >= 1 && x >= 1 {
                Ok(Some(InternalEvent::CursorPosition((x - 1) as u16, (y - 1) as u16)))
            } else {
                Err(ParseError::CouldNotParse)
            }
        },
        _ => Err(ParseError::CouldNotParse),
    }
}

/// The numbers `Cb ; Cx ; Cy` of a mouse report held in `buffer[start..end]`.
fn parse_mouse_numbers(buffer: &[u8], start: usize, end: usize) -> (r: Option<(u32, u16, u16)>)
    requires
        start <= end <= buffer@.len(),
    ensures
        match mouse_numbers(buffer@.subrange(start as int, end as int)) {
            Some((cb, x, y)) => r == Some((cb as u32, x, y)),
            None => r is None,
        },
{
    let cb = parse_field(buffer, start, end, 0, 65535);
    let x = parse_field(buffer, start, end, 1, 65535);
    let y = parse_field(buffer, start, end, 2, 65535);
    match (cb, x, y) {
        (Some(cb), Some(x), Some(y)) => {
            if x >= 1 && y >= 1 {
                Some((cb, (x - 1) as u16, (y - 1) as u16))
            } else {
                None
            }
        },
        _ => None,
    }
}

/// `ESC [ Cb ; Cx ; Cy M`: the rxvt mouse encoding.
fn parse_csi_rxvt_mouse(buffer: &[u8]) -> (r: ParseResult)
    requires
        buffer@.len() >= 3,
    ensures
        r == spec_parse_csi_rxvt_mouse(buffer@),
{
    let end = buffer.len() - 1;
    if !is_utf8(buffer, 2, end) {
        return Err(ParseError::CouldNotParse);
    }
    let (cb, x, y) = match parse_mouse_numbers(buffer, 2, end) {
        Some(n) => n,
        None => return Err(ParseError::CouldNotParse),
    };
    let m = if cb == 32 {
        MouseEvent::Press(MouseButton::Left, x, y)
    } else if cb == 33 {
        MouseEvent::Press(MouseButton::Middle, x, y)
    } else if cb == 34 {
        MouseEvent::Press(MouseButton::Right, x, y)
    } else if cb == 35 {
        MouseEvent::Release(x, y)
    } else if cb == 64 {
        MouseEvent::Hold(x, y)
    } else if cb == 96 || cb == 97 {
        MouseEvent::Press(MouseButton::WheelUp, x, y)
    } else {
        return Err(ParseError::CouldNotParse);
    };
    Ok(Some(mouse_event(m)))
}

/// `ESC [ < Cb ; Cx ; Cy (M or m)`: the xterm mouse encoding.
fn parse_csi_xterm_mouse(buffer: &[u8]) -> (r: ParseResult)
    requires
        buffer@.len() >= 3,
        buffer@[2] == 60,
    ensures
        r == spec_parse_csi_xterm_mouse(buffer@),
{
    let last = buffer[buffer.len() - 1];
    if last != 109 && last != 77 {
        return Ok(None);
    }
    let end = buffer.len() - 1;
    if !is_utf8(buffer, 3, end) {
        return Err(ParseError::CouldNotParse);
    }
    let (cb, x, y) = match parse_mouse_numbers(buffer, 3, end) {
        Some(n) => n,
        None => return Err(ParseError::CouldNotParse),
    };
    let button = if cb == 0 {
        Some(MouseButton::Left)
    } else if cb == 1 {
        Some(MouseButton::Middle)
    } else if cb == 2 {
        Some(MouseButton::Right)
    } else if cb == 64 {
        Some(MouseButton::WheelUp)
    } else if cb == 65 {
        Some(MouseButton::WheelDown)
    } else {
        None
    };
    let m = match button {
        Some(button) => {
            if last == 77 {
                MouseEvent::Press(button, x, y)
            } else {
                MouseEvent::Release(x, y)
            }
        },
        None => {
            if cb == 32 {
                MouseEvent::Hold(x, y)
            } else if cb == 3 {
                MouseEvent::Release(x, y)
            } else {
                return Err(ParseError::CouldNotParse);
            }
        },
    };
    Ok(Some(mouse_event(m)))
}

/// `ESC [ M Cb Cx Cy`: the X10 mouse encoding.
fn parse_csi_x10_mouse(buffer: &[u8]) -> (r: ParseResult)
    requires
        buffer@.len() >= 3,
    ensures
        r == spec_parse_csi_x10_mouse(buffer@),
{
    if buffer.len() < 6 {
        return Ok(None);
    }
    if buffer[3] < 32 || buffer[4] <= 32 || buffer[5] <= 32 {
        return Err(ParseError::CouldNotParse);
    }
    let cb = buffer[3] - 32;
    let x = (buffer[4] - 33) as u16;
    let y = (buffer[5] - 33) as u16;
    let low = cb % 4;
    let wheel = (cb / 64) % 2 == 1;
    let m = if low == 0 {
        if wheel {
            MouseEvent::Press(MouseButton::WheelUp, x, y)
        } else {
            MouseEvent::Press(MouseButton::Left, x, y)
        }
    } else if low == 1 {
        if wheel {
            MouseEvent::Press(MouseButton::WheelDown, x, y)
        } else {
            MouseEvent::Press(MouseButton::Middle, x, y)
        }
    } else if low == 2 {
        MouseEvent::Press(MouseButton::Right, x, y)
    } else {
        MouseEvent::Release(x, y)
    };
    Ok(Some(mouse_event(m)))
}

/// Reads a control sequence, `ESC [ ...`.
pub fn parse_csi(buffer: &[u8]) -> (r: ParseResult)
    requires
        buffer@.len() >= 2,
    ensures
        r == spec_parse_csi(buffer@),
{
    if buffer.len() == 2 {
        return Ok(None);
    }
    let c = buffer[2];
    if c == 91 {
        if buffer.len() == 3 {
            Ok(None)
        } else if 65 <= buffer[3] && buffer[3] <= 69 {
            Ok(Some(key_event(KeyCode::F(1 + buffer[3] - 65), KeyModifiers::empty())))
        } else {
            Err(ParseError::CouldNotParse)
        }
    } else if c == 68 {
        Ok(Some(key_event(KeyCode::Left, KeyModifiers::empty())))
    } else if c == 67 {
        Ok(Some(key_event(KeyCode::Right, KeyModifiers::empty())))
    } else if c == 65 {
        Ok(Some(key_event(KeyCode::Up, KeyModifiers::empty())))
    } else if c == 66 {
        Ok(Some(key_event(KeyCode::Down, KeyModifiers::empty())))
    } else if c == 72 {
        Ok(Some(key_event(KeyCode::Home, KeyModifiers::empty())))
    } else if c == 70 {
        Ok(Some(key_event(KeyCode::End, KeyModifiers::empty())))
    } else if c == 90 {
        Ok(Some(key_event(KeyCode::BackTab, KeyModifiers::empty())))
    } else if c == 77 {
        parse_csi_x10_mouse(buffer)
    } else if c == 60 {
        parse_csi_xterm_mouse(buffer)
    } else if 48 <= c && c <= 57 {
        if buffer.len() == 3 {
            Ok(None)
        } else {
            let last = buffer[buffer.len() - 1];
            if last < 64 || last > 126 {
                Ok(None)
            } else if last == 77 {
                parse_csi_rxvt_mouse(buffer)
            } else if last == 126 {
                parse_csi_special_key_code(buffer)
            } else if last == 82 {
                parse_csi_cursor_position(buffer)
            } else {
                parse_csi_modifier_key_code(buffer)
            }
        }
    } else {
        Err(ParseError::CouldNotParse)
    }
}

/// The key event of a character read from the input, with the given modifiers.
fn char_key_event(r: Result<Option<char>, ParseError>, modifiers: KeyModifiers) -> (e: ParseResult)
    ensures
        e == char_event(r, modifiers.bits),
{
    match r {
        Ok(Some(c)) => Ok(Some(key_event(KeyCode::Char(c), modifiers))),
        Ok(None) => Ok(None),
        Err(e) => Err(e),
    }
}

/// Reads the event at the start of `buffer`. `input_available` says whether
/// more input is already waiting: a lone escape byte is then taken for the
/// start of a sequence, and more bytes are asked for.
pub fn parse_event(buffer: &[u8], input_available: bool) -> (r: ParseResult)
    ensures
        r == spec_parse_event(buffer@, input_available),
{
    if buffer.len() == 0 {
        return Ok(None);
    }
    let first = buffer[0];
    if first == ESC {
        if buffer.len() == 1 {
            if input_available {
                Ok(None)
            } else {
                Ok(Some(key_event(KeyCode::Esc, KeyModifiers::empty())))
            }
        } else if buffer[1] == 79 {
            if buffer.len() == 2 {
                Ok(None)
            } else if 80 <= buffer[2] && buffer[2] <= 83 {
                Ok(Some(key_event(KeyCode::F(1 + buffer[2] - 80), KeyModifiers::empty())))
            } else {
                Err(ParseError::CouldNotParse)
            }
        } else if buffer[1] == 91 {
            parse_csi(buffer)
        } else if buffer[1] == ESC {
            Ok(Some(key_event(KeyCode::Esc, KeyModifiers::empty())))
        } else {
            let rest = vstd::slice::slice_subrange(buffer, 1, buffer.len());
            char_key_event(parse_utf8_char(rest), KeyModifiers::alt())
        }
    } else if first == 13 || first == 10 {
        Ok(Some(key_event(KeyCode::Enter, KeyModifiers::empty())))
    } else if first == 9 {
        Ok(Some(key_event(KeyCode::Tab, KeyModifiers::empty())))
    } else if first == 127 {
        Ok(Some(key_event(KeyCode::Backspace, KeyModifiers::empty())))
    } else if 1 <= first && first <= 26 {
        Ok(Some(key_event(KeyCode::Char((first - 1 + 97) as char), KeyModifiers::control())))
    } else if 28 <= first && first <= 31 {
        Ok(Some(key_event(KeyCode::Char((first - 28 + 52) as char), KeyModifiers::control())))
    } else if first == 0 {
        Ok(Some(key_event(KeyCode::Null, KeyModifiers::empty())))
    } else {
        char_key_event(parse_utf8_char(buffer), KeyModifiers::empty())
    }
}

// ---------------------------------------------------------------------------
// Laws
// ---------------------------------------------------------------------------

/// A character that is no control character: not below 32 and not DEL.
pub open spec fn is_printable(c: char) -> bool {
    c as u32 >= 32 && c as u32 != 127
}

/// The UTF-8 encoding of one character.
pub open spec fn char_bytes(c: char) -> Seq<u8> {
    encode_utf8(seq![c])
}

proof fn lemma_char_bytes(c: char)
    ensures
        char_bytes(c) == encode_scalar(c as u32),
        valid_utf8(char_bytes(c)),
        decode_utf8(char_bytes(c)) == seq![c],
{
    broadcast use group_utf8_lib;

    let s = seq![c];
    assert(s.drop_first() =~= Seq::<char>::empty());
    assert(encode_utf8(Seq::<char>::empty()) =~= Seq::<u8>::empty());
    assert(encode_utf8(s) =~= encode_scalar(c as u32));
}

/// The first byte of a character's encoding: the character itself below
/// 128, a leading byte of the announced length otherwise; the other bytes are
/// continuation bytes.
proof fn lemma_char_bytes_shape(c: char)
    ensures
        char_bytes(c).len() == 1 ==> char_bytes(c)[0] == c as u32 && c as u32 <= 0x7F,
        char_bytes(c).len() >= 2 ==> 0xC0 <= char_bytes(c)[0] <= 0xF7,
        1 <= char_bytes(c).len() <= 4,
        utf8_required_bytes(char_bytes(c)[0]) == char_bytes(c).len(),
        forall|i: int| 1 <= i < char_bytes(c).len() ==> is_continuation_byte(#[trigger] char_bytes(c)[i]),
{
    broadcast use group_utf8_lib;

    lemma_char_bytes(c);
    let v = c as u32;
    assert(is_scalar(v));
    let b = char_bytes(c);
    assert(0x80 <= (0x80 | (v & 0x3F) as u8) <= 0xBF) by (bit_vector);
    assert(0x80 <= (0x80 | ((v >> 6) & 0x3F) as u8) <= 0xBF) by (bit_vector);
    assert(0x80 <= (0x80 | ((v >> 12) & 0x3F) as u8) <= 0xBF) by (bit_vector);
    if has_width_1_encoding(v) {
        assert(v <= 0x7F ==> (v & 0x7F) as u8 == v) by (bit_vector);
    } else if has_width_2_encoding(v) {
        assert(0xC0 <= (0xC0 | ((v >> 6) & 0x1F) as u8) <= 0xDF) by (bit_vector);
    } else if has_width_3_encoding(v) {
        assert(0xE0 <= (0xE0 | ((v >> 12) & 0x0F) as u8) <= 0xEF) by (bit_vector);
    } else {
        assert(0xF0 <= (0xF0 | ((v >> 18) & 0x7) as u8) <= 0xF7) by (bit_vector);
    }
}

/// Typing a character that is not a control character gives the key event
/// of that character.
pub proof fn lemma_printable_char_is_read(c: char, more: bool)
    requires
        is_printable(c),
    ensures
        spec_parse_event(char_bytes(c), more) == Ok::<_, ParseError>(
            Some(ev_key(KeyCode::Char(c))),
        ),
{
    lemma_char_bytes(c);
    lemma_char_bytes_shape(c);
    let b = char_bytes(c);
    assert(decode_utf8(b)[0] == c);
}

/// The bytes of a character's encoding that have arrived so far, short of the
/// whole, make the parser wait for more.
pub proof fn lemma_partial_char_waits(c: char, k: int, more: bool)
    requires
        1 <= k < char_bytes(c).len(),
    ensures
        spec_parse_event(char_bytes(c).take(k), more) == Ok::<Option<InternalEvent>, ParseError>(
            None,
        ),
{
    lemma_char_bytes_shape(c);
    let b = char_bytes(c);
    let p = b.take(k);
    assert(p[0] == b[0]);
    assert(!valid_first_scalar(p));
    assert(!valid_utf8(p));
    assert(forall|i: int| 1 <= i < p.len() ==> p[i] == b[i]);
    assert(!exists|i: int| 1 <= i < p.len() && !is_continuation_byte(#[trigger] p[i]));
}

/// Alt with a character other than `O` and `[` (which start sequences) gives
/// the key event of that character with alt.
pub proof fn lemma_alt_char_is_read(c: char, more: bool)
    requires
        is_printable(c),
        c as u32 != 79,
        c as u32 != 91,
    ensures
        spec_parse_event(seq![ESC] + char_bytes(c), more) == Ok::<_, ParseError>(
            Some(ev_key_with(KeyCode::Char(c), 4)),
        ),
{
    lemma_char_bytes(c);
    lemma_char_bytes_shape(c);
    let b = seq![ESC] + char_bytes(c);
    assert(b.subrange(1, b.len() as int) =~= char_bytes(c));
    assert(b[1] == char_bytes(c)[0]);
    assert(decode_utf8(char_bytes(c))[0] == c);
}

/// A character's encoding takes one to four bytes.
pub proof fn lemma_char_bytes_len(c: char)
    ensures
        1 <= char_bytes(c).len() <= 4,
{
    lemma_char_bytes_shape(c);
}

// ---------------------------------------------------------------------------
// Laws on numbered sequences
// ---------------------------------------------------------------------------

/// The decimal digits of `n`, most significant first, with no leading zero.
pub open spec fn decimal(n: nat) -> Seq<u8>
    decreases n,
{
    if n < 10 {
        seq![(n + 48) as u8]
    } else {
        decimal(n / 10).push((n % 10 + 48) as u8)
    }
}

proof fn lemma_decimal(n: nat)
    ensures
        decimal(n).len() >= 1,
        n >= 10 ==> decimal(n).len() >= 2,
        all_digits(decimal(n)),
        digits_value(decimal(n)) == n,
    decreases n,
{
    if n >= 10 {
        lemma_decimal(n / 10);
        let d = decimal(n);
        assert(d.drop_last() =~= decimal(n / 10));
        assert(all_digits(d)) by {
            assert forall|i: int| 0 <= i < d.len() implies is_digit(#[trigger] d[i]) by {
                if i < d.len() - 1 {
                    assert(d[i] == decimal(n / 10)[i]);
                }
            }
        }
        assert(n == (n / 10) * 10 + n % 10);
        assert(d.last() == (n % 10 + 48) as u8);
        assert(d.last() - 48 == n % 10);
        assert(digits_value(d) == digits_value(decimal(n / 10)) * 10 + n % 10);
    } else {
        let d = decimal(n);
        assert(d.drop_last() =~= Seq::<u8>::empty());
        assert(d.last() - 48 == n);
        assert(digits_value(d) == digits_value(d.drop_last()) * 10 + (d.last() - 48) as nat);
    }
}

/// A number written in decimal is read back as itself.
proof fn lemma_decimal_number(n: nat, max: nat)
    requires
        n <= max,
    ensures
        spec_parse_number(decimal(n), max) == Some(n),
{
    lemma_decimal(n);
    assert(is_digit(decimal(n)[0]));
    assert(unsigned_digits(decimal(n)) == decimal(n));
}

/// Bytes below 128 are well-formed UTF-8.
proof fn lemma_ascii_valid_utf8(s: Seq<u8>)
    requires
        forall|i: int| 0 <= i < s.len() ==> #[trigger] s[i] < 128,
    ensures
        valid_utf8(s),
    decreases s.len(),
{
    if s.len() > 0 {
        let b = s[0];
        assert(b < 128);
        assert(b < 128 ==> (b & 0x7F) as u32 <= 0x7F) by (bit_vector);
        assert(valid_first_scalar(s));
        let rest = pop_first_scalar(s);
        assert(rest =~= s.subrange(1, s.len() as int));
        assert forall|i: int| 0 <= i < rest.len() implies #[trigger] rest[i] < 128 by {
            assert(rest[i] == s[i + 1]);
        }
        lemma_ascii_valid_utf8(rest);
    }
}

/// A field with no `;` in it is the only field.
proof fn lemma_only_field(d: Seq<u8>)
    requires
        forall|i: int| 0 <= i < d.len() ==> #[trigger] d[i] != 59,
    ensures
        nth_field(d, 0) == Some(d),
        nth_field(d, 1) is None,
{
    lemma_first_semicolon_at(d, d.len() as int);
    assert(d.subrange(0, d.len() as int) =~= d);
}

/// A field with no `;` in it, followed by `;` and more, is the first field,
/// and the later fields are those of what follows the `;`.
proof fn lemma_first_field(d: Seq<u8>, r: Seq<u8>, k: nat)
    requires
        forall|i: int| 0 <= i < d.len() ==> #[trigger] d[i] != 59,
    ensures
        nth_field(d + seq![59u8] + r, 0) == Some(d),
        nth_field(d + seq![59u8] + r, k + 1) == nth_field(r, k),
{
    let s = d + seq![59u8] + r;
    assert forall|i: int| 0 <= i < d.len() implies s[i] != 59 by {
        assert(s[i] == d[i]);
    }
    assert(s[d.len() as int] == 59);
    lemma_first_semicolon_at(s, d.len() as int);
    assert(s.subrange(0, d.len() as int) =~= d);
    assert(s.subrange(d.len() as int + 1, s.len() as int) =~= r);
}

proof fn lemma_digits_no_semicolon(n: nat)
    ensures
        forall|i: int| 0 <= i < decimal(n).len() ==> #[trigger] decimal(n)[i] != 59 && decimal(n)[i] < 128,
{
    lemma_decimal(n);
    assert forall|i: int| 0 <= i < decimal(n).len() implies #[trigger] decimal(n)[i] != 59 && decimal(n)[i] < 128 by {
        assert(is_digit(decimal(n)[i]));
    }
}

/// The key that `ESC [ n ~` stands for, for the function keys: F1 to F5 are
/// 11 to 15, F6 to F10 are 17 to 21, F11 and F12 are 23 and 24.
pub proof fn lemma_function_key_sequences(n: nat, more: bool)
    requires
        11 <= n <= 15 || 17 <= n <= 21 || 23 <= n <= 24,
    ensures
        spec_parse_event(seq![ESC, 91u8] + decimal(n) + seq![126u8], more) == Ok::<_, ParseError>(
            Some(
                ev_key(
                    KeyCode::F(
                        (if n <= 15 {
                            n - 10
                        } else if n <= 21 {
                            n - 11
                        } else {
                            n - 12
                        }) as u8,
                    ),
                ),
            ),
        ),
{
    let d = decimal(n);
    lemma_decimal(n);
    lemma_digits_no_semicolon(n);
    lemma_decimal_number(n, 255);
    let b = seq![ESC, 91u8] + d + seq![126u8];
    assert(b[2] == d[0]);
    assert(is_digit(d[0]));
    assert(b[b.len() - 1] == 126);
    assert(csi_params(b, 2) =~= d);
    lemma_ascii_valid_utf8(d);
    lemma_only_field(d);
}

/// The key that `ESC [ n ~` stands for, for the editing keys: Home (1 and 7),
/// Insert (2), Delete (3), End (4 and 8), PageUp (5), PageDown (6).
pub proof fn lemma_editing_key_sequences(n: nat, more: bool)
    requires
        1 <= n <= 8,
    ensures
        spec_parse_event(seq![ESC, 91u8] + decimal(n) + seq![126u8], more) == Ok::<_, ParseError>(
            Some(
                ev_key(
                    if n == 1 || n == 7 {
                        KeyCode::Home
                    } else if n == 2 {
                        KeyCode::Insert
                    } else if n == 3 {
                        KeyCode::Delete
                    } else if n == 4 || n == 8 {
                        KeyCode::End
                    } else if n == 5 {
                        KeyCode::PageUp
                    } else {
                        KeyCode::PageDown
                    },
                ),
            ),
        ),
{
    let d = decimal(n);
    lemma_decimal(n);
    lemma_digits_no_semicolon(n);
    lemma_decimal_number(n, 255);
    let b = seq![ESC, 91u8] + d + seq![126u8];
    assert(d =~= seq![(n + 48) as u8]);
    assert(b[2] == d[0]);
    assert(b.len() == 4);
    assert(b[b.len() - 1] == 126);
    assert(csi_params(b, 2) =~= d);
    lemma_ascii_valid_utf8(d);
    lemma_only_field(d);
}

/// The three numbers `cb ; x ; y` of a mouse report, written in decimal.
pub open spec fn mouse_report(cb: nat, x: nat, y: nat) -> Seq<u8> {
    decimal(cb) + seq![59u8] + decimal(x) + seq![59u8] + decimal(y)
}

proof fn lemma_mouse_report(cb: nat, x: nat, y: nat)
    requires
        cb <= 65535,
        1 <= x <= 65535,
        1 <= y <= 65535,
    ensures
        valid_utf8(mouse_report(cb, x, y)),
        mouse_numbers(mouse_report(cb, x, y)) == Some((cb, (x - 1) as u16, (y - 1) as u16)),
        mouse_report(cb, x, y).len() >= 5,
{
    lemma_digits_no_semicolon(cb);
    lemma_digits_no_semicolon(x);
    lemma_digits_no_semicolon(y);
    lemma_decimal(cb);
    lemma_decimal(x);
    lemma_decimal(y);
    lemma_decimal_number(cb, 65535);
    lemma_decimal_number(x, 65535);
    lemma_decimal_number(y, 65535);
    let p = mouse_report(cb, x, y);
    let r1 = decimal(x) + seq![59u8] + decimal(y);
    assert(p =~= decimal(cb) + seq![59u8] + r1);
    lemma_first_field(decimal(cb), r1, 0);
    lemma_first_field(decimal(cb), r1, 1);
    lemma_first_field(decimal(x), decimal(y), 0);
    lemma_only_field(decimal(y));
    assert forall|i: int| 0 <= i < p.len() implies #[trigger] p[i] < 128 by {
        let a = decimal(cb).len() as int;
        let b = decimal(x).len() as int;
        if i < a {
            assert(p[i] == decimal(cb)[i]);
        } else if i == a {
        } else if i < a + 1 + b {
            assert(p[i] == decimal(x)[i - a - 1]);
        } else if i == a + 1 + b {
        } else {
            assert(p[i] == decimal(y)[i - a - 2 - b]);
        }
    }
    lemma_ascii_valid_utf8(p);
}

/// An xterm (SGR) mouse report of the left, middle or right button (codes
/// 0, 1, 2) at column `x`, row `y` (counted from 1): the final byte alone
/// decides, `M` a press of that button and `m` a release, at the position
/// counted from 0.
pub proof fn lemma_xterm_button_reports(cb: nat, x: nat, y: nat, last: u8, more: bool)
    requires
        cb <= 2,
        1 <= x <= 65535,
        1 <= y <= 65535,
        last == 77 || last == 109,
    ensures
        spec_parse_event(seq![ESC, 91u8, 60u8] + mouse_report(cb, x, y) + seq![last], more)
            == Ok::<_, ParseError>(
            Some(
                ev_mouse(
                    if last == 109 {
                        MouseEvent::Release((x - 1) as u16, (y - 1) as u16)
                    } else {
                        MouseEvent::Press(
                            if cb == 0 {
                                MouseButton::Left
                            } else if cb == 1 {
                                MouseButton::Middle
                            } else {
                                MouseButton::Right
                            },
                            (x - 1) as u16,
                            (y - 1) as u16,
                        )
                    },
                ),
            ),
        ),
{
    lemma_mouse_report(cb, x, y);
    let p = mouse_report(cb, x, y);
    let b = seq![ESC, 91u8, 60u8] + p + seq![last];
    assert(b[2] == 60);
    assert(b[b.len() - 1] == last);
    assert(csi_params(b, 3) =~= p);
}

/// An rxvt mouse report `ESC [ cb ; x ; y M` (position counted from 1):
/// codes 32, 33, 34 press the left, middle and right button, 35 releases,
/// 64 holds, 96 and 97 turn the wheel up; the position is counted from 0.
pub proof fn lemma_rxvt_reports(cb: nat, x: nat, y: nat, more: bool)
    requires
        32 <= cb <= 35 || cb == 64 || cb == 96 || cb == 97,
        1 <= x <= 65535,
        1 <= y <= 65535,
    ensures
        spec_parse_event(seq![ESC, 91u8] + mouse_report(cb, x, y) + seq![77u8], more) == Ok::<
            _,
            ParseError,
        >(
            Some(
                ev_mouse(
                    {
                        let (x0, y0) = ((x - 1) as u16, (y - 1) as u16);
                        if cb == 32 {
                            MouseEvent::Press(MouseButton::Left, x0, y0)
                        } else if cb == 33 {
                            MouseEvent::Press(MouseButton::Middle, x0, y0)
                        } else if cb == 34 {
                            MouseEvent::Press(MouseButton::Right, x0, y0)
                        } else if cb == 35 {
                            MouseEvent::Release(x0, y0)
                        } else if cb == 64 {
                            MouseEvent::Hold(x0, y0)
                        } else {
                            MouseEvent::Press(MouseButton::WheelUp, x0, y0)
                        }
                    },
                ),
            ),
        ),
{
    lemma_mouse_report(cb, x, y);
    lemma_decimal(cb);
    let p = mouse_report(cb, x, y);
    let b = seq![ESC, 91u8] + p + seq![77u8];
    assert(p[0] == decimal(cb)[0]);
    assert(b[2] == p[0]);
    assert(is_digit(b[2]));
    assert(b[b.len() - 1] == 77);
    assert(csi_params(b, 2) =~= p);
}

/// The answer to a cursor position request, `ESC [ row ; column R` counted
/// from 1, is read as the position (column, row) counted from 0.
pub proof fn lemma_cursor_position_report(row: nat, col: nat, more: bool)
    requires
        1 <= row <= 65535,
        1 <= col <= 65535,
    ensures
        spec_parse_event(
            seq![ESC, 91u8] + decimal(row) + seq![59u8] + decimal(col) + seq![82u8],
            more,
        ) == Ok::<_, ParseError>(
            Some(InternalEvent::CursorPosition((col - 1) as u16, (row - 1) as u16)),
        ),
{
    lemma_digits_no_semicolon(row);
    lemma_digits_no_semicolon(col);
    lemma_decimal(row);
    lemma_decimal(col);
    lemma_decimal_number(row, 65535);
    lemma_decimal_number(col, 65535);
    let p = decimal(row) + seq![59u8] + decimal(col);
    let b = seq![ESC, 91u8] + decimal(row) + seq![59u8] + decimal(col) + seq![82u8];
    assert(b =~= seq![ESC, 91u8] + p + seq![82u8]);
    lemma_first_field(decimal(row), decimal(col), 0);
    lemma_only_field(decimal(col));
    assert(b[2] == decimal(row)[0]);
    assert(is_digit(b[2]));
    assert(b[b.len() - 1] == 82);
    assert(csi_params(b, 2) =~= p);
    assert forall|i: int| 0 <= i < p.len() implies #[trigger] p[i] < 128 by {
        let a = decimal(row).len() as int;
        if i < a {
            assert(p[i] == decimal(row)[i]);
        } else if i > a {
            assert(p[i] == decimal(col)[i - a - 1]);
        }
    }
    lemma_ascii_valid_utf8(p);
}

// ---------------------------------------------------------------------------
// Laws on keys
// ---------------------------------------------------------------------------

/// A lone escape byte is the escape key when no more input waits, and the
/// start of a sequence (more bytes needed) when more input waits.
pub proof fn lemma_lone_escape(more: bool)
    ensures
        spec_parse_event(seq![ESC], more) == (if more {
            Ok::<Option<InternalEvent>, ParseError>(None)
        } else {
            Ok(Some(ev_key(KeyCode::Esc)))
        }),
{
}

/// The control bytes: 1 to 26 are control with the letters `a` to `z`,
/// except 9 (Tab), 10 and 13 (Enter); 28 to 31 are control with `4` to `7`;
/// 0 is Null and 127 Backspace.
pub proof fn lemma_control_bytes(c: u8, more: bool)
    requires
        c <= 31 || c == 127,
        c != 27,
    ensures
        spec_parse_event(seq![c], more) == Ok::<_, ParseError>(
            Some(
                if c == 9 {
                    ev_key(KeyCode::Tab)
                } else if c == 10 || c == 13 {
                    ev_key(KeyCode::Enter)
                } else if c == 0 {
                    ev_key(KeyCode::Null)
                } else if c == 127 {
                    ev_key(KeyCode::Backspace)
                } else if c <= 26 {
                    ev_key_with(KeyCode::Char((c + 96) as u8 as char), 2)
                } else {
                    ev_key_with(KeyCode::Char((c + 24) as u8 as char), 2)
                },
            ),
        ),
{
}

/// `ESC O P` to `ESC O S` are F1 to F4.
pub proof fn lemma_ss3_function_keys(k: u8, more: bool)
    requires
        80 <= k <= 83,
    ensures
        spec_parse_event(seq![ESC, 79u8, k], more) == Ok::<_, ParseError>(
            Some(ev_key(KeyCode::F((k - 79) as u8))),
        ),
{
}

/// `ESC [ A` to `ESC [ D` are the arrows up, down, right and left; `ESC [ H`
/// is Home, `ESC [ F` End and `ESC [ Z` BackTab.
pub proof fn lemma_csi_cursor_keys(k: u8, more: bool)
    requires
        65 <= k <= 68 || k == 72 || k == 70 || k == 90,
    ensures
        spec_parse_event(seq![ESC, 91u8, k], more) == Ok::<_, ParseError>(
            Some(
                ev_key(
                    if k == 65 {
                        KeyCode::Up
                    } else if k == 66 {
                        KeyCode::Down
                    } else if k == 67 {
                        KeyCode::Right
                    } else if k == 68 {
                        KeyCode::Left
                    } else if k == 72 {
                        KeyCode::Home
                    } else if k == 70 {
                        KeyCode::End
                    } else {
                        KeyCode::BackTab
                    },
                ),
            ),
        ),
{
}

/// `ESC [ 1 ; 5 X` and `ESC [ 1 ; 2 X`, with `X` from `A` to `D`, are the
/// arrows with control and with shift.
pub proof fn lemma_modified_arrows(m: u8, k: u8, more: bool)
    requires
        m == 53 || m == 50,
        65 <= k <= 68,
    ensures
        spec_parse_event(seq![ESC, 91u8, 49u8, 59u8, m, k], more) == Ok::<_, ParseError>(
            Some(
                ev_key_with(
                    if k == 65 {
                        KeyCode::Up
                    } else if k == 66 {
                        KeyCode::Down
                    } else if k == 67 {
                        KeyCode::Right
                    } else {
                        KeyCode::Left
                    },
                    if m == 53 {
                        2
                    } else {
                        1
                    },
                ),
            ),
        ),
{
    let b = seq![ESC, 91u8, 49u8, 59u8, m, k];
    assert(b[b.len() - 1] == k);
    assert(b[b.len() - 2] == m);
}

/// An X10 mouse report `ESC [ M b x y`: the position is each byte less 33;
/// with `c` the button byte less 32, its two low bits 3 are a release, 2 the
/// right button, and 0 and 1 the left and middle buttons, or the wheel up
/// and down when bit 6 of `c` is set.
pub proof fn lemma_x10_reports(b: u8, xb: u8, yb: u8, more: bool)
    requires
        b >= 32,
        xb > 32,
        yb > 32,
    ensures
        spec_parse_event(seq![ESC, 91u8, 77u8, b, xb, yb], more) == Ok::<_, ParseError>(
            Some(
                ev_mouse(
                    {
                        let c = (b - 32) as int;
                        let (x, y) = ((xb - 33) as u16, (yb - 33) as u16);
                        let wheel = c >= 64 && c < 128 || c >= 192;
                        if c % 4 == 3 {
                            MouseEvent::Release(x, y)
                        } else if c % 4 == 2 {
                            MouseEvent::Press(MouseButton::Right, x, y)
                        } else if c % 4 == 0 {
                            MouseEvent::Press(
                                if wheel {
                                    MouseButton::WheelUp
                                } else {
                                    MouseButton::Left
                                },
                                x,
                                y,
                            )
                        } else {
                            MouseEvent::Press(
                                if wheel {
                                    MouseButton::WheelDown
                                } else {
                                    MouseButton::Middle
                                },
                                x,
                                y,
                            )
                        }
                    },
                ),
            ),
        ),
{
}

} // verus!

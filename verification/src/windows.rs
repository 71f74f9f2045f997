//! The decisions of the Windows console input: how console key and mouse
//! records become events, the console mode kept to restore when mouse capture
//! ends, and what the wait on the console handle answered.
//!
//! The records are held as plain values; reading them from the console is
//! the caller's part.
use vstd::prelude::*;

use crate::event::{Event, InternalEvent, KeyCode, KeyEvent, KeyModifiers, key_with};
use crate::parse::{ParseError, spec_parse_event};
use crate::input::{MouseButton, MouseEvent};

verus! {

// Virtual key codes of the Windows API.
pub const VK_BACK: u16 = 0x08;
pub const VK_RETURN: u16 = 0x0D;
pub const VK_SHIFT: u16 = 0x10;
pub const VK_CONTROL: u16 = 0x11;
pub const VK_MENU: u16 = 0x12;
pub const VK_ESCAPE: u16 = 0x1B;
pub const VK_PRIOR: u16 = 0x21;
pub const VK_NEXT: u16 = 0x22;
pub const VK_END: u16 = 0x23;
pub const VK_HOME: u16 = 0x24;
pub const VK_LEFT: u16 = 0x25;
pub const VK_UP: u16 = 0x26;
pub const VK_RIGHT: u16 = 0x27;
pub const VK_DOWN: u16 = 0x28;
pub const VK_INSERT: u16 = 0x2D;
pub const VK_DELETE: u16 = 0x2E;
pub const VK_F1: u16 = 0x70;
pub const VK_F24: u16 = 0x87;

// Control key state flags of the Windows API.
pub const RIGHT_ALT_PRESSED: u32 = 0x0001;
pub const LEFT_ALT_PRESSED: u32 = 0x0002;
pub const RIGHT_CTRL_PRESSED: u32 = 0x0004;
pub const LEFT_CTRL_PRESSED: u32 = 0x0008;
pub const SHIFT_PRESSED: u32 = 0x0010;

/// The console input mode that enables mouse input: ENABLE_MOUSE_INPUT,
/// ENABLE_EXTENDED_FLAGS and ENABLE_WINDOW_INPUT.
pub const ENABLE_MOUSE_MODE: u32 = 0x0010 | 0x0080 | 0x0008;

/// The state of the control keys of a console record.
#[derive(Debug, Clone, Copy, PartialEq, Eq, Hash, Structural)]
pub struct ControlKeyState(pub u32);

impl ControlKeyState {
    /// Whether any of the flags of `state` is set.
    pub open spec fn spec_has_state(self, state: u32) -> bool {
        (state & self.0) != 0
    }

    /// Whether any of the flags of `state` is set.
    pub fn has_state(&self, state: u32) -> (b: bool)
        ensures
            b == self.spec_has_state(state),
    {
        (state & self.0) != 0
    }
}

/// A console key event record.
#[derive(Debug, Clone, Copy, PartialEq, Eq, Hash, Structural)]
pub struct KeyEventRecord {
    /// Whether the key was pressed (rather than released).
    pub key_down: bool,
    /// How often the key repeated.
    pub repeat_count: u16,
    /// The virtual key code.
    pub virtual_key_code: u16,
    /// The scan code.
    pub virtual_scan_code: u16,
    /// The UTF-16 code unit of the character.
    pub u_char: u16,
    /// The state of the control keys.
    pub control_key_state: ControlKeyState,
}

/// A position in the console screen buffer.
#[derive(Debug, Clone, Copy, PartialEq, Eq, Hash, Structural)]
pub struct Coord {
    pub x: i16,
    pub y: i16,
}

/// The state of the mouse buttons of a console mouse record.
#[derive(Debug, Clone, Copy, PartialEq, Eq, Hash, Structural)]
pub enum ButtonState {
    Release,
    FromLeft1stButtonPressed,
    FromLeft2ndButtonPressed,
    FromLeft3rdButtonPressed,
    FromLeft4thButtonPressed,
    RightmostButtonPressed,
    Unknown,
    /// The wheel was rotated backward, toward the user.
    Negative,
}

/// The kind of a console mouse record.
#[derive(Debug, Clone, Copy, PartialEq, Eq, Hash, Structural)]
pub enum EventFlags {
    PressOrRelease,
    DoubleClick,
    MouseHwheeled,
    MouseMoved,
    MouseWheeled,
}

/// A console mouse event record.
#[derive(Debug, Clone, Copy, PartialEq, Eq, Hash, Structural)]
pub struct MouseEventRecord {
    /// The position, the row counted from the top of the screen buffer.
    pub mouse_position: Coord,
    pub button_state: ButtonState,
    pub control_key_state: ControlKeyState,
    pub event_flags: EventFlags,
}

// ---------------------------------------------------------------------------
// Keys
// ---------------------------------------------------------------------------

/// Whether a character has the Unicode Alphabetic property, as
/// `char::is_alphabetic` answers.
pub uninterp spec fn char_is_alphabetic(c: char) -> bool;

/// Calls `char::is_alphabetic`; its result is named, not stated.
#[verifier::external_body]
fn is_alphabetic(c: char) -> (r: bool)
    ensures
        r == char_is_alphabetic(c),
{
    c.is_alphabetic()
}

/// The key event of a key pressed with alt: the system delivers the virtual
/// key code of the key rather than a character; it makes an event only where
/// it reads as an alphabetic character.
pub open spec fn spec_alt_key_event(command: char, alphabetic: bool) -> Option<KeyEvent> {
    if alphabetic {
        Some(key_with(KeyCode::Char(command), 4))
    } else {
        None
    }
}

/// The key event of a key pressed with alt, given the command character and
/// whether it is alphabetic.
pub fn alt_key_event(command: char, alphabetic: bool) -> (r: Option<KeyEvent>)
    ensures
        r == spec_alt_key_event(command, alphabetic),
{
    if alphabetic {
        Some(KeyEvent::with_alt(KeyCode::Char(command)))
    } else {
        None
    }
}

/// The control and shift modifiers that the control key state shows.
pub open spec fn arrow_modifiers(state: ControlKeyState) -> u8 {
    (if state.spec_has_state(RIGHT_CTRL_PRESSED | LEFT_CTRL_PRESSED) {
        2u8
    } else {
        0u8
    }) | (if state.spec_has_state(SHIFT_PRESSED) {
        1u8
    } else {
        0u8
    })
}

/// The key event of a character key (one with no key code of its own).
pub open spec fn spec_character_key_event(k: KeyEventRecord) -> Option<KeyEvent> {
    let raw = k.u_char;
    if raw < 255 {
        let character = (raw as u8) as char;
        let state = k.control_key_state;
        if state.spec_has_state(LEFT_ALT_PRESSED | RIGHT_ALT_PRESSED) {
            let command = (k.virtual_key_code as u8) as char;
            spec_alt_key_event(command, char_is_alphabetic(command))
        } else if state.spec_has_state(LEFT_CTRL_PRESSED | RIGHT_CTRL_PRESSED) {
            let c = raw as u8;
            if 1 <= c <= 26 {
                Some(key_with(KeyCode::Char(((c - 1 + 97) as u8) as char), 2))
            } else if 28 <= c <= 31 {
                Some(key_with(KeyCode::Char(((c - 28 + 52) as u8) as char), 2))
            } else {
                None
            }
        } else if state.spec_has_state(SHIFT_PRESSED) && raw == 9 {
            Some(key_with(KeyCode::BackTab, 0))
        } else if raw == 9 {
            Some(key_with(KeyCode::Tab, 0))
        } else {
            Some(key_with(KeyCode::Char(character), 0))
        }
    } else {
        None
    }
}

/// The key event of a console key record.
pub open spec fn spec_parse_key_event_record(k: KeyEventRecord) -> Option<KeyEvent> {
    let vk = k.virtual_key_code;
    if vk == VK_SHIFT || vk == VK_CONTROL || vk == VK_MENU {
        None
    } else if vk == VK_BACK {
        Some(key_with(KeyCode::Backspace, 0))
    } else if vk == VK_ESCAPE {
        Some(key_with(KeyCode::Esc, 0))
    } else if vk == VK_RETURN {
        Some(key_with(KeyCode::Enter, 0))
    } else if VK_F1 <= vk <= VK_F24 {
        Some(key_with(KeyCode::F((vk - 111) as u8), 0))
    } else if vk == VK_LEFT {
        Some(key_with(KeyCode::Left, arrow_modifiers(k.control_key_state)))
    } else if vk == VK_UP {
        Some(key_with(KeyCode::Up, arrow_modifiers(k.control_key_state)))
    } else if vk == VK_RIGHT {
        Some(key_with(KeyCode::Right, arrow_modifiers(k.control_key_state)))
    } else if vk == VK_DOWN {
        Some(key_with(KeyCode::Down, arrow_modifiers(k.control_key_state)))
    } else if vk == VK_PRIOR {
        Some(key_with(KeyCode::PageUp, 0))
    } else if vk == VK_NEXT {
        Some(key_with(KeyCode::PageDown, 0))
    } else if vk == VK_HOME {
        Some(key_with(KeyCode::Home, 0))
    } else if vk == VK_END {
        Some(key_with(KeyCode::End, 0))
    } else if vk == VK_DELETE {
        Some(key_with(KeyCode::Delete, 0))
    } else if vk == VK_INSERT {
        Some(key_with(KeyCode::Insert, 0))
    } else {
        spec_character_key_event(k)
    }
}

/// The key event of a character key.
fn character_key_event(key_event: &KeyEventRecord) -> (r: Option<KeyEvent>)
    ensures
        r == spec_character_key_event(*key_event),
{
    let character_raw = key_event.u_char;
    if character_raw < 255 {
        let character = (character_raw as u8) as char;
        let key_state = &key_event.control_key_state;
        if key_state.has_state(LEFT_ALT_PRESSED | RIGHT_ALT_PRESSED) {
            // With alt held the system delivers a command rather than a
            // character: the key is read from the virtual key code.
            let command = (key_event.virtual_key_code as u8) as char;
            alt_key_event(command, is_alphabetic(command))
        } else if key_state.has_state(LEFT_CTRL_PRESSED | RIGHT_CTRL_PRESSED) {
            let c = character_raw as u8;
            if 1 <= c && c <= 26 {
                Some(KeyEvent::with_control(KeyCode::Char((c - 1 + 97) as char)))
            } else if 28 <= c && c <= 31 {
                Some(KeyEvent::with_control(KeyCode::Char((c - 28 + 52) as char)))
            } else {
                None
            }
        } else if key_state.has_state(SHIFT_PRESSED) && character_raw == 9 {
            Some(KeyEvent::new(KeyCode::BackTab, KeyModifiers::empty()))
        } else if character_raw == 9 {
            Some(KeyEvent::new(KeyCode::Tab, KeyModifiers::empty()))
        } else {
            // A shifted key is read as the character it gives.
            Some(KeyEvent::new(KeyCode::Char(character), KeyModifiers::empty()))
        }
    } else {
        None
    }
}

/// Translates a console key record into a key event; `None` for the modifier
/// keys themselves and for keys that give no event.
pub fn parse_key_event_record(key_event: &KeyEventRecord) -> (r: Option<KeyEvent>)
    ensures
        r == spec_parse_key_event_record(*key_event),
{
    let key_code = key_event.virtual_key_code;
    if key_code == VK_SHIFT || key_code == VK_CONTROL || key_code == VK_MENU {
        None
    } else if key_code == VK_BACK {
        Some(KeyEvent::new(KeyCode::Backspace, KeyModifiers::empty()))
    } else if key_code == VK_ESCAPE {
        Some(KeyEvent::new(KeyCode::Esc, KeyModifiers::empty()))
    } else if key_code == VK_RETURN {
        Some(KeyEvent::new(KeyCode::Enter, KeyModifiers::empty()))
    } else if VK_F1 <= key_code && key_code <= VK_F24 {
        Some(KeyEvent::new(KeyCode::F((key_code - 111) as u8), KeyModifiers::empty()))
    } else if key_code == VK_LEFT || key_code == VK_UP || key_code == VK_RIGHT || key_code
        == VK_DOWN {
        let key_state = &key_event.control_key_state;
        let control = if key_state.has_state(RIGHT_CTRL_PRESSED | LEFT_CTRL_PRESSED) {
            KeyModifiers::control()
        } else {
            KeyModifiers::empty()
        };
        let shift = if key_state.has_state(SHIFT_PRESSED) {
            KeyModifiers::shift()
        } else {
            KeyModifiers::empty()
        };
        let modifiers = control.union(shift);
        let code = if key_code == VK_LEFT {
            KeyCode::Left
        } else if key_code == VK_UP {
            KeyCode::Up
        } else if key_code == VK_RIGHT {
            KeyCode::Right
        } else {
            KeyCode::Down
        };
        Some(KeyEvent::new(code, modifiers))
    } else if key_code == VK_PRIOR {
        Some(KeyEvent::new(KeyCode::PageUp, KeyModifiers::empty()))
    } else if key_code == VK_NEXT {
        Some(KeyEvent::new(KeyCode::PageDown, KeyModifiers::empty()))
    } else if key_code == VK_HOME {
        Some(KeyEvent::new(KeyCode::Home, KeyModifiers::empty()))
    } else if key_code == VK_END {
        Some(KeyEvent::new(KeyCode::End, KeyModifiers::empty()))
    } else if key_code == VK_DELETE {
        Some(KeyEvent::new(KeyCode::Delete, KeyModifiers::empty()))
    } else if key_code == VK_INSERT {
        Some(KeyEvent::new(KeyCode::Insert, KeyModifiers::empty()))
    } else {
        character_key_event(key_event)
    }
}

/// The event of a console key record: only a key being pressed makes one.
pub fn handle_key_event(key_event: KeyEventRecord) -> (r: Option<Event>)
    ensures
        r == (if key_event.key_down {
            match spec_parse_key_event_record(key_event) {
                Some(e) => Some(Event::Key(e)),
                None => None,
            }
        } else {
            None
        }),
{
    if key_event.key_down {
        if let Some(event) = parse_key_event_record(&key_event) {
            return Some(Event::Key(event));
        }
    }
    None
}

/// The virtual key codes that are read as keys of their own rather than as
/// the character they give.
pub open spec fn is_named_key(vk: u16) -> bool {
    ||| vk == VK_SHIFT || vk == VK_CONTROL || vk == VK_MENU
    ||| vk == VK_BACK || vk == VK_ESCAPE || vk == VK_RETURN
    ||| VK_F1 <= vk <= VK_F24
    ||| vk == VK_LEFT || vk == VK_UP || vk == VK_RIGHT || vk == VK_DOWN
    ||| vk == VK_PRIOR || vk == VK_NEXT || vk == VK_HOME || vk == VK_END
    ||| vk == VK_DELETE || vk == VK_INSERT
}

/// Control with a letter, or with 4 to 7, gives the same key event from a
/// console key record as from the control byte that a Unix terminal sends for
/// it; the bytes that a Unix terminal reads as Tab (9) and Enter (10 and 13)
/// are left out.
pub proof fn lemma_control_keys_agree(k: KeyEventRecord, more: bool)
    requires
        !is_named_key(k.virtual_key_code),
        1 <= k.u_char <= 26 || 28 <= k.u_char <= 31,
        k.u_char != 9 && k.u_char != 10 && k.u_char != 13,
        k.control_key_state.spec_has_state(LEFT_CTRL_PRESSED | RIGHT_CTRL_PRESSED),
        !k.control_key_state.spec_has_state(LEFT_ALT_PRESSED | RIGHT_ALT_PRESSED),
    ensures
        spec_parse_key_event_record(k) matches Some(e) && spec_parse_event(
            seq![k.u_char as u8],
            more,
        ) == Ok::<_, ParseError>(Some(InternalEvent::Event(Event::Key(e)))),
{
}

// ---------------------------------------------------------------------------
// Mouse
// ---------------------------------------------------------------------------

/// The row of a position counted from the top of the window rather than from
/// the top of the screen buffer, given the buffer row of the window's top.
pub fn parse_relative_y(y: i16, window_top: i16) -> (r: i16)
    requires
        i16::MIN <= y - window_top <= i16::MAX,
    ensures
        r == y - window_top,
{
    y - window_top
}

/// The mouse event of a console mouse record at column `x` and row `y` (both
/// counted in the window). Double clicks and horizontal wheel moves give none,
/// as do moves with no button held and presses of the other buttons.
pub open spec fn spec_mouse_event(event: MouseEventRecord, x: u16, y: u16) -> Option<MouseEvent> {
    match event.event_flags {
        EventFlags::PressOrRelease => match event.button_state {
            ButtonState::Release => Some(MouseEvent::Release(x, y)),
            ButtonState::FromLeft1stButtonPressed => Some(MouseEvent::Press(MouseButton::Left, x, y)),
            ButtonState::RightmostButtonPressed => Some(MouseEvent::Press(MouseButton::Right, x, y)),
            ButtonState::FromLeft2ndButtonPressed => Some(
                MouseEvent::Press(MouseButton::Middle, x, y),
            ),
            _ => None,
        },
        EventFlags::MouseMoved => if event.button_state != ButtonState::Release {
            Some(MouseEvent::Hold(x, y))
        } else {
            None
        },
        EventFlags::MouseWheeled => if event.button_state != ButtonState::Negative {
            Some(MouseEvent::Press(MouseButton::WheelUp, x, y))
        } else {
            Some(MouseEvent::Press(MouseButton::WheelDown, x, y))
        },
        EventFlags::DoubleClick => None,
        EventFlags::MouseHwheeled => None,
    }
}

/// Translates a console mouse record into a mouse event, given the buffer
/// row of the window's top. The column is taken as it is and the row made
/// relative to the window, both read as unsigned.
pub fn parse_mouse_event_record(event: &MouseEventRecord, window_top: i16) -> (r: Option<
    MouseEvent,
>)
    requires
        i16::MIN <= event.mouse_position.y - window_top <= i16::MAX,
    ensures
        r == spec_mouse_event(
            *event,
            event.mouse_position.x as u16,
            (event.mouse_position.y - window_top) as i16 as u16,
        ),
{
    let xpos = event.mouse_position.x as u16;
    let ypos = parse_relative_y(event.mouse_position.y, window_top) as u16;
    match event.event_flags {
        EventFlags::PressOrRelease => {
            // A single click.
            match event.button_state {
                ButtonState::Release => Some(MouseEvent::Release(xpos, ypos)),
                ButtonState::FromLeft1stButtonPressed => Some(
                    MouseEvent::Press(MouseButton::Left, xpos, ypos),
                ),
                ButtonState::RightmostButtonPressed => Some(
                    MouseEvent::Press(MouseButton::Right, xpos, ypos),
                ),
                ButtonState::FromLeft2ndButtonPressed => Some(
                    MouseEvent::Press(MouseButton::Middle, xpos, ypos),
                ),
                _ => None,
            }
        },
        EventFlags::MouseMoved => {
            // A move counts only while a button is held.
            if event.button_state != ButtonState::Release {
                Some(MouseEvent::Hold(xpos, ypos))
            } else {
                None
            }
        },
        EventFlags::MouseWheeled => {
            // A negative button state is the wheel turned toward the user.
            if event.button_state != ButtonState::Negative {
                Some(MouseEvent::Press(MouseButton::WheelUp, xpos, ypos))
            } else {
                Some(MouseEvent::Press(MouseButton::WheelDown, xpos, ypos))
            }
        },
        EventFlags::DoubleClick => None,
        EventFlags::MouseHwheeled => None,
    }
}

/// The event of a console mouse record, given the buffer row of the window's
/// top, or `None` where it could not be read: then there is no event.
pub fn handle_mouse_event(mouse_event: MouseEventRecord, window_top: Option<i16>) -> (r: Option<
    Event,
>)
    requires
        window_top matches Some(top) ==> i16::MIN <= mouse_event.mouse_position.y - top
            <= i16::MAX,
    ensures
        r == match window_top {
            Some(top) => match spec_mouse_event(
                mouse_event,
                mouse_event.mouse_position.x as u16,
                (mouse_event.mouse_position.y - top) as i16 as u16,
            ) {
                Some(m) => Some(Event::Mouse(m)),
                None => None,
            },
            None => None,
        },
{
    if let Some(top) = window_top {
        if let Some(event) = parse_mouse_event_record(&mouse_event, top) {
            return Some(Event::Mouse(event));
        }
    }
    None
}

// ---------------------------------------------------------------------------
// Console mode
// ---------------------------------------------------------------------------

/// The kept console mode after keeping `mode`: the first mode kept stays.
pub open spec fn mode_after_keeping(kept: Option<u32>, mode: u32) -> Option<u32> {
    if kept is None {
        Some(mode)
    } else {
        kept
    }
}

/// Keeps the console mode found when mouse capture is first enabled; a mode
/// already kept stays.
pub fn init_original_console_mode(kept: &mut Option<u32>, original_mode: u32)
    ensures
        *final(kept) == mode_after_keeping(*old(kept), original_mode),
{
    if kept.is_none() {
        *kept = Some(original_mode);
    }
}

/// The console mode kept by `init_original_console_mode`; it must have been
/// kept before.
pub fn original_console_mode(kept: &Option<u32>) -> (mode: u32)
    requires
        kept is Some,
    ensures
        Some(mode) == *kept,
{
    kept.unwrap()
}

/// The console mode is kept once: after it has been kept, keeping another
/// mode changes nothing, and the mode read back is the one kept first.
pub proof fn lemma_console_mode_kept_once(kept: Option<u32>, first: u32, second: u32)
    ensures
        mode_after_keeping(mode_after_keeping(kept, first), second) == mode_after_keeping(
            kept,
            first,
        ),
        kept is None ==> mode_after_keeping(kept, first) == Some(first),
        kept matches Some(m) ==> mode_after_keeping(kept, first) == Some(m),
{
}

// ---------------------------------------------------------------------------
// Waiting for console input
// ---------------------------------------------------------------------------

/// `WaitForMultipleObjects`: the first handle was signalled.
pub const WAIT_OBJECT_0: u32 = 0;
/// `WaitForMultipleObjects`: the first handle was abandoned.
pub const WAIT_ABANDONED_0: u32 = 0x80;
/// `WaitForMultipleObjects`: the wait timed out.
pub const WAIT_TIMEOUT: u32 = 258;
/// `WaitForMultipleObjects`: the wait failed.
pub const WAIT_FAILED: u32 = 0xFFFF_FFFF;
/// A wait with no time limit.
pub const INFINITE: u32 = 0xFFFF_FFFF;

/// Why a wait for console input gave no answer.
#[derive(Debug, Clone, Copy, PartialEq, Eq, Hash, Structural)]
pub enum WaitError {
    /// The wait failed; the operating system holds the reason.
    Failed,
    /// The wait returned a value it is not documented to return.
    Unexpected,
}

/// The time limit of a wait, in milliseconds: the limit truncated to 32
/// bits, or no limit.
pub fn wait_millis(timeout_millis: Option<u128>) -> (r: u32)
    ensures
        r == match timeout_millis {
            Some(ms) => (ms % 0x1_0000_0000) as u32,
            None => INFINITE,
        },
{
    match timeout_millis {
        Some(ms) => (ms % 0x1_0000_0000) as u32,
        None => INFINITE,
    }
}

/// What a wait on the console input handle (first) and the cancelling
/// semaphore (second) answered: input is ready (`Some(true)`); the wait was
/// cancelled, timed out or found a handle abandoned (`None`); or it failed.
pub fn wait_outcome(output: u32) -> (r: Result<Option<bool>, WaitError>)
    ensures
        r == (if output == WAIT_OBJECT_0 {
            Ok(Some(true))
        } else if output == WAIT_OBJECT_0 + 1 || output == WAIT_TIMEOUT || output
            == WAIT_ABANDONED_0 {
            Ok(None)
        } else if output == WAIT_FAILED {
            Err(WaitError::Failed)
        } else {
            Err(WaitError::Unexpected)
        }),
{
    if output == WAIT_OBJECT_0 {
        // The input handle was signalled.
        Ok(Some(true))
    } else if output == WAIT_OBJECT_0 + 1 {
        // The semaphore was released: the poll was cancelled.
        Ok(None)
    } else if output == WAIT_TIMEOUT || output == WAIT_ABANDONED_0 {
        Ok(None)
    } else if output == WAIT_FAILED {
        Err(WaitError::Failed)
    } else {
        Err(WaitError::Unexpected)
    }
}

// ---------------------------------------------------------------------------
// Laws on console records
// ---------------------------------------------------------------------------

/// A character key pressed with neither alt nor control held gives that
/// character (the code unit read as a byte) with no modifier, whatever the
/// other state flags (shift, the locks, the enhanced-key flag); Tab is the one
/// character read as a key of its own.
pub proof fn lemma_plain_character_keys(k: KeyEventRecord)
    requires
        !is_named_key(k.virtual_key_code),
        k.u_char < 255,
        k.u_char != 9,
        !k.control_key_state.spec_has_state(LEFT_ALT_PRESSED | RIGHT_ALT_PRESSED),
        !k.control_key_state.spec_has_state(LEFT_CTRL_PRESSED | RIGHT_CTRL_PRESSED),
    ensures
        spec_parse_key_event_record(k) == Some(
            KeyEvent { code: KeyCode::Char((k.u_char as u8) as char), modifiers: KeyModifiers { bits: 0 } },
        ),
{
}

/// A code unit of 255 or more gives no key event for a character key.
pub proof fn lemma_wide_character_keys(k: KeyEventRecord)
    requires
        !is_named_key(k.virtual_key_code),
        k.u_char >= 255,
    ensures
        spec_parse_key_event_record(k) is None,
{
}

/// The function keys F1 to F24 give the function key of their number, with
/// no modifier, whatever else the record holds.
pub proof fn lemma_function_key_records(k: KeyEventRecord)
    requires
        VK_F1 <= k.virtual_key_code <= VK_F24,
    ensures
        spec_parse_key_event_record(k) == Some(
            KeyEvent {
                code: KeyCode::F((k.virtual_key_code - VK_F1 + 1) as u8),
                modifiers: KeyModifiers { bits: 0 },
            },
        ),
{
}

/// A mouse move with any button held (any button state but a release) is a
/// hold at the record's column and row; a move with no button held gives
/// nothing.
pub proof fn lemma_mouse_moves(event: MouseEventRecord, x: u16, y: u16)
    requires
        event.event_flags == EventFlags::MouseMoved,
    ensures
        event.button_state != ButtonState::Release ==> spec_mouse_event(event, x, y) == Some(
            MouseEvent::Hold(x, y),
        ),
        event.button_state == ButtonState::Release ==> spec_mouse_event(event, x, y) is None,
{
}

/// A turn of the wheel is a press of wheel-down when the button state is
/// negative (toward the user), of wheel-up otherwise.
pub proof fn lemma_mouse_wheel(event: MouseEventRecord, x: u16, y: u16)
    requires
        event.event_flags == EventFlags::MouseWheeled,
    ensures
        spec_mouse_event(event, x, y) == Some(
            MouseEvent::Press(
                if event.button_state == ButtonState::Negative {
                    MouseButton::WheelDown
                } else {
                    MouseButton::WheelUp
                },
                x,
                y,
            ),
        ),
{
}

/// A press or release: the left, right and middle buttons (leftmost,
/// rightmost, second from left) press their button, a release state is a
/// release, the other buttons give nothing; double clicks and horizontal
/// wheel turns give nothing.
pub proof fn lemma_mouse_clicks(event: MouseEventRecord, x: u16, y: u16)
    ensures
        event.event_flags == EventFlags::PressOrRelease ==> spec_mouse_event(event, x, y) == (
        if event.button_state == ButtonState::Release {
            Some(MouseEvent::Release(x, y))
        } else if event.button_state == ButtonState::FromLeft1stButtonPressed {
            Some(MouseEvent::Press(MouseButton::Left, x, y))
        } else if event.button_state == ButtonState::RightmostButtonPressed {
            Some(MouseEvent::Press(MouseButton::Right, x, y))
        } else if event.button_state == ButtonState::FromLeft2ndButtonPressed {
            Some(MouseEvent::Press(MouseButton::Middle, x, y))
        } else {
            None
        }),
        event.event_flags == EventFlags::DoubleClick ==> spec_mouse_event(event, x, y) is None,
        event.event_flags == EventFlags::MouseHwheeled ==> spec_mouse_event(event, x, y) is None,
{
}

} // verus!

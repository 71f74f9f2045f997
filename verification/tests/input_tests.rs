use std::io;
use std::sync::mpsc;

use crossterm::input::{
    input, store_received, AsyncReader, InputEvent, KeyEvent, MouseButton, MouseEvent, ReadStep,
};
use crossterm::Crossterm;

#[test]
fn read_takes_what_has_arrived() {
    let (tx, rx) = mpsc::channel();
    let mut reader = AsyncReader::new(rx);
    tx.send(Ok(b'h')).unwrap();
    tx.send(Ok(b'i')).unwrap();
    let mut buf = [0u8; 4];
    assert_eq!(reader.read(&mut buf).unwrap(), 2);
    assert_eq!(buf, [b'h', b'i', 0, 0]);
    assert_eq!(reader.read(&mut buf).unwrap(), 0);
}

#[test]
fn read_stops_when_the_buffer_is_full() {
    let (tx, rx) = mpsc::channel();
    let mut reader = AsyncReader::new(rx);
    for b in b"abcde" {
        tx.send(Ok(*b)).unwrap();
    }
    let mut buf = [0u8; 3];
    assert_eq!(reader.read(&mut buf).unwrap(), 3);
    assert_eq!(&buf, b"abc");
    assert_eq!(reader.read(&mut buf).unwrap(), 2);
    assert_eq!(&buf, b"dec");
}

#[test]
fn read_into_empty_buffer_reads_nothing() {
    let (tx, rx) = mpsc::channel();
    let mut reader = AsyncReader::new(rx);
    tx.send(Ok(b'x')).unwrap();
    let mut buf: [u8; 0] = [];
    assert_eq!(reader.read(&mut buf).unwrap(), 0);
    let mut one = [0u8; 1];
    assert_eq!(reader.read(&mut one).unwrap(), 1);
    assert_eq!(one, [b'x']);
}

#[test]
fn read_passes_on_an_error() {
    let (tx, rx) = mpsc::channel();
    let mut reader = AsyncReader::new(rx);
    tx.send(Ok(b'a')).unwrap();
    tx.send(Err(io::Error::new(io::ErrorKind::Other, "broken"))).unwrap();
    tx.send(Ok(b'b')).unwrap();
    let mut buf = [0u8; 4];
    let err = reader.read(&mut buf).unwrap_err();
    assert_eq!(err.kind(), io::ErrorKind::Other);
    assert_eq!(buf[0], b'a');
    assert_eq!(reader.read(&mut buf).unwrap(), 1);
    assert_eq!(buf[0], b'b');
}

#[test]
fn read_after_sender_is_gone() {
    let (tx, rx) = mpsc::channel();
    let mut reader = AsyncReader::new(rx);
    tx.send(Ok(b'z')).unwrap();
    drop(tx);
    let mut buf = [0u8; 2];
    assert_eq!(reader.read(&mut buf).unwrap(), 1);
    assert_eq!(reader.read(&mut buf).unwrap(), 0);
}

#[test]
fn input_event_values() {
    let e = InputEvent::Keyboard(KeyEvent::Ctrl('c'));
    assert_eq!(e.clone(), InputEvent::Keyboard(KeyEvent::Ctrl('c')));
    assert_ne!(
        InputEvent::Mouse(MouseEvent::Press(MouseButton::Left, 1, 2)),
        InputEvent::Mouse(MouseEvent::Release(1, 2))
    );
    assert_eq!(InputEvent::Unsupported(vec![1, 2]), InputEvent::Unsupported(vec![1, 2]));
    assert_ne!(InputEvent::Unknown, InputEvent::Keyboard(KeyEvent::Esc));
}

#[test]
fn crossterm_hands_out_input() {
    let crossterm = Crossterm::new();
    let _input = crossterm.input();
    let _other = input();
}

#[test]
fn store_received_handles_each_value() {
    let mut buf = [0u8; 3];
    assert!(matches!(store_received(&mut buf, 1, Some(Ok(b'q'))), ReadStep::Stored));
    assert_eq!(buf, [0, b'q', 0]);
    assert!(matches!(store_received(&mut buf, 2, None), ReadStep::Empty));
    assert_eq!(buf, [0, b'q', 0]);
    match store_received(&mut buf, 0, Some(Err(io::Error::new(io::ErrorKind::Other, "x")))) {
        ReadStep::Failed(e) => assert_eq!(e.kind(), io::ErrorKind::Other),
        _ => panic!("expected a failure"),
    }
    assert_eq!(buf, [0, b'q', 0]);
}

#[test]
fn bytes_not_taken_stay_for_the_next_read() {
    let (tx, rx) = mpsc::channel();
    let mut reader = AsyncReader::new(rx);
    tx.send(Ok(1u8)).unwrap();
    tx.send(Ok(2)).unwrap();
    tx.send(Ok(3)).unwrap();
    let mut buf = [0u8; 2];
    assert_eq!(reader.read(&mut buf).unwrap(), 2);
    assert_eq!(buf, [1, 2]);
    let mut more = [0u8; 4];
    assert_eq!(reader.read(&mut more).unwrap(), 1);
    assert_eq!(more, [3, 0, 0, 0]);
}

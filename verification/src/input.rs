use std::io;
use std::sync::mpsc::Receiver;

use vstd::prelude::*;

verus! {

/// A mouse button.
#[derive(Debug, Clone, Copy, PartialEq, Eq, Hash, Structural)]
pub enum MouseButton {
    Left,
    Right,
    Middle,
    WheelUp,
    WheelDown,
}

/// A mouse event, with the column and the row of the cursor.
#[derive(Debug, Clone, Copy, PartialEq, Eq, Hash, Structural)]
pub enum MouseEvent {
    Press(MouseButton, u16, u16),
    Release(u16, u16),
    Hold(u16, u16),
}

/// A key event as delivered by the byte-oriented input reader.
#[derive(Debug, Clone, Copy, PartialEq, Eq, Hash, Structural)]
pub enum KeyEvent {
    Backspace,
    Left,
    Right,
    Up,
    Down,
    Home,
    End,
    PageUp,
    PageDown,
    Delete,
    Insert,
    F(u8),
    Char(char),
    Alt(char),
    Ctrl(char),
    Null,
    Esc,
}

/// An input event: a key, a mouse event, a sequence that is recognised but not
/// supported, or an unknown one.
#[derive(Debug, Clone, PartialEq, Eq, Hash)]
pub enum InputEvent {
    Keyboard(KeyEvent),
    Mouse(MouseEvent),
    Unsupported(Vec<u8>),
    Unknown,
}

#[verifier::external_type_specification]
#[verifier::external_body]
#[verifier::reject_recursive_types(T)]
pub struct ExReceiver<T>(Receiver<T>);

#[verifier::external_type_specification]
#[verifier::external_body]
pub struct ExIoError(io::Error);

/// What one value taken from the channel made a read do.
pub enum ReadStep {
    /// A byte was stored.
    Stored,
    /// Nothing was waiting.
    Empty,
    /// An error was sent in place of a byte.
    Failed(io::Error),
}

/// Handles one value taken from the channel during a read: a byte is stored
/// at `buf[total]`; an error, or nothing waiting, leaves `buf` as it was.
pub fn store_received(buf: &mut [u8], total: usize, received: Option<io::Result<u8>>) -> (s: ReadStep)
    requires
        total < old(buf)@.len(),
    ensures
        match received {
            Some(Ok(v)) => s is Stored && final(buf)@ == old(buf)@.update(total as int, v),
            Some(Err(e)) => s == ReadStep::Failed(e) && final(buf)@ == old(buf)@,
            None => s is Empty && final(buf)@ == old(buf)@,
        },
{
    match received {
        Some(Ok(value)) => {
            buf[total] = value;
            ReadStep::Stored
        },
        Some(Err(e)) => ReadStep::Failed(e),
        None => ReadStep::Empty,
    }
}

/// What one attempt to receive from the channel gave: a byte, an error sent
/// in place of one, or nothing waiting (`None`).
pub type Received = Option<io::Result<u8>>;

/// The values taken so far from the channel of a receiver, in the order
/// taken, with the `None` of each attempt that found nothing waiting.
pub uninterp spec fn channel_taken(recv: Receiver<io::Result<u8>>) -> Seq<Received>;

/// Calls `Receiver::try_recv`: the next value sent, if one is already
/// waiting, else `None` (nothing waiting, or every sender gone). Which of
/// these comes back depends on the sending thread; what is stated is only
/// that the value returned is the one taken from the channel, recorded after
/// those taken before.
#[verifier::external_body]
fn try_recv(recv: &mut Receiver<io::Result<u8>>) -> (r: Option<io::Result<u8>>)
    ensures
        channel_taken(*final(recv)) == channel_taken(*old(recv)).push(r),
{
    match recv.try_recv() {
        Ok(v) => Some(v),
        Err(_) => None,
    }
}

/// Whether every value of `t` is a byte.
pub open spec fn all_bytes(t: Seq<Received>) -> bool {
    forall|i: int| 0 <= i < t.len() ==> (#[trigger] t[i] matches Some(Ok(_)))
}

/// The byte of a value received, where it is one.
pub open spec fn byte_of(x: Received) -> u8 {
    match x {
        Some(Ok(v)) => v,
        _ => 0,
    }
}

/// The bytes of a sequence of values received.
pub open spec fn bytes_of(t: Seq<Received>) -> Seq<u8> {
    t.map_values(|x: Received| byte_of(x))
}

/// The values `t` taken from the channel by one read into a buffer of `len`
/// bytes that returned `r`: values are taken while the buffer has room and
/// each one is a byte; the read ends when the buffer is full (every value a
/// byte), when nothing is waiting (the last value `None`), or on an error
/// (the last value that error, which is returned).
pub open spec fn read_took(t: Seq<Received>, len: nat, r: io::Result<usize>) -> bool {
    match r {
        Ok(n) => if n == len {
            t.len() == n && all_bytes(t)
        } else {
            n < len && t.len() == n + 1 && all_bytes(t.take(n as int)) && t[n as int] is None
        },
        Err(e) => {
            &&& 1 <= t.len() <= len
            &&& all_bytes(t.take(t.len() - 1))
            &&& t[t.len() - 1] == Some(Err::<u8, io::Error>(e))
        },
    }
}

/// The number of bytes a read stored: all values taken but the last one when
/// it was not a byte.
pub open spec fn stored_count(t: Seq<Received>) -> int {
    if t.len() > 0 && !(t[t.len() - 1] matches Some(Ok(_))) {
        t.len() - 1
    } else {
        t.len() as int
    }
}

/// Reads input sent by another thread without blocking: that thread sends
/// each byte typed (or the error met) over a channel, and reading takes
/// whatever has arrived.
pub struct AsyncReader {
    recv: Receiver<io::Result<u8>>,
}

impl AsyncReader {
    /// The values taken so far from the channel that this reader reads, in
    /// the order taken, the `None` of each attempt that found nothing included.
    pub closed spec fn taken(&self) -> Seq<Received> {
        channel_taken(self.recv)
    }

    /// A reader of the values sent over the channel of `recv`.
    pub fn new(recv: Receiver<io::Result<u8>>) -> (r: AsyncReader)
        ensures
            r.taken() == channel_taken(recv),
    {
        AsyncReader { recv }
    }

    /// Reads the bytes that have arrived into `buf`, from its start, until
    /// `buf` is full or no byte is waiting, and returns their number; never
    /// blocks. An error sent in place of a byte ends the read with that error;
    /// the bytes stored before it stay in `buf`. Values are taken from the
    /// channel one at a time, and only as many as the read uses: those not
    /// taken stay waiting for the next read.
    pub fn read(&mut self, buf: &mut [u8]) -> (r: io::Result<usize>)
        ensures
            final(self).taken().len() >= old(self).taken().len(),
            final(self).taken().take(old(self).taken().len() as int) == old(self).taken(),
            ({
                let t = final(self).taken().skip(old(self).taken().len() as int);
                let k = stored_count(t);
                &&& read_took(t, old(buf)@.len(), r)
                &&& final(buf)@ == bytes_of(t.take(k)) + old(buf)@.skip(k)
                &&& r matches Ok(n) ==> n == k
            }),
            old(buf)@.len() == 0 ==> (r matches Ok(n) && n == 0),
    {
        let ghost start = self.taken();
        let len = buf.len();
        let mut total: usize = 0;
        loop
            invariant_except_break
                self.taken().len() == start.len() + total,
                all_bytes(self.taken().skip(start.len() as int)),
                buf@ == bytes_of(self.taken().skip(start.len() as int)) + old(buf)@.skip(
                    total as int,
                ),
            invariant
                len == buf@.len(),
                len == old(buf)@.len(),
                total <= len,
                start == old(self).taken(),
                self.taken().len() >= start.len(),
                self.taken().take(start.len() as int) == start,
            ensures
                len == buf@.len(),
                start == old(self).taken(),
                self.taken().len() >= start.len(),
                self.taken().take(start.len() as int) == start,
                ({
                    let t = self.taken().skip(start.len() as int);
                    &&& read_took(t, len as nat, Ok(total))
                    &&& total == stored_count(t)
                    &&& buf@ == bytes_of(t.take(total as int)) + old(buf)@.skip(total as int)
                }),
            decreases len - total,
        {
            let ghost t0 = self.taken().skip(start.len() as int);
            if total >= len {
                proof {
                    assert(t0.take(total as int) =~= t0);
                    if t0.len() > 0 {
                        assert(t0[t0.len() - 1] matches Some(Ok(_)));
                    }
                }
                break;
            }
            let received = try_recv(&mut self.recv);
            let ghost t1 = self.taken().skip(start.len() as int);
            proof {
                assert(t1 =~= t0.push(received));
                assert(t1.take(total as int) =~= t0);
                assert(self.taken().take(start.len() as int) =~= start);
            }
            let ghost before = buf@;
            match store_received(buf, total, received) {
                ReadStep::Stored => {
                    proof {
                        assert(all_bytes(t1));
                        assert(bytes_of(t1) =~= bytes_of(t0).push(buf@[total as int]));
                        assert(buf@ =~= bytes_of(t1) + old(buf)@.skip(total + 1));
                    }
                    total = total + 1;
                },
                ReadStep::Failed(e) => {
                    proof {
                        assert(buf@ =~= bytes_of(t1.take(total as int)) + old(buf)@.skip(
                            total as int,
                        ));
                        assert(final(self).taken().skip(old(self).taken().len() as int) == t1);
                    }
                    return Err(e);
                },
                ReadStep::Empty => {
                    proof {
                        assert(buf@ =~= bytes_of(t1.take(total as int)) + old(buf)@.skip(
                            total as int,
                        ));
                    }
                    break;
                },
            }
        }
        Ok(total)
    }
}

/// Reads input from the terminal. The reading itself is the platform's part;
/// this handle holds no state of its own.
pub struct TerminalInput {}

impl TerminalInput {
    /// A handle for reading terminal input.
    pub fn new() -> (t: TerminalInput)
        ensures
            t == (TerminalInput {}),
    {
        TerminalInput {}
    }
}

/// A handle for reading terminal input.
pub fn input() -> (t: TerminalInput)
    ensures
        t == (TerminalInput {}),
{
    TerminalInput::new()
}

} // verus!

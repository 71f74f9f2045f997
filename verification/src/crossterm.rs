use vstd::prelude::*;

use crate::input::TerminalInput;

verus! {

/// A wrapper that hands out the terminal's functionality.
pub struct Crossterm;

impl Crossterm {
    /// Creates a new `Crossterm`.
    pub fn new() -> (c: Crossterm)
        ensures
            c == Crossterm,
    {
        Crossterm
    }

    /// Creates a new `TerminalInput`.
    pub fn input(&self) -> (t: TerminalInput)
        ensures
            t == (TerminalInput {}),
    {
        TerminalInput::new()
    }
}

} // verus!

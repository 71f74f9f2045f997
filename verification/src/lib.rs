//! Terminal input handling: the event types, the escape-sequence parser that
//! turns raw terminal bytes into events, the buffering parser of the Unix event
//! source, the conversion of Windows console records into events and the non-blocking reader
//! of asynchronous input.

pub mod crossterm;
pub mod event;
pub mod input;
pub mod parse;
pub mod unix_source;
pub mod windows;

pub use crate::crossterm::Crossterm;

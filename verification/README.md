# crossterm input

Terminal input handling, verified with Verus.

- `src/event.rs`: the event types (`Event`, `KeyEvent`, `KeyCode`, `KeyModifiers`,
  `InternalEvent`).
- `src/input.rs`: the byte-oriented input types (`InputEvent`, `KeyEvent`,
  `MouseEvent`, `MouseButton`), the non-blocking `AsyncReader` and `TerminalInput`.
- `src/parse.rs`: the escape-sequence grammar as spec functions and the parser
  (`parse_event`) proved to follow it, with its laws.
- `src/unix_source.rs`: the buffering `Parser` of the Unix event source and the
  decisions taken for each ready handle, with their laws.
- `src/windows.rs`: Windows console key and mouse records turned into events, the
  kept console mode, and the outcome of waiting for console input.
- `src/crossterm.rs`: the `Crossterm` entry point.
- `app/`: the I/O around the library (mio polling, signals, reading the terminal,
  the Windows console calls).

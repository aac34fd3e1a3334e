# hex_forge

A terminal hex editor's core, verified with Verus: an editor that shows a
read-only memory map of a file with an overlay of modified bytes, decoders for
ELF, GGUF, PE and PNG headers, and the editing session (cursor, scrolling, hex
and ASCII input, goto, search with find-next, selection and copy) driven by key
presses.

Layout:

- `src/mapped.rs` – the file mapping (`memmap2::Mmap`) as the library sees it.
- `src/editor.rs` – the overlay editor: reads, writes, search, and the two
  steps of saving.
- `src/header.rs` – header decoding into named fields.
- `src/app.rs` – the editing session and its reaction to keys, specified as
  functions on an abstract state (`AppView`).
- `src/ui.rs` – what the screen shows (info bar, hex view cells, status line).
- `src/text.rs`, `src/chars.rs`, `src/size.rs` – number and size formatting,
  trimming, and number parsing.
- `app/` – the terminal program: command line, file I/O, mapping, drawing with
  ratatui and the event loop.

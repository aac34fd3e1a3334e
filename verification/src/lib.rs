//! A hex editor's core: a byte overlay over a read-only file mapping, binary
//! header decoding, and the editing state machine driven by key presses.

pub mod app;
pub mod chars;
pub mod editor;
pub mod header;
pub mod mapped;
pub mod size;
pub mod text;
pub mod ui;

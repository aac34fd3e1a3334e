//! Editing state of the hex editor: cursor and scrolling, byte input in hex
//! and ASCII, goto, search, selection and copy, and the reaction to key
//! presses.
//!
//! Every operation is specified as a function on `AppView`, the abstract
//! state; each method's result is that function applied to the state before.

use vstd::prelude::*;
use vstd::utf8::encode_utf8;
use vstd::view::View as _;

use crate::chars::all_digits;
use crate::chars::chars_of;
use crate::chars::digit_value;
use crate::chars::parse_usize;
use crate::chars::parse_usize_radix;
use crate::chars::string_from;
use crate::chars::string_pop;
use crate::chars::string_push;
use crate::chars::trim;
use crate::chars::trimmed;
use crate::editor::first_match;
use crate::editor::occurs_at;
use crate::editor::range_of;
use crate::editor::Editor;
use crate::editor::EditorState;
use crate::text::dec_chars;
use crate::text::hex_bytes;
use crate::text::hex_bytes_string;
use crate::text::hex_width;
use crate::text::push_dec;
use crate::text::push_hex;

verus! {

/// Which view fills the main area.
#[derive(Debug, Clone, Copy, PartialEq, Eq, Structural)]
pub enum View {
    Hex,
    Info,
}

/// Whether typed characters edit bytes as hex digits or as ASCII characters.
#[derive(Debug, Clone, Copy, PartialEq, Eq, Structural)]
pub enum EditMode {
    Hex,
    Ascii,
}

/// What typed keys currently feed: editing, the goto prompt, the search
/// prompt, or the quit confirmation.
#[derive(Debug, Clone, Copy, PartialEq, Eq, Structural)]
pub enum InputMode {
    Normal,
    GotoOffset,
    Search,
    QuitConfirm,
}

pub struct App {
    pub editor: Editor,
    pub cursor: usize,
    /// In lines (each line = 16 bytes).
    pub scroll_offset: usize,
    pub visible_lines: usize,
    pub view: View,
    pub edit_mode: EditMode,
    pub input_mode: InputMode,
    pub input_buf: String,
    pub modified: bool,
    pub selection_start: Option<usize>,
    pub clipboard: Option<String>,
    pub status_msg: Option<String>,
    pub search_pattern: Vec<u8>,
    pub search_query: String,
    /// For hex input: accumulates the high nibble before committing a byte.
    pub hex_nibble: Option<u8>,
    pub info_scroll: usize,
}

/// The abstract state of the editing session.
pub struct AppView {
    pub editor: EditorState,
    pub cursor: usize,
    pub scroll_offset: usize,
    pub visible_lines: usize,
    pub view: View,
    pub edit_mode: EditMode,
    pub input_mode: InputMode,
    pub input_buf: Seq<char>,
    pub modified: bool,
    pub selection_start: Option<usize>,
    pub clipboard: Option<Seq<char>>,
    pub status_msg: Option<Seq<char>>,
    pub search_pattern: Seq<u8>,
    pub search_query: Seq<char>,
    pub hex_nibble: Option<u8>,
    pub info_scroll: usize,
}

/// The text of an optional string.
pub open spec fn opt_text(s: Option<String>) -> Option<Seq<char>> {
    match s {
        Some(t) => Some(t@),
        None => None,
    }
}

impl vstd::view::View for App {
    type V = AppView;

    open spec fn view(&self) -> AppView {
        AppView {
            editor: self.editor.state(),
            cursor: self.cursor,
            scroll_offset: self.scroll_offset,
            visible_lines: self.visible_lines,
            view: self.view,
            edit_mode: self.edit_mode,
            input_mode: self.input_mode,
            input_buf: self.input_buf@,
            modified: self.modified,
            selection_start: self.selection_start,
            clipboard: opt_text(self.clipboard),
            status_msg: opt_text(self.status_msg),
            search_pattern: self.search_pattern@,
            search_query: self.search_query@,
            hex_nibble: self.hex_nibble,
            info_scroll: self.info_scroll,
        }
    }
}

/// `a - b`, or 0 when `b` exceeds `a`.
pub open spec fn sat_sub(a: int, b: int) -> int {
    if a >= b {
        a - b
    } else {
        0
    }
}

pub open spec fn min_of(a: int, b: int) -> int {
    if a <= b {
        a
    } else {
        b
    }
}

/// The digit value of a hex digit typed in hex edit mode (`0-9`, `a-f`); an
/// upper-case `A-F` has none (see `is_upper_hex_letter`).
pub open spec fn typed_nibble(c: char) -> Option<u8> {
    let u = c as u32;
    if 0x30 <= u && u <= 0x39 {
        Some((u - 0x30) as u8)
    } else if 0x61 <= u && u <= 0x66 {
        Some((u - 0x61 + 10) as u8)
    } else {
        None
    }
}

/// An upper-case `A-F`: recognised as a hex digit, but its value is computed
/// from the character as typed (less the code of `a`), which underflows.
pub open spec fn is_upper_hex_letter(c: char) -> bool {
    0x41 <= (c as u32) && (c as u32) <= 0x46
}

/// `c` is an ASCII hex digit.
pub open spec fn is_hex_digit(c: char) -> bool {
    let u = c as u32;
    (0x30 <= u && u <= 0x39) || (0x61 <= u && u <= 0x66) || (0x41 <= u && u <= 0x46)
}

/// The value of an ASCII hex digit.
pub open spec fn hex_value(c: char) -> nat {
    match digit_value(c, 16) {
        Some(d) => d,
        None => 0,
    }
}

/// The bytes written by pairs of hex digits ("DEad" is DE AD).
pub open spec fn hex_pairs(h: Seq<char>) -> Seq<u8> {
    Seq::new(h.len() / 2, |k: int| (16 * hex_value(h[2 * k]) + hex_value(h[2 * k + 1])) as u8)
}

/// `s` with its spaces removed.
pub open spec fn without_spaces(s: Seq<char>) -> Seq<char>
    decreases s.len(),
{
    if s.len() == 0 {
        s
    } else if s.last() == ' ' {
        without_spaces(s.drop_last())
    } else {
        without_spaces(s.drop_last()).push(s.last())
    }
}

/// The search string holds only hex digits, spaces aside, an even number of at
/// least two.
pub open spec fn is_hex_pattern(h: Seq<char>) -> bool {
    h.len() % 2 == 0 && (forall|i: int| 0 <= i < h.len() ==> #[trigger] is_hex_digit(h[i]))
        && h.len() >= 2
}

/// The bytes that a search string stands for: pairs of hex digits when it holds
/// only hex digits (spaces aside) in even number, else its UTF-8 bytes.
pub open spec fn search_bytes(input: Seq<char>) -> Seq<u8> {
    let h = without_spaces(input);
    if is_hex_pattern(h) {
        hex_pairs(h)
    } else {
        encode_utf8(input)
    }
}

/// The offset that a goto string stands for: hexadecimal after `0x` or `0X`,
/// otherwise decimal.
pub open spec fn goto_target(input: Seq<char>) -> Option<usize> {
    if input.len() >= 2 && input[0] == '0' && (input[1] == 'x' || input[1] == 'X') {
        parse_usize(input.skip(2), 16)
    } else {
        parse_usize(input, 10)
    }
}

/// `0xHEX`.
pub open spec fn hex_text(v: nat) -> Seq<char> {
    "0x"@ + hex_width(v, 0)
}

impl AppView {
    /// Number of bytes in the file.
    pub open spec fn size(self) -> nat {
        self.editor.size
    }

    /// The session's invariant: the cursor and the selection start are inside the
    /// file, the view never scrolls more than a line past the file's last line, and the view is at
    /// most `u16::MAX` lines high.
    pub open spec fn wf(self) -> bool {
        &&& self.cursor < self.size()
        &&& self.scroll_offset <= self.size() / 16 + 1
        &&& self.visible_lines <= u16::MAX
        &&& (self.selection_start matches Some(s) ==> s < self.size())
    }

    /// The last offset of the file.
    pub open spec fn last_offset(self) -> int {
        sat_sub(self.size() as int, 1)
    }

    pub open spec fn with_status(self, msg: Seq<char>) -> AppView {
        AppView { status_msg: Some(msg), ..self }
    }

    /// Scrolled so that the cursor's line is among the visible lines.
    pub open spec fn scrolled_to_cursor(self) -> AppView {
        let line = self.cursor / 16;
        let s1 = if line < self.scroll_offset {
            line as int
        } else {
            self.scroll_offset as int
        };
        let s2 = if line >= s1 + self.visible_lines {
            line - self.visible_lines + 1
        } else {
            s1
        };
        AppView { scroll_offset: s2 as usize, ..self }
    }

    /// The cursor moved to `pos`, scrolled into view.
    pub open spec fn at(self, pos: int) -> AppView {
        AppView { cursor: pos as usize, ..self }.scrolled_to_cursor()
    }

    pub open spec fn move_up(self) -> AppView {
        if self.cursor >= 16 {
            self.at(self.cursor - 16)
        } else {
            self.at(self.cursor as int)
        }
    }

    pub open spec fn move_down(self) -> AppView {
        if self.cursor + 16 < self.size() {
            self.at(self.cursor + 16)
        } else {
            self.at(self.last_offset())
        }
    }

    pub open spec fn move_left(self) -> AppView {
        if self.cursor > 0 {
            self.at(self.cursor - 1)
        } else {
            self.at(self.cursor as int)
        }
    }

    pub open spec fn move_right(self) -> AppView {
        if self.cursor + 1 < self.size() {
            self.at(self.cursor + 1)
        } else {
            self.at(self.cursor as int)
        }
    }

    /// A page: one line less than the view, in bytes.
    pub open spec fn page(self) -> int {
        sat_sub(self.visible_lines as int, 1) * 16
    }

    pub open spec fn page_up(self) -> AppView {
        AppView {
            cursor: sat_sub(self.cursor as int, self.page()) as usize,
            scroll_offset: sat_sub(
                self.scroll_offset as int,
                sat_sub(self.visible_lines as int, 1),
            ) as usize,
            ..self
        }.scrolled_to_cursor()
    }

    pub open spec fn page_down(self) -> AppView {
        self.at(min_of(self.cursor + self.page(), self.last_offset()))
    }

    /// The cursor after a byte was typed: one further, unless at the last byte.
    pub open spec fn advanced(self) -> AppView {
        if self.cursor + 1 < self.size() {
            self.at(self.cursor + 1)
        } else {
            self.at(self.cursor as int)
        }
    }

    /// A byte written at the cursor.
    pub open spec fn typed_byte(self, byte: u8) -> AppView {
        AppView {
            editor: self.editor.write(self.cursor, byte),
            modified: true,
            hex_nibble: None,
            ..self
        }.advanced()
    }

    /// A hex digit typed: the first digit of a byte is held; the second completes
    /// the byte (held digit high, this digit low), which is written at the cursor.
    pub open spec fn input_hex_digit(self, c: char) -> AppView {
        if self.editor.readonly {
            self.with_status("Read-only mode"@)
        } else {
            match typed_nibble(c) {
                None => self,
                Some(nibble) => match self.hex_nibble {
                    Some(high) => self.typed_byte(((high << 4u8) | nibble) as u8),
                    None => AppView { hex_nibble: Some(nibble), ..self },
                },
            }
        }
    }

    /// An ASCII character typed: its code (low 8 bits) is written at the cursor.
    pub open spec fn input_ascii_char(self, c: char) -> AppView {
        if self.editor.readonly {
            self.with_status("Read-only mode"@)
        } else {
            AppView {
                editor: self.editor.write(self.cursor, (c as u32) as u8),
                modified: true,
                ..self
            }.advanced()
        }
    }

    pub open spec fn saved(self) -> AppView {
        AppView { modified: false, ..self }.with_status("Saved"@)
    }

    pub open spec fn save_failed(self, reason: Seq<char>) -> AppView {
        self.with_status("Save failed: "@ + reason)
    }

    /// The goto prompt submitted: the cursor jumps to the offset typed, if it is
    /// inside the file; the prompt is emptied.
    pub open spec fn execute_goto(self) -> AppView {
        let next = match goto_target(trim(self.input_buf)) {
            Some(off) => if off < self.size() {
                self.at(off as int).with_status("Jumped to "@ + hex_text(off as nat))
            } else {
                self.with_status("Offset "@ + hex_text(off as nat) + " is beyond file size"@)
            },
            None => self.with_status("Invalid offset"@),
        };
        AppView { input_buf: Seq::empty(), ..next }
    }

    /// The cursor moved to a search hit found from the cursor on (`wrapped` when
    /// found from the start instead).
    pub open spec fn found(self, pos: int, wrapped: bool) -> AppView {
        self.at(pos).with_status(
            if wrapped {
                "Found at "@ + hex_text(pos as nat) + " (wrapped)"@
            } else {
                "Found at "@ + hex_text(pos as nat)
            },
        )
    }

    /// The search prompt submitted: the first match at or after the cursor, else
    /// the first match from the start of the file; the prompt is emptied.
    pub open spec fn execute_search(self) -> AppView {
        let input = trim(self.input_buf);
        let cleared = AppView { input_buf: Seq::empty(), ..self };
        if input.len() == 0 {
            cleared.with_status("Empty search"@)
        } else {
            let pattern = search_bytes(input);
            if pattern.len() == 0 {
                cleared.with_status("Invalid search pattern"@)
            } else {
                let s = AppView { search_query: input, search_pattern: pattern, ..cleared };
                match first_match(self.editor.shown(), pattern, self.cursor as int) {
                    Some(pos) => s.found(pos, false),
                    None => match first_match(self.editor.shown(), pattern, 0) {
                        Some(pos) => s.found(pos, true),
                        None => s.with_status("Pattern not found"@),
                    },
                }
            }
        }
    }

    /// The next match after the cursor, else the first match from the start of the
    /// file if it lies at or before the cursor.
    pub open spec fn find_next(self) -> AppView {
        if self.search_pattern.len() == 0 {
            self.with_status("No previous search"@)
        } else {
            match first_match(self.editor.shown(), self.search_pattern, self.cursor + 1) {
                Some(pos) => self.found(pos, false),
                None => match first_match(self.editor.shown(), self.search_pattern, 0) {
                    Some(pos) => if pos <= self.cursor {
                        self.found(pos, true)
                    } else {
                        self.with_status("No more matches"@)
                    },
                    None => self.with_status("No more matches"@),
                },
            }
        }
    }

    /// The selected offsets, lowest and highest, when a selection is started.
    pub open spec fn selection_range(self) -> Option<(usize, usize)> {
        match self.selection_start {
            Some(start) => Some(
                if start <= self.cursor {
                    (start, self.cursor)
                } else {
                    (self.cursor, start)
                },
            ),
            None => None,
        }
    }

    /// The selected bytes copied, as hex text, to the clipboard; the selection ends.
    pub open spec fn copy_selection(self) -> AppView {
        match self.selection_range() {
            Some((lo, hi)) => {
                let count = hi - lo + 1;
                AppView {
                    clipboard: Some(hex_bytes(range_of(self.editor.shown(), lo as int, count))),
                    selection_start: None,
                    ..self
                }.with_status("Copied "@ + dec_chars(count as nat) + " bytes to clipboard"@)
            },
            None => self,
        }
    }
}

/// A key as the editor sees it.
#[derive(Debug, Clone, Copy, PartialEq, Eq, Structural)]
pub enum Key {
    Char(char),
    Enter,
    Esc,
    Backspace,
    Tab,
    Up,
    Down,
    Left,
    Right,
    PageUp,
    PageDown,
    Home,
    End,
    /// A function key, by number.
    F(u8),
    Other,
}

/// A key press: the key, and whether Control was held.
#[derive(Debug, Clone, Copy, PartialEq, Eq, Structural)]
pub struct KeyPress {
    pub key: Key,
    pub ctrl: bool,
}

/// What the event loop must do after a key press.
#[derive(Debug, Clone, Copy, PartialEq, Eq, Structural)]
pub enum KeyAction {
    /// Read the next key.
    Continue,
    /// Save the file, then read the next key.
    Save,
    /// Leave the editor.
    Quit,
}

/// `c` is printable ASCII (not a control character).
pub open spec fn is_printable_ascii(c: char) -> bool {
    0x20 <= (c as u32) && (c as u32) < 0x7f
}

impl AppView {
    /// A prompt opened: typing goes to the (emptied) input buffer.
    pub open spec fn prompt(self, mode: InputMode, msg: Seq<char>) -> AppView {
        AppView { input_mode: mode, input_buf: Seq::empty(), ..self }.with_status(msg)
    }

    /// A key typed into an open goto or search prompt.
    pub open spec fn prompt_key(self, k: KeyPress) -> AppView {
        match k.key {
            Key::Enter => {
                let done = if self.input_mode == InputMode::GotoOffset {
                    self.execute_goto()
                } else {
                    self.execute_search()
                };
                AppView { input_mode: InputMode::Normal, ..done }
            },
            Key::Esc => AppView { input_buf: Seq::empty(), input_mode: InputMode::Normal, ..self },
            Key::Char(c) => AppView { input_buf: self.input_buf.push(c), ..self },
            Key::Backspace => if self.input_buf.len() > 0 {
                AppView { input_buf: self.input_buf.drop_last(), ..self }
            } else {
                self
            },
            _ => self,
        }
    }

    /// The state after typing `c` in the hex view, editing in the current mode.
    pub open spec fn typed_char(self, c: char) -> AppView {
        if self.edit_mode == EditMode::Hex {
            if is_hex_digit(c) {
                self.input_hex_digit(c)
            } else {
                self
            }
        } else {
            if is_printable_ascii(c) {
                self.input_ascii_char(c)
            } else {
                self
            }
        }
    }

    /// A key pressed while no prompt is open.
    pub open spec fn normal_key(self, k: KeyPress) -> (AppView, KeyAction) {
        let cont = |v: AppView| (v, KeyAction::Continue);
        match k.key {
            Key::Char(c) => {
                if c == 'q' && k.ctrl {
                    if self.modified {
                        cont(
                            AppView { input_mode: InputMode::QuitConfirm, ..self }.with_status(
                                "Unsaved changes! Press Y to quit, any other key to cancel"@,
                            ),
                        )
                    } else {
                        (self, KeyAction::Quit)
                    }
                } else if c == 's' && k.ctrl {
                    (self, KeyAction::Save)
                } else if c == 'g' && k.ctrl {
                    cont(
                        self.prompt(
                            InputMode::GotoOffset,
                            "Goto offset (hex with 0x prefix, or decimal):"@,
                        ),
                    )
                } else if (c == 'f' && k.ctrl) || c == '/' {
                    cont(self.prompt(InputMode::Search, "Search (hex: \"FF 00\", ascii: \"text\"):"@))
                } else if c == 'n' && self.edit_mode == EditMode::Hex && self.view == View::Hex {
                    cont(self.find_next())
                } else if c == 'v' && self.edit_mode == EditMode::Hex {
                    if self.selection_start is Some {
                        cont(
                            AppView { selection_start: None, ..self }.with_status(
                                "Selection cleared"@,
                            ),
                        )
                    } else {
                        cont(
                            AppView { selection_start: Some(self.cursor), ..self }.with_status(
                                "Selection started (move cursor, 'y' to copy)"@,
                            ),
                        )
                    }
                } else if c == 'y' && self.edit_mode == EditMode::Hex && self.selection_start is Some {
                    cont(self.copy_selection())
                } else if self.view == View::Hex {
                    cont(self.typed_char(c))
                } else {
                    cont(self)
                }
            },
            Key::F(n) => if n == 1 {
                cont(
                    AppView {
                        view: if self.view == View::Hex {
                            View::Info
                        } else {
                            View::Hex
                        },
                        ..self
                    },
                )
            } else {
                cont(self)
            },
            Key::Tab => if self.edit_mode == EditMode::Hex {
                cont(AppView { edit_mode: EditMode::Ascii, ..self }.with_status("Edit mode: Ascii"@))
            } else {
                cont(AppView { edit_mode: EditMode::Hex, ..self }.with_status("Edit mode: Hex"@))
            },
            Key::Up => cont(self.move_up()),
            Key::Down => cont(self.move_down()),
            Key::Left => cont(self.move_left()),
            Key::Right => cont(self.move_right()),
            Key::PageUp => cont(self.page_up()),
            Key::PageDown => cont(self.page_down()),
            Key::Home => if k.ctrl {
                cont(self.at(0))
            } else {
                cont(self.at(self.cursor - self.cursor % 16))
            },
            Key::End => if k.ctrl {
                cont(self.at(self.last_offset()))
            } else {
                cont(self.at(min_of(self.cursor - self.cursor % 16 + 15, self.last_offset())))
            },
            Key::Esc => cont(AppView { selection_start: None, status_msg: None, ..self }),
            _ => cont(self),
        }
    }

    /// The key press types an upper-case `A-F` as a hex digit into a writable
    /// editor, whose digit value underflows.
    pub open spec fn key_overflows(self, k: KeyPress) -> bool {
        &&& self.input_mode == InputMode::Normal
        &&& self.view == View::Hex
        &&& self.edit_mode == EditMode::Hex
        &&& !self.editor.readonly
        &&& k.key matches Key::Char(c) && is_upper_hex_letter(c)
    }

    /// The reaction to a key press: the next state, and what the event loop does.
    pub open spec fn on_key(self, k: KeyPress) -> (AppView, KeyAction) {
        if self.input_mode == InputMode::Normal {
            self.normal_key(k)
        } else if self.input_mode == InputMode::QuitConfirm {
            if k.key == Key::Char('y') || k.key == Key::Char('Y') {
                (self, KeyAction::Quit)
            } else {
                (
                    AppView { input_mode: InputMode::Normal, ..self }.with_status(
                        "Quit cancelled"@,
                    ),
                    KeyAction::Continue,
                )
            }
        } else {
            (self.prompt_key(k), KeyAction::Continue)
        }
    }
}

// ---------------------------------------------------------------- laws

/// Typing two hex digits writes, at the cursor, the byte they spell: the first
/// digit is the high nibble and the second the low one.
pub proof fn lemma_hex_digit_pair(v: AppView, hi: char, lo: char)
    requires
        !v.editor.readonly,
        v.hex_nibble is None,
        typed_nibble(hi) is Some,
        typed_nibble(lo) is Some,
    ensures
        ({
            let w = v.input_hex_digit(hi).input_hex_digit(lo);
            let byte = (16 * typed_nibble(hi)->0 + typed_nibble(lo)->0) as u8;
            &&& w.editor == v.editor.write(v.cursor, byte)
            &&& w.hex_nibble is None
            &&& w.modified
        }),
{
    let h = typed_nibble(hi)->0;
    let l = typed_nibble(lo)->0;
    assert(h < 16 && l < 16);
    assert(((h << 4u8) | l) as u8 == (16 * h + l) as u8) by (bit_vector)
        requires
            h < 16,
            l < 16,
    ;
}

/// An offset typed as the editor shows offsets (`0x` and upper-case hex), or in
/// decimal, takes the cursor there when it lies inside the file; the prompt is
/// emptied.
pub proof fn lemma_goto_shown_offset(v: AppView, off: usize)
    requires
        v.input_buf == hex_text(off as nat) || v.input_buf == dec_chars(off as nat),
        off < v.size(),
    ensures
        v.execute_goto().cursor == off,
        v.execute_goto().input_buf.len() == 0,
{
    let input = v.input_buf;
    if input == hex_text(off as nat) {
        let digits = crate::text::radix_chars(off as nat, 16);
        crate::chars::lemma_radix_chars_parse(off as nat, 16);
        crate::chars::lemma_parse_usize_text(off, 16);
        reveal_strlit("0x");
        assert(hex_width(off as nat, 0) == digits);
        assert(input =~= seq!['0', 'x'] + digits);
        assert(digit_value(input.last(), 16) is Some);
        crate::chars::lemma_digit_not_white_space(input.last(), 16);
        crate::chars::lemma_trim_unchanged(input);
        assert(input.skip(2) =~= digits);
    } else {
        crate::chars::lemma_radix_chars_parse(off as nat, 10);
        crate::chars::lemma_parse_usize_text(off, 10);
        assert(digit_value(input[0], 10) is Some);
        assert(digit_value(input.last(), 10) is Some);
        crate::chars::lemma_digit_not_white_space(input[0], 10);
        crate::chars::lemma_digit_not_white_space(input.last(), 10);
        crate::chars::lemma_trim_unchanged(input);
        if input.len() >= 2 {
            assert(digit_value(input[1], 10) is Some);
        }
    }
}

/// The hex digits of bytes, two per byte, without separators.
pub open spec fn hex_digits_of(b: Seq<u8>) -> Seq<char> {
    Seq::new(
        2 * b.len(),
        |i: int|
            if i % 2 == 0 {
                crate::text::digit_char((b[i / 2] / 16) as nat)
            } else {
                crate::text::digit_char((b[i / 2] % 16) as nat)
            },
    )
}

proof fn lemma_hex_width_byte(x: u8)
    ensures
        hex_width(x as nat, 2) == seq![
            crate::text::digit_char((x / 16) as nat),
            crate::text::digit_char((x % 16) as nat),
        ],
{
    let r = crate::text::radix_chars(x as nat, 16);
    if x < 16 {
        assert(r == seq![crate::text::digit_char(x as nat)]);
        assert(hex_width(x as nat, 2) =~= seq!['0', crate::text::digit_char(x as nat)]);
    } else {
        assert(crate::text::radix_chars((x / 16) as nat, 16) == seq![
            crate::text::digit_char((x / 16) as nat),
        ]);
        assert(r =~= seq![
            crate::text::digit_char((x / 16) as nat),
            crate::text::digit_char((x % 16) as nat),
        ]);
    }
}

proof fn lemma_without_spaces_concat(a: Seq<char>, b: Seq<char>)
    ensures
        without_spaces(a + b) == without_spaces(a) + without_spaces(b),
    decreases b.len(),
{
    if b.len() == 0 {
        assert(a + b =~= a);
        assert(without_spaces(a) + without_spaces(b) =~= without_spaces(a));
    } else {
        lemma_without_spaces_concat(a, b.drop_last());
        assert((a + b).drop_last() =~= a + b.drop_last());
        assert((a + b).last() == b.last());
        if b.last() != ' ' {
            assert(without_spaces(a) + without_spaces(b.drop_last()).push(b.last()) =~= (
            without_spaces(a) + without_spaces(b.drop_last())).push(b.last()));
        }
    }
}

proof fn lemma_hex_bytes_digits(b: Seq<u8>)
    ensures
        without_spaces(hex_bytes(b)) == hex_digits_of(b),
    decreases b.len(),
{
    if b.len() == 0 {
        assert(hex_digits_of(b) =~= Seq::<char>::empty());
    } else {
        let x = b.last();
        lemma_hex_width_byte(x);
        let pair = seq![
            crate::text::digit_char((x / 16) as nat),
            crate::text::digit_char((x % 16) as nat),
        ];
        assert(pair[0] != ' ' && pair[1] != ' ');
        assert(without_spaces(pair.drop_last().drop_last()) == Seq::<char>::empty());
        assert(pair.drop_last().drop_last() =~= Seq::<char>::empty());
        assert(without_spaces(pair.drop_last()) =~= seq![pair[0]]);
        assert(without_spaces(pair) =~= pair);
        if b.len() == 1 {
            assert(hex_digits_of(b) =~= pair);
        } else {
            lemma_hex_bytes_digits(b.drop_last());
            lemma_without_spaces_concat(hex_bytes(b.drop_last()) + seq![' '], pair);
            lemma_without_spaces_concat(hex_bytes(b.drop_last()), seq![' ']);
            assert(seq![' '].drop_last() =~= Seq::<char>::empty());
            assert(without_spaces(seq![' ']) =~= Seq::<char>::empty());
            assert(hex_digits_of(b) =~= hex_digits_of(b.drop_last()) + pair);
        }
    }
}

/// The text that copying bytes puts on the clipboard ("DE AD BE EF"), typed as
/// a search, stands for those same bytes.
pub proof fn lemma_copied_text_searches_same_bytes(b: Seq<u8>)
    requires
        b.len() > 0,
    ensures
        search_bytes(hex_bytes(b)) == b,
{
    lemma_hex_bytes_digits(b);
    let h = hex_digits_of(b);
    assert forall|i: int| 0 <= i < h.len() implies #[trigger] is_hex_digit(h[i]) by {
        let x = b[i / 2];
        let d = if i % 2 == 0 { (x / 16) as nat } else { (x % 16) as nat };
        crate::chars::lemma_digit_char_value(d, 16);
    }
    assert(is_hex_pattern(h));
    assert forall|k: int| 0 <= k < b.len() implies #[trigger] hex_pairs(h)[k] == b[k] by {
        let x = b[k];
        crate::chars::lemma_digit_char_value((x / 16) as nat, 16);
        crate::chars::lemma_digit_char_value((x % 16) as nat, 16);
        assert((2 * k) / 2 == k);
        assert((2 * k + 1) / 2 == k);
        assert(h[2 * k] == crate::text::digit_char((x / 16) as nat));
        assert(h[2 * k + 1] == crate::text::digit_char((x % 16) as nat));
    }
    assert(hex_pairs(h) =~= b);
}

/// A read-only editor keeps its bytes whatever keys are pressed.
pub proof fn lemma_readonly_keys_keep_bytes(v: AppView, k: KeyPress)
    requires
        v.editor.readonly,
    ensures
        v.on_key(k).0.editor == v.editor,
{
}

impl AppView {
    /// The cursor's line is among the visible lines.
    pub open spec fn cursor_visible(self) -> bool {
        self.scroll_offset <= self.cursor / 16 < self.scroll_offset + self.visible_lines
    }
}

/// Scrolling to the cursor makes its line visible, in a view of at least one line.
proof fn lemma_scrolled_visible()
    ensures
        forall|w: AppView|
            w.visible_lines >= 1 ==> (#[trigger] w.scrolled_to_cursor()).cursor_visible(),
{
}

/// Cursor visibility: in a view of at least one line whose cursor is visible,
/// every operation of the session leaves the cursor's line visible.
pub proof fn lemma_ops_keep_cursor_visible(v: AppView, c: char)
    requires
        v.wf(),
        v.visible_lines >= 1,
        v.cursor_visible(),
    ensures
        v.move_up().cursor_visible(),
        v.move_down().cursor_visible(),
        v.move_left().cursor_visible(),
        v.move_right().cursor_visible(),
        v.page_up().cursor_visible(),
        v.page_down().cursor_visible(),
        v.execute_goto().cursor_visible(),
        v.execute_search().cursor_visible(),
        v.find_next().cursor_visible(),
        v.input_hex_digit(c).cursor_visible(),
        v.input_ascii_char(c).cursor_visible(),
        v.copy_selection().cursor_visible(),
{
    lemma_scrolled_visible();
}

proof fn lemma_char_key_keeps_cursor_visible(v: AppView, k: KeyPress, c: char)
    requires
        v.wf(),
        v.visible_lines >= 1,
        v.cursor_visible(),
        v.input_mode == InputMode::Normal,
        k.key == Key::Char(c),
    ensures
        v.normal_key(k).0.cursor_visible(),
{
    lemma_ops_keep_cursor_visible(v, c);
    assert(v.typed_char(c).cursor_visible());
}

proof fn lemma_other_key_keeps_cursor_visible(v: AppView, k: KeyPress)
    requires
        v.wf(),
        v.visible_lines >= 1,
        v.cursor_visible(),
        v.input_mode == InputMode::Normal,
        !(k.key is Char),
    ensures
        v.normal_key(k).0.cursor_visible(),
{
    lemma_scrolled_visible();
    lemma_ops_keep_cursor_visible(v, ' ');
    match k.key {
        Key::Home => {
            assert(v.at(0).cursor_visible());
            assert(v.at(v.cursor - v.cursor % 16).cursor_visible());
        },
        Key::End => {
            assert(v.at(v.last_offset()).cursor_visible());
            assert(v.at(min_of(v.cursor - v.cursor % 16 + 15, v.last_offset())).cursor_visible());
        },
        _ => {},
    }
}

/// Cursor visibility over key presses: in a view of at least one line whose
/// cursor is visible, the cursor's line stays visible after any key press.
pub proof fn lemma_keys_keep_cursor_visible(v: AppView, k: KeyPress)
    requires
        v.wf(),
        !v.key_overflows(k),
        v.visible_lines >= 1,
        v.cursor_visible(),
    ensures
        v.on_key(k).0.cursor_visible(),
{
    if v.input_mode == InputMode::Normal {
        if let Key::Char(c) = k.key {
            lemma_char_key_keeps_cursor_visible(v, k, c);
        } else {
            lemma_other_key_keeps_cursor_visible(v, k);
        }
    } else if v.input_mode != InputMode::QuitConfirm {
        lemma_ops_keep_cursor_visible(v, ' ');
        assert(v.prompt_key(k).cursor_visible());
    }
}

/// What a hex digit stands for, whatever its case: `0`-`9` are 0 to 9, and
/// both `a`-`f` and `A`-`F` are 10 to 15.
pub proof fn lemma_hex_digit_values(c: char)
    requires
        is_hex_digit(c),
    ensures
        0x30 <= (c as u32) <= 0x39 ==> hex_value(c) == (c as u32) - 0x30,
        0x61 <= (c as u32) <= 0x66 ==> hex_value(c) == (c as u32) - 0x61 + 10,
        0x41 <= (c as u32) <= 0x46 ==> hex_value(c) == (c as u32) - 0x41 + 10,
        hex_value(c) < 16,
{
}

/// Two hex digits that differ at most in the case of a letter stand for the
/// same value.
pub proof fn lemma_hex_value_ignores_case(a: char, b: char)
    requires
        is_hex_digit(a),
        is_hex_digit(b),
        (a as u32) == (b as u32) || (a as u32) + 32 == (b as u32),
    ensures
        hex_value(a) == hex_value(b),
{
    lemma_hex_digit_values(a);
    lemma_hex_digit_values(b);
}

/// A hex search means the same bytes whatever the case of its letters
/// ("de ad" and "DE AD" both stand for DE AD): digit strings that differ only
/// in the case of letters spell the same bytes, each the high digit times 16
/// plus the low digit.
pub proof fn lemma_hex_pairs_ignore_case(a: Seq<char>, b: Seq<char>)
    requires
        a.len() == b.len(),
        forall|i: int| 0 <= i < a.len() ==> #[trigger] is_hex_digit(a[i]) && is_hex_digit(b[i]),
        forall|i: int|
            0 <= i < a.len() ==> (#[trigger] a[i] as u32) == (b[i] as u32) || (a[i] as u32) + 32
                == (b[i] as u32),
    ensures
        hex_pairs(a) == hex_pairs(b),
        hex_pairs(a).len() == a.len() / 2,
        forall|k: int|
            0 <= k < a.len() / 2 ==> #[trigger] hex_pairs(a)[k] as nat == 16 * hex_value(a[2 * k])
                + hex_value(a[2 * k + 1]),
{
    assert forall|k: int| 0 <= k < a.len() / 2 implies #[trigger] hex_pairs(a)[k] == hex_pairs(
        b,
    )[k] && hex_pairs(a)[k] as nat == 16 * hex_value(a[2 * k]) + hex_value(a[2 * k + 1]) by {
        assert(is_hex_digit(a[2 * k]) && is_hex_digit(b[2 * k]));
        assert(is_hex_digit(a[2 * k + 1]) && is_hex_digit(b[2 * k + 1]));
        lemma_hex_value_ignores_case(a[2 * k], b[2 * k]);
        lemma_hex_value_ignores_case(a[2 * k + 1], b[2 * k + 1]);
        lemma_hex_digit_values(a[2 * k]);
        lemma_hex_digit_values(a[2 * k + 1]);
    }
    assert(hex_pairs(a) =~= hex_pairs(b));
}

/// Copying takes every byte from the lower to the higher of the selection's
/// start and the cursor, both included, whichever way the selection was made;
/// the clipboard holds them as hex text, the status counts them, the selection
/// ends, and nothing else changes.
pub proof fn lemma_copy_takes_whole_selection(v: AppView)
    requires
        v.wf(),
        v.selection_start is Some,
    ensures
        ({
            let s = v.selection_start->0 as int;
            let c = v.cursor as int;
            let lo = if s <= c { s } else { c };
            let hi = if s <= c { c } else { s };
            let n = (hi - lo + 1) as nat;
            let w = v.copy_selection();
            &&& w.clipboard == Some(
                hex_bytes(Seq::new(n, |k: int| crate::editor::byte_or_zero(v.editor.shown()[lo + k]))),
            )
            &&& w.status_msg == Some("Copied "@ + dec_chars(n) + " bytes to clipboard"@)
            &&& w.selection_start is None
            &&& w.cursor == v.cursor
            &&& w.editor == v.editor
        }),
{
    let s = v.selection_start->0 as int;
    let c = v.cursor as int;
    let lo = if s <= c { s } else { c };
    let hi = if s <= c { c } else { s };
    let n = (hi - lo + 1) as nat;
    assert(range_of(v.editor.shown(), lo, hi - lo + 1) =~= Seq::new(
        n,
        |k: int| crate::editor::byte_or_zero(v.editor.shown()[lo + k]),
    ));
}

/// Copying does not depend on which end the selection was started from:
/// swapping the selection's start and the cursor copies the same text.
pub proof fn lemma_copy_is_symmetric(v: AppView, w: AppView)
    requires
        v.wf(),
        v.selection_start is Some,
        w == (AppView { cursor: v.selection_start->0, selection_start: Some(v.cursor), ..v }),
    ensures
        w.copy_selection().clipboard == v.copy_selection().clipboard,
        w.copy_selection().status_msg == v.copy_selection().status_msg,
{
    lemma_copy_takes_whole_selection(v);
    lemma_copy_takes_whole_selection(w);
    let s = v.selection_start->0 as int;
    let c = v.cursor as int;
    let lo = if s <= c { s } else { c };
    let hi = if s <= c { c } else { s };
    assert(Seq::new((hi - lo + 1) as nat, |k: int| crate::editor::byte_or_zero(v.editor.shown()[lo + k]))
        =~= Seq::new((hi - lo + 1) as nat, |k: int| crate::editor::byte_or_zero(w.editor.shown()[lo + k])));
}

/// Where each movement takes the cursor, in a file of `n` bytes with a view of
/// `h` lines: up and down move by a line of 16 bytes, left and right by one
/// byte, and a page is `h - 1` lines; each stops at the first or last byte
/// (down and page down land on the last byte when less than a line or a page
/// remains; up, left and right stay put at the edge; page up stops at 0).
pub proof fn lemma_cursor_moves(v: AppView)
    requires
        v.wf(),
        v.editor.size <= usize::MAX,
    ensures
        ({
            let c = v.cursor as int;
            let n = v.editor.size as int;
            let p = if v.visible_lines >= 1 { (v.visible_lines - 1) * 16 } else { 0int };
            &&& v.move_up().cursor == (if c >= 16 { c - 16 } else { c })
            &&& v.move_down().cursor == (if c + 16 < n { c + 16 } else { n - 1 })
            &&& v.move_left().cursor == (if c > 0 { c - 1 } else { c })
            &&& v.move_right().cursor == (if c + 1 < n { c + 1 } else { c })
            &&& v.page_down().cursor == (if c + p < n - 1 { c + p } else { n - 1 })
            &&& v.page_up().cursor == (if c >= p { c - p } else { 0 })
        }),
{
    lemma_scroll_keeps_cursor();
    let p = if v.visible_lines >= 1 { (v.visible_lines - 1) * 16 } else { 0int };
    assert(v.page() == p);
    assert(v.last_offset() == v.editor.size - 1);
    let c = v.cursor as int;
    let n = v.editor.size as int;
    assert(v.move_up().cursor == (if c >= 16 { c - 16 } else { c }));
    assert(v.move_down().cursor == (if c + 16 < n { c + 16 } else { n - 1 }));
    assert(v.move_left().cursor == (if c > 0 { c - 1 } else { c }));
    assert(v.move_right().cursor == (if c + 1 < n { c + 1 } else { c }));
    assert(v.page_down().cursor == (if c + p < n - 1 { c + p } else { n - 1 }));
    assert(v.page_up().cursor == (if c >= p { c - p } else { 0 }));
}

/// Goto moves the cursor only to an offset inside the file: an offset past the
/// end, or text that is no offset, leaves the cursor where it was and says why;
/// either way the prompt is emptied.
pub proof fn lemma_goto_refusals(v: AppView)
    requires
        v.wf(),
        v.editor.size <= usize::MAX,
    ensures
        ({
            let w = v.execute_goto();
            let t = goto_target(trim(v.input_buf));
            &&& w.input_buf.len() == 0
            &&& t is Some && t->0 < v.size() ==> w.cursor == t->0 && w.status_msg == Some(
                "Jumped to "@ + hex_text(t->0 as nat),
            )
            &&& t is Some && t->0 >= v.size() ==> w.cursor == v.cursor && w.status_msg == Some(
                "Offset "@ + hex_text(t->0 as nat) + " is beyond file size"@,
            )
            &&& t is None ==> w.cursor == v.cursor && w.status_msg == Some("Invalid offset"@)
        }),
{
    lemma_scroll_keeps_cursor();
}

/// Scrolling to the cursor scrolls no more than it must: the view stays put when
/// the cursor's line is visible, starts at that line when it lies above, and ends
/// at it when it lies below.
pub proof fn lemma_scrolling_is_minimal(w: AppView)
    requires
        w.visible_lines >= 1,
    ensures
        ({
            let line = w.cursor / 16;
            let s = w.scroll_offset;
            let r = w.scrolled_to_cursor().scroll_offset;
            &&& s <= line < s + w.visible_lines ==> r == s
            &&& line < s ==> r == line
            &&& line >= s + w.visible_lines ==> r == line - w.visible_lines + 1
            &&& w.scrolled_to_cursor().cursor == w.cursor
        }),
{
}

/// Scrolling never moves the cursor.
proof fn lemma_scroll_keeps_cursor()
    ensures
        forall|w: AppView| (#[trigger] w.scrolled_to_cursor()).cursor == w.cursor,
{
}

/// Where Home and End take the cursor: the start or end of its line of 16
/// bytes (the end at most the last byte), or with Control the first or last
/// byte of the file.
pub proof fn lemma_home_end_keys(v: AppView, ctrl: bool)
    requires
        v.wf(),
        v.editor.size <= usize::MAX,
        v.input_mode == InputMode::Normal,
    ensures
        ({
            let c = v.cursor as int;
            let n = v.editor.size as int;
            let home = v.on_key(KeyPress { key: Key::Home, ctrl }).0.cursor as int;
            let end = v.on_key(KeyPress { key: Key::End, ctrl }).0.cursor as int;
            &&& home == (if ctrl { 0 } else { c - c % 16 })
            &&& end == (if ctrl { n - 1 } else if c - c % 16 + 15 < n - 1 { c - c % 16 + 15 } else { n - 1 })
        }),
{
    lemma_scroll_keeps_cursor();
    assert(v.last_offset() == v.editor.size - 1);
}

/// The digit a key stands for when typed in hex edit mode: `0`-`9` are 0 to 9
/// and `a`-`f` are 10 to 15; every other character, upper-case `A`-`F`
/// included, stands for none.
pub proof fn lemma_typed_nibble_values(c: char)
    ensures
        0x30 <= (c as u32) <= 0x39 ==> typed_nibble(c) == Some(((c as u32) - 0x30) as u8),
        0x61 <= (c as u32) <= 0x66 ==> typed_nibble(c) == Some(((c as u32) - 0x61 + 10) as u8),
        !(0x30 <= (c as u32) <= 0x39) && !(0x61 <= (c as u32) <= 0x66) ==> typed_nibble(c) is None,
{
}

/// Typing a character in ASCII edit mode writes its code (low 8 bits) at the
/// cursor and moves one byte on, staying on the last byte; a read-only editor
/// keeps its bytes and says so.
pub proof fn lemma_ascii_input(v: AppView, c: char)
    requires
        v.wf(),
        v.editor.size <= usize::MAX,
    ensures
        ({
            let w = v.input_ascii_char(c);
            let n = v.editor.size as int;
            &&& !v.editor.readonly ==> {
                &&& w.editor.byte_at(v.cursor as int) == Some((c as u32) as u8)
                &&& forall|i: int| i != v.cursor ==> #[trigger] w.editor.byte_at(i) == v.editor.byte_at(i)
                &&& w.cursor == (if v.cursor + 1 < n { v.cursor + 1 } else { v.cursor as int })
                &&& w.modified
            }
            &&& v.editor.readonly ==> w.editor == v.editor && w.cursor == v.cursor && w.status_msg
                == Some("Read-only mode"@)
        }),
{
    lemma_scroll_keeps_cursor();
}

/// Submitting a search moves the cursor to the first place at or after it
/// where the searched bytes occur in the bytes shown; when there is none, to
/// the first place in the whole file (saying it wrapped); when the bytes occur
/// nowhere, the cursor stays and the status says so.
pub proof fn lemma_search_finds_first_match(v: AppView)
    requires
        v.wf(),
        v.editor.size <= usize::MAX,
        trim(v.input_buf).len() > 0,
        search_bytes(trim(v.input_buf)).len() > 0,
    ensures
        ({
            let p = search_bytes(trim(v.input_buf));
            let view = v.editor.shown();
            let c = v.cursor as int;
            let w = v.execute_search();
            let k = w.cursor as int;
            &&& w.search_pattern == p
            &&& (exists|j: int| c <= j && #[trigger] occurs_at(view, p, j)) ==> {
                &&& c <= k && occurs_at(view, p, k)
                &&& forall|j: int| c <= j < k ==> !#[trigger] occurs_at(view, p, j)
                &&& w.status_msg == Some("Found at "@ + hex_text(k as nat))
            }
            &&& (!exists|j: int| c <= j && #[trigger] occurs_at(view, p, j)) && (exists|j: int|
                #[trigger] occurs_at(view, p, j)) ==> {
                &&& occurs_at(view, p, k)
                &&& forall|j: int| 0 <= j < k ==> !#[trigger] occurs_at(view, p, j)
                &&& w.status_msg == Some("Found at "@ + hex_text(k as nat) + " (wrapped)"@)
            }
            &&& (!exists|j: int| #[trigger] occurs_at(view, p, j)) ==> w.cursor == v.cursor
                && w.status_msg == Some("Pattern not found"@)
        }),
{
    lemma_scroll_keeps_cursor();
    let p = search_bytes(trim(v.input_buf));
    let view = v.editor.shown();
    let c = v.cursor as int;
    if exists|j: int| c <= j && #[trigger] occurs_at(view, p, j) {
        let j = choose|j: int| c <= j && #[trigger] occurs_at(view, p, j);
        crate::editor::lemma_first_match_exists(view, p, c, j);
    } else if exists|j: int| #[trigger] occurs_at(view, p, j) {
        let j = choose|j: int| #[trigger] occurs_at(view, p, j);
        crate::editor::lemma_first_match_exists(view, p, 0, j);
    }
}

/// Find-next moves the cursor to the first place after it where the last
/// searched bytes occur; when there is none, to the first place in the file
/// (saying it wrapped); when they occur nowhere, the cursor stays and the status
/// says there are no more matches.
pub proof fn lemma_find_next_finds_next_match(v: AppView)
    requires
        v.wf(),
        v.editor.size <= usize::MAX,
        v.search_pattern.len() > 0,
    ensures
        ({
            let p = v.search_pattern;
            let view = v.editor.shown();
            let c = v.cursor as int;
            let w = v.find_next();
            let k = w.cursor as int;
            &&& (exists|j: int| c < j && #[trigger] occurs_at(view, p, j)) ==> {
                &&& c < k && occurs_at(view, p, k)
                &&& forall|j: int| c < j < k ==> !#[trigger] occurs_at(view, p, j)
                &&& w.status_msg == Some("Found at "@ + hex_text(k as nat))
            }
            &&& (!exists|j: int| c < j && #[trigger] occurs_at(view, p, j)) && (exists|j: int|
                #[trigger] occurs_at(view, p, j)) ==> {
                &&& k <= c && occurs_at(view, p, k)
                &&& forall|j: int| 0 <= j < k ==> !#[trigger] occurs_at(view, p, j)
                &&& w.status_msg == Some("Found at "@ + hex_text(k as nat) + " (wrapped)"@)
            }
            &&& (!exists|j: int| #[trigger] occurs_at(view, p, j)) ==> w.cursor == v.cursor
                && w.status_msg == Some("No more matches"@)
        }),
{
    lemma_scroll_keeps_cursor();
    let p = v.search_pattern;
    let view = v.editor.shown();
    let c = v.cursor as int;
    if exists|j: int| c < j && #[trigger] occurs_at(view, p, j) {
        let j = choose|j: int| c < j && #[trigger] occurs_at(view, p, j);
        crate::editor::lemma_first_match_exists(view, p, c + 1, j);
    } else if exists|j: int| #[trigger] occurs_at(view, p, j) {
        let j = choose|j: int| #[trigger] occurs_at(view, p, j);
        crate::editor::lemma_first_match_exists(view, p, 0, j);
    }
}

/// `0xHEX` as text.
fn hex_text_string(v: usize) -> (s: String)
    ensures
        s@ == hex_text(v as nat),
{
    let mut s = String::from_str("0x");
    push_hex(&mut s, v as u64, 0);
    s
}

impl App {
    /// The session's invariant (see `AppView::wf`), with a well-formed editor.
    pub open spec fn wf(&self) -> bool {
        self.editor.wf() && self@.wf()
    }

    /// A session on `editor`: cursor at the start, hex view and hex editing,
    /// nothing typed, selected, copied or searched yet.
    pub fn new(editor: Editor) -> (app: App)
        requires
            editor.wf(),
        ensures
            app.wf(),
            app.editor == editor,
            app@.cursor == 0,
            app@.scroll_offset == 0,
            app@.visible_lines == 20,
            app@.view == View::Hex,
            app@.edit_mode == EditMode::Hex,
            app@.input_mode == InputMode::Normal,
            app@.input_buf.len() == 0,
            !app@.modified,
            app@.selection_start is None,
            app@.clipboard is None,
            app@.status_msg is None,
            app@.search_pattern.len() == 0,
            app@.search_query.len() == 0,
            app@.hex_nibble is None,
            app@.info_scroll == 0,
    {
        proof {
            editor.lemma_wf();
        }
        App {
            editor,
            cursor: 0,
            scroll_offset: 0,
            visible_lines: 20,
            view: View::Hex,
            edit_mode: EditMode::Hex,
            input_mode: InputMode::Normal,
            input_buf: String::new(),
            modified: false,
            selection_start: None,
            clipboard: None,
            status_msg: None,
            search_pattern: Vec::new(),
            search_query: String::new(),
            hex_nibble: None,
            info_scroll: 0,
        }
    }

    pub fn file_size(&self) -> (n: usize)
        ensures
            n == self@.size(),
    {
        self.editor.file_size()
    }

    fn set_status(&mut self, msg: String)
        ensures
            final(self)@ == old(self)@.with_status(msg@),
            final(self).editor == old(self).editor,
    {
        self.status_msg = Some(msg);
    }

    pub fn ensure_cursor_visible(&mut self)
        requires
            old(self).wf(),
        ensures
            final(self).wf(),
            final(self)@ == old(self)@.scrolled_to_cursor(),
            final(self).editor == old(self).editor,
    {
        proof {
            self.editor.lemma_wf();
        }
        let cursor_line = self.cursor / 16;
        if cursor_line < self.scroll_offset {
            self.scroll_offset = cursor_line;
        }
        if cursor_line >= self.scroll_offset + self.visible_lines {
            self.scroll_offset = cursor_line - self.visible_lines + 1;
        }
    }

    /// Moves the cursor to `pos` and scrolls it into view.
    fn go_to(&mut self, pos: usize)
        requires
            old(self).wf(),
            pos < old(self)@.size(),
        ensures
            final(self).wf(),
            final(self)@ == old(self)@.at(pos as int),
            final(self).editor == old(self).editor,
    {
        self.cursor = pos;
        self.ensure_cursor_visible();
    }

    // -- Navigation --

    pub fn move_cursor_up(&mut self)
        requires
            old(self).wf(),
        ensures
            final(self).wf(),
            final(self)@ == old(self)@.move_up(),
            final(self).editor == old(self).editor,
    {
        if self.cursor >= 16 {
            self.cursor -= 16;
        }
        self.ensure_cursor_visible();
    }

    pub fn move_cursor_down(&mut self)
        requires
            old(self).wf(),
        ensures
            final(self).wf(),
            final(self)@ == old(self)@.move_down(),
            final(self).editor == old(self).editor,
    {
        proof {
            self.editor.lemma_wf();
        }
        if self.cursor + 16 < self.file_size() {
            self.cursor += 16;
        } else {
            self.cursor = self.file_size() - 1;
        }
        self.ensure_cursor_visible();
    }

    pub fn move_cursor_left(&mut self)
        requires
            old(self).wf(),
        ensures
            final(self).wf(),
            final(self)@ == old(self)@.move_left(),
            final(self).editor == old(self).editor,
    {
        if self.cursor > 0 {
            self.cursor -= 1;
        }
        self.ensure_cursor_visible();
    }

    pub fn move_cursor_right(&mut self)
        requires
            old(self).wf(),
        ensures
            final(self).wf(),
            final(self)@ == old(self)@.move_right(),
            final(self).editor == old(self).editor,
    {
        proof {
            self.editor.lemma_wf();
        }
        if self.cursor + 1 < self.file_size() {
            self.cursor += 1;
        }
        self.ensure_cursor_visible();
    }

    pub fn page_up(&mut self)
        requires
            old(self).wf(),
        ensures
            final(self).wf(),
            final(self)@ == old(self)@.page_up(),
            final(self).editor == old(self).editor,
    {
        let lines = if self.visible_lines >= 1 { self.visible_lines - 1 } else { 0 };
        let page = lines * 16;
        self.cursor = if self.cursor >= page { self.cursor - page } else { 0 };
        self.scroll_offset = if self.scroll_offset >= lines { self.scroll_offset - lines } else { 0 };
        self.ensure_cursor_visible();
    }

    pub fn page_down(&mut self)
        requires
            old(self).wf(),
        ensures
            final(self).wf(),
            final(self)@ == old(self)@.page_down(),
            final(self).editor == old(self).editor,
    {
        proof {
            self.editor.lemma_wf();
        }
        let lines = if self.visible_lines >= 1 { self.visible_lines - 1 } else { 0 };
        let page = lines * 16;
        let last = self.file_size() - 1;
        self.cursor = if self.cursor + page < last { self.cursor + page } else { last };
        self.ensure_cursor_visible();
    }

    // -- Editing --

    /// Writes `byte` at the cursor and moves on.
    fn type_byte(&mut self, byte: u8)
        requires
            old(self).wf(),
        ensures
            final(self).wf(),
            final(self)@ == old(self)@.typed_byte(byte),
    {
        proof {
            self.editor.lemma_wf();
        }
        self.hex_nibble = None;
        self.editor.write_byte(self.cursor, byte);
        self.modified = true;
        if self.cursor + 1 < self.file_size() {
            self.cursor += 1;
        }
        self.ensure_cursor_visible();
    }

    pub fn input_hex_digit(&mut self, c: char)
        requires
            old(self).wf(),
            !old(self)@.editor.readonly ==> !is_upper_hex_letter(c),
        ensures
            final(self).wf(),
            final(self)@ == old(self)@.input_hex_digit(c),
    {
        if self.editor.readonly() {
            self.set_status(String::from_str("Read-only mode"));
            return;
        }
        let u = c as u32;
        let nibble: u8 = if 0x30 <= u && u <= 0x39 {
            (u - 0x30) as u8
        } else if 0x61 <= u && u <= 0x66 {
            (u - 0x61 + 10) as u8
        } else {
            return;
        };
        match self.hex_nibble {
            Some(high) => {
                let byte = (high << 4u8) | nibble;
                self.type_byte(byte);
            },
            None => {
                self.hex_nibble = Some(nibble);
            },
        }
    }

    pub fn input_ascii_char(&mut self, c: char)
        requires
            old(self).wf(),
        ensures
            final(self).wf(),
            final(self)@ == old(self)@.input_ascii_char(c),
    {
        if self.editor.readonly() {
            self.set_status(String::from_str("Read-only mode"));
            return;
        }
        proof {
            self.editor.lemma_wf();
        }
        let byte = (c as u32) as u8;
        self.editor.write_byte(self.cursor, byte);
        self.modified = true;
        if self.cursor + 1 < self.file_size() {
            self.cursor += 1;
        }
        self.ensure_cursor_visible();
    }

    // -- Save --

    /// Records a successful save: nothing is unsaved any more.
    pub fn note_saved(&mut self)
        requires
            old(self).wf(),
        ensures
            final(self).wf(),
            final(self)@ == old(self)@.saved(),
    {
        self.modified = false;
        self.set_status(String::from_str("Saved"));
    }

    /// Records a failed save, with the reason given.
    pub fn note_save_failed(&mut self, reason: &str)
        requires
            old(self).wf(),
        ensures
            final(self).wf(),
            final(self)@ == old(self)@.save_failed(reason@),
    {
        let mut msg = String::from_str("Save failed: ");
        msg.append(reason);
        self.set_status(msg);
    }

    // -- Goto --

    pub fn execute_goto(&mut self)
        requires
            old(self).wf(),
        ensures
            final(self).wf(),
            final(self)@ == old(self)@.execute_goto(),
    {
        let chars = chars_of(self.input_buf.as_str());
        let input = trimmed(chars.as_slice());
        let offset = if input.len() >= 2 && input[0] == '0' && (input[1] == 'x' || input[1]
            == 'X') {
            let mut hex: Vec<char> = Vec::new();
            let mut i: usize = 2;
            while i < input.len()
                invariant
                    2 <= i <= input@.len(),
                    hex@ == input@.subrange(2, i as int),
                decreases input@.len() - i,
            {
                hex.push(input[i]);
                i = i + 1;
            }
            assert(hex@ =~= input@.skip(2));
            parse_usize_radix(hex.as_slice(), 16)
        } else {
            parse_usize_radix(input.as_slice(), 10)
        };
        match offset {
            Some(off) => {
                if off < self.file_size() {
                    self.go_to(off);
                    let mut msg = String::from_str("Jumped to ");
                    msg.append(hex_text_string(off).as_str());
                    self.set_status(msg);
                } else {
                    let mut msg = String::from_str("Offset ");
                    msg.append(hex_text_string(off).as_str());
                    msg.append(" is beyond file size");
                    self.set_status(msg);
                }
            },
            None => {
                self.set_status(String::from_str("Invalid offset"));
            },
        }
        self.input_buf = String::new();
    }

    // -- Search --

    pub fn execute_search(&mut self)
        requires
            old(self).wf(),
        ensures
            final(self).wf(),
            final(self)@ == old(self)@.execute_search(),
    {
        proof {
            self.editor.lemma_wf();
        }
        let chars = chars_of(self.input_buf.as_str());
        let input = trimmed(chars.as_slice());
        self.input_buf = String::new();

        if input.len() == 0 {
            self.set_status(String::from_str("Empty search"));
            return;
        }
        let pattern = search_pattern_of(&input);
        if pattern.len() == 0 {
            self.set_status(String::from_str("Invalid search pattern"));
            return;
        }
        let found = self.editor.search(pattern.as_slice(), self.cursor);
        self.search_query = string_from(input.as_slice());
        self.search_pattern = pattern;
        match found {
            Some(pos) => {
                self.go_to(pos);
                let mut msg = String::from_str("Found at ");
                msg.append(hex_text_string(pos).as_str());
                self.set_status(msg);
            },
            None => {
                match self.editor.search(self.search_pattern.as_slice(), 0) {
                    Some(pos) => {
                        self.go_to(pos);
                        let mut msg = String::from_str("Found at ");
                        msg.append(hex_text_string(pos).as_str());
                        msg.append(" (wrapped)");
                        self.set_status(msg);
                    },
                    None => {
                        self.set_status(String::from_str("Pattern not found"));
                    },
                }
            },
        }
    }

    pub fn find_next(&mut self)
        requires
            old(self).wf(),
        ensures
            final(self).wf(),
            final(self)@ == old(self)@.find_next(),
    {
        proof {
            self.editor.lemma_wf();
        }
        if self.search_pattern.len() == 0 {
            self.set_status(String::from_str("No previous search"));
            return;
        }
        let start = self.cursor + 1;
        match self.editor.search(self.search_pattern.as_slice(), start) {
            Some(pos) => {
                self.go_to(pos);
                let mut msg = String::from_str("Found at ");
                msg.append(hex_text_string(pos).as_str());
                self.set_status(msg);
            },
            None => {
                match self.editor.search(self.search_pattern.as_slice(), 0) {
                    Some(pos) => {
                        if pos <= self.cursor {
                            self.go_to(pos);
                            let mut msg = String::from_str("Found at ");
                            msg.append(hex_text_string(pos).as_str());
                            msg.append(" (wrapped)");
                            self.set_status(msg);
                        } else {
                            self.set_status(String::from_str("No more matches"));
                        }
                    },
                    None => {
                        self.set_status(String::from_str("No more matches"));
                    },
                }
            },
        }
    }

    // -- Keys --

    /// Whether the key press would type an upper-case `A-F` as a hex digit into a
    /// writable editor (see `AppView::key_overflows`).
    pub fn key_overflows(&self, k: KeyPress) -> (r: bool)
        ensures
            r == self@.key_overflows(k),
    {
        match k.key {
            Key::Char(c) => {
                let u = c as u32;
                self.input_mode == InputMode::Normal && self.view == View::Hex && self.edit_mode
                    == EditMode::Hex && !self.editor.readonly() && 0x41 <= u && u <= 0x46
            },
            _ => false,
        }
    }

    fn open_prompt(&mut self, mode: InputMode, msg: &str)
        requires
            old(self).wf(),
        ensures
            final(self).wf(),
            final(self)@ == old(self)@.prompt(mode, msg@),
    {
        self.input_mode = mode;
        self.input_buf = String::new();
        self.set_status(String::from_str(msg));
    }

    fn handle_prompt_key(&mut self, k: KeyPress)
        requires
            old(self).wf(),
            old(self).input_mode == InputMode::GotoOffset || old(self).input_mode
                == InputMode::Search,
        ensures
            final(self).wf(),
            final(self)@ == old(self)@.prompt_key(k),
    {
        match k.key {
            Key::Enter => {
                if self.input_mode == InputMode::GotoOffset {
                    self.execute_goto();
                } else {
                    self.execute_search();
                }
                self.input_mode = InputMode::Normal;
            },
            Key::Esc => {
                self.input_buf = String::new();
                self.input_mode = InputMode::Normal;
            },
            Key::Char(c) => {
                string_push(&mut self.input_buf, c);
            },
            Key::Backspace => {
                string_pop(&mut self.input_buf);
            },
            _ => {},
        }
    }

    fn handle_typed_char(&mut self, c: char)
        requires
            old(self).wf(),
            old(self).view == View::Hex,
            !(old(self).edit_mode == EditMode::Hex && !old(self)@.editor.readonly
                && is_upper_hex_letter(c)),
        ensures
            final(self).wf(),
            final(self)@ == old(self)@.typed_char(c),
    {
        let u = c as u32;
        match self.edit_mode {
            EditMode::Hex => {
                if (0x30 <= u && u <= 0x39) || (0x61 <= u && u <= 0x66) || (0x41 <= u && u <= 0x46) {
                    self.input_hex_digit(c);
                }
            },
            EditMode::Ascii => {
                if 0x20 <= u && u < 0x7f {
                    self.input_ascii_char(c);
                }
            },
        }
    }

    /// Reacts to a key press and tells the event loop what to do next.
    pub fn handle_key(&mut self, k: KeyPress) -> (action: KeyAction)
        requires
            old(self).wf(),
            !old(self)@.key_overflows(k),
        ensures
            final(self).wf(),
            (final(self)@, action) == old(self)@.on_key(k),
    {
        proof {
            self.editor.lemma_wf();
        }
        if self.input_mode != InputMode::Normal {
            if self.input_mode == InputMode::QuitConfirm {
                match k.key {
                    Key::Char(c) => {
                        if c == 'y' || c == 'Y' {
                            return KeyAction::Quit;
                        }
                    },
                    _ => {},
                }
                self.input_mode = InputMode::Normal;
                self.set_status(String::from_str("Quit cancelled"));
                return KeyAction::Continue;
            }
            self.handle_prompt_key(k);
            return KeyAction::Continue;
        }
        match k.key {
            Key::Char(c) => {
                if c == 'q' && k.ctrl {
                    if self.modified {
                        self.input_mode = InputMode::QuitConfirm;
                        self.set_status(
                            String::from_str(
                                "Unsaved changes! Press Y to quit, any other key to cancel",
                            ),
                        );
                    } else {
                        return KeyAction::Quit;
                    }
                } else if c == 's' && k.ctrl {
                    return KeyAction::Save;
                } else if c == 'g' && k.ctrl {
                    self.open_prompt(
                        InputMode::GotoOffset,
                        "Goto offset (hex with 0x prefix, or decimal):",
                    );
                } else if (c == 'f' && k.ctrl) || c == '/' {
                    self.open_prompt(InputMode::Search, "Search (hex: \"FF 00\", ascii: \"text\"):");
                } else if c == 'n' && self.edit_mode == EditMode::Hex && self.view == View::Hex {
                    self.find_next();
                } else if c == 'v' && self.edit_mode == EditMode::Hex {
                    if self.selection_start.is_some() {
                        self.selection_start = None;
                        self.set_status(String::from_str("Selection cleared"));
                    } else {
                        self.selection_start = Some(self.cursor);
                        self.set_status(
                            String::from_str("Selection started (move cursor, 'y' to copy)"),
                        );
                    }
                } else if c == 'y' && self.edit_mode == EditMode::Hex
                    && self.selection_start.is_some() {
                    self.copy_selection();
                } else if self.view == View::Hex {
                    self.handle_typed_char(c);
                }
            },
            Key::F(n) => {
                if n == 1 {
                    self.view = if self.view == View::Hex {
                        View::Info
                    } else {
                        View::Hex
                    };
                }
            },
            Key::Tab => {
                if self.edit_mode == EditMode::Hex {
                    self.edit_mode = EditMode::Ascii;
                    self.set_status(String::from_str("Edit mode: Ascii"));
                } else {
                    self.edit_mode = EditMode::Hex;
                    self.set_status(String::from_str("Edit mode: Hex"));
                }
            },
            Key::Up => self.move_cursor_up(),
            Key::Down => self.move_cursor_down(),
            Key::Left => self.move_cursor_left(),
            Key::Right => self.move_cursor_right(),
            Key::PageUp => self.page_up(),
            Key::PageDown => self.page_down(),
            Key::Home => {
                if k.ctrl {
                    self.go_to(0);
                } else {
                    let line_start = self.cursor - self.cursor % 16;
                    self.go_to(line_start);
                }
            },
            Key::End => {
                let last = self.file_size() - 1;
                if k.ctrl {
                    self.go_to(last);
                } else {
                    let line_start = self.cursor - (self.cursor % 16);
                    let end = if line_start + 15 < last { line_start + 15 } else { last };
                    self.go_to(end);
                }
            },
            Key::Esc => {
                self.selection_start = None;
                self.status_msg = None;
            },
            _ => {},
        }
        KeyAction::Continue
    }

    // -- Selection / Copy --

    pub fn selection_range(&self) -> (r: Option<(usize, usize)>)
        ensures
            r == self@.selection_range(),
    {
        match self.selection_start {
            Some(start) => Some(
                if start <= self.cursor {
                    (start, self.cursor)
                } else {
                    (self.cursor, start)
                },
            ),
            None => None,
        }
    }

    pub fn copy_selection(&mut self)
        requires
            old(self).wf(),
        ensures
            final(self).wf(),
            final(self)@ == old(self)@.copy_selection(),
    {
        proof {
            self.editor.lemma_wf();
        }
        if let Some((lo, hi)) = self.selection_range() {
            let bytes = self.editor.read_range(lo, hi - lo + 1);
            let hex_str = hex_bytes_string(bytes.as_slice());
            self.clipboard = Some(hex_str);
            self.selection_start = None;
            let count = hi - lo + 1;
            let mut msg = String::from_str("Copied ");
            push_dec(&mut msg, count as u64);
            msg.append(" bytes to clipboard");
            self.set_status(msg);
        }
    }
}

/// `s` with its spaces removed.
fn strip_spaces(s: &Vec<char>) -> (h: Vec<char>)
    ensures
        h@ == without_spaces(s@),
{
    let mut h: Vec<char> = Vec::new();
    let mut i: usize = 0;
    while i < s.len()
        invariant
            i <= s@.len(),
            h@ == without_spaces(s@.take(i as int)),
        decreases s@.len() - i,
    {
        assert(s@.take(i + 1).drop_last() =~= s@.take(i as int));
        if s[i] != ' ' {
            h.push(s[i]);
        }
        i = i + 1;
    }
    assert(s@.take(s@.len() as int) =~= s@);
    h
}

/// The value of an ASCII hex digit.
fn hex_value_of(c: char) -> (v: u8)
    requires
        is_hex_digit(c),
    ensures
        v as nat == hex_value(c),
        v < 16,
{
    let u = c as u32;
    if 0x30 <= u && u <= 0x39 {
        (u - 0x30) as u8
    } else if 0x61 <= u && u <= 0x66 {
        (u - 0x61 + 10) as u8
    } else {
        (u - 0x41 + 10) as u8
    }
}

/// The bytes that a (trimmed, non-empty) search string stands for.
fn search_pattern_of(input: &Vec<char>) -> (p: Vec<u8>)
    ensures
        p@ == search_bytes(input@),
{
    let h = strip_spaces(input);
    let n = h.len();
    let mut all_hex = true;
    let mut i: usize = 0;
    while i < n
        invariant
            n == h@.len(),
            i <= n,
            all_hex == (forall|j: int| 0 <= j < i ==> #[trigger] is_hex_digit(h@[j])),
        decreases n - i,
    {
        let u = h[i] as u32;
        let d = (0x30 <= u && u <= 0x39) || (0x61 <= u && u <= 0x66) || (0x41 <= u && u <= 0x46);
        assert(d == is_hex_digit(h@[i as int]));
        if !d {
            all_hex = false;
        }
        i = i + 1;
    }
    if n % 2 == 0 && all_hex && n >= 2 {
        let mut p: Vec<u8> = Vec::new();
        let mut k: usize = 0;
        while k < n / 2
            invariant
                n == h@.len(),
                n % 2 == 0,
                k <= n / 2,
                forall|j: int| 0 <= j < n ==> #[trigger] is_hex_digit(h@[j]),
                p@ =~= hex_pairs(h@).take(k as int),
            decreases n / 2 - k,
        {
            let hi = hex_value_of(h[2 * k]);
            let lo = hex_value_of(h[2 * k + 1]);
            p.push(hi * 16 + lo);
            k = k + 1;
        }
        assert(hex_pairs(h@).take((n / 2) as int) =~= hex_pairs(h@));
        p
    } else {
        let s = string_from(input.as_slice());
        let bytes = s.as_str().as_bytes();
        let mut p: Vec<u8> = Vec::new();
        let mut k: usize = 0;
        while k < bytes.len()
            invariant
                k <= bytes@.len(),
                p@ == bytes@.take(k as int),
            decreases bytes@.len() - k,
        {
            p.push(bytes[k]);
            k = k + 1;
            assert(p@ =~= bytes@.take(k as int));
        }
        assert(bytes@.take(bytes@.len() as int) =~= bytes@);
        p
    }
}

} // verus!

//! What the screen shows, decided apart from how it is drawn: the info bar's
//! text, the cells of the hex view with their highlighting, the status line,
//! and the layout of header fields.

use vstd::prelude::*;
use vstd::view::View as _;

use crate::app::App;
use crate::app::AppView;
use crate::app::EditMode;
use crate::app::InputMode;
use crate::chars::string_push;
use crate::editor::byte_or_zero;
use crate::size::push_scaled_size;
use crate::size::scaled_size;
use crate::text::dec_chars;
use crate::text::hex_width;
use crate::text::push_dec;
use crate::text::push_hex;

verus! {

/// A size in the largest fitting unit: "512 B", "1.5 KiB", "2.00 GiB".
pub fn format_size(bytes: usize) -> (s: String)
    ensures
        s@ == scaled_size(bytes as nat),
{
    let mut s = String::new();
    push_scaled_size(&mut s, bytes);
    assert(s@ =~= scaled_size(bytes as nat));
    s
}

/// How a cell of the hex view is highlighted, in order of precedence: the
/// cursor (in the column being edited), a pending hex digit, the selection, a
/// modified byte, a zero byte; `Absent` past the end of the file.
#[derive(Debug, Clone, Copy, PartialEq, Eq, Structural)]
pub enum CellStyle {
    Cursor,
    Pending,
    Selected,
    Modified,
    Null,
    Plain,
    Absent,
}

/// One byte position of a hex view line: its hex text and its ASCII character.
pub struct HexCell {
    pub hex: String,
    pub hex_style: CellStyle,
    pub ascii: char,
    pub ascii_style: CellStyle,
}

/// A line of the hex view: the offset column and 16 cells.
pub struct HexLine {
    pub offset_text: String,
    pub cells: Vec<HexCell>,
}

/// The abstract content of a cell.
pub open spec fn cell_view(c: HexCell) -> (Seq<char>, CellStyle, char, CellStyle) {
    (c.hex@, c.hex_style, c.ascii, c.ascii_style)
}

/// The abstract content of a line.
pub open spec fn line_view(l: HexLine) -> (Seq<char>, Seq<(Seq<char>, CellStyle, char, CellStyle)>) {
    (l.offset_text@, l.cells@.map_values(|c: HexCell| cell_view(c)))
}

/// The offset `o` lies in the selection.
pub open spec fn in_selection(v: AppView, o: int) -> bool {
    match v.selection_range() {
        Some((lo, hi)) => lo <= o && o <= hi,
        None => false,
    }
}

/// The character shown for a byte in the ASCII column.
pub open spec fn ascii_char(b: u8) -> char {
    if 0x20 <= b && b < 0x7f {
        b as char
    } else {
        '.'
    }
}

/// The cell at offset `o`.
pub open spec fn cell_spec(v: AppView, o: int) -> (Seq<char>, CellStyle, char, CellStyle) {
    if o >= v.size() {
        ("  "@, CellStyle::Absent, ' ', CellStyle::Absent)
    } else {
        let b = byte_or_zero(v.editor.shown()[o]);
        let is_cursor = o == v.cursor;
        let modified = v.editor.overlay.contains_key(o as usize);
        let selected = in_selection(v, o);
        let later = if selected {
            CellStyle::Selected
        } else if modified {
            CellStyle::Modified
        } else if b == 0 {
            CellStyle::Null
        } else {
            CellStyle::Plain
        };
        let (hex, hex_style) = match v.hex_nibble {
            Some(high) if is_cursor => (hex_width(high as nat, 0) + "_"@, CellStyle::Pending),
            _ => (
                hex_width(b as nat, 2),
                if is_cursor && v.edit_mode == EditMode::Hex {
                    CellStyle::Cursor
                } else {
                    later
                },
            ),
        };
        let ascii_style = if is_cursor && v.edit_mode == EditMode::Ascii {
            CellStyle::Cursor
        } else {
            later
        };
        (hex, hex_style, ascii_char(b), ascii_style)
    }
}

/// Line `idx` of the view: `None` past the end of the file, else the offset of
/// its first byte (8 hex digits and two spaces) and its 16 cells.
pub open spec fn line_spec(v: AppView, idx: int) -> Option<
    (Seq<char>, Seq<(Seq<char>, CellStyle, char, CellStyle)>),
> {
    let base = (v.scroll_offset + idx) * 16;
    if base >= v.size() {
        None
    } else {
        Some((hex_width(base as nat, 8) + "  "@, Seq::new(16, |col: int| cell_spec(v, base + col))))
    }
}

/// How the hex view highlights a byte of the file at offset `o`. The cursor is
/// shown in the column being edited: its ASCII cell in ASCII edit mode, its hex
/// cell in hex edit mode, where a held first digit is shown instead, followed by
/// `_`. No other cell shows the cursor. Every other cell between the selection's
/// start and the cursor (both included) shows as selected in both columns. The
/// hex column shows the byte's two upper-case digits, the ASCII column the byte
/// itself when printable and `.` otherwise.
pub proof fn lemma_cell_highlighting(v: AppView, o: int)
    requires
        0 <= o < v.size(),
    ensures
        ({
            let b = byte_or_zero(v.editor.shown()[o]);
            let cell = cell_spec(v, o);
            &&& o == v.cursor && v.edit_mode == EditMode::Ascii ==> cell.3 == CellStyle::Cursor
            &&& o == v.cursor && v.edit_mode == EditMode::Hex && v.hex_nibble is None ==> cell.1
                == CellStyle::Cursor
            &&& o == v.cursor && v.hex_nibble is Some ==> cell.1 == CellStyle::Pending && cell.0
                == hex_width(v.hex_nibble->0 as nat, 0) + "_"@
            &&& o != v.cursor ==> cell.1 != CellStyle::Cursor && cell.3 != CellStyle::Cursor
                && cell.1 != CellStyle::Pending
            &&& (o != v.cursor && v.selection_start is Some && ((v.selection_start->0 <= o <= v.cursor)
                || (v.cursor <= o <= v.selection_start->0))) ==> cell.1 == CellStyle::Selected
                && cell.3 == CellStyle::Selected
            &&& (o != v.cursor || v.hex_nibble is None) ==> cell.0 == hex_width(b as nat, 2)
            &&& cell.2 == (if 0x20 <= b && b < 0x7f { b as char } else { '.' })
        }),
{
}

/// Past the end of the file the hex view shows blank cells.
pub proof fn lemma_cells_past_end(v: AppView, o: int)
    requires
        o >= v.size(),
    ensures
        cell_spec(v, o) == ("  "@, CellStyle::Absent, ' ', CellStyle::Absent),
{
}

/// The info bar reads: the file name, its size, the cursor's offset in hex
/// (8 digits) and decimal, the edit mode, "[MODIFIED]" after an unsaved edit,
/// "[RO]" in read-only mode, and the selection's lowest and highest offsets with
/// its size in bytes, whichever way it was made.
pub proof fn lemma_info_bar_reads(v: AppView, filename: Seq<char>)
    ensures
        ({
            let c = v.cursor as nat;
            let sel = match v.selection_start {
                Some(st) => {
                    let lo = if st <= v.cursor { st as nat } else { c };
                    let hi = if st <= v.cursor { c } else { st as nat };
                    "  Sel: 0x"@ + hex_width(lo, 0) + "-0x"@ + hex_width(hi, 0) + " ("@ + dec_chars(
                        (hi - lo + 1) as nat,
                    ) + " bytes)"@
                },
                None => ""@,
            };
            info_bar_spec(v, filename) == " "@ + filename + " | Size: "@ + scaled_size(v.size())
                + " | Offset: 0x"@ + hex_width(c, 8) + " ("@ + dec_chars(c) + ") | Mode: "@ + (if v.edit_mode
                == EditMode::Hex {
                "Hex"@
            } else {
                "Ascii"@
            }) + (if v.modified {
                " [MODIFIED]"@
            } else {
                ""@
            }) + (if v.editor.readonly {
                " [RO]"@
            } else {
                ""@
            }) + sel
        }),
{
}

/// The status line shows, in a goto or search prompt, its message (or a default
/// one) and what was typed; when quitting is to be confirmed, the question; else
/// the last message, or the key help when there is none.
pub proof fn lemma_status_line_reads(v: AppView)
    ensures
        ({
            let msg = |d: Seq<char>| match v.status_msg {
                Some(m) => m,
                None => d,
            };
            &&& v.input_mode == InputMode::GotoOffset ==> status_spec(v) == (
                StatusKind::Prompt,
                msg("Goto offset:"@) + " "@,
                v.input_buf,
            )
            &&& v.input_mode == InputMode::Search ==> status_spec(v) == (
                StatusKind::Prompt,
                msg("Search:"@) + " "@,
                v.input_buf,
            )
            &&& v.input_mode == InputMode::QuitConfirm ==> status_spec(v) == (
                StatusKind::Confirm,
                msg("Quit? (Y/n)"@),
                Seq::<char>::empty(),
            )
            &&& v.input_mode == InputMode::Normal && v.status_msg is Some ==> status_spec(v) == (
                StatusKind::Message,
                v.status_msg->0,
                Seq::<char>::empty(),
            )
            &&& v.input_mode == InputMode::Normal && v.status_msg is None ==> status_spec(v) == (
                StatusKind::Help,
                " Ctrl+Q:Quit  Ctrl+S:Save  Ctrl+G:Goto  Ctrl+F:Find  /:Search  n:Next  Tab:Mode  F1:Info  v:Select  y:Copy"@,
                Seq::<char>::empty(),
            )
        }),
{
}

fn hex_cell(app: &App, offset: usize) -> (c: HexCell)
    requires
        app.wf(),
    ensures
        cell_view(c) == cell_spec(app@, offset as int),
{
    if offset >= app.file_size() {
        return HexCell {
            hex: String::from_str("  "),
            hex_style: CellStyle::Absent,
            ascii: ' ',
            ascii_style: CellStyle::Absent,
        };
    }
    let b = match app.editor.read_byte(offset) {
        Some(v) => v,
        None => 0,
    };
    let is_cursor = offset == app.cursor;
    let modified = app.editor.is_modified(offset);
    let selected = match app.selection_range() {
        Some((lo, hi)) => lo <= offset && offset <= hi,
        None => false,
    };
    let later = if selected {
        CellStyle::Selected
    } else if modified {
        CellStyle::Modified
    } else if b == 0 {
        CellStyle::Null
    } else {
        CellStyle::Plain
    };
    let mut hex = String::new();
    let hex_style = match app.hex_nibble {
        Some(high) if is_cursor => {
            push_hex(&mut hex, high as u64, 0);
            hex.append("_");
            CellStyle::Pending
        },
        _ => {
            push_hex(&mut hex, b as u64, 2);
            if is_cursor && app.edit_mode == EditMode::Hex {
                CellStyle::Cursor
            } else {
                later
            }
        },
    };
    let ascii_style = if is_cursor && app.edit_mode == EditMode::Ascii {
        CellStyle::Cursor
    } else {
        later
    };
    let ascii = if 0x20 <= b && b < 0x7f {
        b as char
    } else {
        '.'
    };
    HexCell { hex, hex_style, ascii, ascii_style }
}

/// The `visible` lines of the hex view from the scroll position on.
pub fn hex_lines(app: &App, visible: usize) -> (lines: Vec<Option<HexLine>>)
    requires
        app.wf(),
        visible <= u16::MAX,
    ensures
        lines@.len() == visible,
        forall|i: int|
            0 <= i < visible ==> match #[trigger] lines@[i] {
                Some(l) => line_spec(app@, i) == Some(line_view(l)),
                None => line_spec(app@, i) is None,
            },
{
    proof {
        app.editor.lemma_wf();
    }
    let mut lines: Vec<Option<HexLine>> = Vec::new();
    let mut idx: usize = 0;
    while idx < visible
        invariant
            app.wf(),
            app@.size() <= isize::MAX,
            visible <= u16::MAX,
            idx <= visible,
            lines@.len() == idx,
            forall|i: int|
                0 <= i < idx ==> match #[trigger] lines@[i] {
                    Some(l) => line_spec(app@, i) == Some(line_view(l)),
                    None => line_spec(app@, i) is None,
                },
        decreases visible - idx,
    {
        let base = (app.scroll_offset + idx) * 16;
        if base >= app.file_size() {
            lines.push(None);
        } else {
            let mut offset_text = String::new();
            push_hex(&mut offset_text, base as u64, 8);
            offset_text.append("  ");
            let mut cells: Vec<HexCell> = Vec::new();
            let mut col: usize = 0;
            while col < 16
                invariant
                    app.wf(),
                    base < app@.size(),
                    app@.size() <= isize::MAX,
                    col <= 16,
                    cells@.len() == col,
                    forall|j: int|
                        0 <= j < col ==> cell_view(#[trigger] cells@[j]) == cell_spec(
                            app@,
                            base + j,
                        ),
                decreases 16 - col,
            {
                cells.push(hex_cell(app, base + col));
                col = col + 1;
            }
            let line = HexLine { offset_text, cells };
            assert(line_view(line).1 =~= Seq::new(
                16,
                |col: int| cell_spec(app@, base + col),
            ));
            lines.push(Some(line));
        }
        idx = idx + 1;
    }
    lines
}

/// The name of an edit mode.
pub open spec fn mode_name(m: EditMode) -> Seq<char> {
    if m == EditMode::Hex {
        "Hex"@
    } else {
        "Ascii"@
    }
}

/// The selection part of the info bar: its range and size, when there is one.
pub open spec fn selection_spec(v: AppView) -> Seq<char> {
    match v.selection_range() {
        Some((lo, hi)) => "  Sel: 0x"@ + hex_width(lo as nat, 0) + "-0x"@ + hex_width(hi as nat, 0)
            + " ("@ + dec_chars((hi - lo + 1) as nat) + " bytes)"@,
        None => ""@,
    }
}

/// The position part of the info bar: file name, size and cursor offset.
pub open spec fn position_spec(v: AppView, filename: Seq<char>) -> Seq<char> {
    " "@ + filename + " | Size: "@ + scaled_size(v.size()) + " | Offset: 0x"@ + hex_width(
        v.cursor as nat,
        8,
    ) + " ("@ + dec_chars(v.cursor as nat) + ") | Mode: "@
}

/// The text of the info bar above the main area.
pub open spec fn info_bar_spec(v: AppView, filename: Seq<char>) -> Seq<char> {
    let modified = if v.modified {
        " [MODIFIED]"@
    } else {
        ""@
    };
    let readonly = if v.editor.readonly {
        " [RO]"@
    } else {
        ""@
    };
    position_spec(v, filename) + mode_name(v.edit_mode) + modified + readonly + selection_spec(v)
}

fn push_position(s: &mut String, app: &App, filename: &str)
    requires
        app.wf(),
    ensures
        final(s)@ == old(s)@ + position_spec(app@, filename@),
{
    let ghost start = s@;
    s.append(" ");
    s.append(filename);
    s.append(" | Size: ");
    push_scaled_size(s, app.file_size());
    s.append(" | Offset: 0x");
    push_hex(s, app.cursor as u64, 8);
    s.append(" (");
    push_dec(s, app.cursor as u64);
    s.append(") | Mode: ");
    assert(s@ =~= start + position_spec(app@, filename@));
}

fn push_selection(s: &mut String, app: &App)
    requires
        app.wf(),
    ensures
        final(s)@ == old(s)@ + selection_spec(app@),
{
    proof {
        app.editor.lemma_wf();
    }
    let ghost start = s@;
    match app.selection_range() {
        Some((lo, hi)) => {
            s.append("  Sel: 0x");
            push_hex(s, lo as u64, 0);
            s.append("-0x");
            push_hex(s, hi as u64, 0);
            s.append(" (");
            push_dec(s, (hi - lo + 1) as u64);
            s.append(" bytes)");
        },
        None => {
            s.append("");
        },
    }
    assert(s@ =~= start + selection_spec(app@));
}

/// The text of the info bar, for the file named `filename`.
pub fn info_bar_text(app: &App, filename: &str) -> (s: String)
    requires
        app.wf(),
    ensures
        s@ == info_bar_spec(app@, filename@),
{
    let mut s = String::new();
    push_position(&mut s, app, filename);
    if app.edit_mode == EditMode::Hex {
        s.append("Hex");
    } else {
        s.append("Ascii");
    }
    if app.modified {
        s.append(" [MODIFIED]");
    } else {
        s.append("");
    }
    if app.editor.readonly() {
        s.append(" [RO]");
    } else {
        s.append("");
    }
    push_selection(&mut s, app);
    assert(s@ =~= info_bar_spec(app@, filename@));
    s
}

/// What the status line shows.
#[derive(Debug, Clone, Copy, PartialEq, Eq, Structural)]
pub enum StatusKind {
    /// A prompt, followed by what was typed so far and a blinking cursor.
    Prompt,
    /// The quit confirmation.
    Confirm,
    /// A message.
    Message,
    /// The key help.
    Help,
}

/// The status line: its kind, its text, and for a prompt what was typed.
pub struct StatusLine {
    pub kind: StatusKind,
    pub text: String,
    pub input: String,
}

/// The key help shown when there is no message.
pub open spec fn help_text() -> Seq<char> {
    " Ctrl+Q:Quit  Ctrl+S:Save  Ctrl+G:Goto  Ctrl+F:Find  /:Search  n:Next  Tab:Mode  F1:Info  v:Select  y:Copy"@
}

/// The message, or `fallback` when there is none.
pub open spec fn msg_or(v: AppView, fallback: Seq<char>) -> Seq<char> {
    match v.status_msg {
        Some(m) => m,
        None => fallback,
    }
}

/// The status line for a state.
pub open spec fn status_spec(v: AppView) -> (StatusKind, Seq<char>, Seq<char>) {
    if v.input_mode == InputMode::GotoOffset {
        (StatusKind::Prompt, msg_or(v, "Goto offset:"@) + " "@, v.input_buf)
    } else if v.input_mode == InputMode::Search {
        (StatusKind::Prompt, msg_or(v, "Search:"@) + " "@, v.input_buf)
    } else if v.input_mode == InputMode::QuitConfirm {
        (StatusKind::Confirm, msg_or(v, "Quit? (Y/n)"@), Seq::empty())
    } else {
        match v.status_msg {
            Some(m) => (StatusKind::Message, m, Seq::empty()),
            None => (StatusKind::Help, help_text(), Seq::empty()),
        }
    }
}

/// The message, or `fallback`.
fn msg_or_text(app: &App, fallback: &str) -> (s: String)
    ensures
        s@ == msg_or(app@, fallback@),
{
    match &app.status_msg {
        Some(m) => m.clone(),
        None => String::from_str(fallback),
    }
}

/// The status line.
pub fn status_line(app: &App) -> (line: StatusLine)
    ensures
        (line.kind, line.text@, line.input@) == status_spec(app@),
{
    if app.input_mode == InputMode::GotoOffset {
        let mut text = msg_or_text(app, "Goto offset:");
        text.append(" ");
        StatusLine { kind: StatusKind::Prompt, text, input: app.input_buf.clone() }
    } else if app.input_mode == InputMode::Search {
        let mut text = msg_or_text(app, "Search:");
        text.append(" ");
        StatusLine { kind: StatusKind::Prompt, text, input: app.input_buf.clone() }
    } else if app.input_mode == InputMode::QuitConfirm {
        StatusLine {
            kind: StatusKind::Confirm,
            text: msg_or_text(app, "Quit? (Y/n)"),
            input: String::new(),
        }
    } else {
        match &app.status_msg {
            Some(m) => StatusLine { kind: StatusKind::Message, text: m.clone(), input: String::new() },
            None => StatusLine {
                kind: StatusKind::Help,
                text: String::from_str(
                    " Ctrl+Q:Quit  Ctrl+S:Save  Ctrl+G:Goto  Ctrl+F:Find  /:Search  n:Next  Tab:Mode  F1:Info  v:Select  y:Copy",
                ),
                input: String::new(),
            },
        }
    }
}

/// The key column of a header field: two spaces, the key left-aligned in 24
/// characters, one space.
pub open spec fn key_column_spec(key: Seq<char>) -> Seq<char> {
    let pad = if key.len() < 24 {
        (24 - key.len()) as nat
    } else {
        0
    };
    "  "@ + key + Seq::new(pad, |_i: int| ' ') + " "@
}

/// The key column of a header field.
pub fn key_column(key: &str) -> (s: String)
    ensures
        s@ == key_column_spec(key@),
{
    let mut s = String::from_str("  ");
    s.append(key);
    let ghost after_key = s@;
    let n = crate::chars::chars_of(key).len();
    let pad: usize = if n < 24 { 24 - n } else { 0 };
    let mut i: usize = 0;
    while i < pad
        invariant
            i <= pad,
            s@ == after_key + Seq::new(i as nat, |_i: int| ' '),
        decreases pad - i,
    {
        string_push(&mut s, ' ');
        i = i + 1;
        assert(s@ =~= after_key + Seq::new(i as nat, |_i: int| ' '));
    }
    s.append(" ");
    proof {
        reveal_strlit("  ");
        reveal_strlit(" ");
    }
    assert(s@ =~= key_column_spec(key@));
    s
}

/// The title of the header pane for a format.
pub open spec fn header_title_spec(format_name: Seq<char>) -> Seq<char> {
    " "@ + format_name + " — Header Info (F1 to return) "@
}

/// The title of the header pane: " NAME — Header Info (F1 to return) ".
pub fn header_title(format_name: &str) -> (s: String)
    ensures
        s@ == header_title_spec(format_name@),
{
    let mut s = String::from_str(" ");
    s.append(format_name);
    s.append(" — Header Info (F1 to return) ");
    s
}

/// The first line of the header pane for a format.
pub open spec fn format_line_spec(format_name: Seq<char>) -> Seq<char> {
    "Format: "@ + format_name
}

/// The first line of the header pane: "Format: NAME".
pub fn format_line(format_name: &str) -> (s: String)
    ensures
        s@ == format_line_spec(format_name@),
{
    let mut s = String::from_str("Format: ");
    s.append(format_name);
    s
}

} // verus!

use std::path::PathBuf;

use hex_forge::app::App;
use hex_forge::app::EditMode;
use hex_forge::app::InputMode;
use hex_forge::editor::Editor;
use hex_forge::ui::format_line;
use hex_forge::ui::header_title;
use hex_forge::ui::hex_lines;
use hex_forge::ui::info_bar_text;
use hex_forge::ui::status_line;
use hex_forge::ui::CellStyle;
use hex_forge::ui::StatusKind;
use memmap2::MmapOptions;

fn app_with(bytes: &[u8], readonly: bool) -> App {
    let mut m = MmapOptions::new().len(bytes.len()).map_anon().unwrap();
    m.copy_from_slice(bytes);
    let editor =
        Editor::from_mapping(PathBuf::from("u.bin"), m.make_read_only().unwrap(), readonly).unwrap();
    App::new(editor)
}

#[test]
fn info_bar_shows_position_and_flags() {
    let mut app = app_with(&[0u8; 2048], true);
    app.cursor = 300;
    app.modified = true;
    app.selection_start = Some(290);
    assert_eq!(
        info_bar_text(&app, "f.bin"),
        " f.bin | Size: 2.0 KiB | Offset: 0x0000012C (300) | Mode: Hex [MODIFIED] [RO]  Sel: 0x122-0x12C (11 bytes)"
    );
    app.edit_mode = EditMode::Ascii;
    app.modified = false;
    app.selection_start = None;
    assert_eq!(
        info_bar_text(&app, "f.bin"),
        " f.bin | Size: 2.0 KiB | Offset: 0x0000012C (300) | Mode: Ascii [RO]"
    );
}

#[test]
fn hex_view_cells() {
    let mut bytes = vec![0u8; 20];
    bytes[1] = b'A';
    bytes[2] = 0x90;
    let mut app = app_with(&bytes, false);
    app.editor.write_byte(3, 0x33);
    app.cursor = 1;
    app.selection_start = Some(2);
    let lines = hex_lines(&app, 3);
    assert_eq!(lines.len(), 3);
    let first = lines[0].as_ref().unwrap();
    assert_eq!(first.offset_text, "00000000  ");
    assert_eq!(first.cells.len(), 16);
    assert_eq!(first.cells[0].hex, "00");
    assert_eq!(first.cells[0].hex_style, CellStyle::Null);
    assert_eq!(first.cells[0].ascii, '.');
    assert_eq!(first.cells[1].hex, "41");
    assert_eq!(first.cells[1].hex_style, CellStyle::Cursor);
    assert_eq!(first.cells[1].ascii, 'A');
    assert_eq!(first.cells[1].ascii_style, CellStyle::Selected);
    assert_eq!(first.cells[2].hex, "90");
    assert_eq!(first.cells[2].hex_style, CellStyle::Selected);
    assert_eq!(first.cells[2].ascii, '.');
    assert_eq!(first.cells[3].hex_style, CellStyle::Modified);
    assert_eq!(first.cells[3].ascii, '3');
    let second = lines[1].as_ref().unwrap();
    assert_eq!(second.offset_text, "00000010  ");
    assert_eq!(second.cells[4].hex_style, CellStyle::Absent);
    assert_eq!(second.cells[4].hex, "  ");
    assert!(lines[2].is_none());
    app.hex_nibble = Some(0xC);
    let lines = hex_lines(&app, 1);
    let first = lines[0].as_ref().unwrap();
    assert_eq!(first.cells[1].hex, "C_");
    assert_eq!(first.cells[1].hex_style, CellStyle::Pending);
}

#[test]
fn status_line_by_mode() {
    let mut app = app_with(&[0], false);
    let s = status_line(&app);
    assert_eq!(s.kind, StatusKind::Help);
    assert!(s.text.starts_with(" Ctrl+Q:Quit"));
    app.status_msg = Some("Saved".to_string());
    let s = status_line(&app);
    assert_eq!((s.kind, s.text.as_str()), (StatusKind::Message, "Saved"));
    app.input_mode = InputMode::GotoOffset;
    app.status_msg = None;
    app.input_buf = "0x1".to_string();
    let s = status_line(&app);
    assert_eq!((s.kind, s.text.as_str(), s.input.as_str()), (StatusKind::Prompt, "Goto offset: ", "0x1"));
    app.input_mode = InputMode::QuitConfirm;
    let s = status_line(&app);
    assert_eq!((s.kind, s.text.as_str()), (StatusKind::Confirm, "Quit? (Y/n)"));
}

#[test]
fn header_pane_title_and_format_line() {
    assert_eq!(header_title("ELF Binary"), " ELF Binary — Header Info (F1 to return) ");
    assert_eq!(format_line("PNG Image"), "Format: PNG Image");
}

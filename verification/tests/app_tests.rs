use std::path::PathBuf;

use hex_forge::app::App;
use hex_forge::app::EditMode;
use hex_forge::app::InputMode;
use hex_forge::app::Key;
use hex_forge::app::KeyAction;
use hex_forge::app::KeyPress;
use hex_forge::app::View;
use hex_forge::editor::Editor;
use memmap2::MmapOptions;

fn app_with(bytes: &[u8], readonly: bool) -> App {
    let mut m = MmapOptions::new().len(bytes.len()).map_anon().unwrap();
    m.copy_from_slice(bytes);
    let editor =
        Editor::from_mapping(PathBuf::from("a.bin"), m.make_read_only().unwrap(), readonly).unwrap();
    App::new(editor)
}

fn key(k: Key) -> KeyPress {
    KeyPress { key: k, ctrl: false }
}

fn ctrl(c: char) -> KeyPress {
    KeyPress { key: Key::Char(c), ctrl: true }
}

fn typed(app: &mut App, s: &str) {
    for c in s.chars() {
        assert_eq!(app.handle_key(key(Key::Char(c))), KeyAction::Continue);
    }
}

fn status(app: &App) -> &str {
    app.status_msg.as_deref().unwrap_or("")
}

#[test]
fn new_app_starts_at_the_top() {
    let app = app_with(&[1, 2, 3], false);
    assert_eq!(app.cursor, 0);
    assert_eq!(app.scroll_offset, 0);
    assert_eq!(app.visible_lines, 20);
    assert_eq!(app.view, View::Hex);
    assert_eq!(app.edit_mode, EditMode::Hex);
    assert_eq!(app.input_mode, InputMode::Normal);
    assert!(!app.modified);
    assert_eq!(app.file_size(), 3);
}

#[test]
fn cursor_moves_stay_inside_the_file() {
    let mut app = app_with(&[0u8; 40], false);
    app.move_cursor_left();
    assert_eq!(app.cursor, 0);
    app.move_cursor_down();
    assert_eq!(app.cursor, 16);
    app.move_cursor_down();
    assert_eq!(app.cursor, 32);
    app.move_cursor_down();
    assert_eq!(app.cursor, 39);
    app.move_cursor_right();
    assert_eq!(app.cursor, 39);
    app.move_cursor_up();
    assert_eq!(app.cursor, 23);
    app.move_cursor_left();
    assert_eq!(app.cursor, 22);
}

#[test]
fn scrolling_follows_the_cursor() {
    let mut app = app_with(&[0u8; 1000], false);
    app.visible_lines = 4;
    app.page_down();
    assert_eq!(app.cursor, 48);
    assert_eq!(app.scroll_offset, 0);
    app.page_down();
    assert_eq!(app.cursor, 96);
    assert_eq!(app.scroll_offset, 3);
    app.page_up();
    assert_eq!(app.cursor, 48);
    assert_eq!(app.scroll_offset, 0);
    app.page_down();
    app.page_down();
    app.page_down();
    assert_eq!(app.cursor, 192);
    app.cursor = 999;
    app.ensure_cursor_visible();
    assert_eq!(app.scroll_offset, 62 - 4 + 1);
}

#[test]
fn hex_digits_write_a_byte() {
    let mut app = app_with(&[0, 0, 0], false);
    app.input_hex_digit('4');
    assert_eq!(app.hex_nibble, Some(4));
    assert_eq!(app.editor.read_byte(0), Some(0));
    app.input_hex_digit('f');
    assert_eq!(app.editor.read_byte(0), Some(0x4f));
    assert_eq!(app.cursor, 1);
    assert!(app.modified);
    assert_eq!(app.hex_nibble, None);
    app.input_hex_digit('z');
    assert_eq!(app.hex_nibble, None);
}

#[test]
fn ascii_input_writes_and_stops_at_last_byte() {
    let mut app = app_with(&[0, 0], false);
    app.input_ascii_char('h');
    app.input_ascii_char('i');
    app.input_ascii_char('!');
    assert_eq!(app.editor.read_range(0, 2), vec![b'h', b'!']);
    assert_eq!(app.cursor, 1);
}

#[test]
fn readonly_input_only_reports() {
    let mut app = app_with(&[0, 0], true);
    app.input_hex_digit('1');
    assert_eq!(status(&app), "Read-only mode");
    app.input_ascii_char('a');
    assert!(!app.editor.has_edits());
    assert!(!app.modified);
}

#[test]
fn goto_accepts_hex_and_decimal() {
    let mut app = app_with(&[0u8; 300], false);
    app.input_buf = "  0x1F ".to_string();
    app.execute_goto();
    assert_eq!(app.cursor, 0x1F);
    assert_eq!(status(&app), "Jumped to 0x1F");
    assert!(app.input_buf.is_empty());
    app.input_buf = "200".to_string();
    app.execute_goto();
    assert_eq!(app.cursor, 200);
    app.input_buf = "+5".to_string();
    app.execute_goto();
    assert_eq!(app.cursor, 5);
    app.input_buf = "0X2a".to_string();
    app.execute_goto();
    assert_eq!(app.cursor, 42);
    app.input_buf = "300".to_string();
    app.execute_goto();
    assert_eq!(status(&app), "Offset 0x12C is beyond file size");
    assert_eq!(app.cursor, 42);
    app.input_buf = "zz".to_string();
    app.execute_goto();
    assert_eq!(status(&app), "Invalid offset");
    app.input_buf = "99999999999999999999999".to_string();
    app.execute_goto();
    assert_eq!(status(&app), "Invalid offset");
}

#[test]
fn search_hex_and_ascii_with_wrap() {
    let mut app = app_with(b"xxABxxAB", false);
    app.input_buf = "41 42".to_string();
    app.execute_search();
    assert_eq!(app.cursor, 2);
    assert_eq!(status(&app), "Found at 0x2");
    assert_eq!(app.search_pattern, vec![0x41, 0x42]);
    assert_eq!(app.search_query, "41 42");
    app.find_next();
    assert_eq!(app.cursor, 6);
    app.find_next();
    assert_eq!(app.cursor, 2);
    assert_eq!(status(&app), "Found at 0x2 (wrapped)");
    app.input_buf = "xA".to_string();
    app.execute_search();
    assert_eq!(app.cursor, 5);
    assert_eq!(app.search_pattern, b"xA".to_vec());
    app.input_buf = "   ".to_string();
    app.execute_search();
    assert_eq!(status(&app), "Empty search");
    app.input_buf = "zz".to_string();
    app.execute_search();
    assert_eq!(status(&app), "Pattern not found");
}

#[test]
fn search_wraps_to_the_start() {
    let mut app = app_with(b"QRxxxx", false);
    app.cursor = 4;
    app.input_buf = "QR".to_string();
    app.execute_search();
    assert_eq!(app.cursor, 0);
    assert_eq!(status(&app), "Found at 0x0 (wrapped)");
}

#[test]
fn find_next_without_search() {
    let mut app = app_with(b"abc", false);
    app.find_next();
    assert_eq!(status(&app), "No previous search");
}

#[test]
fn find_next_reports_no_more_matches() {
    let mut app = app_with(b"ab", false);
    app.search_pattern = vec![b'b'];
    app.cursor = 0;
    app.find_next();
    assert_eq!(app.cursor, 1);
    app.search_pattern = vec![b'z'];
    app.find_next();
    assert_eq!(status(&app), "No more matches");
}

#[test]
fn selection_and_copy() {
    let mut app = app_with(&[0xDE, 0xAD, 0xBE, 0xEF], false);
    assert_eq!(app.selection_range(), None);
    app.cursor = 3;
    app.selection_start = Some(1);
    assert_eq!(app.selection_range(), Some((1, 3)));
    app.copy_selection();
    assert_eq!(app.clipboard.as_deref(), Some("AD BE EF"));
    assert_eq!(app.selection_start, None);
    assert_eq!(status(&app), "Copied 3 bytes to clipboard");
}

#[test]
fn save_outcomes_are_reported() {
    let mut app = app_with(&[0], false);
    app.modified = true;
    app.note_save_failed("disk full");
    assert_eq!(status(&app), "Save failed: disk full");
    assert!(app.modified);
    app.note_saved();
    assert_eq!(status(&app), "Saved");
    assert!(!app.modified);
}

#[test]
fn keys_drive_editing_and_quitting() {
    let mut app = app_with(&[0u8; 64], false);
    typed(&mut app, "1e");
    assert_eq!(app.editor.read_byte(0), Some(0x1e));
    assert_eq!(app.handle_key(ctrl('q')), KeyAction::Continue);
    assert_eq!(app.input_mode, InputMode::QuitConfirm);
    assert_eq!(app.handle_key(key(Key::Char('n'))), KeyAction::Continue);
    assert_eq!(status(&app), "Quit cancelled");
    assert_eq!(app.handle_key(ctrl('s')), KeyAction::Save);
    app.modified = false;
    assert_eq!(app.handle_key(ctrl('q')), KeyAction::Quit);
}

#[test]
fn quit_confirmation_accepts_y() {
    let mut app = app_with(&[0], false);
    app.modified = true;
    app.handle_key(ctrl('q'));
    assert_eq!(app.handle_key(key(Key::Char('Y'))), KeyAction::Quit);
}

#[test]
fn goto_prompt_by_keys() {
    let mut app = app_with(&[0u8; 64], false);
    app.handle_key(ctrl('g'));
    assert_eq!(app.input_mode, InputMode::GotoOffset);
    typed(&mut app, "0x33");
    app.handle_key(key(Key::Backspace));
    typed(&mut app, "4");
    assert_eq!(app.input_buf, "0x34");
    app.handle_key(key(Key::Enter));
    assert_eq!(app.input_mode, InputMode::Normal);
    assert_eq!(app.cursor, 0x34);
    app.handle_key(key(Key::Char('/')));
    assert_eq!(app.input_mode, InputMode::Search);
    typed(&mut app, "zz");
    app.handle_key(key(Key::Esc));
    assert_eq!(app.input_mode, InputMode::Normal);
    assert!(app.input_buf.is_empty());
}

#[test]
fn home_end_tab_view_and_selection_keys() {
    let mut app = app_with(&[0u8; 40], false);
    app.cursor = 21;
    app.handle_key(key(Key::Home));
    assert_eq!(app.cursor, 16);
    app.handle_key(key(Key::End));
    assert_eq!(app.cursor, 31);
    app.handle_key(KeyPress { key: Key::End, ctrl: true });
    assert_eq!(app.cursor, 39);
    app.handle_key(key(Key::End));
    assert_eq!(app.cursor, 39);
    app.handle_key(KeyPress { key: Key::Home, ctrl: true });
    assert_eq!(app.cursor, 0);
    app.handle_key(key(Key::Char('v')));
    assert_eq!(app.selection_start, Some(0));
    app.handle_key(key(Key::Right));
    app.handle_key(key(Key::Char('y')));
    assert_eq!(app.clipboard.as_deref(), Some("00 00"));
    app.handle_key(key(Key::Tab));
    assert_eq!(app.edit_mode, EditMode::Ascii);
    assert_eq!(status(&app), "Edit mode: Ascii");
    typed(&mut app, "v");
    assert_eq!(app.editor.read_byte(1), Some(b'v'));
    app.handle_key(key(Key::F(1)));
    assert_eq!(app.view, View::Info);
    typed(&mut app, "w");
    assert_eq!(app.editor.read_byte(2), Some(0));
    app.handle_key(key(Key::Esc));
    assert_eq!(app.status_msg, None);
}

#[test]
fn uppercase_hex_letter_is_flagged() {
    let app = app_with(&[0], false);
    assert!(app.key_overflows(key(Key::Char('B'))));
    assert!(!app.key_overflows(key(Key::Char('b'))));
    let ro = app_with(&[0], true);
    assert!(!ro.key_overflows(key(Key::Char('B'))));
    let mut ascii = app_with(&[0], false);
    ascii.handle_key(key(Key::Tab));
    assert!(!ascii.key_overflows(key(Key::Char('B'))));
}

#[test]
fn goto_accepts_offsets_as_shown() {
    let mut app = app_with(&[0u8; 5000], false);
    for off in [0usize, 9, 10, 255, 4096, 4999] {
        app.input_buf = format!("0x{:X}", off);
        app.execute_goto();
        assert_eq!(app.cursor, off);
        assert_eq!(status(&app), format!("Jumped to 0x{:X}", off));
        app.input_buf = off.to_string();
        app.execute_goto();
        assert_eq!(app.cursor, off);
    }
}

#[test]
fn copied_text_searches_for_the_same_bytes() {
    let mut app = app_with(&[0x00, 0x0A, 0xFF, 0x10, 0x0A, 0xFF, 0x10], false);
    app.cursor = 3;
    app.selection_start = Some(1);
    app.copy_selection();
    let copied = app.clipboard.clone().unwrap();
    assert_eq!(copied, "0A FF 10");
    app.cursor = 2;
    app.input_buf = copied;
    app.execute_search();
    assert_eq!(app.search_pattern, vec![0x0A, 0xFF, 0x10]);
    assert_eq!(app.cursor, 4);
}

#[test]
fn readonly_keys_keep_bytes() {
    let mut app = app_with(&[1, 2, 3], true);
    for k in ['1', '2', 'a', 'B', 'x'] {
        app.handle_key(key(Key::Char(k)));
    }
    app.handle_key(key(Key::Tab));
    for k in ['h', 'i'] {
        app.handle_key(key(Key::Char(k)));
    }
    assert!(!app.editor.has_edits());
    assert_eq!(app.editor.read_range(0, 3), vec![1, 2, 3]);
    assert!(!app.modified);
}

#[test]
fn every_key_keeps_the_cursor_visible() {
    let mut app = app_with(&[0x41u8; 2000], false);
    app.visible_lines = 3;
    let keys = [
        key(Key::PageDown),
        key(Key::PageDown),
        key(Key::Down),
        key(Key::End),
        ctrl_key(Key::End),
        key(Key::PageUp),
        key(Key::Up),
        key(Key::Home),
        ctrl_key(Key::Home),
        key(Key::Right),
        key(Key::Char('a')),
        key(Key::Char('b')),
        key(Key::Left),
    ];
    for k in keys {
        app.handle_key(k);
        let line = app.cursor / 16;
        assert!(app.scroll_offset <= line && line < app.scroll_offset + app.visible_lines);
    }
    app.handle_key(ctrl('g'));
    typed(&mut app, "1500");
    app.handle_key(key(Key::Enter));
    assert_eq!(app.cursor, 1500);
    let line = app.cursor / 16;
    assert!(app.scroll_offset <= line && line < app.scroll_offset + app.visible_lines);
}

fn ctrl_key(k: Key) -> KeyPress {
    KeyPress { key: k, ctrl: true }
}

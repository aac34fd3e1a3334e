use std::path::PathBuf;

use hex_forge::editor::Editor;
use hex_forge::editor::OpenError;
use hex_forge::editor::SaveError;
use memmap2::Mmap;
use memmap2::MmapOptions;

/// A read-only mapping holding `bytes`.
fn mapping_of(bytes: &[u8]) -> Mmap {
    let mut m = MmapOptions::new().len(bytes.len()).map_anon().unwrap();
    m.copy_from_slice(bytes);
    m.make_read_only().unwrap()
}

/// An editor over `bytes`.
fn editor_with(bytes: &[u8], readonly: bool) -> Editor {
    Editor::from_mapping(PathBuf::from("test.bin"), mapping_of(bytes), readonly).unwrap()
}

#[test]
fn read_byte_and_range_from_mmap() {
    let editor = editor_with(&[0x10, 0x20, 0x30, 0x40], false);
    assert_eq!(editor.file_size(), 4);
    assert_eq!(editor.read_byte(0), Some(0x10));
    assert_eq!(editor.read_byte(3), Some(0x40));
    assert_eq!(editor.read_byte(4), None);
    assert_eq!(editor.read_range(1, 2), vec![0x20, 0x30]);
    // read_range is clamped to file size
    assert_eq!(editor.read_range(2, 10), vec![0x30, 0x40]);
    // start at or past EOF yields an empty Vec (no underflow panic)
    assert_eq!(editor.read_range(4, 4), Vec::<u8>::new());
    assert_eq!(editor.read_range(100, 8), Vec::<u8>::new());
}

#[test]
fn write_byte_overlays_without_touching_disk() {
    let mut editor = editor_with(&[0xAA, 0xBB], false);
    assert!(!editor.is_modified(0));
    assert!(editor.write_byte(0, 0xFF));
    assert_eq!(editor.read_byte(0), Some(0xFF));
    assert!(editor.is_modified(0));
    assert!(editor.has_edits());
    // Out-of-range write is rejected
    assert!(!editor.write_byte(99, 0x00));
}

#[test]
fn readonly_rejects_writes() {
    let mut editor = editor_with(&[0x01, 0x02], true);
    assert!(!editor.write_byte(0, 0xFF));
    assert_eq!(editor.read_byte(0), Some(0x01));
    assert!(!editor.has_edits());
}

#[test]
fn empty_file_is_rejected() {
    match Editor::from_mapping(PathBuf::from("empty.bin"), mapping_of(&[]), false) {
        Err(e) => assert_eq!(e, OpenError::EmptyFile),
        Ok(_) => panic!("expected empty file to be rejected"),
    }
}

#[test]
fn search_finds_pattern_and_respects_start() {
    let editor = editor_with(&[0x00, 0xDE, 0xAD, 0xBE, 0xEF, 0xDE, 0xAD], false);
    assert_eq!(editor.search(&[0xDE, 0xAD], 0), Some(1));
    // starting past the first match finds the second occurrence
    assert_eq!(editor.search(&[0xDE, 0xAD], 2), Some(5));
    assert_eq!(editor.search(&[0x12, 0x34], 0), None);
    // empty pattern / out-of-range start return None
    assert_eq!(editor.search(&[], 0), None);
    assert_eq!(editor.search(&[0x00], 99), None);
}

#[test]
fn search_reflects_overlay_edits() {
    let mut editor = editor_with(&[0x00, 0x00, 0x00], false);
    assert_eq!(editor.search(&[0xCA, 0xFE], 0), None);
    editor.write_byte(1, 0xCA);
    editor.write_byte(2, 0xFE);
    assert_eq!(editor.search(&[0xCA, 0xFE], 0), Some(1));
}

#[test]
fn save_persists_edits_to_disk() {
    // The "disk" is a byte buffer: the writes handed out by the save are applied
    // to it, and the editor is then given a mapping of the result.
    let mut disk = vec![0x01, 0x02, 0x03];
    let mut editor = editor_with(&disk, false);
    editor.write_byte(1, 0xFF);
    let writes = editor.begin_save().unwrap();
    for &(offset, byte) in &writes {
        disk[offset] = byte;
    }
    assert!(editor.end_save(true, Some(mapping_of(&disk))));
    assert!(!editor.has_edits());
    assert_eq!(disk, vec![0x01, 0xFF, 0x03]);
    assert_eq!(editor.read_range(0, 3), vec![0x01, 0xFF, 0x03]);
}

#[test]
fn path_is_kept() {
    let editor = Editor::from_mapping(PathBuf::from("dir/name.bin"), mapping_of(&[1]), true).unwrap();
    assert_eq!(editor.path(), &PathBuf::from("dir/name.bin"));
    assert!(editor.readonly());
    assert!(editor.readonly);
}

#[test]
fn write_then_read_changes_only_that_byte() {
    let mut editor = editor_with(&[1, 2, 3, 4], false);
    assert!(editor.write_byte(2, 9));
    assert_eq!(editor.read_range(0, 4), vec![1, 2, 9, 4]);
    assert!(editor.write_byte(2, 7));
    assert_eq!(editor.read_byte(2), Some(7));
    assert!(!editor.is_modified(1));
}

#[test]
fn search_pattern_longer_than_file_finds_nothing() {
    let editor = editor_with(&[1, 2], false);
    assert_eq!(editor.search(&[1, 2, 3], 0), None);
    assert_eq!(editor.search(&[1, 2], 0), Some(0));
    assert_eq!(editor.search(&[2], 1), Some(1));
}

#[test]
fn save_on_readonly_is_refused() {
    let mut editor = editor_with(&[1, 2], true);
    assert!(matches!(editor.begin_save(), Err(SaveError::ReadOnly)));
}

#[test]
fn save_without_edits_writes_nothing() {
    let mut editor = editor_with(&[1, 2], false);
    assert!(editor.begin_save().unwrap().is_empty());
    // the mapping was kept: bytes still readable
    assert_eq!(editor.read_byte(1), Some(2));
}

#[test]
fn failed_save_keeps_edits() {
    let mut editor = editor_with(&[1, 2, 3], false);
    editor.write_byte(0, 0xAB);
    editor.write_byte(2, 0xCD);
    let mut writes = editor.begin_save().unwrap();
    writes.sort();
    assert_eq!(writes, vec![(0, 0xAB), (2, 0xCD)]);
    // while unmapped, only modified bytes can be read
    assert_eq!(editor.read_byte(1), None);
    assert!(!editor.end_save(false, Some(mapping_of(&[1, 2, 3]))));
    assert!(editor.has_edits());
    assert_eq!(editor.read_range(0, 3), vec![0xAB, 2, 0xCD]);
}

#[test]
fn failed_remap_leaves_file_unmapped() {
    let mut editor = editor_with(&[1, 2, 3], false);
    editor.write_byte(1, 5);
    editor.begin_save().unwrap();
    assert!(!editor.end_save(true, None));
    assert_eq!(editor.read_byte(0), None);
    assert_eq!(editor.read_byte(1), Some(5));
    // unavailable bytes read as zero in ranges
    assert_eq!(editor.read_range(0, 3), vec![0, 5, 0]);
}

#[test]
fn read_range_clamps_any_length() {
    let editor = editor_with(&[1, 2, 3, 4], false);
    assert_eq!(editor.read_range(1, usize::MAX), vec![2, 3, 4]);
    assert_eq!(editor.read_range(3, usize::MAX - 1), vec![4]);
    assert_eq!(editor.read_range(usize::MAX, usize::MAX), Vec::<u8>::new());
}

#[test]
fn mapping_fits_compares_lengths() {
    let editor = editor_with(&[1, 2, 3], false);
    assert!(editor.mapping_fits(&mapping_of(&[9, 9, 9])));
    assert!(!editor.mapping_fits(&mapping_of(&[9, 9])));
    assert!(!editor.mapping_fits(&mapping_of(&[9, 9, 9, 9])));
}

#[test]
fn modified_bytes_are_those_written_since_the_last_save() {
    let mut editor = editor_with(&[1, 2, 3], false);
    assert!(!editor.has_edits());
    assert!(editor.write_byte(0, 7));
    assert!(!editor.write_byte(5, 7));
    editor.begin_save().unwrap();
    assert!(editor.end_save(true, Some(mapping_of(&[7, 2, 3]))));
    assert!(!editor.is_modified(0));
    assert!(editor.write_byte(2, 8));
    assert!(editor.is_modified(2));
    assert!(!editor.is_modified(0));
    assert!(!editor.is_modified(5));
    let mut ro = editor_with(&[1, 2, 3], true);
    assert!(!ro.write_byte(1, 4));
    assert!(!ro.has_edits());
}

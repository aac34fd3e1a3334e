use std::path::PathBuf;

use hex_forge::editor::Editor;
use hex_forge::header::format_size;
use hex_forge::header::lossy_text;
use hex_forge::header::parse_header;
use hex_forge::header::quote_gguf_prefix;
use hex_forge::header::quote_gguf_text;
use hex_forge::header::try_parse_header;
use hex_forge::header::FieldValue;
use hex_forge::header::HeaderInfo;
use memmap2::MmapOptions;

fn editor_with(bytes: &[u8]) -> Editor {
    let mut m = MmapOptions::new().len(bytes.len()).map_anon().unwrap();
    m.copy_from_slice(bytes);
    Editor::from_mapping(PathBuf::from("h.bin"), m.make_read_only().unwrap(), true).unwrap()
}

fn text_fields(info: &HeaderInfo) -> Vec<(String, String)> {
    info.fields
        .iter()
        .map(|(k, v)| match v {
            FieldValue::Text(t) => (k.clone(), t.clone()),
            FieldValue::Float32(b) => (k.clone(), format!("f32:{:08X}", b)),
            FieldValue::Float64(b) => (k.clone(), format!("f64:{:016X}", b)),
        })
        .collect()
}

fn pairs(v: &[(&str, &str)]) -> Vec<(String, String)> {
    v.iter().map(|(k, v)| (k.to_string(), v.to_string())).collect()
}

fn put(buf: &mut Vec<u8>, at: usize, bytes: &[u8]) {
    buf[at..at + bytes.len()].copy_from_slice(bytes);
}

#[test]
fn elf64_header_fields() {
    let mut b = vec![0u8; 64];
    put(&mut b, 0, &[0x7f, b'E', b'L', b'F', 2, 1, 1, 3]);
    put(&mut b, 16, &2u16.to_le_bytes());
    put(&mut b, 18, &0x3Eu16.to_le_bytes());
    put(&mut b, 24, &0x401000u64.to_le_bytes());
    put(&mut b, 32, &64u64.to_le_bytes());
    put(&mut b, 40, &0x1A2Bu64.to_le_bytes());
    put(&mut b, 56, &9u16.to_le_bytes());
    put(&mut b, 60, &30u16.to_le_bytes());
    let info = parse_header(&editor_with(&b));
    assert_eq!(info.format_name, "ELF Binary");
    assert_eq!(
        text_fields(&info),
        pairs(&[
            ("Magic", "7F 45 4C 46 (ELF)"),
            ("Class", "64-bit (ELF64)"),
            ("Endianness", "Little-endian"),
            ("ELF Version", "1"),
            ("OS/ABI", "Linux (3)"),
            ("Type", "Executable (ET_EXEC)"),
            ("Machine", "x86-64 (0x3E)"),
            ("Entry point", "0x0000000000401000"),
            ("Program header offset", "0x40"),
            ("Section header offset", "0x1A2B"),
            ("Program headers", "9"),
            ("Section headers", "30"),
            ("File size", "64 B"),
        ])
    );
}

#[test]
fn elf32_header_fields() {
    let mut b = vec![0u8; 52];
    put(&mut b, 0, &[0x7f, b'E', b'L', b'F', 1, 1, 1, 0]);
    put(&mut b, 16, &3u16.to_le_bytes());
    put(&mut b, 18, &0x28u16.to_le_bytes());
    put(&mut b, 24, &0x8000u32.to_le_bytes());
    put(&mut b, 28, &52u32.to_le_bytes());
    put(&mut b, 32, &0x200u32.to_le_bytes());
    put(&mut b, 42, &32u16.to_le_bytes());
    put(&mut b, 44, &3u16.to_le_bytes());
    put(&mut b, 48, &5u16.to_le_bytes());
    let info = parse_header(&editor_with(&b));
    assert_eq!(
        text_fields(&info),
        pairs(&[
            ("Magic", "7F 45 4C 46 (ELF)"),
            ("Class", "32-bit (ELF32)"),
            ("Endianness", "Little-endian"),
            ("ELF Version", "1"),
            ("OS/ABI", "UNIX System V (0)"),
            ("Type", "Shared object (ET_DYN)"),
            ("Machine", "ARM (0x28)"),
            ("Entry point", "0x00008000"),
            ("Program header offset", "0x34"),
            ("Section header offset", "0x200"),
            ("Program headers", "3"),
            ("Section headers", "5"),
            ("File size", "52 B"),
        ])
    );
}

#[test]
fn big_endian_elf32_header_fields() {
    let mut b = vec![0u8; 52];
    put(&mut b, 0, &[0x7f, b'E', b'L', b'F', 1, 2, 1, 0]);
    put(&mut b, 16, &2u16.to_be_bytes());
    put(&mut b, 18, &8u16.to_be_bytes());
    put(&mut b, 24, &0x400100u32.to_be_bytes());
    put(&mut b, 28, &52u32.to_be_bytes());
    put(&mut b, 32, &0x1234u32.to_be_bytes());
    put(&mut b, 42, &32u16.to_be_bytes());
    put(&mut b, 44, &7u16.to_be_bytes());
    put(&mut b, 48, &0x21u16.to_be_bytes());
    let info = parse_header(&editor_with(&b));
    assert_eq!(
        text_fields(&info),
        pairs(&[
            ("Magic", "7F 45 4C 46 (ELF)"),
            ("Class", "32-bit (ELF32)"),
            ("Endianness", "Big-endian"),
            ("ELF Version", "1"),
            ("OS/ABI", "UNIX System V (0)"),
            ("Type", "Executable (ET_EXEC)"),
            ("Machine", "Other (0x8)"),
            ("Entry point", "0x00400100"),
            ("Program header offset", "0x34"),
            ("Section header offset", "0x1234"),
            ("Program headers", "7"),
            ("Section headers", "33"),
            ("File size", "52 B"),
        ])
    );
}

#[test]
fn big_endian_elf64_header_fields() {
    let mut b = vec![0u8; 64];
    put(&mut b, 0, &[0x7f, b'E', b'L', b'F', 2, 2, 1, 0]);
    put(&mut b, 16, &3u16.to_be_bytes());
    put(&mut b, 18, &0xB7u16.to_be_bytes());
    put(&mut b, 24, &0x10000u64.to_be_bytes());
    put(&mut b, 32, &64u64.to_be_bytes());
    put(&mut b, 40, &0x5000u64.to_be_bytes());
    put(&mut b, 56, &4u16.to_be_bytes());
    put(&mut b, 60, &12u16.to_be_bytes());
    let f = text_fields(&parse_header(&editor_with(&b)));
    assert_eq!(f[5], ("Type".to_string(), "Shared object (ET_DYN)".to_string()));
    assert_eq!(f[6], ("Machine".to_string(), "AArch64 (0xB7)".to_string()));
    assert_eq!(f[7], ("Entry point".to_string(), "0x0000000000010000".to_string()));
    assert_eq!(f[8], ("Program header offset".to_string(), "0x40".to_string()));
    assert_eq!(f[9], ("Section header offset".to_string(), "0x5000".to_string()));
    assert_eq!(f[10], ("Program headers".to_string(), "4".to_string()));
    assert_eq!(f[11], ("Section headers".to_string(), "12".to_string()));
}

#[test]
fn truncated_elf_reads_missing_fields_as_zero() {
    let b = [0x7f, b'E', b'L', b'F', 7];
    let info = parse_header(&editor_with(&b));
    assert_eq!(
        text_fields(&info),
        pairs(&[
            ("Magic", "7F 45 4C 46 (ELF)"),
            ("Class", "Unknown"),
            ("Endianness", "Unknown"),
            ("ELF Version", "0"),
            ("OS/ABI", "UNIX System V (0)"),
            ("Type", "Unknown"),
            ("Machine", "Other (0x0)"),
            ("File size", "5 B"),
        ])
    );
}

#[test]
fn pe_header_fields() {
    let mut b = vec![0u8; 0x90];
    put(&mut b, 0, b"MZ");
    put(&mut b, 0x3C, &0x80u32.to_le_bytes());
    put(&mut b, 0x80, b"PE\0\0");
    put(&mut b, 0x84, &0x8664u16.to_le_bytes());
    put(&mut b, 0x86, &6u16.to_le_bytes());
    let info = parse_header(&editor_with(&b));
    assert_eq!(info.format_name, "PE Executable");
    assert_eq!(
        text_fields(&info),
        pairs(&[
            ("Magic", "4D 5A (MZ / PE)"),
            ("PE Signature", "at 0x80"),
            ("Machine", "x86-64 (0x8664)"),
            ("Sections", "6"),
            ("File size", "144 B"),
        ])
    );
}

#[test]
fn pe_without_signature_shows_magic_only() {
    let mut b = vec![0u8; 0x50];
    put(&mut b, 0, b"MZ");
    put(&mut b, 0x3C, &0x1000u32.to_le_bytes());
    let info = parse_header(&editor_with(&b));
    assert_eq!(text_fields(&info), pairs(&[("Magic", "4D 5A (MZ / PE)"), ("File size", "80 B")]));
}

#[test]
fn pe_optional_header_fields() {
    let mut b = vec![0u8; 0x100];
    put(&mut b, 0, b"MZ");
    put(&mut b, 0x3C, &0x80u32.to_le_bytes());
    put(&mut b, 0x80, b"PE\0\0");
    put(&mut b, 0x84, &0x14cu16.to_le_bytes());
    put(&mut b, 0x86, &3u16.to_le_bytes());
    put(&mut b, 0x94, &0xE0u16.to_le_bytes());
    put(&mut b, 0x98, &0x10bu16.to_le_bytes());
    put(&mut b, 0xA8, &0x1234u32.to_le_bytes());
    let info = parse_header(&editor_with(&b));
    assert_eq!(
        text_fields(&info),
        pairs(&[
            ("Magic", "4D 5A (MZ / PE)"),
            ("PE Signature", "at 0x80"),
            ("Machine", "i386 (0x14C)"),
            ("Sections", "3"),
            ("Optional header", "PE32 (0x10B)"),
            ("Entry point", "0x00001234"),
            ("File size", "256 B"),
        ])
    );
    put(&mut b, 0x98, &0x20bu16.to_le_bytes());
    let f = text_fields(&parse_header(&editor_with(&b)));
    assert_eq!(f[4].1, "PE32+ (0x20B)");
}

#[test]
fn png_header_fields() {
    let mut b = vec![0u8; 33];
    put(&mut b, 0, &[0x89, b'P', b'N', b'G', 0x0D, 0x0A, 0x1A, 0x0A]);
    put(&mut b, 16, &640u32.to_be_bytes());
    put(&mut b, 20, &480u32.to_be_bytes());
    b[24] = 8;
    b[25] = 6;
    let info = parse_header(&editor_with(&b));
    assert_eq!(info.format_name, "PNG Image");
    assert_eq!(
        text_fields(&info),
        pairs(&[
            ("Magic", "89 50 4E 47 (PNG)"),
            ("Dimensions", "640x480"),
            ("Bit depth", "8"),
            ("Color type", "RGBA (6)"),
            ("File size", "33 B"),
        ])
    );
}

#[test]
fn short_png_has_no_image_fields() {
    let b = [0x89, b'P', b'N', b'G', 0, 0, 0, 0, 0, 0];
    let info = parse_header(&editor_with(&b));
    assert_eq!(text_fields(&info), pairs(&[("Magic", "89 50 4E 47 (PNG)"), ("File size", "10 B")]));
}

#[test]
fn generic_text_and_binary() {
    let info = parse_header(&editor_with(b"hello, world\n"));
    assert_eq!(info.format_name, "Unknown Format");
    assert_eq!(
        text_fields(&info),
        pairs(&[
            ("First 16 bytes", "68 65 6C 6C 6F 2C 20 77 6F 72 6C 64 0A"),
            ("Likely type", "Text / ASCII"),
            ("File size", "13 B"),
        ])
    );
    let info = parse_header(&editor_with(&[0u8, 1, 2, 3, 0xff]));
    assert_eq!(
        text_fields(&info),
        pairs(&[
            ("First 16 bytes", "00 01 02 03 FF"),
            ("Likely type", "Binary (unknown format)"),
            ("File size", "5 B"),
        ])
    );
}

#[test]
fn generic_threshold_is_strictly_above_85_percent() {
    // 17 printable bytes out of 20 is exactly 85%: not text.
    let mut b = vec![b'a'; 17];
    b.extend_from_slice(&[0, 0, 0]);
    let info = parse_header(&editor_with(&b));
    assert_eq!(text_fields(&info)[1].1, "Binary (unknown format)");
    // 18 out of 20 is text.
    let mut b = vec![b'a'; 18];
    b.extend_from_slice(&[0, 0]);
    let info = parse_header(&editor_with(&b));
    assert_eq!(text_fields(&info)[1].1, "Text / ASCII");
}

fn gguf_entry(buf: &mut Vec<u8>, key: &str, vtype: u32, value: &[u8]) {
    buf.extend_from_slice(&(key.len() as u64).to_le_bytes());
    buf.extend_from_slice(key.as_bytes());
    buf.extend_from_slice(&vtype.to_le_bytes());
    buf.extend_from_slice(value);
}

fn gguf_string(s: &[u8]) -> Vec<u8> {
    let mut v = (s.len() as u64).to_le_bytes().to_vec();
    v.extend_from_slice(s);
    v
}

fn gguf_file(kv: u64) -> Vec<u8> {
    let mut b = b"GGUF".to_vec();
    b.extend_from_slice(&3u32.to_le_bytes());
    b.extend_from_slice(&2u64.to_le_bytes());
    b.extend_from_slice(&kv.to_le_bytes());
    b
}

#[test]
fn gguf_metadata_entries() {
    let mut b = gguf_file(5);
    gguf_entry(&mut b, "general.name", 8, &gguf_string(b"llama"));
    gguf_entry(&mut b, "n", 4, &7u32.to_le_bytes());
    gguf_entry(&mut b, "neg", 5, &(-3i32).to_le_bytes());
    gguf_entry(&mut b, "f", 6, &1.5f32.to_bits().to_le_bytes());
    gguf_entry(&mut b, "ok", 7, &[1]);
    let info = parse_header(&editor_with(&b));
    assert_eq!(info.format_name, "GGUF Model");
    let size = format!("{} B", b.len());
    assert_eq!(
        text_fields(&info),
        pairs(&[
            ("Magic", "47 47 55 46 (GGUF)"),
            ("Version", "3"),
            ("Tensor count", "2"),
            ("Metadata KV count", "5"),
            ("general.name", "\"llama\""),
            ("n", "7"),
            ("neg", "-3"),
            ("f", "f32:3FC00000"),
            ("ok", "true"),
            ("File size", size.as_str()),
        ])
    );
    assert_eq!(info.fields[7].1, FieldValue::Float32(1.5f32.to_bits()));
}

#[test]
fn gguf_array_stops_listing() {
    let mut b = gguf_file(3);
    gguf_entry(&mut b, "x", 9, &[0; 12]);
    gguf_entry(&mut b, "y", 0, &[1]);
    let info = parse_header(&editor_with(&b));
    let f = text_fields(&info);
    assert_eq!(f[4], ("x".to_string(), "<type 9 — skipped>".to_string()));
    assert_eq!(f.len(), 6);
}

#[test]
fn gguf_long_string_is_shortened() {
    let mut b = gguf_file(1);
    gguf_entry(&mut b, "s", 8, &gguf_string(&[b'a'; 90]));
    let info = parse_header(&editor_with(&b));
    let expected = format!("\"{}...\"", "a".repeat(77));
    assert_eq!(text_fields(&info)[4].1, expected);
}

#[test]
fn gguf_overrunning_string_shows_prefix_and_length() {
    let mut b = gguf_file(1);
    let mut value = 2000u64.to_le_bytes().to_vec();
    value.extend_from_slice(b"abc");
    gguf_entry(&mut b, "s", 8, &value);
    let info = parse_header(&editor_with(&b));
    assert_eq!(text_fields(&info)[4].1, "\"abc...\" (len=2000)");
}

#[test]
fn gguf_string_is_cut_before_a_split_character() {
    let mut b = gguf_file(1);
    let mut s = vec![b'a'; 76];
    s.extend_from_slice("é".as_bytes());
    s.extend_from_slice(b"bbb");
    gguf_entry(&mut b, "s", 8, &gguf_string(&s));
    let info = try_parse_header(&editor_with(&b)).unwrap();
    let expected = format!("\"{}...\"", "a".repeat(76));
    assert_eq!(text_fields(&info)[4].1, expected);
}

#[test]
fn quoted_gguf_strings() {
    assert_eq!(quote_gguf_text("llama"), "\"llama\"");
    assert_eq!(quote_gguf_text(&"x".repeat(80)), format!("\"{}\"", "x".repeat(80)));
    assert_eq!(quote_gguf_text(&"x".repeat(81)), format!("\"{}...\"", "x".repeat(77)));
    let mut t = "y".repeat(75);
    t.push_str("€€");
    assert_eq!(quote_gguf_text(&t), format!("\"{}...\"", "y".repeat(75)));
    assert_eq!(quote_gguf_prefix("abc", 2000), "\"abc...\" (len=2000)");
}

#[test]
fn lossy_text_decodes_valid_utf8_and_replaces_the_rest() {
    assert_eq!(lossy_text(&[0x61]), "a");
    assert_eq!(lossy_text("é".as_bytes()), "é");
    assert_eq!(lossy_text(&[0x61, 0xff, 0x62]), "a\u{FFFD}b");
}

#[test]
fn gguf_entries_limited_to_twenty() {
    let mut b = gguf_file(25);
    for i in 0..25u8 {
        gguf_entry(&mut b, &format!("k{}", i), 0, &[i]);
    }
    let info = parse_header(&editor_with(&b));
    assert_eq!(info.fields.len(), 4 + 20 + 1);
}

#[test]
fn gguf_invalid_utf8_key_is_replaced() {
    // a key of one byte that is not UTF-8
    let mut b = gguf_file(1);
    b.extend_from_slice(&1u64.to_le_bytes());
    b.push(0xff);
    b.extend_from_slice(&0u32.to_le_bytes());
    b.push(42);
    let info = parse_header(&editor_with(&b));
    assert_eq!(text_fields(&info)[4], ("\u{FFFD}".to_string(), "42".to_string()));
}

#[test]
fn format_size_examples() {
    assert_eq!(format_size(0), "0 B");
    assert_eq!(format_size(1023), "1023 B");
    assert_eq!(format_size(1024), "1.0 KiB (1024 bytes)");
    assert_eq!(format_size(1536), "1.5 KiB (1536 bytes)");
    assert_eq!(format_size(1280), "1.2 KiB (1280 bytes)");
    assert_eq!(format_size(1792), "1.8 KiB (1792 bytes)");
    assert_eq!(format_size(3 * 1024 * 1024), "3.0 MiB (3145728 bytes)");
    assert_eq!(format_size(2147483648), "2.00 GiB (2147483648 bytes)");
}

#[test]
fn format_size_matches_float_rendering() {
    let mut values: Vec<usize> = Vec::new();
    for i in 0..5000usize {
        values.push(i * 7 + 1000);
        values.push(i * 1031 + 1048000);
        values.push(i * 104729 + 1073000000);
    }
    values.extend_from_slice(&[
        usize::MAX,
        usize::MAX - 1,
        (1usize << 53) + 1,
        (1usize << 60) + 12345,
        1073741824 * 5 / 2,
        1073741824 + 5368709,
    ]);
    for &bytes in &values {
        let expected = if bytes < 1024 {
            format!("{} B", bytes)
        } else if bytes < 1024 * 1024 {
            format!("{:.1} KiB ({} bytes)", bytes as f64 / 1024.0, bytes)
        } else if bytes < 1024 * 1024 * 1024 {
            format!("{:.1} MiB ({} bytes)", bytes as f64 / (1024.0 * 1024.0), bytes)
        } else {
            format!("{:.2} GiB ({} bytes)", bytes as f64 / (1024.0 * 1024.0 * 1024.0), bytes)
        };
        assert_eq!(format_size(bytes), expected, "size {}", bytes);
    }
}

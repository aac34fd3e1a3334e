use hex_forge::chars::parse_usize_radix;
use hex_forge::chars::trimmed;
use hex_forge::text::dec_string;
use hex_forge::text::hex_bytes_string;
use hex_forge::text::hex_string;
use hex_forge::ui::format_size;
use hex_forge::ui::key_column;

#[test]
fn numbers_as_text() {
    assert_eq!(dec_string(0), "0");
    assert_eq!(dec_string(1234567890), "1234567890");
    assert_eq!(dec_string(u64::MAX), "18446744073709551615");
    assert_eq!(hex_string(0x3E, 0), "3E");
    assert_eq!(hex_string(0x401000, 16), "0000000000401000");
    assert_eq!(hex_string(0, 0), "0");
    assert_eq!(hex_string(0xABCDEF, 2), "ABCDEF");
    assert_eq!(hex_bytes_string(&[0xde, 0xad, 0x01]), "DE AD 01");
    assert_eq!(hex_bytes_string(&[]), "");
}

#[test]
fn trimming_and_parsing() {
    let t: Vec<char> = " \t a b \u{3000}".chars().collect();
    assert_eq!(trimmed(&t).into_iter().collect::<String>(), "a b");
    let p = |s: &str, r: u32| parse_usize_radix(&s.chars().collect::<Vec<_>>(), r);
    assert_eq!(p("42", 10), Some(42));
    assert_eq!(p("+7", 10), Some(7));
    assert_eq!(p("+", 10), None);
    assert_eq!(p("", 10), None);
    assert_eq!(p("-1", 10), None);
    assert_eq!(p("ff", 16), Some(255));
    assert_eq!(p("FF", 16), Some(255));
    assert_eq!(p("fg", 16), None);
    assert_eq!(p("18446744073709551616", 10), None);
    assert_eq!(p("18446744073709551615", 10), Some(usize::MAX));
}

#[test]
fn short_size_text() {
    assert_eq!(format_size(100), "100 B");
    assert_eq!(format_size(2048), "2.0 KiB");
    assert_eq!(format_size(5 * 1024 * 1024 + 512 * 1024), "5.5 MiB");
    assert_eq!(format_size(usize::MAX), "17179869184.00 GiB");
}

#[test]
fn key_column_pads_to_24() {
    assert_eq!(key_column("Magic"), format!("  {:<24} ", "Magic"));
    assert_eq!(key_column("a.very.long.metadata.key.name"), "  a.very.long.metadata.key.name ");
}

//! Decoding of file headers (ELF, GGUF, PE, PNG) into named fields for the
//! info view. Every field is a function of the bytes the editor shows; bytes
//! past the end of the file read as absent, and multi-byte fields that run
//! past the end read as 0.

use vstd::prelude::*;
use vstd::string::StringSliceAdditionalSpecFns;
use vstd::utf8::decode_utf8;
use vstd::utf8::encode_utf8;
use vstd::utf8::is_char_boundary;
use vstd::utf8::valid_utf8;

use crate::editor::byte_or_zero;
use crate::editor::range_of;
use crate::editor::Editor;
use crate::size::push_size_with_bytes;
use crate::size::size_with_bytes;
use crate::text::dec_chars;
use crate::text::push_signed_dec;
use crate::text::signed_dec_chars;
use crate::text::hex_bytes;
use crate::text::hex_bytes_string;
use crate::text::hex_width;
use crate::text::pow_nat;
use crate::text::push_dec;
use crate::text::push_hex;

verus! {

/// The value of a header field: text, or the raw bits of a floating-point
/// number, whose decimal rendering is left to the display.
#[derive(Debug, PartialEq)]
pub enum FieldValue {
    Text(String),
    Float32(u32),
    Float64(u64),
}

/// The abstract value of a header field.
pub enum ValueView {
    Text(Seq<char>),
    Float32(u32),
    Float64(u64),
}

impl View for FieldValue {
    type V = ValueView;

    open spec fn view(&self) -> ValueView {
        match self {
            FieldValue::Text(s) => ValueView::Text(s@),
            FieldValue::Float32(b) => ValueView::Float32(*b),
            FieldValue::Float64(b) => ValueView::Float64(*b),
        }
    }
}

/// Parsed header information for display in the info view.
#[derive(Debug)]
pub struct HeaderInfo {
    pub format_name: String,
    pub fields: Vec<(String, FieldValue)>,
}

/// The abstract fields of a list of named values.
pub open spec fn field_views(v: Seq<(String, FieldValue)>) -> Seq<(Seq<char>, ValueView)> {
    v.map_values(|p: (String, FieldValue)| (p.0@, p.1@))
}

impl View for HeaderInfo {
    type V = (Seq<char>, Seq<(Seq<char>, ValueView)>);

    open spec fn view(&self) -> (Seq<char>, Seq<(Seq<char>, ValueView)>) {
        (self.format_name@, field_views(self.fields@))
    }
}

/// A text field.
pub open spec fn tf(key: Seq<char>, value: Seq<char>) -> (Seq<char>, ValueView) {
    (key, ValueView::Text(value))
}

/// The byte at offset `i`, or 0 when there is none.
pub open spec fn byte_at_or_zero(view: Seq<Option<u8>>, i: int) -> u8 {
    if 0 <= i < view.len() {
        byte_or_zero(view[i])
    } else {
        0
    }
}

/// The value of bytes read least significant first.
pub open spec fn le_value(b: Seq<u8>) -> nat
    decreases b.len(),
{
    if b.len() == 0 {
        0
    } else {
        (b[0] + 256 * le_value(b.drop_first())) as nat
    }
}

/// The value of bytes read most significant first.
pub open spec fn be_value(b: Seq<u8>) -> nat
    decreases b.len(),
{
    if b.len() == 0 {
        0
    } else {
        (be_value(b.drop_last()) * 256 + b.last()) as nat
    }
}

/// The little-endian `width`-byte field at `offset`, or 0 when the file ends before it does.
pub open spec fn le_field(view: Seq<Option<u8>>, offset: int, width: nat) -> nat {
    let b = range_of(view, offset, width as int);
    if b.len() < width {
        0
    } else {
        le_value(b)
    }
}

/// The big-endian `width`-byte field at `offset`, or 0 when the file ends before it does.
pub open spec fn be_field(view: Seq<Option<u8>>, offset: int, width: nat) -> nat {
    let b = range_of(view, offset, width as int);
    if b.len() < width {
        0
    } else {
        be_value(b)
    }
}

proof fn lemma_pow256()
    ensures
        pow_nat(256, 1) == 256,
        pow_nat(256, 2) == 65536,
        pow_nat(256, 4) == 4294967296,
        pow_nat(256, 8) == 18446744073709551616,
{
    reveal_with_fuel(pow_nat, 9);
}

/// Reads the little-endian field of `width` bytes (at most 8) at `offset`.
fn read_le(editor: &Editor, offset: usize, width: usize) -> (v: u64)
    requires
        editor.wf(),
        1 <= width <= 8,
    ensures
        v == le_field(editor@, offset as int, width as nat),
        v < pow_nat(256, width as nat),
{
    proof {
        editor.lemma_wf();
        lemma_pow256();
    }
    let b = editor.read_range(offset, width);
    if b.len() < width {
        proof {
            reveal_with_fuel(pow_nat, 2);
            lemma_pow_pos(width as nat);
        }
        return 0;
    }
    let mut v: u64 = 0;
    let mut k = width;
    while k > 0
        invariant
            b@.len() == width,
            1 <= width <= 8,
            k <= width,
            v == le_value(b@.subrange(k as int, width as int)),
            v < pow_nat(256, (width - k) as nat),
            pow_nat(256, 8) == 18446744073709551616,
        decreases k,
    {
        let ghost old_v = v;
        proof {
            let tail = b@.subrange(k as int, width as int);
            let longer = b@.subrange(k - 1, width as int);
            assert(longer.drop_first() =~= tail);
            lemma_pow_mono256((width - k) as nat, 7);
            assert(pow_nat(256, 8) == 256 * pow_nat(256, 7));
            assert(pow_nat(256, (width - k + 1) as nat) == 256 * pow_nat(256, (width - k) as nat));
            assert(v * 256 + b@[k - 1] < 256 * pow_nat(256, (width - k) as nat)) by (nonlinear_arith)
                requires
                    v < pow_nat(256, (width - k) as nat),
                    b@[k - 1] < 256,
            ;
            assert(256 * pow_nat(256, (width - k) as nat) <= 256 * pow_nat(256, 7)) by (nonlinear_arith)
                requires
                    pow_nat(256, (width - k) as nat) <= pow_nat(256, 7),
            ;
        }
        v = v * 256 + b[k - 1] as u64;
        k = k - 1;
    }
    assert(b@.subrange(0, width as int) =~= b@);
    v
}

/// Reads the big-endian field of `width` bytes (at most 8) at `offset`.
fn read_be(editor: &Editor, offset: usize, width: usize) -> (v: u64)
    requires
        editor.wf(),
        1 <= width <= 8,
    ensures
        v == be_field(editor@, offset as int, width as nat),
{
    proof {
        editor.lemma_wf();
        lemma_pow256();
    }
    let b = editor.read_range(offset, width);
    if b.len() < width {
        return 0;
    }
    let mut v: u64 = 0;
    let mut k: usize = 0;
    while k < width
        invariant
            b@.len() == width,
            1 <= width <= 8,
            k <= width,
            v == be_value(b@.subrange(0, k as int)),
            v < pow_nat(256, k as nat),
            pow_nat(256, 8) == 18446744073709551616,
        decreases width - k,
    {
        proof {
            let head = b@.subrange(0, k as int);
            let longer = b@.subrange(0, k + 1);
            assert(longer.drop_last() =~= head);
            assert(longer.last() == b@[k as int]);
            lemma_pow_mono256(k as nat, 7);
            assert(pow_nat(256, 8) == 256 * pow_nat(256, 7));
            assert(pow_nat(256, (k + 1) as nat) == 256 * pow_nat(256, k as nat));
            assert(v * 256 + b@[k as int] < 256 * pow_nat(256, k as nat)) by (nonlinear_arith)
                requires
                    v < pow_nat(256, k as nat),
                    b@[k as int] < 256,
            ;
            assert(256 * pow_nat(256, k as nat) <= 256 * pow_nat(256, 7)) by (nonlinear_arith)
                requires
                    pow_nat(256, k as nat) <= pow_nat(256, 7),
            ;
        }
        v = v * 256 + b[k] as u64;
        k = k + 1;
    }
    assert(b@.subrange(0, width as int) =~= b@);
    v
}

/// The `width`-byte field at `offset`, most significant byte first when `big`,
/// least significant first otherwise.
pub open spec fn ordered_field(view: Seq<Option<u8>>, offset: int, width: nat, big: bool) -> nat {
    if big {
        be_field(view, offset, width)
    } else {
        le_field(view, offset, width)
    }
}

/// Reads the field of `width` bytes (at most 8) at `offset` in the byte order `big` selects.
fn read_ordered(editor: &Editor, offset: usize, width: usize, big: bool) -> (v: u64)
    requires
        editor.wf(),
        1 <= width <= 8,
    ensures
        v == ordered_field(editor@, offset as int, width as nat, big),
{
    if big {
        read_be(editor, offset, width)
    } else {
        read_le(editor, offset, width)
    }
}

proof fn lemma_pow_pos(e: nat)
    ensures
        pow_nat(256, e) >= 1,
    decreases e,
{
    if e > 0 {
        lemma_pow_pos((e - 1) as nat);
    }
}

proof fn lemma_pow_mono256(a: nat, b: nat)
    requires
        a <= b,
    ensures
        pow_nat(256, a) <= pow_nat(256, b),
    decreases b,
{
    lemma_pow_pos(a);
    if a < b {
        lemma_pow_mono256(a, (b - 1) as nat);
        assert(pow_nat(256, b) == 256 * pow_nat(256, (b - 1) as nat));
    }
}

/// The little-endian 16-bit field at `offset` (0 when the file ends before it).
fn read_u16_le(editor: &Editor, offset: usize) -> (v: u16)
    requires
        editor.wf(),
    ensures
        v == le_field(editor@, offset as int, 2),
{
    proof {
        lemma_pow256();
    }
    read_le(editor, offset, 2) as u16
}

/// The little-endian 32-bit field at `offset` (0 when the file ends before it).
fn read_u32_le(editor: &Editor, offset: usize) -> (v: u32)
    requires
        editor.wf(),
    ensures
        v == le_field(editor@, offset as int, 4),
{
    proof {
        lemma_pow256();
    }
    read_le(editor, offset, 4) as u32
}

/// The little-endian 64-bit field at `offset` (0 when the file ends before it).
fn read_u64_le(editor: &Editor, offset: usize) -> (v: u64)
    requires
        editor.wf(),
    ensures
        v == le_field(editor@, offset as int, 8),
{
    read_le(editor, offset, 8)
}

/// The big-endian 32-bit field at `offset` (0 when the file ends before it).
fn read_u32_be(editor: &Editor, offset: usize) -> (v: u32)
    requires
        editor.wf(),
    ensures
        v == be_field(editor@, offset as int, 4),
{
    proof {
        editor.lemma_wf();
        lemma_pow256();
    }
    let b = editor.read_range(offset, 4);
    if b.len() < 4 {
        return 0;
    }
    proof {
        assert(b@.drop_last().drop_last().drop_last().drop_last() =~= Seq::<u8>::empty());
        assert(b@.drop_last().drop_last().drop_last().last() == b@[0]);
        assert(b@.drop_last().drop_last().last() == b@[1]);
        assert(b@.drop_last().last() == b@[2]);
        assert(b@.last() == b@[3]);
        reveal_with_fuel(be_value, 5);
    }
    ((b[0] as u32 * 256 + b[1] as u32) * 256 + b[2] as u32) * 256 + b[3] as u32
}

/// `read_byte(offset)`, with 0 standing for an absent byte.
fn byte_or_zero_of(editor: &Editor, offset: usize) -> (b: u8)
    requires
        editor.wf(),
    ensures
        b == byte_at_or_zero(editor@, offset as int),
{
    match editor.read_byte(offset) {
        Some(v) => v,
        None => 0,
    }
}

/// Appends a text field.
fn push_text(fields: &mut Vec<(String, FieldValue)>, key: &str, value: String)
    ensures
        field_views(final(fields)@) == field_views(old(fields)@).push(tf(key@, value@)),
{
    let ghost before = fields@;
    fields.push((String::from_str(key), FieldValue::Text(value)));
    assert(field_views(fields@) =~= field_views(before).push(tf(key@, value@)));
}

/// A text value made of `lit`.
fn lit(s: &str) -> (r: String)
    ensures
        r@ == s@,
{
    String::from_str(s)
}

/// The size field that closes every header.
pub open spec fn file_size_field(n: nat) -> (Seq<char>, ValueView) {
    tf("File size"@, size_with_bytes(n))
}

/// A size with its exact byte count for sizes of a KiB and more:
/// "512 B", "1.5 KiB (1536 bytes)", "2.00 GiB (2147483648 bytes)".
pub fn format_size(bytes: usize) -> (s: String)
    ensures
        s@ == size_with_bytes(bytes as nat),
{
    let mut s = String::new();
    push_size_with_bytes(&mut s, bytes);
    assert(s@ =~= size_with_bytes(bytes as nat));
    s
}

// ---------------------------------------------------------------- ELF

pub open spec fn elf_class_name(c: u8) -> Seq<char> {
    if c == 1 {
        "32-bit (ELF32)"@
    } else if c == 2 {
        "64-bit (ELF64)"@
    } else {
        "Unknown"@
    }
}

pub open spec fn elf_data_name(d: u8) -> Seq<char> {
    if d == 1 {
        "Little-endian"@
    } else if d == 2 {
        "Big-endian"@
    } else {
        "Unknown"@
    }
}

pub open spec fn elf_osabi_name(o: u8) -> Seq<char> {
    if o == 0 {
        "UNIX System V"@
    } else if o == 3 {
        "Linux"@
    } else if o == 6 {
        "Solaris"@
    } else if o == 9 {
        "FreeBSD"@
    } else {
        "Other"@
    }
}

pub open spec fn elf_type_name(t: nat) -> Seq<char> {
    if t == 1 {
        "Relocatable (ET_REL)"@
    } else if t == 2 {
        "Executable (ET_EXEC)"@
    } else if t == 3 {
        "Shared object (ET_DYN)"@
    } else if t == 4 {
        "Core dump (ET_CORE)"@
    } else {
        "Unknown"@
    }
}

pub open spec fn elf_machine_name(m: nat) -> Seq<char> {
    if m == 0x03 {
        "x86"@
    } else if m == 0x28 {
        "ARM"@
    } else if m == 0x3E {
        "x86-64"@
    } else if m == 0xB7 {
        "AArch64"@
    } else if m == 0xF3 {
        "RISC-V"@
    } else {
        "Other"@
    }
}

/// `name (0xHEX)`.
pub open spec fn named_hex(name: Seq<char>, v: nat) -> Seq<char> {
    name + " (0x"@ + hex_width(v, 0) + ")"@
}

/// `name (DEC)`.
pub open spec fn named_dec(name: Seq<char>, v: nat) -> Seq<char> {
    name + " ("@ + dec_chars(v) + ")"@
}

/// `0xHEX`, zero-padded to `width` digits.
pub open spec fn hex0x(v: nat, width: nat) -> Seq<char> {
    "0x"@ + hex_width(v, width)
}

/// An ELF file declares big-endian fields with 2 in byte 5 (EI_DATA); any other
/// value reads as little-endian.
pub open spec fn elf_big_endian(v: Seq<Option<u8>>) -> bool {
    byte_at_or_zero(v, 5) == 2
}

/// The `width`-byte ELF header field at `offset`, in the file's declared byte order.
pub open spec fn elf_field(v: Seq<Option<u8>>, offset: int, width: nat) -> nat {
    ordered_field(v, offset, width, elf_big_endian(v))
}

/// The address fields of a 64-bit ELF header.
pub open spec fn elf64_fields(v: Seq<Option<u8>>) -> Seq<(Seq<char>, ValueView)> {
    seq![
        tf("Entry point"@, hex0x(elf_field(v, 24, 8), 16)),
        tf("Program header offset"@, hex0x(elf_field(v, 32, 8), 0)),
        tf("Section header offset"@, hex0x(elf_field(v, 40, 8), 0)),
        tf("Program headers"@, dec_chars(elf_field(v, 56, 2))),
        tf("Section headers"@, dec_chars(elf_field(v, 60, 2))),
    ]
}

/// The address fields of a 32-bit ELF header.
pub open spec fn elf32_fields(v: Seq<Option<u8>>) -> Seq<(Seq<char>, ValueView)> {
    seq![
        tf("Entry point"@, hex0x(elf_field(v, 24, 4), 8)),
        tf("Program header offset"@, hex0x(elf_field(v, 28, 4), 0)),
        tf("Section header offset"@, hex0x(elf_field(v, 32, 4), 0)),
        tf("Program headers"@, dec_chars(elf_field(v, 44, 2))),
        tf("Section headers"@, dec_chars(elf_field(v, 48, 2))),
    ]
}

/// The identification fields of an ELF header.
pub open spec fn elf_ident_fields(v: Seq<Option<u8>>) -> Seq<(Seq<char>, ValueView)> {
    let class = byte_at_or_zero(v, 4);
    let data = byte_at_or_zero(v, 5);
    let version = byte_at_or_zero(v, 6);
    let osabi = byte_at_or_zero(v, 7);
    seq![
        tf("Magic"@, "7F 45 4C 46 (ELF)"@),
        tf("Class"@, elf_class_name(class)),
        tf("Endianness"@, elf_data_name(data)),
        tf("ELF Version"@, dec_chars(version as nat)),
        tf("OS/ABI"@, named_dec(elf_osabi_name(osabi), osabi as nat)),
        tf("Type"@, elf_type_name(elf_field(v, 16, 2))),
        tf("Machine"@, named_hex(elf_machine_name(elf_field(v, 18, 2)), elf_field(v, 18, 2))),
    ]
}

/// The fields shown for an ELF file.
pub open spec fn elf_fields(v: Seq<Option<u8>>) -> Seq<(Seq<char>, ValueView)> {
    let class = byte_at_or_zero(v, 4);
    let specific = if class == 2 {
        elf64_fields(v)
    } else if class == 1 {
        elf32_fields(v)
    } else {
        Seq::empty()
    };
    elf_ident_fields(v) + specific + seq![file_size_field(v.len())]
}

/// `name (0xHEX)` as text.
fn named_hex_string(name: &str, v: u64) -> (s: String)
    ensures
        s@ == named_hex(name@, v as nat),
{
    let mut s = String::from_str(name);
    s.append(" (0x");
    push_hex(&mut s, v, 0);
    s.append(")");
    s
}

/// `name (DEC)` as text.
fn named_dec_string(name: &str, v: u64) -> (s: String)
    ensures
        s@ == named_dec(name@, v as nat),
{
    let mut s = String::from_str(name);
    s.append(" (");
    push_dec(&mut s, v);
    s.append(")");
    s
}

/// `0xHEX` as text, zero-padded to `width` digits.
fn hex0x_string(v: u64, width: usize) -> (s: String)
    ensures
        s@ == hex0x(v as nat, width as nat),
{
    let mut s = String::from_str("0x");
    push_hex(&mut s, v, width);
    s
}

/// Decimal text.
fn dec_text(v: u64) -> (s: String)
    ensures
        s@ == dec_chars(v as nat),
{
    let mut s = String::new();
    push_dec(&mut s, v);
    assert(s@ =~= dec_chars(v as nat));
    s
}

#[verifier::rlimit(40)]
fn push_elf_ident(editor: &Editor, fields: &mut Vec<(String, FieldValue)>)
    requires
        editor.wf(),
    ensures
        field_views(final(fields)@) == field_views(old(fields)@) + elf_ident_fields(editor@),
{
    let ghost start = field_views(fields@);
    push_text(fields, "Magic", lit("7F 45 4C 46 (ELF)"));

    let ei_class = byte_or_zero_of(editor, 4);
    let class_str = if ei_class == 1 {
        "32-bit (ELF32)"
    } else if ei_class == 2 {
        "64-bit (ELF64)"
    } else {
        "Unknown"
    };
    push_text(fields, "Class", lit(class_str));

    let ei_data = byte_or_zero_of(editor, 5);
    let endian_str = if ei_data == 1 {
        "Little-endian"
    } else if ei_data == 2 {
        "Big-endian"
    } else {
        "Unknown"
    };
    push_text(fields, "Endianness", lit(endian_str));

    let ei_version = byte_or_zero_of(editor, 6);
    push_text(fields, "ELF Version", dec_text(ei_version as u64));

    let ei_osabi = byte_or_zero_of(editor, 7);
    let osabi_str = if ei_osabi == 0 {
        "UNIX System V"
    } else if ei_osabi == 3 {
        "Linux"
    } else if ei_osabi == 6 {
        "Solaris"
    } else if ei_osabi == 9 {
        "FreeBSD"
    } else {
        "Other"
    };
    push_text(fields, "OS/ABI", named_dec_string(osabi_str, ei_osabi as u64));

    let big = ei_data == 2;
    let e_type = read_ordered(editor, 16, 2, big);
    let type_str = if e_type == 1 {
        "Relocatable (ET_REL)"
    } else if e_type == 2 {
        "Executable (ET_EXEC)"
    } else if e_type == 3 {
        "Shared object (ET_DYN)"
    } else if e_type == 4 {
        "Core dump (ET_CORE)"
    } else {
        "Unknown"
    };
    push_text(fields, "Type", lit(type_str));

    let e_machine = read_ordered(editor, 18, 2, big);
    let machine_str = if e_machine == 0x03 {
        "x86"
    } else if e_machine == 0x28 {
        "ARM"
    } else if e_machine == 0x3E {
        "x86-64"
    } else if e_machine == 0xB7 {
        "AArch64"
    } else if e_machine == 0xF3 {
        "RISC-V"
    } else {
        "Other"
    };
    push_text(fields, "Machine", named_hex_string(machine_str, e_machine));
    assert(field_views(fields@) =~= start + elf_ident_fields(editor@));
}

fn push_elf64(editor: &Editor, big: bool, fields: &mut Vec<(String, FieldValue)>)
    requires
        editor.wf(),
        big == elf_big_endian(editor@),
    ensures
        field_views(final(fields)@) == field_views(old(fields)@) + elf64_fields(editor@),
{
    let ghost start = field_views(fields@);
    let entry = read_ordered(editor, 24, 8, big);
    push_text(fields, "Entry point", hex0x_string(entry, 16));
    let ph_off = read_ordered(editor, 32, 8, big);
    push_text(fields, "Program header offset", hex0x_string(ph_off, 0));
    let sh_off = read_ordered(editor, 40, 8, big);
    push_text(fields, "Section header offset", hex0x_string(sh_off, 0));
    let ph_num = read_ordered(editor, 56, 2, big);
    push_text(fields, "Program headers", dec_text(ph_num));
    let sh_num = read_ordered(editor, 60, 2, big);
    push_text(fields, "Section headers", dec_text(sh_num));
    assert(field_views(fields@) =~= start + elf64_fields(editor@));
}

fn push_elf32(editor: &Editor, big: bool, fields: &mut Vec<(String, FieldValue)>)
    requires
        editor.wf(),
        big == elf_big_endian(editor@),
    ensures
        field_views(final(fields)@) == field_views(old(fields)@) + elf32_fields(editor@),
{
    let ghost start = field_views(fields@);
    let entry = read_ordered(editor, 24, 4, big);
    push_text(fields, "Entry point", hex0x_string(entry, 8));
    let ph_off = read_ordered(editor, 28, 4, big);
    push_text(fields, "Program header offset", hex0x_string(ph_off, 0));
    let sh_off = read_ordered(editor, 32, 4, big);
    push_text(fields, "Section header offset", hex0x_string(sh_off, 0));
    let ph_num = read_ordered(editor, 44, 2, big);
    push_text(fields, "Program headers", dec_text(ph_num));
    let sh_num = read_ordered(editor, 48, 2, big);
    push_text(fields, "Section headers", dec_text(sh_num));
    assert(field_views(fields@) =~= start + elf32_fields(editor@));
}

fn parse_elf(editor: &Editor) -> (info: HeaderInfo)
    requires
        editor.wf(),
    ensures
        info@ == ("ELF Binary"@, elf_fields(editor@)),
{
    let mut fields: Vec<(String, FieldValue)> = Vec::new();
    push_elf_ident(editor, &mut fields);
    let ei_class = byte_or_zero_of(editor, 4);
    let big = byte_or_zero_of(editor, 5) == 2;
    if ei_class == 2 {
        push_elf64(editor, big, &mut fields);
    } else if ei_class == 1 {
        push_elf32(editor, big, &mut fields);
    }
    push_text(&mut fields, "File size", format_size(editor.file_size()));
    let info = HeaderInfo { format_name: lit("ELF Binary"), fields };
    assert(info@.1 =~= elf_fields(editor@));
    info
}

// ---------------------------------------------------------------- PE

pub open spec fn pe_machine_name(m: nat) -> Seq<char> {
    if m == 0x14c {
        "i386"@
    } else if m == 0x8664 {
        "x86-64"@
    } else if m == 0xAA64 {
        "AArch64"@
    } else {
        "Other"@
    }
}

/// Offset of the PE signature, as recorded at 0x3C.
pub open spec fn pe_offset(v: Seq<Option<u8>>) -> nat {
    le_field(v, 0x3C, 4)
}

/// Finding the PE signature overflows the offset arithmetic (only where `usize`
/// is narrower than 64 bits).
pub open spec fn pe_overflows(v: Seq<Option<u8>>) -> bool {
    pe_offset(v) + 4 > usize::MAX
}

/// The kind of optional header its magic number names.
pub open spec fn pe_optional_name(m: nat) -> Seq<char> {
    if m == 0x10b {
        "PE32"@
    } else if m == 0x20b {
        "PE32+"@
    } else if m == 0x107 {
        "ROM"@
    } else {
        "Unknown"@
    }
}

/// The optional-header fields of a PE file whose signature is at `off`: its kind
/// (magic at `off + 24`) and entry point (32-bit at `off + 40`), shown when the
/// COFF header records an optional header (its 16-bit size at `off + 20` is not 0).
pub open spec fn pe_optional_fields(v: Seq<Option<u8>>, off: nat) -> Seq<(Seq<char>, ValueView)> {
    if le_field(v, off + 20int, 2) > 0 {
        let magic = le_field(v, off + 24int, 2);
        seq![
            tf("Optional header"@, named_hex(pe_optional_name(magic), magic)),
            tf("Entry point"@, hex0x(le_field(v, off + 40int, 4), 8)),
        ]
    } else {
        Seq::empty()
    }
}

/// The fields shown for a PE file.
pub open spec fn pe_fields(v: Seq<Option<u8>>) -> Seq<(Seq<char>, ValueView)> {
    let off = pe_offset(v);
    let found = off + 4 <= v.len() && range_of(v, off as int, 4) == seq![0x50u8, 0x45u8, 0u8, 0u8];
    let sig = if found {
        let machine = le_field(v, off + 4int, 2);
        seq![
            tf("PE Signature"@, "at 0x"@ + hex_width(off as nat, 0)),
            tf("Machine"@, named_hex(pe_machine_name(machine), machine)),
            tf("Sections"@, dec_chars(le_field(v, off + 6int, 2))),
        ] + pe_optional_fields(v, off)
    } else {
        Seq::empty()
    };
    seq![tf("Magic"@, "4D 5A (MZ / PE)"@)] + sig + seq![file_size_field(v.len())]
}

fn parse_pe(editor: &Editor) -> (info: HeaderInfo)
    requires
        editor.wf(),
        !pe_overflows(editor@),
    ensures
        info@ == ("PE Executable"@, pe_fields(editor@)),
{
    proof {
        editor.lemma_wf();
    }
    let mut fields: Vec<(String, FieldValue)> = Vec::new();
    push_text(&mut fields, "Magic", lit("4D 5A (MZ / PE)"));
    let ghost start = field_views(fields@);

    let pe_offset = read_u32_le(editor, 0x3C) as usize;
    if pe_offset + 4 <= editor.file_size() {
        let pe_sig = editor.read_range(pe_offset, 4);
        if pe_sig.len() == 4 && pe_sig[0] == 0x50 && pe_sig[1] == 0x45 && pe_sig[2] == 0
            && pe_sig[3] == 0 {
            assert(pe_sig@ =~= seq![0x50u8, 0x45u8, 0u8, 0u8]);
            let mut at = lit("at 0x");
            push_hex(&mut at, pe_offset as u64, 0);
            push_text(&mut fields, "PE Signature", at);
            let machine = read_u16_le(editor, pe_offset + 4);
            let machine_str = if machine == 0x14c {
                "i386"
            } else if machine == 0x8664 {
                "x86-64"
            } else if machine == 0xAA64 {
                "AArch64"
            } else {
                "Other"
            };
            push_text(&mut fields, "Machine", named_hex_string(machine_str, machine as u64));
            let num_sections = read_u16_le(editor, pe_offset + 6);
            push_text(&mut fields, "Sections", dec_text(num_sections as u64));
            let opt_size = read_u16_le(editor, pe_offset + 20);
            if opt_size > 0 {
                let magic = read_u16_le(editor, pe_offset + 24);
                let kind = if magic == 0x10b {
                    "PE32"
                } else if magic == 0x20b {
                    "PE32+"
                } else if magic == 0x107 {
                    "ROM"
                } else {
                    "Unknown"
                };
                push_text(&mut fields, "Optional header", named_hex_string(kind, magic as u64));
                let entry = read_u32_le(editor, pe_offset + 40);
                push_text(&mut fields, "Entry point", hex0x_string(entry as u64, 8));
            }
        } else {
            assert(pe_sig@ != seq![0x50u8, 0x45u8, 0u8, 0u8]) by {
                if pe_sig@ == seq![0x50u8, 0x45u8, 0u8, 0u8] {
                    assert(pe_sig@.len() == 4);
                }
            }
        }
    }
    push_text(&mut fields, "File size", format_size(editor.file_size()));
    let info = HeaderInfo { format_name: lit("PE Executable"), fields };
    assert(info@.1 =~= pe_fields(editor@));
    info
}

// ---------------------------------------------------------------- PNG

pub open spec fn png_color_name(c: u8) -> Seq<char> {
    if c == 0 {
        "Grayscale"@
    } else if c == 2 {
        "RGB"@
    } else if c == 3 {
        "Indexed"@
    } else if c == 4 {
        "Grayscale+Alpha"@
    } else if c == 6 {
        "RGBA"@
    } else {
        "Unknown"@
    }
}

/// The fields shown for a PNG file: the image header's dimensions, bit depth
/// and colour type (big-endian), when the file is long enough to hold it.
pub open spec fn png_fields(v: Seq<Option<u8>>) -> Seq<(Seq<char>, ValueView)> {
    let ihdr = if v.len() >= 29 {
        let color = byte_at_or_zero(v, 25);
        seq![
            tf("Dimensions"@, dec_chars(be_field(v, 16, 4)) + "x"@ + dec_chars(be_field(v, 20, 4))),
            tf("Bit depth"@, dec_chars(byte_at_or_zero(v, 24) as nat)),
            tf("Color type"@, named_dec(png_color_name(color), color as nat)),
        ]
    } else {
        Seq::empty()
    };
    seq![tf("Magic"@, "89 50 4E 47 (PNG)"@)] + ihdr + seq![file_size_field(v.len())]
}

fn parse_png(editor: &Editor) -> (info: HeaderInfo)
    requires
        editor.wf(),
    ensures
        info@ == ("PNG Image"@, png_fields(editor@)),
{
    let mut fields: Vec<(String, FieldValue)> = Vec::new();
    push_text(&mut fields, "Magic", lit("89 50 4E 47 (PNG)"));
    let ghost start = field_views(fields@);
    if editor.file_size() >= 29 {
        let width = read_u32_be(editor, 16);
        let height = read_u32_be(editor, 20);
        let bit_depth = byte_or_zero_of(editor, 24);
        let color_type = byte_or_zero_of(editor, 25);
        let ct_str = if color_type == 0 {
            "Grayscale"
        } else if color_type == 2 {
            "RGB"
        } else if color_type == 3 {
            "Indexed"
        } else if color_type == 4 {
            "Grayscale+Alpha"
        } else if color_type == 6 {
            "RGBA"
        } else {
            "Unknown"
        };
        let mut dims = dec_text(width as u64);
        dims.append("x");
        push_dec(&mut dims, height as u64);
        push_text(&mut fields, "Dimensions", dims);
        push_text(&mut fields, "Bit depth", dec_text(bit_depth as u64));
        push_text(&mut fields, "Color type", named_dec_string(ct_str, color_type as u64));
    }
    push_text(&mut fields, "File size", format_size(editor.file_size()));
    let info = HeaderInfo { format_name: lit("PNG Image"), fields };
    assert(info@.1 =~= png_fields(editor@));
    info
}

// ---------------------------------------------------------------- other files

/// A byte is printable text: a visible ASCII character or ASCII white space
/// (space, tab, line feed, form feed, carriage return).
pub open spec fn is_text_byte(b: u8) -> bool {
    (0x21 <= b && b <= 0x7E) || b == 0x20 || b == 0x09 || b == 0x0A || b == 0x0C || b == 0x0D
}

/// Number of printable text bytes.
pub open spec fn count_text_bytes(s: Seq<u8>) -> nat
    decreases s.len(),
{
    if s.len() == 0 {
        0
    } else {
        count_text_bytes(s.drop_last()) + if is_text_byte(s.last()) { 1nat } else { 0nat }
    }
}

/// The sample is taken for text when more than 85% of its bytes are printable.
pub open spec fn looks_like_text(sample: Seq<u8>) -> bool {
    20 * count_text_bytes(sample) > 17 * sample.len()
}

/// The fields shown for a file of unknown format.
pub open spec fn generic_fields(v: Seq<Option<u8>>) -> Seq<(Seq<char>, ValueView)> {
    let sample_len = if v.len() < 256 { v.len() } else { 256 };
    let kind = if looks_like_text(range_of(v, 0, sample_len as int)) {
        "Text / ASCII"@
    } else {
        "Binary (unknown format)"@
    };
    seq![
        tf("First 16 bytes"@, hex_bytes(range_of(v, 0, 16))),
        tf("Likely type"@, kind),
        file_size_field(v.len()),
    ]
}

fn count_text(sample: &Vec<u8>) -> (n: usize)
    ensures
        n == count_text_bytes(sample@),
        n <= sample@.len(),
{
    let mut n: usize = 0;
    let mut i: usize = 0;
    while i < sample.len()
        invariant
            i <= sample@.len(),
            n == count_text_bytes(sample@.take(i as int)),
            n <= i,
        decreases sample@.len() - i,
    {
        let b = sample[i];
        if (0x21 <= b && b <= 0x7E) || b == 0x20 || b == 0x09 || b == 0x0A || b == 0x0C || b
            == 0x0D {
            n = n + 1;
        }
        assert(sample@.take(i + 1).drop_last() =~= sample@.take(i as int));
        i = i + 1;
    }
    assert(sample@.take(sample@.len() as int) =~= sample@);
    n
}

fn parse_generic(editor: &Editor) -> (info: HeaderInfo)
    requires
        editor.wf(),
    ensures
        info@ == ("Unknown Format"@, generic_fields(editor@)),
{
    proof {
        editor.lemma_wf();
    }
    let mut fields: Vec<(String, FieldValue)> = Vec::new();
    let head = editor.read_range(0, 16);
    push_text(&mut fields, "First 16 bytes", hex_bytes_string(head.as_slice()));

    let sample_len = if editor.file_size() < 256 { editor.file_size() } else { 256 };
    let sample = editor.read_range(0, sample_len);
    let printable = count_text(&sample);
    let kind = if 20 * printable > 17 * sample.len() {
        "Text / ASCII"
    } else {
        "Binary (unknown format)"
    };
    push_text(&mut fields, "Likely type", lit(kind));
    push_text(&mut fields, "File size", format_size(editor.file_size()));
    let info = HeaderInfo { format_name: lit("Unknown Format"), fields };
    assert(info@.1 =~= generic_fields(editor@));
    info
}

// ---------------------------------------------------------------- GGUF

/// The text that a byte string shows as, with each invalid UTF-8 sequence
/// replaced by U+FFFD.
pub uninterp spec fn lossy_utf8(bytes: Seq<u8>) -> Seq<char>;

/// `String::from_utf8_lossy`: the bytes as text, invalid UTF-8 sequences replaced
/// by U+FFFD; valid UTF-8 is decoded as it is. Like every `String`, the result
/// holds at most `isize::MAX` bytes of UTF-8.
#[verifier::external_body]
fn utf8_lossy(bytes: &[u8]) -> (s: String)
    ensures
        s@ == lossy_utf8(bytes@),
        encode_utf8(s@).len() <= isize::MAX,
        valid_utf8(bytes@) ==> s@ == decode_utf8(bytes@),
{
    String::from_utf8_lossy(bytes).into_owned()
}

/// The bytes as text, each invalid UTF-8 sequence replaced by U+FFFD; valid
/// UTF-8 decodes as it is.
pub fn lossy_text(bytes: &[u8]) -> (s: String)
    ensures
        s@ == lossy_utf8(bytes@),
        valid_utf8(bytes@) ==> s@ == decode_utf8(bytes@),
{
    utf8_lossy(bytes)
}

/// The largest character boundary of `bytes` at or below `j`.
pub open spec fn boundary_at_most(bytes: Seq<u8>, j: nat) -> nat
    decreases j,
{
    if j == 0 || is_char_boundary(bytes, j as int) {
        j
    } else {
        boundary_at_most(bytes, (j - 1) as nat)
    }
}

/// How a string value that lies within the file is shown: in quotes; text of
/// more than 80 bytes of UTF-8 is cut to its first 77 bytes, or to the last
/// character boundary before them, and ends in "...".
pub open spec fn gguf_short_text(text: Seq<char>) -> Seq<char> {
    let bytes = encode_utf8(text);
    if bytes.len() > 80 {
        "\""@ + decode_utf8(bytes.take(boundary_at_most(bytes, 77) as int)) + "...\""@
    } else {
        "\""@ + text + "\""@
    }
}

/// How a string value that is longer than 1024 bytes or runs past the end of the
/// file is shown: the text of its first bytes in quotes, then its recorded length.
pub open spec fn gguf_long_text(shown: Seq<char>, slen: nat) -> Seq<char> {
    "\""@ + shown + "...\" (len="@ + dec_chars(slen) + ")"@
}

/// A string value that lies within the file, as shown.
pub fn quote_gguf_text(text: &str) -> (s: String)
    requires
        encode_utf8(text@).len() <= usize::MAX,
    ensures
        s@ == gguf_short_text(text@),
{
    proof {
        broadcast use vstd::utf8::group_utf8_lib;
    }
    if text.len() > 80 {
        let ghost bytes = text.spec_bytes();
        let mut cut: usize = 77;
        while !text.is_char_boundary(cut)
            invariant
                cut <= 77,
                bytes == text.spec_bytes(),
                bytes == encode_utf8(text@),
                valid_utf8(bytes),
                bytes.len() > 80,
                boundary_at_most(bytes, 77) == boundary_at_most(bytes, cut as nat),
            decreases cut,
        {
            proof {
                if cut == 0 {
                    assert(is_char_boundary(bytes, 0));
                }
            }
            cut = cut - 1;
        }
        let (head, _tail) = text.split_at(cut);
        proof {
            assert(head@ == decode_utf8(encode_utf8(head@)));
        }
        let mut value = lit("\"");
        value.append(head);
        value.append("...\"");
        assert(head.spec_bytes() =~= bytes.take(cut as int));
        assert(value@ =~= gguf_short_text(text@));
        value
    } else {
        let mut value = lit("\"");
        value.append(text);
        value.append("\"");
        assert(value@ =~= gguf_short_text(text@));
        value
    }
}

/// A string value that is longer than 1024 bytes or runs past the end of the
/// file, as shown from the text of its first bytes and its recorded length.
pub fn quote_gguf_prefix(shown: &str, slen: usize) -> (s: String)
    ensures
        s@ == gguf_long_text(shown@, slen as nat),
{
    let mut value = lit("\"");
    value.append(shown);
    value.append("...\" (len=");
    push_dec(&mut value, slen as u64);
    value.append(")");
    assert(value@ =~= gguf_long_text(shown@, slen as nat));
    value
}

/// One metadata entry, read from a given offset.
pub enum GgufStep {
    /// The listing stops here, after the given entries (none or one).
    Stop(Seq<(Seq<char>, ValueView)>),
    /// An entry, and the offset of the next one.
    Next((Seq<char>, ValueView), int),
}

pub open spec fn min_int(a: int, b: int) -> int {
    if a < b { a } else { b }
}

/// A string value at `o`: its length (64-bit) and bytes. Long or overrunning
/// strings show their first 64 bytes and their length; strings longer than 80
/// bytes of text show at most their first 77 bytes.
pub open spec fn gguf_string(v: Seq<Option<u8>>, key: Seq<char>, o: int) -> GgufStep {
    let n = v.len() as int;
    if o + 8 > n {
        GgufStep::Stop(Seq::empty())
    } else {
        let slen = (le_field(v, o, 8) as u64) as usize;
        let o1 = o + 8;
        if slen > 1024 || o1 + slen > n {
            let shown = lossy_utf8(range_of(v, o1, min_int(slen as int, 64)));
            let adv = min_int(slen as int, n - o1);
            GgufStep::Next(tf(key, gguf_long_text(shown, slen as nat)), o1 + adv)
        } else {
            let text = lossy_utf8(range_of(v, o1, slen as int));
            GgufStep::Next(tf(key, gguf_short_text(text)), o1 + slen)
        }
    }
}

/// The value of type `vt` at `o`, for the entry named `key`.
pub open spec fn gguf_value(v: Seq<Option<u8>>, key: Seq<char>, vt: nat, o: int) -> GgufStep {
    if vt == 0 {
        GgufStep::Next(tf(key, dec_chars(byte_at_or_zero(v, o) as nat)), o + 1)
    } else if vt == 1 {
        GgufStep::Next(tf(key, signed_dec_chars((byte_at_or_zero(v, o) as i8) as int)), o + 1)
    } else if vt == 2 {
        GgufStep::Next(tf(key, dec_chars(le_field(v, o, 2))), o + 2)
    } else if vt == 3 {
        GgufStep::Next(tf(key, signed_dec_chars(((le_field(v, o, 2) as u16) as i16) as int)), o + 2)
    } else if vt == 4 {
        GgufStep::Next(tf(key, dec_chars(le_field(v, o, 4))), o + 4)
    } else if vt == 5 {
        GgufStep::Next(tf(key, signed_dec_chars(((le_field(v, o, 4) as u32) as i32) as int)), o + 4)
    } else if vt == 6 {
        GgufStep::Next((key, ValueView::Float32(le_field(v, o, 4) as u32)), o + 4)
    } else if vt == 7 {
        GgufStep::Next(
            tf(key, if byte_at_or_zero(v, o) != 0 { "true"@ } else { "false"@ }),
            o + 1,
        )
    } else if vt == 8 {
        gguf_string(v, key, o)
    } else if vt == 10 {
        GgufStep::Next(tf(key, dec_chars(le_field(v, o, 8))), o + 8)
    } else if vt == 11 {
        GgufStep::Next(tf(key, signed_dec_chars(((le_field(v, o, 8) as u64) as i64) as int)), o + 8)
    } else if vt == 12 {
        GgufStep::Next((key, ValueView::Float64(le_field(v, o, 8) as u64)), o + 8)
    } else {
        GgufStep::Stop(seq![tf(key, "<type "@ + dec_chars(vt) + " — skipped>"@)])
    }
}

/// One metadata entry at `o`: key length (64-bit, at most 256), key, value type
/// (32-bit), value. The listing stops where the file is too short for the next part.
pub open spec fn gguf_step(v: Seq<Option<u8>>, o: int) -> GgufStep {
    let n = v.len() as int;
    if o + 8 > n {
        GgufStep::Stop(Seq::empty())
    } else {
        let key_len = (le_field(v, o, 8) as u64) as usize;
        let o1 = o + 8;
        if key_len > 256 || o1 + key_len > n {
            GgufStep::Stop(Seq::empty())
        } else {
            let key = lossy_utf8(range_of(v, o1, key_len as int));
            let o2 = o1 + key_len;
            if o2 + 4 > n {
                GgufStep::Stop(Seq::empty())
            } else {
                gguf_value(v, key, le_field(v, o2, 4), o2 + 4)
            }
        }
    }
}

/// The metadata entries listed from offset `o`, at most `left` of them.
pub open spec fn gguf_walk(v: Seq<Option<u8>>, o: int, left: nat) -> Seq<(Seq<char>, ValueView)>
    decreases left,
{
    if left == 0 {
        Seq::empty()
    } else {
        match gguf_step(v, o) {
            GgufStep::Stop(es) => es,
            GgufStep::Next(e, o2) => seq![e] + gguf_walk(v, o2, (left - 1) as nat),
        }
    }
}

/// How many metadata entries are listed: the recorded count, at most 20.
pub open spec fn gguf_kv_limit(v: Seq<Option<u8>>) -> nat {
    if le_field(v, 16, 8) < 20 {
        le_field(v, 16, 8)
    } else {
        20
    }
}

/// The fields shown for a GGUF file.
pub open spec fn gguf_fields(v: Seq<Option<u8>>) -> Seq<(Seq<char>, ValueView)> {
    seq![
        tf("Magic"@, "47 47 55 46 (GGUF)"@),
        tf("Version"@, dec_chars(le_field(v, 4, 4))),
        tf("Tensor count"@, dec_chars(le_field(v, 8, 8))),
        tf("Metadata KV count"@, dec_chars(le_field(v, 16, 8))),
    ] + gguf_walk(v, 24, gguf_kv_limit(v)) + seq![file_size_field(v.len())]
}

/// Result of reading one metadata entry.
enum StepOut {
    Stop(Option<(String, FieldValue)>),
    Next((String, FieldValue), usize),
}

spec fn step_view(r: StepOut) -> GgufStep {
    match r {
        StepOut::Stop(None) => GgufStep::Stop(Seq::empty()),
        StepOut::Stop(Some(e)) => GgufStep::Stop(seq![(e.0@, e.1@)]),
        StepOut::Next(e, o) => GgufStep::Next((e.0@, e.1@), o as int),
    }
}

/// A text entry.
fn text_entry(key: String, value: String) -> (e: (String, FieldValue))
    ensures
        (e.0@, e.1@) == tf(key@, value@),
{
    (key, FieldValue::Text(value))
}

fn gguf_string_exec(editor: &Editor, key: String, offset: usize) -> (r: StepOut)
    requires
        editor.wf(),
        offset <= editor@.len() + 8,
    ensures
        step_view(r) == gguf_string(editor@, key@, offset as int),
        r matches StepOut::Next(_, o) ==> o <= editor@.len() + 8,
{
    proof {
        editor.lemma_wf();
    }
    let n = editor.file_size();
    if offset + 8 > n {
        return StepOut::Stop(None);
    }
    let slen = read_u64_le(editor, offset) as usize;
    let o1 = offset + 8;
    if slen > 1024 || o1 + slen > n {
        let take = if slen < 64 { slen } else { 64 };
        let truncated = editor.read_range(o1, take);
        let shown = utf8_lossy(truncated.as_slice());
        let adv = if slen < n - o1 { slen } else { n - o1 };
        let value = quote_gguf_prefix(shown.as_str(), slen);
        assert(adv == min_int(slen as int, n - o1));
        StepOut::Next(text_entry(key, value), o1 + adv)
    } else {
        let sbytes = editor.read_range(o1, slen);
        let text = utf8_lossy(sbytes.as_slice());
        let value = quote_gguf_text(text.as_str());
        StepOut::Next(text_entry(key, value), o1 + slen)
    }
}

fn gguf_value_exec(editor: &Editor, key: String, vt: u32, offset: usize) -> (r: StepOut)
    requires
        editor.wf(),
        offset <= editor@.len(),
    ensures
        step_view(r) == gguf_value(editor@, key@, vt as nat, offset as int),
        r matches StepOut::Next(_, o) ==> o <= editor@.len() + 8,
{
    proof {
        editor.lemma_wf();
    }
    if vt == 0 {
        let b = byte_or_zero_of(editor, offset);
        StepOut::Next(text_entry(key, dec_text(b as u64)), offset + 1)
    } else if vt == 1 {
        let b = byte_or_zero_of(editor, offset) as i8;
        StepOut::Next(text_entry(key, signed_text(b as i64)), offset + 1)
    } else if vt == 2 {
        let x = read_u16_le(editor, offset);
        StepOut::Next(text_entry(key, dec_text(x as u64)), offset + 2)
    } else if vt == 3 {
        let x = read_u16_le(editor, offset) as i16;
        StepOut::Next(text_entry(key, signed_text(x as i64)), offset + 2)
    } else if vt == 4 {
        let x = read_u32_le(editor, offset);
        StepOut::Next(text_entry(key, dec_text(x as u64)), offset + 4)
    } else if vt == 5 {
        let x = read_u32_le(editor, offset) as i32;
        StepOut::Next(text_entry(key, signed_text(x as i64)), offset + 4)
    } else if vt == 6 {
        let bits = read_u32_le(editor, offset);
        StepOut::Next((key, FieldValue::Float32(bits)), offset + 4)
    } else if vt == 7 {
        let b = byte_or_zero_of(editor, offset);
        let t = if b != 0 { lit("true") } else { lit("false") };
        StepOut::Next(text_entry(key, t), offset + 1)
    } else if vt == 8 {
        gguf_string_exec(editor, key, offset)
    } else if vt == 10 {
        let x = read_u64_le(editor, offset);
        StepOut::Next(text_entry(key, dec_text(x)), offset + 8)
    } else if vt == 11 {
        let x = read_u64_le(editor, offset) as i64;
        StepOut::Next(text_entry(key, signed_text(x)), offset + 8)
    } else if vt == 12 {
        let bits = read_u64_le(editor, offset);
        StepOut::Next((key, FieldValue::Float64(bits)), offset + 8)
    } else {
        let mut t = lit("<type ");
        push_dec(&mut t, vt as u64);
        t.append(" — skipped>");
        StepOut::Stop(Some(text_entry(key, t)))
    }
}

/// Signed decimal text.
fn signed_text(v: i64) -> (s: String)
    ensures
        s@ == signed_dec_chars(v as int),
{
    let mut s = String::new();
    push_signed_dec(&mut s, v);
    assert(s@ =~= signed_dec_chars(v as int));
    s
}

fn gguf_step_exec(editor: &Editor, offset: usize) -> (r: StepOut)
    requires
        editor.wf(),
        offset <= editor@.len() + 24,
    ensures
        step_view(r) == gguf_step(editor@, offset as int),
        r matches StepOut::Next(_, o) ==> o <= editor@.len() + 8,
{
    proof {
        editor.lemma_wf();
    }
    let n = editor.file_size();
    if offset + 8 > n {
        return StepOut::Stop(None);
    }
    let key_len = read_u64_le(editor, offset) as usize;
    let o1 = offset + 8;
    if key_len > 256 || o1 + key_len > n {
        return StepOut::Stop(None);
    }
    let key_bytes = editor.read_range(o1, key_len);
    let key = utf8_lossy(key_bytes.as_slice());
    let o2 = o1 + key_len;
    if o2 + 4 > n {
        return StepOut::Stop(None);
    }
    let value_type = read_u32_le(editor, o2);
    gguf_value_exec(editor, key, value_type, o2 + 4)
}

fn parse_gguf(editor: &Editor) -> (info: HeaderInfo)
    requires
        editor.wf(),
    ensures
        info@ == ("GGUF Model"@, gguf_fields(editor@)),
{
    proof {
        editor.lemma_wf();
    }
    let ghost v = editor@;
    let mut fields: Vec<(String, FieldValue)> = Vec::new();
    push_text(&mut fields, "Magic", lit("47 47 55 46 (GGUF)"));
    let version = read_u32_le(editor, 4);
    push_text(&mut fields, "Version", dec_text(version as u64));
    let tensor_count = read_u64_le(editor, 8);
    push_text(&mut fields, "Tensor count", dec_text(tensor_count));
    let metadata_kv_count = read_u64_le(editor, 16);
    push_text(&mut fields, "Metadata KV count", dec_text(metadata_kv_count));
    let ghost head = field_views(fields@);

    let max_kv: usize = if metadata_kv_count < 20 { metadata_kv_count as usize } else { 20 };
    let mut offset: usize = 24;
    let mut i: usize = 0;
    while i < max_kv
        invariant_except_break
            editor.wf(),
            v == editor@,
            max_kv == gguf_kv_limit(v),
            i <= max_kv,
            offset <= v.len() + 24,
            field_views(fields@).len() >= 4,
            field_views(fields@).take(4) == head,
            gguf_walk(v, 24, max_kv as nat) == field_views(fields@).skip(4) + gguf_walk(
                v,
                offset as int,
                (max_kv - i) as nat,
            ),
        ensures
            editor.wf(),
            v == editor@,
            field_views(fields@).len() >= 4,
            field_views(fields@).take(4) == head,
            gguf_walk(v, 24, max_kv as nat) == field_views(fields@).skip(4),
        decreases max_kv - i,
    {
        let ghost before = field_views(fields@);
        let step = gguf_step_exec(editor, offset);
        match step {
            StepOut::Stop(None) => {
                assert(field_views(fields@).skip(4) + Seq::empty() =~= field_views(fields@).skip(4));
                break;
            },
            StepOut::Stop(Some(e)) => {
                fields.push(e);
                assert(field_views(fields@) =~= before.push((e.0@, e.1@)));
                assert(field_views(fields@).skip(4) =~= before.skip(4) + seq![(e.0@, e.1@)]);
                assert(field_views(fields@).take(4) =~= before.take(4));
                break;
            },
            StepOut::Next(e, next) => {
                fields.push(e);
                assert(field_views(fields@) =~= before.push((e.0@, e.1@)));
                assert(field_views(fields@).skip(4) =~= before.skip(4) + seq![(e.0@, e.1@)]);
                assert(field_views(fields@).take(4) =~= before.take(4));
                offset = next;
                i = i + 1;
                proof {
                    let rest = gguf_walk(v, offset as int, (max_kv - i) as nat);
                    assert(before.skip(4) + (seq![(e.0@, e.1@)] + rest) =~= (before.skip(4)
                        + seq![(e.0@, e.1@)]) + rest);
                }
            },
        }
    }
    push_text(&mut fields, "File size", format_size(editor.file_size()));
    let info = HeaderInfo { format_name: lit("GGUF Model"), fields };
    assert(info@.1 =~= head + field_views(fields@).skip(4).drop_last() + seq![file_size_field(v.len())]);
    info
}

// ---------------------------------------------------------------- dispatch

/// The file starts with the ELF magic `7F 'E' 'L' 'F'`.
pub open spec fn is_elf(magic: Seq<u8>) -> bool {
    magic.len() >= 4 && magic[0] == 0x7f && magic[1] == 0x45 && magic[2] == 0x4c && magic[3]
        == 0x46
}

/// The file starts with the GGUF magic `'G' 'G' 'U' 'F'`.
pub open spec fn is_gguf(magic: Seq<u8>) -> bool {
    magic.len() >= 4 && magic[0] == 0x47 && magic[1] == 0x47 && magic[2] == 0x55 && magic[3]
        == 0x46
}

/// The file starts with the DOS magic `'M' 'Z'`.
pub open spec fn is_pe(magic: Seq<u8>) -> bool {
    magic.len() >= 2 && magic[0] == 0x4d && magic[1] == 0x5a
}

/// The file has at least 8 bytes and starts with `89 'P' 'N' 'G'`.
pub open spec fn is_png(magic: Seq<u8>) -> bool {
    magic.len() >= 8 && magic[0] == 0x89 && magic[1] == 0x50 && magic[2] == 0x4e && magic[3]
        == 0x47
}

/// The header of a file: its format, recognised by the first bytes (ELF, then
/// GGUF, then PE, then PNG), and the fields decoded for it; `None` where the
/// fields cannot be decoded (a PE signature offset that overflows a narrow `usize`).
pub open spec fn header_spec(v: Seq<Option<u8>>) -> Option<(Seq<char>, Seq<(Seq<char>, ValueView)>)> {
    let magic = range_of(v, 0, 8);
    if is_elf(magic) {
        Some(("ELF Binary"@, elf_fields(v)))
    } else if is_gguf(magic) {
        Some(("GGUF Model"@, gguf_fields(v)))
    } else if is_pe(magic) {
        if pe_overflows(v) {
            None
        } else {
            Some(("PE Executable"@, pe_fields(v)))
        }
    } else if is_png(magic) {
        Some(("PNG Image"@, png_fields(v)))
    } else {
        Some(("Unknown Format"@, generic_fields(v)))
    }
}

fn decode_header(editor: &Editor) -> (r: Option<HeaderInfo>)
    requires
        editor.wf(),
    ensures
        r is None <==> header_spec(editor@) is None,
        r matches Some(info) ==> info@ == header_spec(editor@)->0,
{
    let magic = editor.read_range(0, 8);
    let m = magic.len();
    if m >= 4 && magic[0] == 0x7f && magic[1] == 0x45 && magic[2] == 0x4c && magic[3] == 0x46 {
        return Some(parse_elf(editor));
    }
    if m >= 4 && magic[0] == 0x47 && magic[1] == 0x47 && magic[2] == 0x55 && magic[3] == 0x46 {
        return Some(parse_gguf(editor));
    }
    if m >= 2 && magic[0] == 0x4d && magic[1] == 0x5a {
        let pe_offset = read_u32_le(editor, 0x3C);
        if pe_offset as u64 + 4 > usize::MAX as u64 {
            return None;
        }
        return Some(parse_pe(editor));
    }
    if m >= 8 && magic[0] == 0x89 && magic[1] == 0x50 && magic[2] == 0x4e && magic[3] == 0x47 {
        return Some(parse_png(editor));
    }
    Some(parse_generic(editor))
}

/// The decoded header of the editor's file.
pub fn parse_header(editor: &Editor) -> (info: HeaderInfo)
    requires
        editor.wf(),
        header_spec(editor@) is Some,
    ensures
        info@ == header_spec(editor@)->0,
{
    decode_header(editor).unwrap()
}

/// The 16-bit number in bytes `off` and `off + 1`, most significant first when
/// `big`; 0 when the file ends before them.
pub open spec fn two_bytes(v: Seq<Option<u8>>, off: int, big: bool) -> nat {
    if 0 <= off && off + 2 <= v.len() {
        if big {
            (256 * byte_at_or_zero(v, off) + byte_at_or_zero(v, off + 1)) as nat
        } else {
            (byte_at_or_zero(v, off) + 256 * byte_at_or_zero(v, off + 1)) as nat
        }
    } else {
        0
    }
}

proof fn lemma_two_byte_fields(v: Seq<Option<u8>>, off: int)
    requires
        0 <= off,
    ensures
        le_field(v, off, 2) == two_bytes(v, off, false),
        be_field(v, off, 2) == two_bytes(v, off, true),
        elf_field(v, off, 2) == two_bytes(v, off, elf_big_endian(v)),
{
    let b = range_of(v, off, 2);
    if off + 2 <= v.len() {
        assert(b.len() == 2);
        assert(b[0] == byte_at_or_zero(v, off));
        assert(b[1] == byte_at_or_zero(v, off + 1));
        assert(b.drop_first().drop_first().len() == 0);
        assert(b.drop_last().drop_last().len() == 0);
        assert(b.drop_first()[0] == b[1]);
        assert(b.drop_last().last() == b[0]);
        reveal_with_fuel(le_value, 3);
        reveal_with_fuel(be_value, 3);
    }
}

/// What an ELF header's identification shows, by name: its class (byte 4), byte
/// order (byte 5), type (16-bit at offset 16) and machine (16-bit at offset 18),
/// the 16-bit numbers read in the byte order that byte 5 declares (2 for
/// big-endian); and the program and section header counts, at offsets 44 and 48
/// in a 32-bit header and 56 and 60 in a 64-bit one.
pub proof fn lemma_elf_fields_named(v: Seq<Option<u8>>)
    requires
        is_elf(range_of(v, 0, 8)),
    ensures
        ({
            let class = byte_at_or_zero(v, 4);
            let data = byte_at_or_zero(v, 5);
            let big = data == 2;
            let t = two_bytes(v, 16, big);
            let m = two_bytes(v, 18, big);
            &&& header_spec(v) matches Some((name, f)) && {
                &&& name == "ELF Binary"@
                &&& f.len() >= 8
                &&& f[0] == tf("Magic"@, "7F 45 4C 46 (ELF)"@)
                &&& f[1] == tf(
                    "Class"@,
                    if class == 1 {
                        "32-bit (ELF32)"@
                    } else if class == 2 {
                        "64-bit (ELF64)"@
                    } else {
                        "Unknown"@
                    },
                )
                &&& f[2] == tf(
                    "Endianness"@,
                    if data == 1 {
                        "Little-endian"@
                    } else if data == 2 {
                        "Big-endian"@
                    } else {
                        "Unknown"@
                    },
                )
                &&& f[3] == tf("ELF Version"@, dec_chars(byte_at_or_zero(v, 6) as nat))
                &&& f[4] == tf(
                    "OS/ABI"@,
                    (if byte_at_or_zero(v, 7) == 0 {
                        "UNIX System V"@
                    } else if byte_at_or_zero(v, 7) == 3 {
                        "Linux"@
                    } else if byte_at_or_zero(v, 7) == 6 {
                        "Solaris"@
                    } else if byte_at_or_zero(v, 7) == 9 {
                        "FreeBSD"@
                    } else {
                        "Other"@
                    }) + " ("@ + dec_chars(byte_at_or_zero(v, 7) as nat) + ")"@,
                )
                &&& f[5] == tf(
                    "Type"@,
                    if t == 1 {
                        "Relocatable (ET_REL)"@
                    } else if t == 2 {
                        "Executable (ET_EXEC)"@
                    } else if t == 3 {
                        "Shared object (ET_DYN)"@
                    } else if t == 4 {
                        "Core dump (ET_CORE)"@
                    } else {
                        "Unknown"@
                    },
                )
                &&& f[6] == tf(
                    "Machine"@,
                    (if m == 0x03 {
                        "x86"@
                    } else if m == 0x28 {
                        "ARM"@
                    } else if m == 0x3E {
                        "x86-64"@
                    } else if m == 0xB7 {
                        "AArch64"@
                    } else if m == 0xF3 {
                        "RISC-V"@
                    } else {
                        "Other"@
                    }) + " (0x"@ + hex_width(m, 0) + ")"@,
                )
                &&& class == 1 ==> f.len() == 13 && f[10] == tf(
                    "Program headers"@,
                    dec_chars(two_bytes(v, 44, big)),
                ) && f[11] == tf("Section headers"@, dec_chars(two_bytes(v, 48, big)))
                &&& class == 2 ==> f.len() == 13 && f[10] == tf(
                    "Program headers"@,
                    dec_chars(two_bytes(v, 56, big)),
                ) && f[11] == tf("Section headers"@, dec_chars(two_bytes(v, 60, big)))
                &&& class != 1 && class != 2 ==> f.len() == 8
            }
        }),
{
    lemma_two_byte_fields(v, 16);
    lemma_two_byte_fields(v, 18);
    lemma_two_byte_fields(v, 44);
    lemma_two_byte_fields(v, 48);
    lemma_two_byte_fields(v, 56);
    lemma_two_byte_fields(v, 60);
    let f = elf_fields(v);
    let id = elf_ident_fields(v);
    assert(f[0] == id[0] && f[1] == id[1] && f[2] == id[2] && f[3] == id[3] && f[4] == id[4]
        && f[5] == id[5] && f[6] == id[6]);
}

/// The 32-bit number in bytes `off` to `off + 3`, most significant first when
/// `big`; 0 when the file ends before them.
pub open spec fn four_bytes(v: Seq<Option<u8>>, off: int, big: bool) -> nat {
    let b0 = byte_at_or_zero(v, off) as int;
    let b1 = byte_at_or_zero(v, off + 1) as int;
    let b2 = byte_at_or_zero(v, off + 2) as int;
    let b3 = byte_at_or_zero(v, off + 3) as int;
    if 0 <= off && off + 4 <= v.len() {
        if big {
            (((b0 * 256 + b1) * 256 + b2) * 256 + b3) as nat
        } else {
            (b0 + 256 * (b1 + 256 * (b2 + 256 * b3))) as nat
        }
    } else {
        0
    }
}

proof fn lemma_four_byte_fields(v: Seq<Option<u8>>, off: int)
    requires
        0 <= off,
    ensures
        le_field(v, off, 4) == four_bytes(v, off, false),
        be_field(v, off, 4) == four_bytes(v, off, true),
{
    let b = range_of(v, off, 4);
    if off + 4 <= v.len() {
        assert(b.len() == 4);
        let t1 = b.drop_first();
        let t2 = t1.drop_first();
        let t3 = t2.drop_first();
        assert(t3.drop_first().len() == 0);
        assert(t1[0] == b[1] && t2[0] == b[2] && t3[0] == b[3]);
        let h1 = b.drop_last();
        let h2 = h1.drop_last();
        let h3 = h2.drop_last();
        assert(h3.drop_last().len() == 0);
        assert(h1.last() == b[2] && h2.last() == b[1] && h3.last() == b[0]);
        assert(b[0] == byte_at_or_zero(v, off) && b[1] == byte_at_or_zero(v, off + 1) && b[2]
            == byte_at_or_zero(v, off + 2) && b[3] == byte_at_or_zero(v, off + 3));
        reveal_with_fuel(le_value, 5);
        reveal_with_fuel(be_value, 5);
    }
}

/// What a PE file shows: after the magic, when the 32-bit little-endian offset
/// at 0x3C points at the bytes `P E 0 0` inside the file, the signature's offset,
/// the machine (16-bit after the signature) by name, the number of sections (16-bit
/// at signature + 6), and, when the COFF header records an optional header (its
/// 16-bit size at signature + 20 is not 0), the optional header's kind (16-bit magic
/// at signature + 24: PE32, PE32+ or ROM) and entry point (32-bit at signature + 40);
/// then the file size. Without the signature only the magic and the size show.
pub proof fn lemma_pe_fields_named(v: Seq<Option<u8>>)
    requires
        is_pe(range_of(v, 0, 8)),
        !pe_overflows(v),
    ensures
        ({
            let off = four_bytes(v, 0x3C, false) as int;
            let found = off + 4 <= v.len() && byte_at_or_zero(v, off) == 0x50
                && byte_at_or_zero(v, off + 1) == 0x45 && byte_at_or_zero(v, off + 2) == 0
                && byte_at_or_zero(v, off + 3) == 0;
            let m = two_bytes(v, off + 4, false);
            let kind = two_bytes(v, off + 24, false);
            &&& header_spec(v) matches Some((name, f)) && {
                &&& name == "PE Executable"@
                &&& f[0] == tf("Magic"@, "4D 5A (MZ / PE)"@)
                &&& !found ==> f.len() == 2
                &&& found ==> {
                    &&& f.len() >= 5
                    &&& f[1] == tf("PE Signature"@, "at 0x"@ + hex_width(off as nat, 0))
                    &&& f[2] == tf(
                        "Machine"@,
                        (if m == 0x14c {
                            "i386"@
                        } else if m == 0x8664 {
                            "x86-64"@
                        } else if m == 0xAA64 {
                            "AArch64"@
                        } else {
                            "Other"@
                        }) + " (0x"@ + hex_width(m, 0) + ")"@,
                    )
                    &&& f[3] == tf("Sections"@, dec_chars(two_bytes(v, off + 6, false)))
                    &&& two_bytes(v, off + 20, false) == 0 ==> f.len() == 5
                    &&& two_bytes(v, off + 20, false) > 0 ==> {
                        &&& f.len() == 7
                        &&& f[4] == tf(
                            "Optional header"@,
                            (if kind == 0x10b {
                                "PE32"@
                            } else if kind == 0x20b {
                                "PE32+"@
                            } else if kind == 0x107 {
                                "ROM"@
                            } else {
                                "Unknown"@
                            }) + " (0x"@ + hex_width(kind, 0) + ")"@,
                        )
                        &&& f[5] == tf(
                            "Entry point"@,
                            "0x"@ + hex_width(four_bytes(v, off + 40, false), 8),
                        )
                    }
                }
            }
        }),
{
    lemma_four_byte_fields(v, 0x3C);
    let off = four_bytes(v, 0x3C, false) as int;
    lemma_two_byte_fields(v, off + 4);
    lemma_two_byte_fields(v, off + 6);
    lemma_two_byte_fields(v, off + 20);
    lemma_two_byte_fields(v, off + 24);
    lemma_four_byte_fields(v, off + 40);
    let magic = range_of(v, 0, 8);
    assert(!is_elf(magic) && !is_gguf(magic));
    let sig = range_of(v, off, 4);
    if off + 4 <= v.len() {
        assert(sig[0] == byte_at_or_zero(v, off));
        assert(sig[1] == byte_at_or_zero(v, off + 1));
        assert(sig[2] == byte_at_or_zero(v, off + 2));
        assert(sig[3] == byte_at_or_zero(v, off + 3));
        if sig == seq![0x50u8, 0x45u8, 0u8, 0u8] {
            assert(sig[0] == 0x50 && sig[1] == 0x45 && sig[2] == 0 && sig[3] == 0);
        } else if byte_at_or_zero(v, off) == 0x50 && byte_at_or_zero(v, off + 1) == 0x45
            && byte_at_or_zero(v, off + 2) == 0 && byte_at_or_zero(v, off + 3) == 0 {
            assert(sig =~= seq![0x50u8, 0x45u8, 0u8, 0u8]);
        }
    }
}

/// What a PNG file of at least 29 bytes shows: its width and height (32-bit,
/// most significant byte first, at offsets 16 and 20), bit depth (byte 24) and
/// colour type (byte 25) by name.
pub proof fn lemma_png_fields_named(v: Seq<Option<u8>>)
    requires
        is_png(range_of(v, 0, 8)),
        v.len() >= 29,
    ensures
        ({
            let c = byte_at_or_zero(v, 25);
            &&& header_spec(v) matches Some((name, f)) && {
                &&& name == "PNG Image"@
                &&& f.len() == 5
                &&& f[1] == tf(
                    "Dimensions"@,
                    dec_chars(four_bytes(v, 16, true)) + "x"@ + dec_chars(four_bytes(v, 20, true)),
                )
                &&& f[2] == tf("Bit depth"@, dec_chars(byte_at_or_zero(v, 24) as nat))
                &&& f[3] == tf(
                    "Color type"@,
                    (if c == 0 {
                        "Grayscale"@
                    } else if c == 2 {
                        "RGB"@
                    } else if c == 3 {
                        "Indexed"@
                    } else if c == 4 {
                        "Grayscale+Alpha"@
                    } else if c == 6 {
                        "RGBA"@
                    } else {
                        "Unknown"@
                    }) + " ("@ + dec_chars(c as nat) + ")"@,
                )
            }
        }),
{
    lemma_four_byte_fields(v, 16);
    lemma_four_byte_fields(v, 20);
    let magic = range_of(v, 0, 8);
    assert(!is_elf(magic) && !is_gguf(magic) && !is_pe(magic));
}

/// What a file of another format shows: its first 16 bytes in hex, and "Text /
/// ASCII" exactly when more than 85% of its first 256 bytes (or all of them, if
/// fewer) are printable ASCII or white space (tab, line feed, form feed, carriage
/// return), else "Binary (unknown format)".
pub proof fn lemma_generic_fields(v: Seq<Option<u8>>)
    requires
        ({
            let magic = range_of(v, 0, 8);
            !is_elf(magic) && !is_gguf(magic) && !is_pe(magic) && !is_png(magic)
        }),
    ensures
        ({
            let n = if v.len() < 256 { v.len() } else { 256 };
            let sample = Seq::new(n, |i: int| byte_at_or_zero(v, i));
            let text = sample.filter(
                |b: u8| (0x20 <= b && b <= 0x7E) || b == 0x09 || b == 0x0A || b == 0x0C || b == 0x0D,
            );
            &&& header_spec(v) matches Some((name, f)) && {
                &&& name == "Unknown Format"@
                &&& f.len() == 3
                &&& f[0] == tf(
                    "First 16 bytes"@,
                    hex_bytes(Seq::new(if v.len() < 16 { v.len() } else { 16 }, |i: int| byte_at_or_zero(v, i))),
                )
                &&& f[1] == tf(
                    "Likely type"@,
                    if 100 * text.len() > 85 * n {
                        "Text / ASCII"@
                    } else {
                        "Binary (unknown format)"@
                    },
                )
            }
        }),
{
    let n = if v.len() < 256 { v.len() } else { 256 };
    let sample = Seq::new(n, |i: int| byte_at_or_zero(v, i));
    assert(range_of(v, 0, n as int) =~= sample);
    let m = if v.len() < 16 { v.len() } else { 16 };
    assert(range_of(v, 0, 16) =~= Seq::new(m, |i: int| byte_at_or_zero(v, i)));
    lemma_count_is_filter(sample);
}

proof fn lemma_count_is_filter(s: Seq<u8>)
    ensures
        count_text_bytes(s) == s.filter(
            |b: u8| (0x20 <= b && b <= 0x7E) || b == 0x09 || b == 0x0A || b == 0x0C || b == 0x0D,
        ).len(),
    decreases s.len(),
{
    reveal_with_fuel(Seq::<u8>::filter, 1);
    if s.len() > 0 {
        lemma_count_is_filter(s.drop_last());
    }
}

/// How a metadata value of each type is shown, and where the next entry starts:
/// unsigned and signed integers of 8, 16, 32 and 64 bits (little-endian) in
/// decimal, 32- and 64-bit floats by their bits, booleans as "true" (any byte but
/// 0) or "false"; arrays and unknown types end the listing with a "skipped" note.
pub proof fn lemma_gguf_value_kinds(v: Seq<Option<u8>>, key: Seq<char>, o: int, vt: nat)
    requires
        0 <= o,
    ensures
        vt == 0 ==> gguf_value(v, key, vt, o) == GgufStep::Next(
            tf(key, dec_chars(byte_at_or_zero(v, o) as nat)),
            o + 1,
        ),
        vt == 1 ==> gguf_value(v, key, vt, o) == GgufStep::Next(
            tf(key, signed_dec_chars((byte_at_or_zero(v, o) as i8) as int)),
            o + 1,
        ),
        vt == 2 ==> gguf_value(v, key, vt, o) == GgufStep::Next(
            tf(key, dec_chars(two_bytes(v, o, false))),
            o + 2,
        ),
        vt == 3 ==> gguf_value(v, key, vt, o) == GgufStep::Next(
            tf(key, signed_dec_chars(((two_bytes(v, o, false) as u16) as i16) as int)),
            o + 2,
        ),
        vt == 4 ==> gguf_value(v, key, vt, o) == GgufStep::Next(
            tf(key, dec_chars(four_bytes(v, o, false))),
            o + 4,
        ),
        vt == 5 ==> gguf_value(v, key, vt, o) == GgufStep::Next(
            tf(key, signed_dec_chars(((four_bytes(v, o, false) as u32) as i32) as int)),
            o + 4,
        ),
        vt == 6 ==> gguf_value(v, key, vt, o) == GgufStep::Next(
            (key, ValueView::Float32(four_bytes(v, o, false) as u32)),
            o + 4,
        ),
        vt == 7 ==> gguf_value(v, key, vt, o) == GgufStep::Next(
            tf(key, if byte_at_or_zero(v, o) != 0 { "true"@ } else { "false"@ }),
            o + 1,
        ),
        vt == 8 ==> gguf_value(v, key, vt, o) == gguf_string(v, key, o),
        vt == 10 ==> gguf_value(v, key, vt, o) == GgufStep::Next(
            tf(key, dec_chars(le_field(v, o, 8))),
            o + 8,
        ),
        vt == 11 ==> gguf_value(v, key, vt, o) == GgufStep::Next(
            tf(key, signed_dec_chars(((le_field(v, o, 8) as u64) as i64) as int)),
            o + 8,
        ),
        vt == 12 ==> gguf_value(v, key, vt, o) == GgufStep::Next(
            (key, ValueView::Float64(le_field(v, o, 8) as u64)),
            o + 8,
        ),
        vt == 9 || vt > 12 ==> gguf_value(v, key, vt, o) == GgufStep::Stop(
            seq![tf(key, "<type "@ + dec_chars(vt) + " — skipped>"@)],
        ),
{
    lemma_two_byte_fields(v, o);
    lemma_four_byte_fields(v, o);
}

/// Decoding reads only the bytes shown: two editors that show the same bytes
/// (whether modified in memory or read from the file) decode to the same header.
pub proof fn lemma_header_from_shown_bytes(a: &Editor, b: &Editor)
    requires
        a@.len() == b@.len(),
        forall|i: int| 0 <= i < a@.len() ==> a@[i] == b@[i],
    ensures
        header_spec(a@) == header_spec(b@),
{
    assert(a@ =~= b@);
}

/// The decoded header of the editor's file, or `None` where it cannot be decoded.
pub fn try_parse_header(editor: &Editor) -> (r: Option<HeaderInfo>)
    requires
        editor.wf(),
    ensures
        r is None <==> header_spec(editor@) is None,
        r matches Some(info) ==> info@ == header_spec(editor@)->0,
{
    match decode_header(editor) {
        Some(_) => Some(parse_header(editor)),
        None => None,
    }
}

} // verus!

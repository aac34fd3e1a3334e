//! Number-to-text conversions used throughout the displays: decimal,
//! upper-case hexadecimal with zero padding, and signed decimal.

use vstd::prelude::*;

verus! {

/// The upper-case digit for `d` (meaningful for `d < 16`).
pub open spec fn digit_char(d: nat) -> char {
    if d == 0 { '0' }
    else if d == 1 { '1' }
    else if d == 2 { '2' }
    else if d == 3 { '3' }
    else if d == 4 { '4' }
    else if d == 5 { '5' }
    else if d == 6 { '6' }
    else if d == 7 { '7' }
    else if d == 8 { '8' }
    else if d == 9 { '9' }
    else if d == 10 { 'A' }
    else if d == 11 { 'B' }
    else if d == 12 { 'C' }
    else if d == 13 { 'D' }
    else if d == 14 { 'E' }
    else { 'F' }
}

/// The digits of `n` in base `base`, most significant first, with no leading zeros
/// (zero itself is the single digit `0`).
pub open spec fn radix_chars(n: nat, base: nat) -> Seq<char>
    decreases n,
{
    if base < 2 || n < base {
        seq![digit_char(n)]
    } else {
        proof {
            assert(n / base < n) by (nonlinear_arith)
                requires
                    base >= 2,
                    n >= base,
            ;
        }
        radix_chars(n / base, base).push(digit_char(n % base))
    }
}

/// Decimal text of `n`.
pub open spec fn dec_chars(n: nat) -> Seq<char> {
    radix_chars(n, 10)
}

/// Upper-case hexadecimal text of `n`.
pub open spec fn hex_chars(n: nat) -> Seq<char> {
    radix_chars(n, 16)
}

/// `s` preceded by as many `0` as it takes to reach `width` characters.
pub open spec fn zero_pad(s: Seq<char>, width: nat) -> Seq<char> {
    if s.len() < width {
        Seq::new((width - s.len()) as nat, |_i: int| '0') + s
    } else {
        s
    }
}

/// Upper-case hexadecimal text of `n`, zero-padded to at least `width` characters.
pub open spec fn hex_width(n: nat, width: nat) -> Seq<char> {
    zero_pad(hex_chars(n), width)
}

/// Decimal text of a signed value, with a leading `-` for negative values.
pub open spec fn signed_dec_chars(v: int) -> Seq<char> {
    if v < 0 {
        seq!['-'] + dec_chars((-v) as nat)
    } else {
        dec_chars(v as nat)
    }
}

/// Appends the single digit `d` to `s`.
pub fn push_digit(s: &mut String, d: u64)
    requires
        d < 16,
    ensures
        final(s)@ == old(s)@.push(digit_char(d as nat)),
{
    match d {
        0 => { s.append("0"); proof { reveal_strlit("0"); } },
        1 => { s.append("1"); proof { reveal_strlit("1"); } },
        2 => { s.append("2"); proof { reveal_strlit("2"); } },
        3 => { s.append("3"); proof { reveal_strlit("3"); } },
        4 => { s.append("4"); proof { reveal_strlit("4"); } },
        5 => { s.append("5"); proof { reveal_strlit("5"); } },
        6 => { s.append("6"); proof { reveal_strlit("6"); } },
        7 => { s.append("7"); proof { reveal_strlit("7"); } },
        8 => { s.append("8"); proof { reveal_strlit("8"); } },
        9 => { s.append("9"); proof { reveal_strlit("9"); } },
        10 => { s.append("A"); proof { reveal_strlit("A"); } },
        11 => { s.append("B"); proof { reveal_strlit("B"); } },
        12 => { s.append("C"); proof { reveal_strlit("C"); } },
        13 => { s.append("D"); proof { reveal_strlit("D"); } },
        14 => { s.append("E"); proof { reveal_strlit("E"); } },
        _ => { s.append("F"); proof { reveal_strlit("F"); } },
    }
}

/// Appends the digits of `n` in base `base` (10 or 16) to `s`.
pub fn push_radix(s: &mut String, n: u64, base: u64)
    requires
        base == 10 || base == 16,
    ensures
        final(s)@ == old(s)@ + radix_chars(n as nat, base as nat),
    decreases n,
{
    if n >= base {
        push_radix(s, n / base, base);
    }
    push_digit(s, n % base);
    proof {
        if n < base {
            assert(n % base == n);
        }
    }
}

/// Number of digits of `n` in base `base` (10 or 16).
pub fn radix_len(n: u64, base: u64) -> (len: usize)
    requires
        base == 10 || base == 16,
    ensures
        len == radix_chars(n as nat, base as nat).len(),
        1 <= len <= 20,
    decreases n,
{
    if n < base {
        1
    } else {
        let rest = radix_len(n / base, base);
        proof {
            lemma_radix_len_bound(n as nat, base as nat);
        }
        rest + 1
    }
}

/// Every `u64` has at most 20 digits in base 10 or 16.
proof fn lemma_radix_len_bound(n: nat, base: nat)
    requires
        base == 10 || base == 16,
        n <= u64::MAX,
    ensures
        radix_chars(n, base).len() <= 20,
{
    reveal_with_fuel(pow_nat, 21);
    assert(pow_nat(10, 20) == 100000000000000000000nat);
    assert(pow_nat(16, 20) == 1208925819614629174706176nat);
    lemma_radix_len_le(n, base, 20);
}

/// Digit count is bounded by the smallest `k` with `n < base^k`, stated by repeated division.
proof fn lemma_radix_len_le(n: nat, base: nat, k: nat)
    requires
        base == 10 || base == 16,
        k >= 1,
        n < pow_nat(base, k),
    ensures
        radix_chars(n, base).len() <= k,
    decreases n,
{
    if n >= base {
        assert(k >= 2) by {
            if k == 1 {
                assert(pow_nat(base, 1) == base * pow_nat(base, 0));
            }
        }
        assert(pow_nat(base, k) == base * pow_nat(base, (k - 1) as nat));
        assert(n / base < pow_nat(base, (k - 1) as nat)) by (nonlinear_arith)
            requires
                n < base * pow_nat(base, (k - 1) as nat),
                base >= 2,
        ;
        lemma_radix_len_le(n / base, base, (k - 1) as nat);
    }
}

/// Natural-number power.
pub open spec fn pow_nat(b: nat, e: nat) -> nat
    decreases e,
{
    if e == 0 { 1 } else { b * pow_nat(b, (e - 1) as nat) }
}

/// Appends `count` zero digits to `s`.
pub fn push_zeros(s: &mut String, count: usize)
    ensures
        final(s)@ == old(s)@ + Seq::new(count as nat, |_i: int| '0'),
{
    let mut i: usize = 0;
    while i < count
        invariant
            i <= count,
            s@ == old(s)@ + Seq::new(i as nat, |_i: int| '0'),
        decreases count - i,
    {
        push_digit(s, 0);
        i = i + 1;
        assert(s@ =~= old(s)@ + Seq::new(i as nat, |_i: int| '0'));
    }
}

/// Appends the upper-case hexadecimal text of `n`, zero-padded to `width`, to `s`.
pub fn push_hex(s: &mut String, n: u64, width: usize)
    ensures
        final(s)@ == old(s)@ + hex_width(n as nat, width as nat),
{
    let len = radix_len(n, 16);
    let ghost before = s@;
    if len < width {
        push_zeros(s, width - len);
    }
    let ghost mid = s@;
    push_radix(s, n, 16);
    assert(s@ =~= before + hex_width(n as nat, width as nat));
}

/// Appends the decimal text of `n` to `s`.
pub fn push_dec(s: &mut String, n: u64)
    ensures
        final(s)@ == old(s)@ + dec_chars(n as nat),
{
    push_radix(s, n, 10);
}

/// Appends the decimal text of the signed value `v` to `s`.
pub fn push_signed_dec(s: &mut String, v: i64)
    ensures
        final(s)@ == old(s)@ + signed_dec_chars(v as int),
{
    if v < 0 {
        let ghost before = s@;
        s.append("-");
        proof {
            reveal_strlit("-");
        }
        let magnitude: u64 = (0 - (v as i128)) as u64;
        push_radix(s, magnitude, 10);
        assert(s@ =~= before + signed_dec_chars(v as int));
    } else {
        push_radix(s, v as u64, 10);
    }
}

/// Decimal text of `n`.
pub fn dec_string(n: u64) -> (s: String)
    ensures
        s@ == dec_chars(n as nat),
{
    let mut s = String::new();
    push_dec(&mut s, n);
    assert(s@ =~= dec_chars(n as nat));
    s
}

/// Upper-case hexadecimal text of `n`, zero-padded to at least `width` characters.
pub fn hex_string(n: u64, width: usize) -> (s: String)
    ensures
        s@ == hex_width(n as nat, width as nat),
{
    let mut s = String::new();
    push_hex(&mut s, n, width);
    assert(s@ =~= hex_width(n as nat, width as nat));
    s
}

/// Each byte as two upper-case hex digits, separated by single spaces ("DE AD BE EF").
pub open spec fn hex_bytes(b: Seq<u8>) -> Seq<char>
    decreases b.len(),
{
    if b.len() == 0 {
        Seq::empty()
    } else if b.len() == 1 {
        hex_width(b[0] as nat, 2)
    } else {
        hex_bytes(b.drop_last()) + seq![' '] + hex_width(b.last() as nat, 2)
    }
}

/// Each byte as two upper-case hex digits, separated by single spaces.
pub fn hex_bytes_string(b: &[u8]) -> (s: String)
    ensures
        s@ == hex_bytes(b@),
{
    let mut s = String::new();
    let mut i: usize = 0;
    while i < b.len()
        invariant
            i <= b@.len(),
            s@ == hex_bytes(b@.take(i as int)),
        decreases b@.len() - i,
    {
        let ghost before = s@;
        if i > 0 {
            s.append(" ");
            proof {
                reveal_strlit(" ");
            }
        }
        push_hex(&mut s, b[i] as u64, 2);
        proof {
            assert(b@.take(i + 1).drop_last() =~= b@.take(i as int));
            assert(b@.take(i + 1).last() == b@[i as int]);
            if i == 0 {
                assert(b@.take(0) =~= Seq::<u8>::empty());
            }
        }
        i = i + 1;
        assert(s@ =~= hex_bytes(b@.take(i as int)));
    }
    assert(b@.take(b@.len() as int) =~= b@);
    s
}

} // verus!

//! Human-readable byte sizes ("512 B", "1.5 KiB", "2.00 GiB").
//!
//! Sizes of a KiB and more are shown with one decimal (two for GiB), rounded
//! the way a binary double is printed: the size is first taken as the nearest
//! 64-bit float (exact below 2^53), divided by the unit (a power of two, so
//! exactly), and then rounded to the shown decimals, ties to even.

use vstd::prelude::*;

use crate::text::dec_chars;
use crate::text::pow_nat;
use crate::text::push_dec;
use crate::text::push_zeros;
use crate::text::radix_len;
use crate::text::zero_pad;

verus! {

/// `num / den` rounded to the nearest integer, ties to the even neighbour.
pub open spec fn round_half_even(num: nat, den: nat) -> nat {
    let q = num / den;
    let r = num % den;
    if 2 * r > den || (2 * r == den && q % 2 == 1) {
        q + 1
    } else {
        q
    }
}

/// Number of bits needed to write `n` in binary.
pub open spec fn bit_len(n: nat) -> nat
    decreases n,
{
    if n == 0 {
        0
    } else {
        1 + bit_len(n / 2)
    }
}

/// The value of the 64-bit float nearest to `n` (ties to even): `n` itself when
/// it fits in the 53-bit significand.
pub open spec fn nearest_f64(n: nat) -> nat {
    if bit_len(n) <= 53 {
        n
    } else {
        let unit = pow_nat(2, (bit_len(n) - 53) as nat);
        round_half_even(n, unit) * unit
    }
}

/// `num / den` written with `places` decimals, rounded ties to even.
pub open spec fn fixed_text(num: nat, den: nat, places: nat) -> Seq<char> {
    let scale = pow_nat(10, places);
    let q = round_half_even(num * scale, den);
    dec_chars(q / scale) + seq!['.'] + zero_pad(dec_chars(q % scale), places)
}

/// The scaled number and unit of a size: bytes below a KiB, else KiB, MiB or GiB.
pub open spec fn scaled_size(n: nat) -> Seq<char> {
    if n < 1024 {
        dec_chars(n) + seq![' ', 'B']
    } else if n < 1048576 {
        fixed_text(n, 1024, 1) + seq![' ', 'K', 'i', 'B']
    } else if n < 1073741824 {
        fixed_text(n, 1048576, 1) + seq![' ', 'M', 'i', 'B']
    } else {
        fixed_text(nearest_f64(n), 1073741824, 2) + seq![' ', 'G', 'i', 'B']
    }
}

/// A size with the exact byte count added for sizes of a KiB and more:
/// "1.5 KiB (1536 bytes)".
pub open spec fn size_with_bytes(n: nat) -> Seq<char> {
    if n < 1024 {
        scaled_size(n)
    } else {
        scaled_size(n) + seq![' ', '('] + dec_chars(n) + seq![' ', 'b', 'y', 't', 'e', 's', ')']
    }
}

/// Appends `lit` to `s` (a short fixed text).
fn push_lit(s: &mut String, lit: &str)
    ensures
        final(s)@ == old(s)@ + lit@,
{
    s.append(lit);
}

/// `round_half_even` on machine integers.
fn round_div(num: u128, den: u128) -> (q: u128)
    requires
        den > 0,
        den < u128::MAX / 2,
        num < u128::MAX / 2,
    ensures
        q == round_half_even(num as nat, den as nat),
{
    let q = num / den;
    let r = num % den;
    assert(r < den);
    if 2 * r > den || (2 * r == den && q % 2 == 1) {
        assert(q <= num) by (nonlinear_arith)
            requires
                q == num / den,
                den > 0,
        ;
        q + 1
    } else {
        q
    }
}

/// Number of bits of `n`.
fn bits_of(n: u64) -> (b: u64)
    ensures
        b == bit_len(n as nat),
        b <= 64,
{
    let mut m = n;
    let mut b: u64 = 0;
    proof {
        lemma_bit_len_u64(n as nat);
    }
    while m > 0
        invariant
            b + bit_len(m as nat) == bit_len(n as nat),
            b + bit_len(m as nat) <= 64,
            bit_len(m as nat) <= 64 - b,
        decreases m,
    {
        proof {
            lemma_bit_len_step(m as nat);
        }
        m = m / 2;
        b = b + 1;
    }
    b
}

proof fn lemma_bit_len_step(m: nat)
    requires
        m > 0,
    ensures
        bit_len(m) == 1 + bit_len(m / 2),
{
}

/// Every `u64` needs at most 64 bits.
proof fn lemma_bit_len_u64(n: nat)
    requires
        n <= u64::MAX,
    ensures
        bit_len(n) <= 64,
{
    lemma_pow2_64();
    lemma_bit_len_below(n, 64);
}

proof fn lemma_bit_len_below(n: nat, k: nat)
    requires
        n < pow_nat(2, k),
    ensures
        bit_len(n) <= k,
    decreases k,
{
    if n > 0 {
        assert(k > 0) by {
            if k == 0 {
                assert(pow_nat(2, 0) == 1);
            }
        }
        assert(pow_nat(2, k) == 2 * pow_nat(2, (k - 1) as nat));
        lemma_bit_len_below(n / 2, (k - 1) as nat);
    }
}

proof fn lemma_pow2_64()
    ensures
        pow_nat(2, 64) == 18446744073709551616nat,
{
    reveal_with_fuel(pow_nat, 65);
}

/// A number with more than 53 bits is at least `2^(bits - 1)`.
proof fn lemma_bit_len_low(n: nat)
    requires
        n > 0,
    ensures
        pow_nat(2, (bit_len(n) - 1) as nat) <= n,
    decreases n,
{
    if n >= 2 {
        lemma_bit_len_low(n / 2);
        assert(bit_len(n) == 1 + bit_len(n / 2));
        assert(n / 2 > 0);
        assert(pow_nat(2, (bit_len(n) - 1) as nat) == 2 * pow_nat(2, (bit_len(n / 2) - 1) as nat));
    } else {
        assert(bit_len(n) == 1 + bit_len(0));
    }
}

/// Computes `2^e`.
fn pow2(e: u64) -> (p: u128)
    requires
        e <= 64,
    ensures
        p == pow_nat(2, e as nat),
        p >= 1,
{
    let mut p: u128 = 1;
    let mut i: u64 = 0;
    proof {
        lemma_pow2_64();
    }
    while i < e
        invariant
            i <= e <= 64,
            p == pow_nat(2, i as nat),
            1 <= p <= pow_nat(2, 64),
        decreases e - i,
    {
        proof {
            lemma_pow2_64();
            lemma_pow_mono(i as nat + 1, 64);
        }
        p = p * 2;
        i = i + 1;
    }
    proof {
        lemma_pow2_64();
    }
    p
}

proof fn lemma_pow_mono(a: nat, b: nat)
    requires
        a <= b,
    ensures
        pow_nat(2, a) <= pow_nat(2, b),
    decreases b,
{
    if a < b {
        lemma_pow_mono(a, (b - 1) as nat);
        assert(pow_nat(2, b) == 2 * pow_nat(2, (b - 1) as nat));
    }
}

/// The value of the float nearest to `n`.
fn nearest_f64_of(n: u64) -> (f: u128)
    ensures
        f == nearest_f64(n as nat),
        f <= 18446744073709551616,
{
    let bits = bits_of(n);
    if bits <= 53 {
        return n as u128;
    }
    let unit = pow2(bits - 53);
    proof {
        lemma_pow2_64();
        lemma_pow_mono((bits - 53) as nat, 64);
    }
    let q = round_div(n as u128, unit);
    proof {
        lemma_bit_len_low(n as nat);
        lemma_pow_split((bits - 53) as nat, 52);
        assert(pow_nat(2, (bits - 1) as nat) == pow_nat(2, (bits - 53) as nat) * pow_nat(2, 52));
        let e = (bits - 53) as nat;
        lemma_pow_split(e, (64 - e) as nat);
        assert(pow_nat(2, 64) == pow_nat(2, e) * pow_nat(2, (64 - e) as nat));
        vstd::arithmetic::div_mod::lemma_mod_multiples_basic(pow_nat(2, (64 - e) as nat) as int, pow_nat(2, e) as int);
        assert(pow_nat(2, e) * pow_nat(2, (64 - e) as nat) == pow_nat(2, (64 - e) as nat) * pow_nat(2, e)) by (nonlinear_arith);
        lemma_rounded_bound(n as nat, unit as nat, bits as nat);
    }
    q * unit
}

proof fn lemma_pow_split(a: nat, b: nat)
    ensures
        pow_nat(2, a + b) == pow_nat(2, a) * pow_nat(2, b),
    decreases b,
{
    if b > 0 {
        let b1 = (b - 1) as nat;
        lemma_pow_split(a, b1);
        let x = pow_nat(2, a);
        let y = pow_nat(2, b1);
        assert(a + b1 + 1 == a + b);
        assert(pow_nat(2, a + b) == 2 * pow_nat(2, a + b1));
        assert(pow_nat(2, b) == 2 * y);
        assert(2 * (x * y) == x * (2 * y)) by (nonlinear_arith);
        assert(pow_nat(2, a + b) == x * pow_nat(2, b));
    } else {
        assert(a + b == a);
        assert(pow_nat(2, b) == 1);
        assert(pow_nat(2, a) * 1 == pow_nat(2, a));
    }
}

/// Rounding a number below `2^64` to a multiple of `unit` stays at most `2^64`.
proof fn lemma_rounded_bound(n: nat, unit: nat, bits: nat)
    requires
        n <= u64::MAX,
        unit >= 1,
        unit <= pow_nat(2, 64),
        pow_nat(2, 64) % unit == 0,
    ensures
        round_half_even(n, unit) * unit <= pow_nat(2, 64),
{
    lemma_pow2_64();
    let q = n / unit;
    let top = pow_nat(2, 64) / unit;
    assert(q * unit <= n) by (nonlinear_arith)
        requires
            q == n / unit,
            unit >= 1,
    ;
    assert(top * unit == pow_nat(2, 64)) by (nonlinear_arith)
        requires
            top == pow_nat(2, 64) / unit,
            pow_nat(2, 64) % unit == 0,
            unit >= 1,
    ;
    assert(q < top) by (nonlinear_arith)
        requires
            q * unit <= n,
            n < top * unit,
            unit >= 1,
    ;
    assert((q + 1) * unit <= top * unit) by (nonlinear_arith)
        requires
            q + 1 <= top,
            unit >= 1,
    ;
    let r = round_half_even(n, unit);
    assert(r <= q + 1);
    assert(r * unit <= (q + 1) * unit) by (nonlinear_arith)
        requires
            r <= q + 1,
            unit >= 1,
    ;
}

/// Appends `num / den` with `places` decimals (1 or 2), rounded ties to even.
fn push_fixed(s: &mut String, num: u128, den: u128, places: u64)
    requires
        den > 0,
        den <= 1073741824,
        places == 1 || places == 2,
        num <= 18446744073709551616,
        (num as int) * 100 / (den as int) < u64::MAX,
    ensures
        final(s)@ == old(s)@ + fixed_text(num as nat, den as nat, places as nat),
{
    let scale: u128 = if places == 1 { 10 } else { 100 };
    proof {
        reveal_with_fuel(pow_nat, 3);
    }
    let q = round_div(num * scale, den);
    proof {
        let a = (num as int) * (scale as int);
        let b = (num as int) * 100;
        assert(a <= b) by (nonlinear_arith)
            requires
                a == (num as int) * (scale as int),
                b == (num as int) * 100,
                scale <= 100,
                num >= 0,
        ;
        assert(a / (den as int) <= b / (den as int)) by (nonlinear_arith)
            requires
                a <= b,
                den > 0,
        ;
        assert(q <= a / (den as int) + 1);
    }
    let whole = (q / scale) as u64;
    let frac = (q % scale) as u64;
    push_dec(s, whole);
    let ghost before_dot = s@;
    s.append(".");
    proof {
        reveal_strlit(".");
    }
    let len = radix_len(frac, 10);
    if len < places as usize {
        push_zeros(s, places as usize - len);
    }
    push_dec(s, frac);
    assert(s@ =~= old(s)@ + fixed_text(num as nat, den as nat, places as nat));
}

/// Appends the scaled size text of `n` (see `scaled_size`).
pub fn push_scaled_size(s: &mut String, n: usize)
    ensures
        final(s)@ == old(s)@ + scaled_size(n as nat),
{
    let ghost start = s@;
    if n < 1024 {
        push_dec(s, n as u64);
        push_lit(s, " B");
        proof {
            reveal_strlit(" B");
        }
    } else if n < 1048576 {
        push_fixed(s, n as u128, 1024, 1);
        push_lit(s, " KiB");
        proof {
            reveal_strlit(" KiB");
        }
    } else if n < 1073741824 {
        push_fixed(s, n as u128, 1048576, 1);
        push_lit(s, " MiB");
        proof {
            reveal_strlit(" MiB");
        }
    } else {
        let f = nearest_f64_of(n as u64);
        assert((f as int) * 100 / 1073741824 < u64::MAX);
        push_fixed(s, f, 1073741824, 2);
        push_lit(s, " GiB");
        proof {
            reveal_strlit(" GiB");
        }
    }
    assert(s@ =~= start + scaled_size(n as nat));
}

/// Appends the size text of `n` with its exact byte count (see `size_with_bytes`).
pub fn push_size_with_bytes(s: &mut String, n: usize)
    ensures
        final(s)@ == old(s)@ + size_with_bytes(n as nat),
{
    let ghost start = s@;
    push_scaled_size(s, n);
    if n >= 1024 {
        push_lit(s, " (");
        push_dec(s, n as u64);
        push_lit(s, " bytes)");
        proof {
            reveal_strlit(" (");
            reveal_strlit(" bytes)");
        }
    }
    assert(s@ =~= start + size_with_bytes(n as nat));
}

} // verus!

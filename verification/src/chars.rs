//! Character-level text handling: appending and removing characters,
//! white space and trimming, and parsing unsigned integers.

use vstd::prelude::*;
use vstd::std_specs::iter::IteratorSpec;

verus! {

/// `String::push`: appends the character `c`.
#[verifier::external_body]
pub(crate) fn string_push(s: &mut String, c: char)
    ensures
        final(s)@ == old(s)@.push(c),
{
    s.push(c);
}

/// `String::pop`: removes and returns the last character, or returns `None`
/// (leaving the string unchanged) when it is empty.
#[verifier::external_body]
pub(crate) fn string_pop(s: &mut String) -> (r: Option<char>)
    ensures
        old(s)@.len() == 0 ==> r is None && final(s)@ == old(s)@,
        old(s)@.len() > 0 ==> r == Some(old(s)@.last()) && final(s)@ == old(s)@.drop_last(),
{
    s.pop()
}

/// The characters of `s`.
pub fn chars_of(s: &str) -> (v: Vec<char>)
    ensures
        v@ == s@,
{
    let mut v: Vec<char> = Vec::new();
    let iter = s.chars();
    let ghost all = iter.remaining();
    for c in it: iter
        invariant
            it.seq() == all,
            all == s@,
            v@ == it.seq().take(it.index() as int),
    {
        v.push(c);
    }
    assert(v@ =~= s@);
    v
}

/// A string made of the characters `cs`.
pub fn string_from(cs: &[char]) -> (s: String)
    ensures
        s@ == cs@,
{
    let mut s = String::new();
    let mut i: usize = 0;
    while i < cs.len()
        invariant
            i <= cs@.len(),
            s@ == cs@.take(i as int),
        decreases cs@.len() - i,
    {
        string_push(&mut s, cs[i]);
        i = i + 1;
        assert(s@ =~= cs@.take(i as int));
    }
    assert(cs@.take(cs@.len() as int) =~= cs@);
    s
}

/// `c` has the Unicode White_Space property (what `char::is_whitespace` tests).
pub open spec fn is_white_space(c: char) -> bool {
    let u = c as u32;
    (0x09 <= u && u <= 0x0D) || u == 0x20 || u == 0x85 || u == 0xA0 || u == 0x1680 || (0x2000
        <= u && u <= 0x200A) || u == 0x2028 || u == 0x2029 || u == 0x202F || u == 0x205F || u
        == 0x3000
}

/// Whether `c` is white space (Unicode White_Space).
pub fn is_white_space_char(c: char) -> (b: bool)
    ensures
        b == is_white_space(c),
{
    let u = c as u32;
    (0x09 <= u && u <= 0x0D) || u == 0x20 || u == 0x85 || u == 0xA0 || u == 0x1680 || (0x2000
        <= u && u <= 0x200A) || u == 0x2028 || u == 0x2029 || u == 0x202F || u == 0x205F || u
        == 0x3000
}

/// `s` without its leading white space.
pub open spec fn trim_start(s: Seq<char>) -> Seq<char>
    decreases s.len(),
{
    if s.len() > 0 && is_white_space(s[0]) {
        trim_start(s.drop_first())
    } else {
        s
    }
}

/// `s` without its trailing white space.
pub open spec fn trim_end(s: Seq<char>) -> Seq<char>
    decreases s.len(),
{
    if s.len() > 0 && is_white_space(s.last()) {
        trim_end(s.drop_last())
    } else {
        s
    }
}

/// `s` without leading and trailing white space.
pub open spec fn trim(s: Seq<char>) -> Seq<char> {
    trim_end(trim_start(s))
}

proof fn lemma_trim_start_skip(s: Seq<char>, i: int)
    requires
        0 <= i <= s.len(),
        forall|j: int| 0 <= j < i ==> is_white_space(#[trigger] s[j]),
    ensures
        trim_start(s) == trim_start(s.skip(i)),
    decreases i,
{
    if i > 0 {
        assert(is_white_space(s[0]));
        lemma_trim_start_skip(s.drop_first(), i - 1);
        assert(s.drop_first().skip(i - 1) =~= s.skip(i));
    } else {
        assert(s.skip(0) =~= s);
    }
}

proof fn lemma_trim_end_take(s: Seq<char>, i: int)
    requires
        0 <= i <= s.len(),
        forall|j: int| i <= j < s.len() ==> is_white_space(#[trigger] s[j]),
    ensures
        trim_end(s) == trim_end(s.take(i)),
    decreases s.len() - i,
{
    if i < s.len() {
        assert(is_white_space(s.last()));
        lemma_trim_end_take(s.drop_last(), i);
        assert(s.drop_last().take(i) =~= s.take(i));
    } else {
        assert(s.take(i) =~= s);
    }
}

/// The characters of `s` without leading and trailing white space.
pub fn trimmed(s: &[char]) -> (t: Vec<char>)
    ensures
        t@ == trim(s@),
{
    let n = s.len();
    let mut lo: usize = 0;
    while lo < n && is_white_space_char(s[lo])
        invariant
            n == s@.len(),
            lo <= n,
            forall|j: int| 0 <= j < lo ==> is_white_space(#[trigger] s@[j]),
        decreases n - lo,
    {
        lo = lo + 1;
    }
    proof {
        lemma_trim_start_skip(s@, lo as int);
        if lo < n {
            assert(!is_white_space(s@.skip(lo as int)[0]));
        }
    }
    let mut hi: usize = n;
    while hi > lo && is_white_space_char(s[hi - 1])
        invariant
            n == s@.len(),
            lo <= hi <= n,
            forall|j: int| hi <= j < n ==> is_white_space(#[trigger] s@[j]),
        decreases hi,
    {
        hi = hi - 1;
    }
    let mut t: Vec<char> = Vec::new();
    let mut i = lo;
    while i < hi
        invariant
            lo <= i <= hi <= n,
            n == s@.len(),
            t@ == s@.subrange(lo as int, i as int),
        decreases hi - i,
    {
        t.push(s[i]);
        i = i + 1;
        assert(t@ =~= s@.subrange(lo as int, i as int));
    }
    proof {
        let rest = s@.skip(lo as int);
        assert(trim_start(rest) == rest) by {
            if rest.len() > 0 {
                assert(rest[0] == s@[lo as int]);
            }
        }
        lemma_trim_end_take(rest, (hi - lo) as int);
        assert(rest.take((hi - lo) as int) =~= s@.subrange(lo as int, hi as int));
        let kept = s@.subrange(lo as int, hi as int);
        assert(trim_end(kept) == kept) by {
            if kept.len() > 0 {
                assert(kept.last() == s@[hi - 1]);
            }
        }
    }
    t
}

/// The value of a digit of `radix` (2..=36): `0-9`, then letters of either case.
pub open spec fn digit_value(c: char, radix: nat) -> Option<nat> {
    let u = c as u32;
    let d = if 0x30 <= u && u <= 0x39 {
        (u - 0x30) as int
    } else if 0x61 <= u && u <= 0x7A {
        (u - 0x61 + 10) as int
    } else if 0x41 <= u && u <= 0x5A {
        (u - 0x41 + 10) as int
    } else {
        -1
    };
    if 0 <= d && d < radix {
        Some(d as nat)
    } else {
        None
    }
}

/// All characters of `s` are digits of `radix`.
pub open spec fn all_digits(s: Seq<char>, radix: nat) -> bool {
    forall|i: int| 0 <= i < s.len() ==> #[trigger] digit_value(s[i], radix) is Some
}

/// The value of the digits `s` in `radix`, most significant first.
pub open spec fn digits_value(s: Seq<char>, radix: nat) -> nat
    decreases s.len(),
{
    if s.len() == 0 {
        0
    } else {
        digits_value(s.drop_last(), radix) * radix + match digit_value(s.last(), radix) {
            Some(d) => d,
            None => 0,
        }
    }
}

/// What `usize::from_str_radix` accepts: an optional `+`, then at least one digit
/// of `radix`, for a value that fits in a `usize`.
pub open spec fn parse_usize(s: Seq<char>, radix: nat) -> Option<usize> {
    let digits = if s.len() > 0 && s[0] == '+' {
        s.drop_first()
    } else {
        s
    };
    if digits.len() == 0 || !all_digits(digits, radix) || digits_value(digits, radix)
        > usize::MAX {
        None
    } else {
        Some(digits_value(digits, radix) as usize)
    }
}

/// The value of a digit of `radix`.
fn digit_of(c: char, radix: u32) -> (d: Option<u32>)
    requires
        2 <= radix <= 36,
    ensures
        d matches Some(v) ==> digit_value(c, radix as nat) == Some(v as nat),
        d is None ==> digit_value(c, radix as nat) is None,
{
    let u = c as u32;
    let d: u32 = if 0x30 <= u && u <= 0x39 {
        u - 0x30
    } else if 0x61 <= u && u <= 0x7A {
        u - 0x61 + 10
    } else if 0x41 <= u && u <= 0x5A {
        u - 0x41 + 10
    } else {
        return None;
    };
    if d < radix {
        Some(d)
    } else {
        None
    }
}

/// Extending a run of digits by one more digit.
proof fn lemma_digits_extend(s: Seq<char>, start: int, i: int, radix: nat)
    requires
        0 <= start <= i < s.len(),
        all_digits(s.subrange(start, i), radix),
        digit_value(s[i], radix) is Some,
    ensures
        all_digits(s.subrange(start, i + 1), radix),
        digits_value(s.subrange(start, i + 1), radix) == digits_value(s.subrange(start, i), radix)
            * radix + digit_value(s[i], radix)->0,
{
    let prefix = s.subrange(start, i);
    let longer = s.subrange(start, i + 1);
    assert(longer.drop_last() =~= prefix);
    assert forall|j: int| 0 <= j < longer.len() implies #[trigger] digit_value(
        longer[j],
        radix,
    ) is Some by {
        if j < prefix.len() {
            assert(longer[j] == prefix[j]);
        }
    }
}

/// Parses `s` as `usize::from_str_radix(s, radix)` does, for radix 10 or 16.
pub fn parse_usize_radix(s: &[char], radix: u32) -> (r: Option<usize>)
    requires
        radix == 10 || radix == 16,
    ensures
        r == parse_usize(s@, radix as nat),
{
    let start: usize = if s.len() > 0 && s[0] == '+' { 1 } else { 0 };
    let ghost digits = if s@.len() > 0 && s@[0] == '+' { s@.drop_first() } else { s@ };
    assert(digits =~= s@.subrange(start as int, s@.len() as int));
    if start == s.len() {
        return None;
    }
    let mut v: usize = 0;
    let mut i = start;
    while i < s.len()
        invariant
            start <= i <= s@.len(),
            start < s@.len(),
            digits == s@.subrange(start as int, s@.len() as int),
            digits == (if s@.len() > 0 && s@[0] == '+' { s@.drop_first() } else { s@ }),
            radix == 10 || radix == 16,
            all_digits(s@.subrange(start as int, i as int), radix as nat),
            v == digits_value(s@.subrange(start as int, i as int), radix as nat),
        decreases s@.len() - i,
    {
        match digit_of(s[i], radix) {
            None => {
                proof {
                    assert(digits[i - start] == s@[i as int]);
                    assert(digit_value(digits[i - start], radix as nat) is None);
                    assert(!all_digits(digits, radix as nat));
                }
                return None;
            },
            Some(d) => {
                proof {
                    lemma_digits_extend(s@, start as int, i as int, radix as nat);
                }
                let mul = v.checked_mul(radix as usize);
                let next = match mul {
                    Some(m) => m.checked_add(d as usize),
                    None => None,
                };
                match next {
                    Some(nv) => {
                        v = nv;
                    },
                    None => {
                        proof {
                            lemma_overflow_stays(s@, start as int, i as int + 1, radix as nat);
                        }
                        return None;
                    },
                }
            },
        }
        i = i + 1;
    }
    assert(s@.subrange(start as int, s@.len() as int) =~= digits);
    Some(v)
}

/// The digits that `radix_chars` writes are digits of their base, worth what they stand for.
pub proof fn lemma_digit_char_value(d: nat, base: nat)
    requires
        base == 10 || base == 16,
        d < base,
    ensures
        digit_value(crate::text::digit_char(d), base) == Some(d),
{
}

/// The text of a number, in base 10 or 16, is read back as that number.
pub proof fn lemma_radix_chars_parse(n: nat, base: nat)
    requires
        base == 10 || base == 16,
    ensures
        all_digits(crate::text::radix_chars(n, base), base),
        digits_value(crate::text::radix_chars(n, base), base) == n,
        crate::text::radix_chars(n, base).len() >= 1,
    decreases n,
{
    let s = crate::text::radix_chars(n, base);
    if n < base {
        lemma_digit_char_value(n, base);
        assert(s.drop_last() =~= Seq::<char>::empty());
        assert(s.last() == crate::text::digit_char(n));
        assert(digits_value(s.drop_last(), base) == 0);
        assert(digits_value(s, base) == 0 * base + n);
    } else {
        let q = n / base;
        assert(q < n) by (nonlinear_arith)
            requires
                base >= 2,
                n >= base,
                q == n / base,
        ;
        lemma_radix_chars_parse(q, base);
        lemma_digit_char_value(n % base, base);
        assert(s.drop_last() =~= crate::text::radix_chars(q, base));
        assert(n == q * base + n % base) by (nonlinear_arith)
            requires
                q == n / base,
                base >= 2,
        ;
        assert(s.last() == crate::text::digit_char(n % base));
        assert(digits_value(s, base) == q * base + n % base);
        assert forall|i: int| 0 <= i < s.len() implies #[trigger] digit_value(s[i], base) is Some by {
            if i < s.len() - 1 {
                assert(s[i] == crate::text::radix_chars(q, base)[i]);
            }
        }
    }
}

/// A number's text in base 10 or 16, typed as a `usize`, parses to that number.
pub proof fn lemma_parse_usize_text(n: usize, base: nat)
    requires
        base == 10 || base == 16,
    ensures
        parse_usize(crate::text::radix_chars(n as nat, base), base) == Some(n),
{
    lemma_radix_chars_parse(n as nat, base);
    let s = crate::text::radix_chars(n as nat, base);
    assert(digit_value(s[0], base) is Some);
}

/// Text that neither starts nor ends with white space is its own trimmed form.
pub proof fn lemma_trim_unchanged(s: Seq<char>)
    requires
        s.len() > 0,
        !is_white_space(s[0]),
        !is_white_space(s.last()),
    ensures
        trim(s) == s,
{
}

/// Digits are not white space.
pub proof fn lemma_digit_not_white_space(c: char, base: nat)
    requires
        base == 10 || base == 16,
        digit_value(c, base) is Some,
    ensures
        !is_white_space(c),
{
}

/// Once the value of a prefix of digits exceeds `usize::MAX`, so does the value
/// of every longer run of digits.
proof fn lemma_overflow_stays(s: Seq<char>, start: int, k: int, radix: nat)
    requires
        0 <= start < k <= s.len(),
        radix >= 2,
        digits_value(s.subrange(start, k), radix) > usize::MAX,
    ensures
        all_digits(s.subrange(start, s.len() as int), radix) ==> digits_value(
            s.subrange(start, s.len() as int),
            radix,
        ) > usize::MAX,
    decreases s.len() - k,
{
    if k < s.len() {
        let a = s.subrange(start, k);
        let b = s.subrange(start, k + 1);
        assert(b.drop_last() =~= a);
        assert(digits_value(a, radix) * radix >= digits_value(a, radix)) by (nonlinear_arith)
            requires
                radix >= 2,
        ;
        assert(digits_value(b, radix) >= digits_value(a, radix) * radix);
        if all_digits(s.subrange(start, s.len() as int), radix) {
        }
        lemma_overflow_stays(s, start, k + 1, radix);
    }
}

} // verus!

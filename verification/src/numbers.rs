//! Numbers as text: decimal numerals, and sizes with a fixed number of decimals.

use crate::text::chars_of;
use vstd::prelude::*;

verus! {

/// The decimal digit of value `d`.
pub open spec fn digit(d: int) -> char {
    (48 + d) as char
}

/// The decimal numeral of `n`.
pub open spec fn decimal(n: nat) -> Seq<char>
    decreases n,
{
    if n < 10 {
        seq![digit(n as int)]
    } else {
        decimal(n / 10).push(digit((n % 10) as int))
    }
}

/// The decimal numeral of `n`, with a minus sign where it is negative.
pub open spec fn signed_decimal(n: int) -> Seq<char> {
    if n < 0 {
        seq!['-'] + decimal((-n) as nat)
    } else {
        decimal(n as nat)
    }
}

/// The decimal digit of value `d`.
fn digit_char(d: u64) -> (c: char)
    requires
        d < 10,
    ensures
        c == digit(d as int),
{
    let b: u8 = 48 + (d as u8);
    b as char
}

/// Appends the decimal numeral of `n`.
pub fn push_decimal(out: &mut String, n: u64)
    ensures
        final(out)@ == old(out)@ + decimal(n as nat),
    decreases n,
{
    let ghost before = out@;
    if n < 10 {
        out.push(digit_char(n));
        assert(out@ =~= before + decimal(n as nat));
    } else {
        push_decimal(out, n / 10);
        out.push(digit_char(n % 10));
        assert(out@ =~= before + decimal(n as nat));
    }
}

/// The decimal numeral of `n`.
pub fn decimal_text(n: u64) -> (res: String)
    ensures
        res@ == decimal(n as nat),
{
    let mut out = String::new();
    push_decimal(&mut out, n);
    assert(out@ =~= decimal(n as nat));
    out
}

/// The decimal numeral of `n`, with a minus sign where it is negative.
pub fn signed_decimal_text(n: i64) -> (res: String)
    ensures
        res@ == signed_decimal(n as int),
{
    let mut out = String::new();
    if n < 0 {
        out.push('-');
        let m: u64 = if n == i64::MIN {
            0x8000_0000_0000_0000
        } else {
            (-n) as u64
        };
        push_decimal(&mut out, m);
        assert(out@ =~= signed_decimal(n as int));
    } else {
        push_decimal(&mut out, n as u64);
        assert(out@ =~= signed_decimal(n as int));
    }
    out
}

// ---------------------------------------------------------------------------------------------
// Reading
// ---------------------------------------------------------------------------------------------
/// Whether `c` is a decimal digit.
pub open spec fn is_digit(c: char) -> bool {
    '0' <= c <= '9'
}

/// The value of a sequence of decimal digits.
pub open spec fn digits_value(s: Seq<char>) -> nat
    decreases s.len(),
{
    if s.len() == 0 {
        0
    } else {
        (digits_value(s.drop_last()) * 10 + (s.last() as int - 48)) as nat
    }
}

/// The digits of a numeral: what follows an optional plus sign.
pub open spec fn numeral_digits(s: Seq<char>) -> Seq<char> {
    if s.len() > 1 && s[0] == '+' {
        s.skip(1)
    } else {
        s
    }
}

/// The number below 2^64 that `s` is a numeral of, if it is one.
pub open spec fn parsed_u64(s: Seq<char>) -> Option<u64> {
    let d = numeral_digits(s);
    if d.len() > 0 && (forall|i: int| 0 <= i < d.len() ==> is_digit(d[i])) && digits_value(d)
        <= u64::MAX {
        Some(digits_value(d) as u64)
    } else {
        None
    }
}

/// The value of a sequence of digits is at least that of each of its beginnings.
proof fn lemma_digits_value_grows(s: Seq<char>, i: int)
    requires
        0 <= i <= s.len(),
        forall|k: int| 0 <= k < s.len() ==> is_digit(s[k]),
    ensures
        digits_value(s.take(i)) <= digits_value(s),
    decreases s.len(),
{
    if i == s.len() {
        assert(s.take(i) =~= s);
    } else {
        lemma_digits_value_grows(s.drop_last(), i);
        assert(s.drop_last().take(i) =~= s.take(i));
    }
}

/// The number below 2^64 that `s` is a numeral of, if it is one.
pub fn parse_u64(s: &str) -> (res: Option<u64>)
    ensures
        res == parsed_u64(s@),
{
    let v = chars_of(s);
    let start: usize = if v.len() > 1 && v[0] == '+' {
        1
    } else {
        0
    };
    let ghost d = numeral_digits(s@);
    assert(v@.skip(start as int) =~= d);
    if start >= v.len() {
        return None;
    }
    let mut value: u64 = 0;
    let mut i: usize = start;
    while i < v.len()
        invariant
            v@ == s@,
            start <= i <= v@.len(),
            d == numeral_digits(s@),
            d == v@.skip(start as int),
            forall|k: int| 0 <= k < i - start ==> is_digit(d[k]),
            value == digits_value(d.take(i - start)),
        decreases v@.len() - i,
    {
        let c = v[i];
        assert(d[i - start] == c);
        if !('0' <= c && c <= '9') {
            return None;
        }
        let x: u64 = ((c as u8) - 48) as u64;
        proof {
            let t = d.take(i - start + 1);
            assert(t.drop_last() =~= d.take(i - start));
            assert(t.last() == c);
            assert(digits_value(t) == value * 10 + x);
            if forall|k: int| 0 <= k < d.len() ==> is_digit(d[k]) {
                lemma_digits_value_grows(d, i - start + 1);
            }
        }
        if value > u64::MAX / 10 || value * 10 > u64::MAX - x {
            return None;
        }
        value = value * 10 + x;
        i = i + 1;
    }
    assert(d.take(i - start) =~= d);
    Some(value)
}

/// The numeral of a number reads as that number.
pub proof fn lemma_decimal_digits(n: nat)
    ensures
        decimal(n).len() > 0,
        forall|i: int| 0 <= i < decimal(n).len() ==> is_digit(decimal(n)[i]),
        digits_value(decimal(n)) == n,
    decreases n,
{
    let s = decimal(n);
    if n < 10 {
        assert(s.drop_last() =~= seq![]);
        assert(digits_value(s.drop_last()) == 0);
    } else {
        lemma_decimal_digits(n / 10);
        assert(s.drop_last() =~= decimal(n / 10));
        assert forall|i: int| 0 <= i < s.len() implies is_digit(s[i]) by {
            if i < s.len() - 1 {
                assert(s[i] == decimal(n / 10)[i]);
            }
        }
    }
}

/// What is written as a decimal numeral is read back as the same number.
pub proof fn law_decimal_round_trip(n: u64)
    ensures
        parsed_u64(decimal(n as nat)) == Some(n),
{
    let s = decimal(n as nat);
    lemma_decimal_digits(n as nat);
    assert(is_digit(s[0]));
    assert(numeral_digits(s) == s);
}

// ---------------------------------------------------------------------------------------------
// Sizes
// ---------------------------------------------------------------------------------------------
/// `n / d` rounded to the nearest integer, and to the even one of two that are equally near.
pub open spec fn half_even(n: nat, d: nat) -> nat {
    let q = n / d;
    let r = n % d;
    if 2 * r < d || (2 * r == d && q % 2 == 0) {
        q
    } else {
        q + 1
    }
}

/// The number of integers that a double-precision number tells apart exactly: 2^53.
pub const EXACT: u64 = 0x20_0000_0000_0000;

/// `n` rounded, half to even, to a multiple of the least power of two from `unit` on of which
/// it has fewer than 2^53.
pub open spec fn to_53_bits(n: nat, unit: nat) -> nat
    decreases n - unit,
{
    if unit == 0 || n < EXACT * unit {
        half_even(n, unit) * unit
    } else {
        to_53_bits(n, unit * 2)
    }
}

/// The double-precision number nearest to `n`.
pub open spec fn nearest_double(n: nat) -> nat {
    to_53_bits(n, 1)
}

/// Ten to the power of `places`, for up to two places.
pub open spec fn ten_to(places: nat) -> nat {
    if places == 0 {
        1
    } else if places == 1 {
        10
    } else {
        100
    }
}

/// The numeral of `scaled / 100`, or of `scaled / 10` for one place, with that many decimals.
pub open spec fn with_places(scaled: nat, places: nat) -> Seq<char> {
    if places == 1 {
        decimal(scaled / 10).push('.').push(digit((scaled % 10) as int))
    } else {
        decimal(scaled / 100).push('.').push(digit(((scaled / 10) % 10) as int)).push(
            digit((scaled % 10) as int),
        )
    }
}

/// The quotient of the double-precision number nearest to `n` by `unit`, rounded half to even to
/// one or two decimals.
pub open spec fn quotient_text(n: nat, unit: nat, places: nat) -> Seq<char> {
    with_places(half_even(nearest_double(n) * ten_to(places), unit), places)
}

pub const KB: u64 = 0x400;

pub const MB: u64 = 0x10_0000;

pub const GB: u64 = 0x4000_0000;

pub const TB: u64 = 0x100_0000_0000;

/// `n / d` rounded half to even.
fn round_half_even(n: u128, d: u128) -> (res: u128)
    requires
        0 < d <= 0x1_0000_0000_0000_0000,
        n < 0x1_0000_0000_0000_0000_0000_0000_0000,
    ensures
        res == half_even(n as nat, d as nat),
{
    let q: u128 = n / d;
    let r: u128 = n % d;
    if 2 * r < d || (2 * r == d && q % 2 == 0) {
        q
    } else {
        assert(q <= n) by (nonlinear_arith)
            requires
                q == n / d,
                d > 0,
        ;
        q + 1
    }
}

/// The double-precision number nearest to `n`.
fn round_to_double(n: u64) -> (res: u128)
    ensures
        res == nearest_double(n as nat),
        res <= 0x1_0000_0000_0000_0000,
{
    let mut unit: u64 = 1;
    while n as u128 >= 0x20_0000_0000_0000u128 * (unit as u128)
        invariant
            1 <= unit <= 0x800,
            to_53_bits(n as nat, unit as nat) == nearest_double(n as nat),
            unit == 1 || unit == 2 || unit == 4 || unit == 8 || unit == 16 || unit == 32 || unit
                == 64 || unit == 128 || unit == 256 || unit == 512 || unit == 1024 || unit == 2048,
        decreases 0x800 - unit,
    {
        unit = unit * 2;
    }
    let q = round_half_even(n as u128, unit as u128);
    proof {
        let d = unit as nat;
        let m = n as nat;
        assert(m < EXACT * d);
        assert(m / d < EXACT) by (nonlinear_arith)
            requires
                m < EXACT * d,
                d > 0,
        ;
        assert(q <= EXACT);
        assert(q * unit <= 0x20_0000_0000_0000 * 0x800) by (nonlinear_arith)
            requires
                q <= 0x20_0000_0000_0000,
                unit <= 0x800,
        ;
    }
    q * (unit as u128)
}

/// Appends the quotient of the double-precision number nearest to `n` by `unit`, rounded half to
/// even to one or two decimals.
pub fn push_quotient(out: &mut String, n: u64, unit: u64, places: u64)
    requires
        unit >= KB,
        1 <= places <= 2,
    ensures
        final(out)@ == old(out)@ + quotient_text(n as nat, unit as nat, places as nat),
{
    let ghost before = out@;
    let m = round_to_double(n);
    let factor: u128 = if places == 1 {
        10
    } else {
        100
    };
    let scaled = round_half_even(m * factor, unit as u128);
    proof {
        let big = (m * factor) as nat;
        let d = unit as nat;
        assert(big / d <= 0x6400_0000_0000_0000) by (nonlinear_arith)
            requires
                big <= 0x64_0000_0000_0000_0000,
                d >= 0x400,
        ;
    }
    let small: u64 = scaled as u64;
    if places == 1 {
        push_decimal(out, small / 10);
        out.push('.');
        out.push(digit_char(small % 10));
    } else {
        push_decimal(out, small / 100);
        out.push('.');
        out.push(digit_char((small / 10) % 10));
        out.push(digit_char(small % 10));
    }
    assert(out@ =~= before + quotient_text(n as nat, unit as nat, places as nat));
}

/// A size in bytes, in the largest unit that it reaches.
pub open spec fn human_size(n: nat) -> Seq<char> {
    if n >= TB {
        quotient_text(n, TB as nat, 2) + " TB"@
    } else if n >= GB {
        quotient_text(n, GB as nat, 2) + " GB"@
    } else if n >= MB {
        quotient_text(n, MB as nat, 2) + " MB"@
    } else if n >= KB {
        quotient_text(n, KB as nat, 1) + " KB"@
    } else {
        decimal(n) + " B"@
    }
}

/// A size in bytes, in the largest unit that it reaches.
pub fn human_bytes(n: u64) -> (res: String)
    ensures
        res@ == human_size(n as nat),
{
    let mut out = String::new();
    if n >= TB {
        push_quotient(&mut out, n, TB, 2);
        out.append(" TB");
    } else if n >= GB {
        push_quotient(&mut out, n, GB, 2);
        out.append(" GB");
    } else if n >= MB {
        push_quotient(&mut out, n, MB, 2);
        out.append(" MB");
    } else if n >= KB {
        push_quotient(&mut out, n, KB, 1);
        out.append(" KB");
    } else {
        push_decimal(&mut out, n);
        out.append(" B");
    }
    assert(out@ =~= human_size(n as nat));
    out
}

/// Rounding gives an integer that is nearest to the quotient, and the even one where two are.
pub proof fn law_half_even_is_nearest(n: nat, d: nat)
    requires
        d > 0,
    ensures
        2 * (half_even(n, d) * d - n) <= d,
        2 * (n - half_even(n, d) * d) <= d,
        2 * (half_even(n, d) * d - n) == d || 2 * (n - half_even(n, d) * d) == d ==> half_even(n, d)
            % 2 == 0,
{
    let q = n / d;
    let r = n % d;
    vstd::arithmetic::div_mod::lemma_fundamental_div_mod(n as int, d as int);
    assert(n == q * d + r) by (nonlinear_arith)
        requires
            n as int == (d as int) * (q as int) + (r as int),
    ;
    assert((q + 1) * d == q * d + d) by (nonlinear_arith);
}

/// A numeral with one decimal stands for tenths, and one with two for hundredths.
pub proof fn law_places(scaled: nat)
    ensures
        ({
            let one = with_places(scaled, 1);
            let two = with_places(scaled, 2);
            let n = one.len() as int;
            let m = two.len() as int;
            &&& n > 2 && one[n - 2] == '.'
            &&& digits_value(one.take(n - 2) + one.skip(n - 1)) == scaled
            &&& m > 3 && two[m - 3] == '.'
            &&& digits_value(two.take(m - 3) + two.skip(m - 2)) == scaled
        }),
{
    let one = with_places(scaled, 1);
    let two = with_places(scaled, 2);
    let n = one.len() as int;
    let m = two.len() as int;
    let a = decimal(scaled / 10);
    let b = decimal(scaled / 100);
    lemma_decimal_digits(scaled / 10);
    lemma_decimal_digits(scaled / 100);
    let x = one.take(n - 2) + one.skip(n - 1);
    assert(x =~= a.push(digit((scaled % 10) as int)));
    assert(x.drop_last() =~= a);
    let y = two.take(m - 3) + two.skip(m - 2);
    let z = b.push(digit(((scaled / 10) % 10) as int));
    assert(y =~= z.push(digit((scaled % 10) as int)));
    assert(y.drop_last() =~= z);
    assert(z.drop_last() =~= b);
    assert(digits_value(z) == digits_value(b) * 10 + (scaled / 10) % 10);
    assert(digits_value(z) == scaled / 10);
    assert(digits_value(y) == digits_value(z) * 10 + scaled % 10);
    assert(digits_value(x) == digits_value(a) * 10 + scaled % 10);
}

/// A number that a double-precision number tells apart exactly is its own nearest one.
pub proof fn law_exact_numbers_kept(n: nat)
    requires
        n < 0x20_0000_0000_0000,
    ensures
        nearest_double(n) == n,
{
    assert(n / 1 == n && n % 1 == 0);
}

/// A size is told in bytes below 1024, and otherwise in the largest unit that it reaches: in whole
/// kilobytes, megabytes, gigabytes or terabytes and their decimals.
pub proof fn law_units(n: nat)
    ensures
        n < 1024 ==> human_size(n) == decimal(n) + " B"@,
        1024 <= n < 1048576 ==> human_size(n) == quotient_text(n, 1024, 1) + " KB"@,
        1048576 <= n < 1073741824 ==> human_size(n) == quotient_text(n, 1048576, 2) + " MB"@,
        1073741824 <= n < 1099511627776 ==> human_size(n) == quotient_text(n, 1073741824, 2)
            + " GB"@,
        1099511627776 <= n ==> human_size(n) == quotient_text(n, 1099511627776, 2) + " TB"@,
{
}

/// A quotient of numbers that are told apart exactly is written with its tenths or hundredths,
/// rounded to the nearest.
pub proof fn law_quotients(n: nat, unit: nat)
    requires
        n < 0x20_0000_0000_0000,
        unit > 0,
    ensures
        quotient_text(n, unit, 1) == with_places(half_even(n * 10, unit), 1),
        quotient_text(n, unit, 2) == with_places(half_even(n * 100, unit), 2),
{
    law_exact_numbers_kept(n);
}

/// A negative number is written as its absolute value behind a minus sign.
pub proof fn law_signed(n: nat)
    ensures
        signed_decimal(n as int) == decimal(n),
        n > 0 ==> signed_decimal(-(n as int)) == seq!['-'] + decimal(n),
{
}

/// A plus sign before a numeral changes nothing, and what is no numeral is not read.
pub proof fn law_what_is_read(n: u64, s: Seq<char>, i: int)
    ensures
        parsed_u64(seq!['+'] + decimal(n as nat)) == Some(n),
        parsed_u64(seq![]) is None,
        1 <= i < s.len() && !is_digit(s[i]) ==> parsed_u64(s) is None,
{
    let d = decimal(n as nat);
    lemma_decimal_digits(n as nat);
    assert((seq!['+'] + d).skip(1) =~= d);
    if 1 <= i < s.len() && !is_digit(s[i]) {
        let t = numeral_digits(s);
        if s[0] == '+' && s.len() > 1 {
            assert(t[i - 1] == s[i]);
        }
    }
}

} // verus!

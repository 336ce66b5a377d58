//! Decimal text of a rational number.
//!
//! A number is shown with a fixed count of digits after the point, rounded
//! to the nearest such decimal; a number halfway between two goes to the one
//! whose last digit is even. The digits come from long division, one at a
//! time, so the count of decimals has no limit of its own.

use vstd::prelude::*;
use vstd::arithmetic::div_mod::{lemma_fundamental_div_mod, lemma_fundamental_div_mod_converse,
    lemma_mod_breakdown, lemma_small_mod};
use crate::ratio::{Frac, Ratio, LIMIT};

verus! {

/// Ten to the power `p`.
pub open spec fn pow10(p: nat) -> int
    decreases p,
{
    if p == 0 {
        1
    } else {
        10 * pow10((p - 1) as nat)
    }
}

/// The character of a decimal digit.
pub open spec fn digit_char(d: int) -> char {
    if d == 0 {
        '0'
    } else if d == 1 {
        '1'
    } else if d == 2 {
        '2'
    } else if d == 3 {
        '3'
    } else if d == 4 {
        '4'
    } else if d == 5 {
        '5'
    } else if d == 6 {
        '6'
    } else if d == 7 {
        '7'
    } else if d == 8 {
        '8'
    } else {
        '9'
    }
}

/// The digits of `k`, which is not negative, without leading zeros.
pub open spec fn natural_text(k: int) -> Seq<char>
    decreases k,
{
    if k < 10 {
        seq![digit_char(k)]
    } else {
        natural_text(k / 10).push(digit_char(k % 10))
    }
}

/// The last `width` digits of `k`, with leading zeros.
pub open spec fn padded_text(k: int, width: nat) -> Seq<char>
    decreases width,
{
    if width == 0 {
        Seq::empty()
    } else {
        padded_text(k / 10, (width - 1) as nat).push(digit_char(k % 10))
    }
}

/// The whole number nearest to `n / d`, for `n >= 0` and `d > 0`; of two
/// equally near, the even one.
pub open spec fn round_half_even(n: int, d: int) -> int {
    let q = n / d;
    let r = n % d;
    if 2 * r > d || (2 * r == d && q % 2 == 1) {
        q + 1
    } else {
        q
    }
}

/// The size of `x` in units of the last decimal shown, rounded.
pub open spec fn scaled(x: Frac, digits: nat) -> int {
    round_half_even(x.magnitude().num * pow10(digits), x.den)
}

/// The text of `x` with `digits` decimals: a minus sign for a negative
/// number, the whole part, and a point with the decimals where there are
/// any.
pub open spec fn decimal_text(x: Frac, digits: nat) -> Seq<char> {
    let sign = if x.num < 0 {
        seq!['-']
    } else {
        Seq::empty()
    };
    let whole = natural_text(scaled(x, digits) / pow10(digits));
    if digits == 0 {
        sign + whole
    } else {
        sign + whole + seq!['.'] + padded_text(scaled(x, digits) % pow10(digits), digits)
    }
}

/// The number that a sequence of decimal digits writes, the first digit
/// weighing most.
pub open spec fn digits_value(ds: Seq<u8>) -> int
    decreases ds.len(),
{
    if ds.len() == 0 {
        0
    } else {
        10 * digits_value(ds.drop_last()) + ds.last() as int
    }
}

/// The characters of a sequence of decimal digits.
pub open spec fn digits_text(ds: Seq<u8>) -> Seq<char> {
    Seq::new(ds.len(), |i: int| digit_char(ds[i] as int))
}

/// Every element is a decimal digit.
pub open spec fn all_digits(ds: Seq<u8>) -> bool {
    forall|i: int| 0 <= i < ds.len() ==> #[trigger] ds[i] < 10
}

proof fn lemma_pow10_positive(p: nat)
    ensures
        pow10(p) > 0,
    decreases p,
{
    if p > 0 {
        lemma_pow10_positive((p - 1) as nat);
    }
}

/// A sequence of `p` digits writes a number below ten to the `p`.
proof fn lemma_digits_value_bound(ds: Seq<u8>)
    requires
        all_digits(ds),
    ensures
        0 <= digits_value(ds) < pow10(ds.len()),
    decreases ds.len(),
{
    if ds.len() > 0 {
        lemma_digits_value_bound(ds.drop_last());
    }
}

/// What a digit appended at the end does to the number written.
proof fn lemma_digits_value_push(ds: Seq<u8>, x: u8)
    ensures
        digits_value(ds.push(x)) == 10 * digits_value(ds) + x as int,
        all_digits(ds) && x < 10 ==> all_digits(ds.push(x)),
{
    assert(ds.push(x).drop_last() =~= ds);
}

/// The last digits of a number are the digits that write its remainder.
proof fn lemma_padded_text_is_digits(ds: Seq<u8>, k: int)
    requires
        all_digits(ds),
        k >= 0,
        k % pow10(ds.len()) == digits_value(ds),
    ensures
        padded_text(k, ds.len()) == digits_text(ds),
    decreases ds.len(),
{
    if ds.len() == 0 {
        assert(padded_text(k, 0) =~= digits_text(ds));
    } else {
        let init = ds.drop_last();
        let unit = pow10(init.len());
        lemma_pow10_positive(init.len());
        lemma_digits_value_bound(init);
        lemma_mod_breakdown(k, 10, unit);
        lemma_padded_text_is_digits(init, k / 10);
        assert(padded_text(k, ds.len()) =~= digits_text(ds));
    }
}

/// One step of long division: the next digit of a quotient and the next
/// remainder come from ten times the remainder before.
proof fn lemma_long_division_step(x: int, d: int)
    requires
        d > 0,
        x >= 0,
    ensures
        (10 * x) / d == 10 * (x / d) + (10 * (x % d)) / d,
        (10 * x) % d == (10 * (x % d)) % d,
        0 <= (10 * (x % d)) / d < 10,
{
    let v = x / d;
    let rem = x % d;
    let digit = (10 * rem) / d;
    let next = (10 * rem) % d;
    lemma_fundamental_div_mod(x, d);
    lemma_fundamental_div_mod(10 * rem, d);
    assert(10 * x == (10 * v + digit) * d + next) by (nonlinear_arith)
        requires
            x == d * v + rem,
            10 * rem == d * digit + next,
    ;
    lemma_fundamental_div_mod_converse(10 * x, d, 10 * v + digit, next);
    assert(0 <= digit < 10) by (nonlinear_arith)
        requires
            10 * rem == d * digit + next,
            0 <= rem < d,
            0 <= next < d,
    ;
}

/// The first `count` decimals of `rest / den`, cut off, and what is left
/// over behind them.
fn fraction_digits(rest: u128, den: u128, count: usize) -> (r: (Vec<u8>, u128))
    requires
        0 < den <= LIMIT as int,
        rest < den,
    ensures
        r.0@.len() == count,
        all_digits(r.0@),
        digits_value(r.0@) == (rest * pow10(count as nat)) / (den as int),
        r.1 == (rest * pow10(count as nat)) % (den as int),
{
    let mut ds: Vec<u8> = Vec::new();
    let mut left: u128 = rest;
    let mut i: usize = 0;
    proof {
        assert(rest * pow10(0) == rest) by (nonlinear_arith)
            requires
                pow10(0) == 1,
        ;
        lemma_fundamental_div_mod_converse(rest as int, den as int, 0, rest as int);
    }
    while i < count
        invariant
            i <= count,
            0 < den <= LIMIT as int,
            ds@.len() == i,
            all_digits(ds@),
            left < den,
            digits_value(ds@) == (rest * pow10(i as nat)) / (den as int),
            left == (rest * pow10(i as nat)) % (den as int),
        decreases count - i,
    {
        proof {
            let x = rest * pow10(i as nat);
            lemma_pow10_positive(i as nat);
            assert(x >= 0 && 10 * x == rest * pow10((i + 1) as nat)) by (nonlinear_arith)
                requires
                    x == rest * pow10(i as nat),
                    pow10((i + 1) as nat) == 10 * pow10(i as nat),
                    pow10(i as nat) > 0,
                    rest >= 0,
            ;
            lemma_long_division_step(x, den as int);
            lemma_digits_value_push(ds@, ((10 * left) / (den as int)) as u8);
        }
        let wide: u128 = left * 10;
        let digit: u8 = (wide / den) as u8;
        left = wide % den;
        ds.push(digit);
        i = i + 1;
    }
    (ds, left)
}

/// Adds one to the number that the digits write. Where that number was all
/// nines, the digits become zeros and the one is carried out.
fn carry_up(ds: &mut Vec<u8>) -> (carry: bool)
    requires
        all_digits(old(ds)@),
    ensures
        final(ds)@.len() == old(ds)@.len(),
        all_digits(final(ds)@),
        digits_value(final(ds)@) + (if carry {
            pow10(old(ds)@.len())
        } else {
            0
        }) == digits_value(old(ds)@) + 1,
{
    let ghost start = ds@;
    let length: usize = ds.len();
    let mut zeros: usize = 0;
    while ds.len() > 0 && ds[ds.len() - 1] == 9
        invariant
            all_digits(ds@),
            ds@.len() + zeros == start.len(),
            start.len() == length,
            (digits_value(ds@) + 1) * pow10(zeros as nat) == digits_value(start) + 1,
        decreases ds@.len(),
    {
        proof {
            let v = digits_value(ds@.drop_last());
            assert((10 * v + 9 + 1) * pow10(zeros as nat) == (v + 1) * (10 * pow10(zeros as nat)))
                by (nonlinear_arith);
            assert(ds@.subrange(0, ds@.len() - 1) =~= ds@.drop_last());
        }
        ds.pop();
        zeros = zeros + 1;
    }
    let carry: bool = ds.len() == 0;
    let ghost base: int = if carry {
        pow10(start.len())
    } else {
        0
    };
    if !carry {
        let last: u8 = ds[ds.len() - 1];
        let ghost before = ds@;
        ds.pop();
        proof {
            assert(ds@ =~= before.drop_last());
            lemma_digits_value_push(before.drop_last(), (last + 1) as u8);
        }
        ds.push(last + 1);
        assert(digits_value(ds@) == digits_value(before) + 1);
    } else {
        assert(digits_value(ds@) * pow10(zeros as nat) + base == digits_value(start) + 1)
            by (nonlinear_arith)
            requires
                digits_value(ds@) == 0,
                (digits_value(ds@) + 1) * pow10(zeros as nat) == digits_value(start) + 1,
                base == pow10(zeros as nat),
        ;
    }
    while zeros > 0
        invariant
            all_digits(ds@),
            ds@.len() + zeros == start.len(),
            digits_value(ds@) * pow10(zeros as nat) + base == digits_value(start) + 1,
        decreases zeros,
    {
        proof {
            let v = digits_value(ds@);
            assert((10 * v + 0) * pow10((zeros - 1) as nat) == v * (10 * pow10((zeros - 1) as nat)))
                by (nonlinear_arith);
            lemma_digits_value_push(ds@, 0);
        }
        ds.push(0);
        zeros = zeros - 1;
    }
    proof {
        assert(digits_value(ds@) * pow10(0) == digits_value(ds@)) by (nonlinear_arith)
            requires
                pow10(0) == 1,
        ;
    }
    carry
}

fn digit(d: u8) -> (c: char)
    requires
        d < 10,
    ensures
        c == digit_char(d as int),
{
    match d {
        0 => '0',
        1 => '1',
        2 => '2',
        3 => '3',
        4 => '4',
        5 => '5',
        6 => '6',
        7 => '7',
        8 => '8',
        _ => '9',
    }
}

/// Appends the digits of `k` to `out`.
fn push_natural(out: &mut Vec<char>, k: u128)
    ensures
        final(out)@ == old(out)@ + natural_text(k as int),
    decreases k,
{
    if k >= 10 {
        push_natural(out, k / 10);
    }
    out.push(digit((k % 10) as u8));
    assert(final(out)@ =~= old(out)@ + natural_text(k as int));
}

/// Appends the characters of the digits to `out`.
fn push_digits(out: &mut Vec<char>, ds: &Vec<u8>)
    requires
        all_digits(ds@),
    ensures
        final(out)@ == old(out)@ + digits_text(ds@),
{
    let mut i: usize = 0;
    while i < ds.len()
        invariant
            i <= ds@.len(),
            all_digits(ds@),
            out@ == old(out)@ + digits_text(ds@).subrange(0, i as int),
        decreases ds@.len() - i,
    {
        out.push(digit(ds[i]));
        i = i + 1;
        assert(out@ =~= old(out)@ + digits_text(ds@).subrange(0, i as int));
    }
    assert(digits_text(ds@).subrange(0, i as int) =~= digits_text(ds@));
}

/// The rounded size of `x` in units of its last decimal, split at the
/// point: `whole` before it and the number that `ds` writes behind it.
proof fn lemma_scaled_parts(x: Frac, ds: Seq<u8>, whole: int)
    requires
        x.den > 0,
        all_digits(ds),
        whole >= 0,
        scaled(x, ds.len()) == whole * pow10(ds.len()) + digits_value(ds),
    ensures
        scaled(x, ds.len()) / pow10(ds.len()) == whole,
        padded_text(scaled(x, ds.len()) % pow10(ds.len()), ds.len()) == digits_text(ds),
{
    let unit = pow10(ds.len());
    let s = scaled(x, ds.len());
    lemma_pow10_positive(ds.len());
    lemma_digits_value_bound(ds);
    lemma_fundamental_div_mod_converse(s, unit, whole, digits_value(ds));
    lemma_small_mod(digits_value(ds) as nat, unit as nat);
    lemma_padded_text_is_digits(ds, s % unit);
}

/// A number times a unit, divided: the whole part of the quotient moves up
/// by the unit, and what the remainder gives follows it.
proof fn lemma_cut_off(size: int, den: int, unit: int)
    requires
        den > 0,
        size >= 0,
        unit > 0,
    ensures
        (size * unit) / den == (size / den) * unit + ((size % den) * unit) / den,
        (size * unit) % den == ((size % den) * unit) % den,
{
    let floor = size / den;
    let rest = size % den;
    let tail = (rest * unit) / den;
    let left = (rest * unit) % den;
    lemma_fundamental_div_mod(size, den);
    lemma_fundamental_div_mod(rest * unit, den);
    assert(size * unit == (floor * unit + tail) * den + left) by (nonlinear_arith)
        requires
            size == den * floor + rest,
            rest * unit == den * tail + left,
    ;
    lemma_fundamental_div_mod_converse(size * unit, den, floor * unit + tail, left);
}

/// A number with decimals is odd in its last decimal where that digit is.
proof fn lemma_last_digit_parity(floor: int, ds: Seq<u8>)
    requires
        ds.len() > 0,
    ensures
        (floor * pow10(ds.len()) + digits_value(ds)) % 2 == (ds.last() as int) % 2,
{
    let rest_unit = pow10((ds.len() - 1) as nat);
    let head = digits_value(ds.drop_last());
    let last = ds.last() as int;
    assert(floor * pow10(ds.len()) + digits_value(ds) == 10 * (floor * rest_unit + head) + last)
        by (nonlinear_arith)
        requires
            pow10(ds.len()) == 10 * rest_unit,
            digits_value(ds) == 10 * head + last,
    ;
}

/// The rounded size of `x` in units of its last decimal, as the whole part
/// and the digits behind the point.
fn rounded_parts(x: &Ratio, digits: usize) -> (r: (u128, Vec<u8>))
    ensures
        r.1@.len() == digits,
        all_digits(r.1@),
        scaled(x@, digits as nat) == r.0 * pow10(digits as nat) + digits_value(r.1@),
{
    proof {
        use_type_invariant(x);
    }
    let size: u128 = x.abs().numerator() as u128;
    let den: u128 = x.denominator() as u128;
    let floor: u128 = size / den;
    let rest: u128 = size % den;
    let (mut ds, left) = fraction_digits(rest, den, digits);
    let odd: bool = if digits == 0 {
        floor % 2 == 1
    } else {
        ds[digits - 1] % 2 == 1
    };
    let up: bool = left * 2 > den || (left * 2 == den && odd);
    let ghost unit = pow10(digits as nat);
    let ghost cut = floor * unit + digits_value(ds@);
    proof {
        lemma_pow10_positive(digits as nat);
        lemma_cut_off(size as int, den as int, unit);
        if digits > 0 {
            lemma_last_digit_parity(floor as int, ds@);
        } else {
            assert(cut == floor) by (nonlinear_arith)
                requires
                    cut == floor * unit + digits_value(ds@),
                    unit == 1,
                    digits_value(ds@) == 0,
            ;
        }
        assert(x@.magnitude().num == size);
        assert((size * unit) / (den as int) == cut);
        assert(cut % 2 == 1 <==> odd);
        assert(scaled(x@, digits as nat) == if up {
            cut + 1
        } else {
            cut
        });
    }
    if up {
        let carry = carry_up(&mut ds);
        if carry {
            assert((floor + 1) * unit == floor * unit + unit) by (nonlinear_arith);
            (floor + 1, ds)
        } else {
            (floor, ds)
        }
    } else {
        (floor, ds)
    }
}

/// Appends the text of `x` with `digits` decimals to `out`.
pub(crate) fn write_decimal(out: &mut Vec<char>, x: &Ratio, digits: usize)
    ensures
        final(out)@ == old(out)@ + decimal_text(x@, digits as nat),
{
    proof {
        use_type_invariant(x);
    }
    let (whole, ds) = rounded_parts(x, digits);
    proof {
        lemma_scaled_parts(x@, ds@, whole as int);
    }
    if x.is_negative() {
        out.push('-');
    }
    push_natural(out, whole);
    if digits > 0 {
        out.push('.');
        push_digits(out, &ds);
    }
    assert(final(out)@ =~= old(out)@ + decimal_text(x@, digits as nat));
}

/// The characters as a string, by `String::from_iter` of std: the string
/// holds the same characters in the same order.
#[verifier::external_body]
pub(crate) fn collect_text(chars: Vec<char>) -> (s: String)
    ensures
        s@ == chars@,
{
    String::from_iter(chars)
}

impl Ratio {
    /// The number as text with `digits` decimals.
    pub fn to_decimal(&self, digits: usize) -> (s: String)
        ensures
            s@ == decimal_text(self@, digits as nat),
    {
        let mut out: Vec<char> = Vec::new();
        write_decimal(&mut out, self, digits);
        assert(out@ =~= decimal_text(self@, digits as nat));
        collect_text(out)
    }
}

} // verus!

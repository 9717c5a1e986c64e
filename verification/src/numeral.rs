//! Decimal numerals and rounding to a fixed number of decimal places.

use vstd::prelude::*;
use vstd::arithmetic::div_mod::{
    lemma_div_by_multiple,
    lemma_div_is_ordered_by_denominator,
    lemma_div_multiples_vanish_quotient,
    lemma_fundamental_div_mod,
    lemma_mod_bound,
    lemma_mod_multiples_basic,
    lemma_truncate_middle,
};

verus! {

/// The character of the decimal digit `d`.
pub open spec fn digit(d: int) -> char {
    if d == 0 {
        '0'
    } else if d == 1 {
        '1'
    } else if d == 2 {
        '2'
    } else if d == 3 {
        '3'
    } else if d == 4 {
        '4'
    } else if d == 5 {
        '5'
    } else if d == 6 {
        '6'
    } else if d == 7 {
        '7'
    } else if d == 8 {
        '8'
    } else {
        '9'
    }
}

/// The decimal numeral of `n`, without leading zeros.
pub open spec fn decimal(n: nat) -> Seq<char>
    decreases n,
{
    if n < 10 {
        seq![digit(n as int)]
    } else {
        decimal(n / 10).push(digit((n % 10) as int))
    }
}

/// `n / d` rounded to the nearest integer; a quotient that lies halfway
/// between two integers goes to the even one.
pub open spec fn rounded_div(n: nat, d: nat) -> nat
    recommends
        d > 0,
{
    let q = n / d;
    let r = n % d;
    if 2 * r > d || (2 * r == d && q % 2 == 1) {
        q + 1
    } else {
        q
    }
}

/// Rounding a fraction does not depend on how it is written: a common factor
/// of numerator and denominator can be left out.
pub proof fn lemma_rounded_div_cancels(n: nat, d: nat, c: nat)
    requires
        d > 0,
        c > 0,
    ensures
        rounded_div(n * c, d * c) == rounded_div(n, d),
{
    let q = n / d;
    let r = n % d;
    lemma_div_multiples_vanish_quotient(c as int, n as int, d as int);
    lemma_truncate_middle(n as int, c as int, d as int);
    assert(n * c == c * n && d * c == c * d) by (nonlinear_arith);
    assert((n * c) / (d * c) == q);
    assert((n * c) % (d * c) == c * r);
    assert(2 * (c * r) > d * c <==> 2 * r > d) by (nonlinear_arith)
        requires
            c > 0,
    ;
    assert(2 * (c * r) == d * c <==> 2 * r == d) by (nonlinear_arith)
        requires
            c > 0,
    ;
}

/// A whole number needs no rounding.
pub proof fn lemma_rounded_div_exact(w: nat, d: nat)
    requires
        d > 0,
    ensures
        rounded_div(w * d, d) == w,
{
    lemma_div_by_multiple(w as int, d as int);
    lemma_mod_multiples_basic(w as int, d as int);
}

/// The numeral of `tenths / 10` with one decimal place.
pub open spec fn one_place(tenths: nat) -> Seq<char> {
    decimal(tenths / 10) + seq!['.', digit((tenths % 10) as int)]
}

/// The numeral of `hundredths / 100` with two decimal places.
pub open spec fn two_places(hundredths: nat) -> Seq<char> {
    decimal(hundredths / 100) + seq![
        '.',
        digit((hundredths / 10 % 10) as int),
        digit((hundredths % 10) as int),
    ]
}

/// The character of one decimal digit.
pub fn digit_char(d: u8) -> (c: char)
    ensures
        c == digit(d as int),
{
    match d {
        0 => '0',
        1 => '1',
        2 => '2',
        3 => '3',
        4 => '4',
        5 => '5',
        6 => '6',
        7 => '7',
        8 => '8',
        _ => '9',
    }
}

/// Appends the decimal numeral of `n` to `out`.
pub fn push_decimal(out: &mut String, n: u128)
    ensures
        final(out)@ == old(out)@ + decimal(n as nat),
    decreases n,
{
    if n >= 10 {
        push_decimal(out, n / 10);
    }
    out.push(digit_char((n % 10) as u8));
}

/// The decimal numeral of `n`.
pub fn decimal_text(n: u128) -> (out: String)
    ensures
        out@ == decimal(n as nat),
{
    let mut out = String::new();
    push_decimal(&mut out, n);
    out
}

/// `n / d`, rounded half to even.
pub fn div_round(n: u128, d: u128) -> (q: u128)
    requires
        d > 0,
    ensures
        q == rounded_div(n as nat, d as nat),
{
    let q: u128 = n / d;
    let r: u128 = n % d;
    proof {
        lemma_fundamental_div_mod(n as int, d as int);
        lemma_mod_bound(n as int, d as int);
    }
    // r < d, so `2 * r` is compared with `d` as `r` with `d - r`
    if r > d - r || (r == d - r && q % 2 == 1) {
        proof {
            assert(d >= 2);
            lemma_div_is_ordered_by_denominator(n as int, 2, d as int);
        }
        q + 1
    } else {
        q
    }
}

/// Appends the numeral of `tenths / 10` with one decimal place.
pub fn push_one_place(out: &mut String, tenths: u128)
    ensures
        final(out)@ == old(out)@ + one_place(tenths as nat),
{
    push_decimal(out, tenths / 10);
    out.push('.');
    out.push(digit_char((tenths % 10) as u8));
}

/// Appends the numeral of `hundredths / 100` with two decimal places.
pub fn push_two_places(out: &mut String, hundredths: u128)
    ensures
        final(out)@ == old(out)@ + two_places(hundredths as nat),
{
    push_decimal(out, hundredths / 100);
    out.push('.');
    out.push(digit_char((hundredths / 10 % 10) as u8));
    out.push(digit_char((hundredths % 10) as u8));
}

} // verus!

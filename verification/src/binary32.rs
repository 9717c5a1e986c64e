//! Single-precision readings as integers.
//!
//! A reading is the bit pattern of an IEEE 754 binary32 number: one sign bit,
//! eight bits of exponent field and twenty-three bits of fraction. This module
//! says which number a pattern stands for, orders patterns as their numbers
//! are ordered, and writes a pattern as a decimal numeral with one decimal
//! place.

use vstd::prelude::*;
use vstd::string::StringExecFns;
use vstd::arithmetic::power2::{
    pow2,
    lemma_pow2_pos,
    lemma_pow2_unfold,
    lemma_pow2_adds,
    lemma_pow2_strictly_increases,
    lemma2_to64,
    lemma2_to64_rest,
};
use vstd::arithmetic::div_mod::{
    lemma_basic_div,
    lemma_div_by_multiple,
    lemma_mod_multiples_basic,
    lemma_small_mod,
};
use crate::numeral::{
    div_round,
    lemma_rounded_div_cancels,
    lemma_rounded_div_exact,
    one_place,
    push_decimal,
    push_one_place,
    rounded_div,
};

verus! {

/// The sign bit is set.
pub open spec fn is_negative(bits: u32) -> bool {
    bits >= 0x8000_0000
}

/// The pattern without its sign bit.
pub open spec fn magnitude(bits: u32) -> nat {
    (bits % 0x8000_0000) as nat
}

/// The pattern stands for no number.
pub open spec fn is_nan(bits: u32) -> bool {
    magnitude(bits) > 0x7f80_0000
}

/// The pattern stands for an infinity.
pub open spec fn is_infinite(bits: u32) -> bool {
    magnitude(bits) == 0x7f80_0000
}

/// The eight bits of the exponent field.
pub open spec fn exponent_field(bits: u32) -> nat {
    magnitude(bits) / 0x80_0000
}

/// The twenty-three bits of the fraction.
pub open spec fn fraction(bits: u32) -> nat {
    magnitude(bits) % 0x80_0000
}

/// The significand of a finite pattern: the fraction, with the implicit
/// leading bit unless the pattern is subnormal.
pub open spec fn significand(bits: u32) -> nat {
    if exponent_field(bits) == 0 {
        fraction(bits)
    } else {
        0x80_0000 + fraction(bits)
    }
}

/// The power of two that scales the significand: a finite pattern stands for
/// the number of absolute value `significand(bits) * 2^binary_exponent(bits)`.
pub open spec fn binary_exponent(bits: u32) -> int {
    if exponent_field(bits) == 0 {
        -149
    } else {
        exponent_field(bits) - 150
    }
}

/// The place of a pattern among all patterns, lowest first: numbers in
/// numeric order, both zeros in one place, and what is no number below all.
pub open spec fn rank(bits: u32) -> int {
    if is_nan(bits) {
        -0x8000_0000
    } else if is_negative(bits) {
        -(magnitude(bits) as int)
    } else {
        magnitude(bits) as int
    }
}

/// The absolute value of a pattern in units of 2^-149, the smallest step of
/// the format; an infinity counts as the next power of two beyond the
/// largest finite number.
pub open spec fn scaled(bits: u32) -> nat {
    significand(bits) * pow2((binary_exponent(bits) + 149) as nat)
}

/// Ten times the absolute value of a pattern, rounded to the nearest integer,
/// halfway cases to the even one.
pub open spec fn tenths(bits: u32) -> nat {
    rounded_div(scaled(bits) * 10, pow2(149))
}

/// The number that a pattern stands for, in units of 2^-149.
pub open spec fn scaled_value(bits: u32) -> int {
    if is_negative(bits) {
        -(scaled(bits) as int)
    } else {
        scaled(bits) as int
    }
}

/// The pattern as text with one decimal place: `NaN` for no number; otherwise
/// a minus sign where the sign bit is set, then `inf` for an infinity or the
/// numeral of the absolute value rounded to tenths.
pub open spec fn fixed1_text(bits: u32) -> Seq<char> {
    if is_nan(bits) {
        "NaN"@
    } else {
        let sign = if is_negative(bits) {
            seq!['-']
        } else {
            Seq::<char>::empty()
        };
        if is_infinite(bits) {
            sign + "inf"@
        } else {
            sign + one_place(tenths(bits))
        }
    }
}

/// The tenths of a finite pattern from its significand `m` and its binary
/// exponent `e`: `m * 2^e * 10` where `e` is not negative, else `m * 10`
/// divided by `2^-e` and rounded.
proof fn lemma_tenths(bits: u32)
    requires
        !is_nan(bits),
        !is_infinite(bits),
    ensures
        binary_exponent(bits) >= 0 ==> tenths(bits) == significand(bits) * pow2(
            binary_exponent(bits) as nat,
        ) * 10,
        binary_exponent(bits) < 0 ==> tenths(bits) == rounded_div(
            significand(bits) * 10,
            pow2((-binary_exponent(bits)) as nat),
        ),
{
    let m = significand(bits);
    let e = binary_exponent(bits);
    let unit = pow2(149);
    lemma_pow2_pos(149);
    if e >= 0 {
        let up = pow2(e as nat);
        lemma_pow2_adds(e as nat, 149);
        assert(scaled(bits) == m * (up * unit));
        assert(m * (up * unit) * 10 == (m * up * 10) * unit) by (nonlinear_arith);
        lemma_rounded_div_exact(m * up * 10, unit);
    } else {
        let k = (-e) as nat;
        let down = pow2(k);
        let rest = pow2((149 - k) as nat);
        lemma_pow2_pos(k);
        lemma_pow2_pos((149 - k) as nat);
        lemma_pow2_adds(k, (149 - k) as nat);
        assert(unit == down * rest);
        assert(scaled(bits) == m * rest);
        assert(m * rest * 10 == (m * 10) * rest) by (nonlinear_arith);
        lemma_rounded_div_cancels(m * 10, down, rest);
    }
}

/// A pattern with the larger magnitude stands for the larger absolute value.
pub proof fn lemma_scaled_grows(a: u32, b: u32)
    requires
        magnitude(a) < magnitude(b),
    ensures
        scaled(a) < scaled(b),
{
    let fa = exponent_field(a);
    let fb = exponent_field(b);
    let ma = significand(a);
    let mb = significand(b);
    let pa = pow2((binary_exponent(a) + 149) as nat);
    let pb = pow2((binary_exponent(b) + 149) as nat);
    lemma2_to64();
    lemma_pow2_pos((binary_exponent(a) + 149) as nat);
    lemma_pow2_pos((binary_exponent(b) + 149) as nat);
    assert(fa <= fb);
    if fa == fb {
        assert(ma < mb);
        assert(pa == pb);
        assert(ma * pa < mb * pa) by (nonlinear_arith)
            requires
                ma < mb,
                pa > 0,
        ;
    } else if fa == 0 {
        assert(ma < 0x80_0000);
        assert(pa == 1);
        assert(ma * pa == ma) by (nonlinear_arith)
            requires
                pa == 1,
        ;
        assert(mb * pb >= 0x80_0000) by (nonlinear_arith)
            requires
                mb >= 0x80_0000,
                pb >= 1,
        ;
    } else {
        let ea = (fa - 1) as nat;
        let eb = (fb - 1) as nat;
        assert(pa == pow2(ea) && pb == pow2(eb));
        lemma_pow2_unfold(ea + 1);
        if ea + 1 < eb {
            lemma_pow2_strictly_increases(ea + 1, eb);
        }
        assert(2 * pa <= pb);
        assert(ma * pa < mb * pb) by (nonlinear_arith)
            requires
                ma < 0x100_0000,
                mb >= 0x80_0000,
                2 * pa <= pb,
                pa > 0,
        ;
    }
}

/// The rank orders the patterns that stand for numbers as their numbers are
/// ordered, and gives one place to the patterns of the same number.
pub proof fn lemma_rank_is_numeric_order(a: u32, b: u32)
    requires
        !is_nan(a),
        !is_nan(b),
    ensures
        rank(a) < rank(b) <==> scaled_value(a) < scaled_value(b),
        rank(a) == rank(b) <==> scaled_value(a) == scaled_value(b),
{
    let zero: u32 = 0;
    lemma2_to64();
    assert(scaled(zero) == 0) by (nonlinear_arith)
        requires
            scaled(zero) == 0 * pow2(0),
    ;
    if magnitude(a) > 0 {
        lemma_scaled_grows(zero, a);
    } else {
        assert(scaled(a) == 0) by (nonlinear_arith)
            requires
                scaled(a) == 0 * pow2(0),
        ;
    }
    if magnitude(b) > 0 {
        lemma_scaled_grows(zero, b);
    } else {
        assert(scaled(b) == 0) by (nonlinear_arith)
            requires
                scaled(b) == 0 * pow2(0),
        ;
    }
    if magnitude(a) < magnitude(b) {
        lemma_scaled_grows(a, b);
    } else if magnitude(b) < magnitude(a) {
        lemma_scaled_grows(b, a);
    } else {
        assert(scaled(a) == scaled(b));
    }
}

/// What is no number ranks below every number.
pub proof fn lemma_nan_ranks_lowest(a: u32, b: u32)
    requires
        is_nan(a),
    ensures
        rank(a) <= rank(b),
        !is_nan(b) ==> rank(a) < rank(b),
{
}

/// The place of a reading among all readings.
pub fn rank_of(bits: u32) -> (r: i64)
    ensures
        r == rank(bits),
{
    let mag: u32 = bits % 0x8000_0000;
    if mag > 0x7f80_0000 {
        -0x8000_0000
    } else if bits >= 0x8000_0000 {
        -(mag as i64)
    } else {
        mag as i64
    }
}

/// Two to the power `k`.
fn power_of_two(k: u32) -> (p: u64)
    requires
        k <= 63,
    ensures
        p == pow2(k as nat),
{
    let mut p: u64 = 1;
    let mut j: u32 = 0;
    proof {
        lemma2_to64();
    }
    while j < k
        invariant
            j <= k <= 63,
            p == pow2(j as nat),
        decreases k - j,
    {
        proof {
            lemma_pow2_unfold((j + 1) as nat);
            lemma2_to64_rest();
            if j + 1 < 63 {
                lemma_pow2_strictly_increases((j + 1) as nat, 63);
            }
        }
        p = p * 2;
        j = j + 1;
    }
    p
}

/// `m` times two to the power `e`.
fn scale_up(m: u32, e: u32) -> (v: u128)
    requires
        m < 0x100_0000,
        e <= 104,
    ensures
        v == m * pow2(e as nat),
{
    let mut v: u128 = m as u128;
    let mut j: u32 = 0;
    proof {
        lemma2_to64();
    }
    while j < e
        invariant
            j <= e <= 104,
            m < 0x100_0000,
            v == m * pow2(j as nat),
        decreases e - j,
    {
        proof {
            let next = (j + 1) as nat;
            lemma_pow2_unfold(next);
            lemma_pow2_pos(next);
            lemma_pow2_adds(64, 40);
            lemma2_to64();
            lemma2_to64_rest();
            if next < 104 {
                lemma_pow2_strictly_increases(next, 104);
            }
            let top = pow2(104);
            assert(top == 0x1_0000_0000_0000_0000 * 0x100_0000_0000);
            assert(m * pow2(next) <= 0xff_ffff * top) by (nonlinear_arith)
                requires
                    m <= 0xff_ffff,
                    0 < pow2(next) <= top,
            ;
            assert(m * pow2(next) == 2 * (m * pow2(j as nat))) by (nonlinear_arith)
                requires
                    pow2(next) == 2 * pow2(j as nat),
            ;
        }
        v = v * 2;
        j = j + 1;
    }
    v
}

/// Writes a reading with one decimal place.
pub fn fixed1(bits: u32) -> (out: String)
    ensures
        out@ == fixed1_text(bits),
{
    let mag: u32 = bits % 0x8000_0000;
    if mag > 0x7f80_0000 {
        return "NaN".to_string();
    }
    let mut out = String::new();
    if bits >= 0x8000_0000 {
        out.push('-');
    }
    if mag == 0x7f80_0000 {
        out.append("inf");
        return out;
    }
    let field: u32 = mag / 0x80_0000;
    let frac: u32 = mag % 0x80_0000;
    let m: u32 = if field == 0 {
        frac
    } else {
        0x80_0000 + frac
    };
    if field >= 150 {
        let whole = scale_up(m, field - 150);
        proof {
            lemma_tenths(bits);
            lemma_div_by_multiple(whole as int, 10);
            lemma_mod_multiples_basic(whole as int, 10);
            assert(tenths(bits) == whole * 10);
        }
        push_decimal(&mut out, whole);
        out.push('.');
        out.push('0');
    } else {
        let k: u32 = if field == 0 {
            149
        } else {
            150 - field
        };
        if k > 30 {
            proof {
                lemma_tenths(bits);
                lemma2_to64();
                lemma_pow2_strictly_increases(30, k as nat);
                lemma_basic_div((m * 10) as int, pow2(k as nat) as int);
                lemma_small_mod((m * 10) as nat, pow2(k as nat));
                assert(tenths(bits) == 0);
            }
            push_one_place(&mut out, 0);
        } else {
            let d = power_of_two(k);
            proof {
                lemma_tenths(bits);
                lemma_pow2_pos(k as nat);
            }
            let t = div_round(m as u128 * 10, d as u128);
            push_one_place(&mut out, t);
        }
    }
    out
}

} // verus!

//! Machine integer conversions and saturating operations with exact contracts.
use vstd::prelude::*;

verus! {

/// Two's complement reading of a 64 bit word.
pub open spec fn signed_of(word: int) -> int {
    if word <= i64::MAX {
        word
    } else {
        word - 0x1_0000_0000_0000_0000
    }
}

/// Clamps `value` to the range of `i64`.
pub open spec fn clamp_i64(value: int) -> int {
    if value > i64::MAX {
        i64::MAX as int
    } else if value < i64::MIN {
        i64::MIN as int
    } else {
        value
    }
}

/// Clamps a non-negative `value` to the range of `u64`.
pub open spec fn clamp_u64(value: int) -> int {
    if value > u64::MAX {
        u64::MAX as int
    } else {
        value
    }
}

/// Clamps a non-negative `value` to the range of `usize`.
pub open spec fn clamp_usize(value: int) -> int {
    if value > usize::MAX {
        usize::MAX as int
    } else {
        value
    }
}

/// Quotient rounded towards zero, the rounding of the machine division.
pub open spec fn truncated_div(dividend: int, divisor: int) -> int
    recommends
        divisor != 0,
{
    let magnitude = vstd::math::abs(dividend) as int / vstd::math::abs(divisor) as int;
    if (dividend < 0) == (divisor < 0) {
        magnitude
    } else {
        -magnitude
    }
}

/// Reinterprets the bits of an unsigned word as a signed one.
pub fn to_signed(word: u64) -> (result: i64)
    ensures
        result == signed_of(word as int),
{
    if word <= 0x7fff_ffff_ffff_ffff {
        word as i64
    } else {
        -((u64::MAX - word) as i64) - 1
    }
}

/// Keeps the low 32 bits of a signed word.
pub fn low_u32(word: i64) -> (result: u32)
    ensures
        result == word as int % 0x1_0000_0000,
{
    match word.checked_rem_euclid(0x1_0000_0000) {
        Some(low) => low as u32,
        None => 0,
    }
}

/// Sum clamped to the range of `i64`.
pub fn saturating_add_i64(a: i64, b: i64) -> (result: i64)
    ensures
        result == clamp_i64(a + b),
{
    match a.checked_add(b) {
        Some(sum) => sum,
        None => if b > 0 {
            i64::MAX
        } else {
            i64::MIN
        },
    }
}

/// Difference clamped to the range of `i64`.
pub fn saturating_sub_i64(a: i64, b: i64) -> (result: i64)
    ensures
        result == clamp_i64(a - b),
{
    match a.checked_sub(b) {
        Some(difference) => difference,
        None => if b > 0 {
            i64::MIN
        } else {
            i64::MAX
        },
    }
}

/// Quotient rounded towards zero; `None` when it does not exist or does not fit.
pub fn checked_div_i64(dividend: i64, divisor: i64) -> (result: Option<i64>)
    ensures
        result is None <==> divisor == 0 || (dividend == i64::MIN && divisor == -1),
        result matches Some(quotient) ==> quotient == truncated_div(
            dividend as int,
            divisor as int,
        ),
{
    proof {
        let x = dividend as int;
        let d = divisor as int;
        if d != 0 {
            let a = vstd::math::abs(x) as int;
            let b = vstd::math::abs(d) as int;
            assert(0 <= a / b <= a) by (nonlinear_arith)
                requires
                    a >= 0,
                    b >= 1,
            ;
            if x != 0 && b >= 2 {
                assert(a / b < a) by (nonlinear_arith)
                    requires
                        a >= 1,
                        b >= 2,
                ;
            }
            if b == 1 {
                assert(a / b == a) by (nonlinear_arith)
                    requires
                        b == 1,
                ;
            }
            if x == 0 {
                assert(a / b == 0);
            }
        }
    }
    dividend.checked_div(divisor)
}

/// Twice `value`, clamped to the range of `u64`.
pub fn saturating_double(value: u64) -> (result: u64)
    ensures
        result == clamp_u64(2 * value),
{
    if value <= u64::MAX / 2 {
        value * 2
    } else {
        u64::MAX
    }
}

/// A word is read as the signed number that differs from it by a multiple of two to the power of 64.
pub proof fn law_signed_reading(word: u64, result: i64)
    requires
        call_ensures(to_signed, (word,), result),
    ensures
        result == word || result == word - 0x1_0000_0000_0000_0000,
{
}

/// Saturating sums and differences are exact within the range, and the nearest end of it outside.
pub proof fn law_saturation(a: i64, b: i64, sum: i64, difference: i64)
    requires
        call_ensures(saturating_add_i64, (a, b), sum),
        call_ensures(saturating_sub_i64, (a, b), difference),
    ensures
        i64::MIN <= a + b <= i64::MAX ==> sum == a + b,
        a + b > i64::MAX ==> sum == i64::MAX,
        a + b < i64::MIN ==> sum == i64::MIN,
        i64::MIN <= a - b <= i64::MAX ==> difference == a - b,
        a - b > i64::MAX ==> difference == i64::MAX,
        a - b < i64::MIN ==> difference == i64::MIN,
{
}

/// A quotient is rounded towards zero: what is left has the sign of the dividend, and is closer to
/// zero than the divisor.
pub proof fn law_rounded_quotient(dividend: i64, divisor: i64, result: Option<i64>)
    requires
        call_ensures(checked_div_i64, (dividend, divisor), result),
    ensures
        result is None <==> divisor == 0 || (dividend == i64::MIN && divisor == -1),
        result matches Some(quotient) ==> {
            let rest = dividend - quotient * divisor;
            &&& dividend >= 0 ==> 0 <= rest
            &&& dividend <= 0 ==> rest <= 0
            &&& -vstd::math::abs(divisor as int) < rest < vstd::math::abs(divisor as int)
        },
{
    if let Some(quotient) = result {
        let x = vstd::math::abs(dividend as int) as int;
        let d = vstd::math::abs(divisor as int) as int;
        vstd::arithmetic::div_mod::lemma_fundamental_div_mod(x, d);
        vstd::arithmetic::div_mod::lemma_mod_bound(x, d);
        let magnitude = x / d;
        assert(magnitude * divisor == if divisor < 0 {
            -(d * magnitude)
        } else {
            d * magnitude
        }) by (nonlinear_arith)
            requires
                d == if divisor < 0 {
                    -divisor
                } else {
                    divisor as int
                },
        ;
        assert((-magnitude) * divisor == -(magnitude * divisor)) by (nonlinear_arith);
    }
}

} // verus!

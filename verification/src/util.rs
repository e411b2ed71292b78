//! Small standalone utilities.

use vstd::prelude::*;

verus! {

/// Integer division truncated toward zero, as the `/` operator of the
/// machine integers behaves.
pub open spec fn div_trunc(a: int, b: int) -> int {
    let q = vstd::math::abs(a) as int / vstd::math::abs(b) as int;
    if (a < 0) != (b < 0) {
        -q
    } else {
        q
    }
}

/// Quotient of two machine integers; the divisor must not be zero and the
/// quotient must be representable.
pub fn divide(dividend: i32, divisor: i32) -> (r: i32)
    requires
        divisor != 0,
        !(dividend == i32::MIN && divisor == -1),
    ensures
        r == div_trunc(dividend as int, divisor as int),
{
    let wide_a: i64 = dividend as i64;
    let wide_b: i64 = divisor as i64;
    let mag_a: u64 = if wide_a < 0 {
        (-wide_a) as u64
    } else {
        wide_a as u64
    };
    let mag_b: u64 = if wide_b < 0 {
        (-wide_b) as u64
    } else {
        wide_b as u64
    };
    let q: u64 = mag_a / mag_b;
    proof {
        assert(mag_a == vstd::math::abs(dividend as int));
        assert(mag_b == vstd::math::abs(divisor as int));
        vstd::arithmetic::div_mod::lemma_div_is_ordered_by_denominator(
            mag_a as int,
            1,
            mag_b as int,
        );
        if dividend == i32::MIN && !((dividend < 0) != (divisor < 0)) {
            vstd::arithmetic::div_mod::lemma_div_is_ordered_by_denominator(
                mag_a as int,
                2,
                mag_b as int,
            );
        }
    }
    if (dividend < 0) != (divisor < 0) {
        (-(q as i64)) as i32
    } else {
        (q as i64) as i32
    }
}

/// A password passes this check exactly when it occupies more than five
/// bytes.
pub fn is_strong(password: &str) -> (r: bool)
    ensures
        r == (crate::httpresponse::byte_len(password@) > 5),
{
    password.len() > 5
}

/// Writes through `output` a value decided by `input` alone: the two
/// references cannot alias, so the reads of `input` are unaffected by the
/// writes of `output`.
pub fn noalias(input: &i32, output: &mut i32)
    ensures
        *final(output) == if *input == 1 {
            2int
        } else {
            3int
        },
{
    if *input == 1 {
        *output = 2;
    }
    if *input != 1 {
        *output = 3;
    }
}

/// Hands its argument back unchanged.
pub fn frobnicate3<T>(s: T) -> (r: T)
    ensures
        r == s,
{
    s
}

/// Compiles only for types with the usual auto traits.
pub fn is_normal<T: Sized + Send + Sync + Unpin>() {
}

} // verus!

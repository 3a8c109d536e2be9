//! Integer rounding arithmetic for amplitude scaling.
//!
//! A fade envelope multiplies a 16-bit sample by a rational factor
//! `num / den` with `0 <= num <= den` and rounds the result to the nearest
//! integer, ties away from zero.  Everything here is exact integer
//! arithmetic; the factor never exceeds one, so the scaled value never
//! leaves the 16-bit range.

use vstd::prelude::*;

verus! {

use vstd::arithmetic::div_mod::lemma_fundamental_div_mod;
use vstd::arithmetic::div_mod::lemma_fundamental_div_mod_converse_div;
use vstd::arithmetic::div_mod::lemma_multiply_divide_lt;
use vstd::arithmetic::mul::lemma_mul_inequality;

/// Nearest integer to the rational `a / b`, ties rounded away from zero.
pub open spec fn round_div(a: int, b: int) -> int
    recommends
        b > 0,
{
    if a >= 0 {
        (2 * a + b) / (2 * b)
    } else {
        -((2 * (-a) + b) / (2 * b))
    }
}

/// Sample value `s` scaled by the factor `num / den`, rounded to the
/// nearest integer with ties away from zero.
pub open spec fn scaled(s: int, num: int, den: int) -> int
    recommends
        den > 0,
        0 <= num <= den,
{
    round_div(s * num, den)
}

/// For a non-negative numerator the rounded quotient lies between `0` and
/// any `c` with `a <= c * b`.
pub proof fn lemma_round_div_le(a: int, b: int, c: int)
    requires
        b > 0,
        0 <= a,
        0 <= c,
        a <= c * b,
    ensures
        0 <= round_div(a, b),
        round_div(a, b) <= c,
{
    let x = 2 * a + b;
    let d = 2 * b;
    lemma_fundamental_div_mod(x, d);
    let q = x / d;
    let r = x % d;
    assert(0 <= r < d);
    assert(x == d * q + r);
    if q < 0 {
        lemma_mul_inequality(q, -1, d);
        assert(q * d <= (-1) * d);
        assert(false);
    }
    if q > c {
        lemma_mul_inequality(c + 1, q, d);
        assert((c + 1) * d <= q * d);
        assert(x >= (c + 1) * d);
        assert((c + 1) * d == 2 * (c * b) + 2 * b) by (nonlinear_arith)
            requires
                d == 2 * b,
        ;
        assert(2 * a + b >= 2 * (c * b) + 2 * b);
        assert(a > c * b);
        assert(false);
    }
}

/// Scaling by the factor `den / den` is the identity.
pub proof fn lemma_scaled_identity(s: int, den: int)
    requires
        den > 0,
    ensures
        scaled(s, den, den) == s,
{
    if s >= 0 {
        assert(2 * (s * den) + den == s * (2 * den) + den) by (nonlinear_arith);
        lemma_fundamental_div_mod_converse_div(2 * (s * den) + den, 2 * den, s, den);
    } else {
        assert(s * den < 0) by (nonlinear_arith)
            requires
                s < 0 && den > 0,
        ;
        assert(2 * (-(s * den)) + den == (-s) * (2 * den) + den) by (nonlinear_arith);
        lemma_fundamental_div_mod_converse_div(2 * (-(s * den)) + den, 2 * den, -s, den);
    }
}

/// Scaling by the factor `0 / den` yields exact silence.
pub proof fn lemma_scaled_zero(s: int, den: int)
    requires
        den > 0,
    ensures
        scaled(s, 0, den) == 0,
{
    assert(s * 0 == 0) by (nonlinear_arith);
    lemma_fundamental_div_mod_converse_div(den, 2 * den, 0, den);
}

/// A factor at most one never enlarges a sample: the scaled value stays
/// between the original value and zero.
pub proof fn lemma_scaled_bound(s: int, num: int, den: int)
    requires
        den > 0,
        0 <= num <= den,
    ensures
        s >= 0 ==> 0 <= scaled(s, num, den) <= s,
        s < 0 ==> s <= scaled(s, num, den) <= 0,
{
    if s >= 0 {
        lemma_mul_inequality(num, den, s);
        assert(num * s <= den * s);
        assert(s * num <= s * den) by (nonlinear_arith)
            requires num * s <= den * s;
        assert(0 <= s * num) by (nonlinear_arith)
            requires s >= 0 && num >= 0;
        lemma_round_div_le(s * num, den, s);
    } else {
        if num == 0 {
            assert(s * 0 == 0) by (nonlinear_arith);
            lemma_scaled_zero(s, den);
        } else {
            assert(s * num < 0) by (nonlinear_arith)
                requires
                    s < 0 && num > 0,
                ;
            let m = -s;
            lemma_mul_inequality(num, den, m);
            assert(num * m <= den * m);
            assert(m * num <= m * den) by (nonlinear_arith)
                requires num * m <= den * m;
            assert(0 <= m * num) by (nonlinear_arith)
                requires m >= 0 && num >= 0;
            lemma_round_div_le(m * num, den, m);
            assert(-(s * num) == m * num) by (nonlinear_arith)
                requires
                    m == -s,
            ;
        }
    }
}

/// With a factor strictly below one, a sample that is still large
/// enough for the factor to move it is strictly reduced in magnitude:
/// rescaling it is not the identity.
pub proof fn lemma_scaled_strictly_reduces(s: int, num: int, den: int)
    requires
        den > 0,
        0 <= num < den,
        (if s >= 0 { s } else { -s }) * (den - num) * 2 > den,
    ensures
        s > 0 ==> scaled(s, num, den) < s,
        s < 0 ==> scaled(s, num, den) > s,
        scaled(s, num, den) != s,
{
    if s >= 0 {
        assert(s > 0) by {
            if s == 0 {
                assert(0 * (den - num) * 2 == 0) by (nonlinear_arith);
            }
        };
        assert(0 <= s * num) by (nonlinear_arith)
            requires
                s >= 0 && num >= 0,
        ;
        assert(2 * (s * num) + den < (2 * den) * s) by (nonlinear_arith)
            requires
                s * (den - num) * 2 > den,
        ;
        lemma_multiply_divide_lt(2 * (s * num) + den, 2 * den, s);
    } else {
        let m = -s;
        assert(m > 0);
        if num == 0 {
            assert(s * 0 == 0) by (nonlinear_arith);
            lemma_scaled_zero(s, den);
        } else {
            assert(s * num < 0) by (nonlinear_arith)
                requires
                    s < 0 && num > 0,
            ;
            assert(0 <= m * num) by (nonlinear_arith)
                requires
                    m >= 0 && num >= 0,
            ;
            assert(-(s * num) == m * num) by (nonlinear_arith)
                requires
                    m == -s,
            ;
            assert(2 * (m * num) + den < (2 * den) * m) by (nonlinear_arith)
                requires
                    m * (den - num) * 2 > den,
            ;
            lemma_multiply_divide_lt(2 * (m * num) + den, 2 * den, m);
        }
    }
}

/// Multiply sample `s` by the factor `num / den` and round to the nearest
/// integer, ties away from zero, entirely in integer arithmetic.
pub fn scale_sample(s: i16, num: usize, den: usize) -> (r: i16)
    requires
        0 < den,
        num <= den,
    ensures
        r as int == scaled(s as int, num as int, den as int),
{
    let mag: u128 = if s >= 0 {
        s as u128
    } else {
        (-(s as i32)) as u128
    };
    proof {
        assert(mag <= 0x8000);
        assert(2 * mag * (num as u128) <= 0x10000 * 0xffff_ffff_ffff_ffffu128) by (nonlinear_arith)
            requires mag <= 0x8000 && num as u128 <= 0xffff_ffff_ffff_ffffu128;
    }
    let q: u128 = (2 * mag * (num as u128) + den as u128) / (2 * (den as u128));
    proof {
        assert((mag as int) * (num as int) <= (mag as int) * (den as int)) by (nonlinear_arith)
            requires num <= den && (mag as int) >= 0;
        assert(0 <= (mag as int) * (num as int)) by (nonlinear_arith)
            requires (mag as int) >= 0 && (num as int) >= 0;
        lemma_round_div_le((mag as int) * (num as int), den as int, mag as int);
        assert(2 * (mag as int) * (num as int) == 2 * ((mag as int) * (num as int)))
            by (nonlinear_arith);
        assert(q as int == round_div((mag as int) * (num as int), den as int));
        assert(q <= mag);
    }
    if s >= 0 {
        proof {
            assert(mag as int == s as int);
            assert(q as int == scaled(s as int, num as int, den as int));
        }
        q as i16
    } else {
        proof {
            assert(mag as int == -(s as int));
            if num == 0 {
                assert((s as int) * 0 == 0) by (nonlinear_arith);
                assert((mag as int) * 0 == 0) by (nonlinear_arith);
                lemma_fundamental_div_mod_converse_div(
                    den as int,
                    2 * (den as int),
                    0,
                    den as int,
                );
                assert(q as int == 0);
                assert(q as int == scaled(s as int, num as int, den as int));
            } else {
                assert(((s as int) * (num as int)) < 0) by (nonlinear_arith)
                    requires (s as int) < 0 && (num as int) > 0;
                assert(-((s as int) * (num as int)) == (mag as int) * (num as int)) by (nonlinear_arith)
                    requires (mag as int) == -(s as int);
                assert(-(q as int) == scaled(s as int, num as int, den as int));
            }
        }
        (-(q as i32)) as i16
    }
}

} // verus!

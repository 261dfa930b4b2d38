//! The product of two samples: what a volume does to a sample.
use vstd::prelude::*;
use super::order::is_level;
use vstd::arithmetic::power2::{
    lemma2_to64, lemma_pow2_adds, lemma_pow2_pos, lemma_pow2_unfold, pow2,
};
use crate::sample::{
    SILENCE, UNITY, is_nan, lemma_fields, lemma_smaller_pattern_smaller_magnitude,
    lemma_unity_is_one, magnitude, sign_bit,
};
use super::rounding::{round_scaled, split};
use super::steps::{
    INFINITY, QUIET_NAN, distance, is_infinite, is_nearest, is_zero, lemma_nearest_exact,
    lemma_nearest_exists, lemma_nearest_unique, lemma_same_parts, lemma_step_magnitude,
    lemma_steps_ordered, lemma_unsigned, unsigned,
};
use super::sum::{plus};

verus! {

/// `r` is the product of `a` and `b`.
///
/// A NaN gives a NaN, and so does infinity times zero: the NaN that comes
/// out is always [`QUIET_NAN`]. Infinity times anything else is infinity.
/// The product of two finite patterns is the nearest step to the exact
/// product. The sign is negative where the signs differ.
pub open spec fn is_product(r: u32, a: u32, b: u32) -> bool {
    if is_nan(a) || is_nan(b) {
        r == QUIET_NAN
    } else if (is_infinite(a) && is_zero(b)) || (is_zero(a) && is_infinite(b)) {
        r == QUIET_NAN
    } else {
        &&& sign_bit(r) == (sign_bit(a) != sign_bit(b))
        &&& if is_infinite(a) || is_infinite(b) {
            unsigned(r) == INFINITY
        } else {
            is_nearest(unsigned(r), (magnitude(a) * magnitude(b)) as int, pow2(149) as int)
        }
    }
}

/// The product of two patterns.
pub open spec fn product(a: u32, b: u32) -> u32 {
    choose|r: u32| is_product(r, a, b)
}

/// Two patterns have one product only: [`product`] is it.
pub proof fn lemma_product_unique(r: u32, a: u32, b: u32)
    requires
        is_product(r, a, b),
    ensures
        r == product(a, b),
{
    let s = product(a, b);
    assert(is_product(s, a, b));
    lemma_pow2_pos(149);
    if !(is_nan(a) || is_nan(b) || (is_infinite(a) && is_zero(b)) || (is_zero(a) && is_infinite(
        b,
    ))) {
        if !(is_infinite(a) || is_infinite(b)) {
            lemma_nearest_unique(
                unsigned(r),
                unsigned(s),
                (magnitude(a) * magnitude(b)) as int,
                pow2(149) as int,
            );
        }
        lemma_same_parts(r, s);
    }
}

/// Every two patterns have a product.
pub proof fn lemma_product_exists(a: u32, b: u32)
    ensures
        is_product(product(a, b), a, b),
{
    lemma_unsigned(a);
    lemma_unsigned(b);
    lemma_pow2_pos(149);
    if is_nan(a) || is_nan(b) || (is_infinite(a) && is_zero(b)) || (is_zero(a) && is_infinite(b)) {
        assert(is_product(QUIET_NAN, a, b));
    } else {
        let sign: u32 = if sign_bit(a) != sign_bit(b) {
            0x8000_0000
        } else {
            0
        };
        let step = if is_infinite(a) || is_infinite(b) {
            INFINITY
        } else {
            lemma_nearest_exists((magnitude(a) * magnitude(b)) as int, pow2(149) as int);
            choose|p: u32|
                #[trigger] is_nearest(p, (magnitude(a) * magnitude(b)) as int, pow2(149) as int)
        };
        lemma_unsigned((sign + step) as u32);
        assert(is_product((sign + step) as u32, a, b));
    }
}

/// The product of two samples.
pub fn multiply(a: u32, b: u32) -> (r: u32)
    ensures
        r == product(a, b),
        is_product(r, a, b),
{
    let r = multiply_by_case(a, b);
    proof {
        lemma_product_unique(r, a, b);
    }
    r
}

/// The product of two samples, by case.
pub(crate) fn multiply_by_case(a: u32, b: u32) -> (r: u32)
    ensures
        is_product(r, a, b),
{
    let negative = (a >= 0x8000_0000) != (b >= 0x8000_0000);
    let sign: u32 = if negative {
        0x8000_0000
    } else {
        0
    };
    let ua = a % 0x8000_0000;
    let ub = b % 0x8000_0000;
    proof {
        lemma_unsigned(a);
        lemma_unsigned(b);
        lemma_unsigned(QUIET_NAN);
    }
    if ua > INFINITY || ub > INFINITY {
        return QUIET_NAN;
    }
    if ua == INFINITY || ub == INFINITY {
        if ua == 0 || ub == 0 {
            return QUIET_NAN;
        }
        proof {
            lemma_unsigned((sign + INFINITY) as u32);
        }
        return sign + INFINITY;
    }
    let p = multiply_finite(ua, ub);
    proof {
        lemma_unsigned((sign + p) as u32);
    }
    sign + p
}

/// The product of two finite samples without their signs.
pub(crate) fn multiply_finite(ua: u32, ub: u32) -> (p: u32)
    requires
        ua < INFINITY,
        ub < INFINITY,
    ensures
        is_nearest(p, (magnitude(ua) * magnitude(ub)) as int, pow2(149) as int),
{
    let (ma, xa) = split(ua);
    let (mb, xb) = split(ub);
    assert((ma as u64) * (mb as u64) < 0x1_0000_0000_0000) by (nonlinear_arith)
        requires
            ma < 0x100_0000,
            mb < 0x100_0000,
    ;
    let n: u64 = (ma as u64) * (mb as u64);
    proof {
        lemma_pow2_adds(xa as nat, xb as nat);
        lemma_pow2_pos(149);
        assert(magnitude(ua) * magnitude(ub) == n * pow2((xa + xb) as nat)) by (nonlinear_arith)
            requires
                magnitude(ua) == ma * pow2(xa as nat),
                magnitude(ub) == mb * pow2(xb as nat),
                n == ma * mb,
                pow2((xa + xb) as nat) == pow2(xa as nat) * pow2(xb as nat),
        ;
    }
    if n == 0 {
        proof {
            lemma_fields(0, 0, 0);
            assert(magnitude(0u32) == 0);
            assert(magnitude(0u32) * (pow2(149) as int) == 0) by (nonlinear_arith)
                requires
                    magnitude(0u32) == 0,
            ;
            assert(n * pow2((xa + xb) as nat) == 0) by (nonlinear_arith)
                requires
                    n == 0,
            ;
            lemma_nearest_exact(0, 0, pow2(149) as int);
        }
        return 0;
    }
    round_scaled(n, xa + xb, 149)
}

/// At the volume one a sample stays as it is.
pub proof fn lemma_unity_keeps_sample(r: u32, sample: u32)
    requires
        is_product(r, sample, UNITY),
        !is_nan(sample),
    ensures
        r == sample,
{
    let unity = UNITY;
    lemma_unity_is_one();
    lemma_pow2_pos(149);
    let den = pow2(149) as int;
    let us = unsigned(sample);
    let ur = unsigned(r);
    assert(!is_nan(unity) && !is_infinite(unity) && !is_zero(unity));
    assert(!sign_bit(unity));
    if !is_infinite(sample) {
        let num = (magnitude(sample) * magnitude(unity)) as int;
        assert(magnitude(us) == magnitude(sample));
        assert(us < INFINITY);
        assert(distance(us, num, den) == 0);
        assert(distance(ur, num, den) == 0);
        if ur < us {
            lemma_steps_ordered(ur, us, den);
        }
        if us < ur {
            lemma_steps_ordered(us, ur, den);
        }
    }
}

/// At the volume zero every finite sample becomes a zero.
pub proof fn lemma_zero_silences_sample(r: u32, sample: u32)
    requires
        is_product(r, sample, SILENCE),
        !is_nan(sample),
        !is_infinite(sample),
    ensures
        is_zero(r),
{
    lemma_pow2_pos(149);
    lemma_fields(0, 0, 0);
    let den = pow2(149) as int;
    let ur = unsigned(r);
    assert(magnitude(SILENCE) == 0);
    assert(magnitude(sample) * 0 == 0);
    assert(distance(0u32, 0, den) == 0);
    assert(distance(ur, 0, den) == 0);
    if 0 < ur {
        lemma_steps_ordered(0, ur, den);
    }
}

/// Plus zero times a finite number without a sign is plus zero.
pub proof fn lemma_zero_times(w: u32)
    requires
        w < INFINITY,
    ensures
        product(SILENCE, w) == SILENCE,
{
    lemma_unsigned(w);
    lemma_unsigned(0);
    lemma_fields(0, 0, 0);
    lemma_pow2_pos(149);
    assert(magnitude(0u32) == 0);
    assert(magnitude(0u32) * magnitude(w) == 0) by (nonlinear_arith)
        requires
            magnitude(0u32) == 0,
    ;
    assert(magnitude(0u32) * (pow2(149) as int) == 0) by (nonlinear_arith)
        requires
            magnitude(0u32) == 0,
    ;
    lemma_nearest_exact(0, 0, pow2(149) as int);
    assert(is_product(0, 0, w));
    lemma_product_unique(0, 0, w);
}

/// A product with a number of at most one is not larger than the other
/// number.
pub proof fn lemma_product_not_larger(a: u32, b: u32)
    requires
        unsigned(a) < INFINITY,
        unsigned(b) <= UNITY,
    ensures
        unsigned(product(a, b)) <= unsigned(a),
        magnitude(product(a, b)) <= magnitude(a),
{
    let r = product(a, b);
    lemma_unsigned(a);
    lemma_unsigned(b);
    lemma_unsigned(r);
    lemma_product_exists(a, b);
    let ua = unsigned(a);
    let ur = unsigned(r);
    let den = pow2(149) as int;
    let num = (magnitude(a) * magnitude(b)) as int;
    lemma_pow2_pos(149);
    lemma_unity_is_one();
    if unsigned(b) < UNITY {
        lemma_smaller_pattern_smaller_magnitude(unsigned(b), UNITY);
    }
    assert(magnitude(b) <= den);
    assert(num <= magnitude(ua) * den) by (nonlinear_arith)
        requires
            num == magnitude(a) * magnitude(b),
            magnitude(ua) == magnitude(a),
            0 <= magnitude(b) <= den,
    ;
    if ur > ua {
        lemma_steps_ordered(ua, ur, den);
        assert(distance(ua, num, den) < distance(ur, num, den));
    }
    if ur < ua {
        lemma_smaller_pattern_smaller_magnitude(ur, ua);
    }
}

/// The product of a normal number and a number below one by at least one
/// part in `2^23` is smaller than the normal number.
pub proof fn lemma_product_smaller(a: u32, b: u32)
    requires
        0x0080_0000 <= unsigned(a) < INFINITY,
        unsigned(b) <= 0x3F7F_FFFE,
    ensures
        magnitude(product(a, b)) < magnitude(a),
{
    let r = product(a, b);
    lemma_unsigned(a);
    lemma_unsigned(b);
    lemma_unsigned(r);
    lemma_product_exists(a, b);
    lemma_product_not_larger(a, b);
    let ua = unsigned(a);
    let ur = unsigned(r);
    let under = (ua - 1) as u32;
    let den = pow2(149) as int;
    let num = (magnitude(a) * magnitude(b)) as int;
    lemma_pow2_pos(149);
    // One step below the normal number still lies at or above the product.
    let x = (ua / 0x80_0000 - 1) as nat;
    let m = (ua % 0x80_0000 + 0x80_0000) as nat;
    assert(ua == x * 0x80_0000 + m);
    lemma_step_magnitude(x, m);
    lemma_pow2_pos(x);
    let step = pow2(x) as int;
    assert(magnitude(ua) == m * step);
    if m > 0x80_0000 {
        lemma_step_magnitude(x, (m - 1) as nat);
        assert(under == x * 0x80_0000 + (m - 1));
        assert((m - 1) * step == m * step - step) by (nonlinear_arith);
        assert(magnitude(under) == m * step - step);
    } else if x >= 1 {
        let half = pow2((x - 1) as nat) as int;
        lemma_step_magnitude((x - 1) as nat, 0xFF_FFFF);
        lemma_pow2_unfold(x);
        lemma_pow2_pos((x - 1) as nat);
        assert((x - 1) * 0x80_0000 + 0xFF_FFFF == under);
        assert(magnitude(under) == 0xFF_FFFF * half);
        assert(step == 2 * half);
        assert(0xFF_FFFF * half >= 0x80_0000 * (2 * half) - 2 * half) by (nonlinear_arith)
            requires
                half > 0,
        ;
        assert(m * step == 0x80_0000 * (2 * half));
    } else {
        lemma_step_magnitude(0, (m - 1) as nat);
        lemma2_to64();
        assert(under == m - 1);
        assert(step == 1);
        assert((m - 1) * step == m - 1) by (nonlinear_arith)
            requires
                step == 1,
        ;
        assert(m * step == m) by (nonlinear_arith)
            requires
                step == 1,
        ;
    }
    assert(magnitude(under) >= magnitude(ua) - step);
    // The number below one, as a part of 2^23.
    lemma_fields(0, 126, 0x7F_FFFE);
    if unsigned(b) < 0x3F7F_FFFE {
        lemma_smaller_pattern_smaller_magnitude(unsigned(b), 0x3F7F_FFFE);
    }
    lemma_pow2_adds(23, 126);
    lemma_pow2_adds(1, 125);
    lemma2_to64();
    assert(magnitude(0x3F7F_FFFEu32) == 0xFF_FFFE * pow2(125));
    lemma_pow2_pos(125);
    lemma_pow2_adds(24, 125);
    assert(0x80_0000 * magnitude(b) <= 0x7F_FFFF * den) by (nonlinear_arith)
        requires
            magnitude(b) <= 0xFF_FFFE * pow2(125),
            den == 0x80_0000 * (2 * pow2(125)),
            pow2(125) > 0,
    ;
    assert(num <= magnitude(under) * den) by (nonlinear_arith)
        requires
            num == magnitude(a) * magnitude(b),
            magnitude(ua) == magnitude(a),
            magnitude(ua) == m * step,
            m >= 0x80_0000,
            step > 0,
            magnitude(under) >= magnitude(ua) - step,
            0x80_0000 * magnitude(b) <= 0x7F_FFFF * den,
            den > 0,
            magnitude(b) >= 0,
    ;
    lemma_steps_ordered(under, ua, den);
    assert(distance(under, num, den) < distance(ua, num, den));
    assert(ur != ua);
    lemma_smaller_pattern_smaller_magnitude(ur, ua);
}

/// A product that is at least the smallest step is not rounded to zero.
pub proof fn lemma_product_not_zero(a: u32, b: u32)
    requires
        unsigned(a) < INFINITY,
        unsigned(b) < INFINITY,
        magnitude(a) * magnitude(b) >= pow2(149),
    ensures
        magnitude(product(a, b)) > 0,
{
    let r = product(a, b);
    lemma_unsigned(a);
    lemma_unsigned(b);
    lemma_unsigned(r);
    lemma_product_exists(a, b);
    lemma_pow2_pos(149);
    let den = pow2(149) as int;
    let num = (magnitude(a) * magnitude(b)) as int;
    let ur = unsigned(r);
    lemma_fields(0, 0, 0);
    lemma_fields(0, 0, 1);
    assert(magnitude(0u32) * den == 0) by (nonlinear_arith)
        requires
            magnitude(0u32) == 0,
    ;
    assert(magnitude(1u32) * den == den) by (nonlinear_arith)
        requires
            magnitude(1u32) == 1,
    ;
    if ur == 0 {
        assert(distance(1u32, num, den) < distance(0u32, num, den));
    } else {
        lemma_smaller_pattern_smaller_magnitude(0, ur);
    }
}

/// The product of two levels is a level, and so is every square.
pub proof fn lemma_product_of_levels(a: u32, b: u32)
    ensures
        is_level(a) && is_level(b) ==> is_level(product(a, b)),
        is_level(product(a, a)),
{
    lemma_product_exists(a, b);
    lemma_product_exists(a, a);
    lemma_unsigned(QUIET_NAN);
}

/// The product does not depend on the order of its two numbers.
pub proof fn lemma_product_commutes(a: u32, b: u32)
    ensures
        product(a, b) == product(b, a),
{
    let r = product(a, b);
    lemma_product_exists(a, b);
    assert(magnitude(a) * magnitude(b) == magnitude(b) * magnitude(a)) by (nonlinear_arith);
    assert(is_product(r, b, a));
    lemma_product_unique(r, b, a);
}

/// A number from zero to one times a weight is not larger than the weight.
pub proof fn lemma_weighted_up_to_weight(level: u32, weight: u32)
    requires
        level <= UNITY,
        weight < INFINITY,
    ensures
        product(level, weight) <= weight,
        magnitude(product(level, weight)) <= magnitude(weight),
{
    lemma_product_commutes(level, weight);
    lemma_unsigned(level);
    lemma_unsigned(weight);
    lemma_product_exists(weight, level);
    lemma_product_not_larger(weight, level);
    lemma_unsigned(product(weight, level));
}

} // verus!

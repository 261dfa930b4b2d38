//! The quotient of two samples.
use vstd::prelude::*;
use super::order::is_level;
use vstd::arithmetic::power2::{lemma2_to64, lemma_pow2_adds, lemma_pow2_pos, pow2};
use crate::sample::{
    SILENCE, is_nan, lemma_fields, lemma_smaller_pattern_smaller_magnitude, magnitude, sign_bit,
};
use super::rounding::{lemma_quotient_bounds, normalise, round_ratio, split};
use super::steps::{
    INFINITY, QUIET_NAN, is_infinite, is_nearest, is_zero, lemma_nearest_rescaled,
    lemma_nearest_unique, lemma_same_parts, lemma_unsigned, unsigned,
};
use super::sum::{plus};

verus! {

/// `r` is the quotient of `a` by `b`.
///
/// A NaN gives a NaN, and so do infinity by infinity and zero by zero: the
/// NaN that comes out is always [`QUIET_NAN`]. Anything else by zero is
/// infinity, as is infinity by anything else; anything else by infinity is
/// zero, as is zero by anything else. The quotient of two other patterns is
/// the nearest step to the exact quotient. The sign is negative where the
/// signs differ.
pub open spec fn is_quotient(r: u32, a: u32, b: u32) -> bool {
    if is_nan(a) || is_nan(b) {
        r == QUIET_NAN
    } else if (is_infinite(a) && is_infinite(b)) || (is_zero(a) && is_zero(b)) {
        r == QUIET_NAN
    } else {
        &&& sign_bit(r) == (sign_bit(a) != sign_bit(b))
        &&& if is_infinite(a) || is_zero(b) {
            unsigned(r) == INFINITY
        } else if is_infinite(b) || is_zero(a) {
            unsigned(r) == 0
        } else {
            is_nearest(unsigned(r), (magnitude(a) * pow2(149)) as int, magnitude(b) as int)
        }
    }
}

/// The quotient of two patterns.
pub open spec fn quotient(a: u32, b: u32) -> u32 {
    choose|r: u32| is_quotient(r, a, b)
}

/// Two patterns have one quotient only: [`quotient`] is it.
pub proof fn lemma_quotient_unique(r: u32, a: u32, b: u32)
    requires
        is_quotient(r, a, b),
    ensures
        r == quotient(a, b),
{
    let s = quotient(a, b);
    assert(is_quotient(s, a, b));
    if !(is_nan(a) || is_nan(b) || (is_infinite(a) && is_infinite(b)) || (is_zero(a) && is_zero(
        b,
    ))) {
        if !(is_infinite(a) || is_zero(b) || is_infinite(b) || is_zero(a)) {
            lemma_unsigned(b);
            lemma_fields(0, 0, 0);
            if unsigned(b) > 0 {
                lemma_smaller_pattern_smaller_magnitude(0, unsigned(b));
            }
            lemma_nearest_unique(
                unsigned(r),
                unsigned(s),
                (magnitude(a) * pow2(149)) as int,
                magnitude(b) as int,
            );
        }
        lemma_same_parts(r, s);
    }
}

/// The quotient of two samples.
pub fn divide(a: u32, b: u32) -> (r: u32)
    ensures
        r == quotient(a, b),
        is_quotient(r, a, b),
{
    let r = divide_by_case(a, b);
    proof {
        lemma_quotient_unique(r, a, b);
    }
    r
}

/// The quotient of two samples, by case.
pub(crate) fn divide_by_case(a: u32, b: u32) -> (r: u32)
    ensures
        is_quotient(r, a, b),
{
    let negative = (a >= 0x8000_0000) != (b >= 0x8000_0000);
    let sign: u32 = if negative {
        0x8000_0000
    } else {
        0
    };
    let ua = a % 0x8000_0000;
    let ub = b % 0x8000_0000;
    proof {
        lemma_unsigned(a);
        lemma_unsigned(b);
        lemma_unsigned(QUIET_NAN);
        lemma_unsigned(sign);
    }
    if ua > INFINITY || ub > INFINITY {
        return QUIET_NAN;
    }
    if (ua == INFINITY && ub == INFINITY) || (ua == 0 && ub == 0) {
        return QUIET_NAN;
    }
    if ua == INFINITY || ub == 0 {
        proof {
            lemma_unsigned((sign + INFINITY) as u32);
        }
        return sign + INFINITY;
    }
    if ub == INFINITY || ua == 0 {
        return sign;
    }
    let p = divide_finite(ua, ub);
    proof {
        lemma_unsigned((sign + p) as u32);
    }
    sign + p
}

/// The quotient of two finite samples without their signs, neither zero.
pub(crate) fn divide_finite(ua: u32, ub: u32) -> (p: u32)
    requires
        0 < ua < INFINITY,
        0 < ub < INFINITY,
    ensures
        is_nearest(p, (magnitude(ua) * pow2(149)) as int, magnitude(ub) as int),
{
    let (ma, xa) = split(ua);
    let (mb, xb) = split(ub);
    proof {
        lemma_fields(0, 0, 0);
        lemma_smaller_pattern_smaller_magnitude(0, ua);
        lemma_smaller_pattern_smaller_magnitude(0, ub);
        lemma_pow2_pos(xa as nat);
        lemma_pow2_pos(xb as nat);
        assert(ma > 0) by (nonlinear_arith)
            requires
                ma * pow2(xa as nat) > 0,
                ma >= 0,
        ;
        assert(mb > 0) by (nonlinear_arith)
            requires
                mb * pow2(xb as nat) > 0,
                mb >= 0,
        ;
    }
    let (top, ca) = normalise(ma);
    let (bottom, cb) = normalise(mb);
    let raised: u64 = (top as u64) * 0x800_0000;
    let whole = raised / (bottom as u64);
    let rem = raised % (bottom as u64);
    proof {
        lemma_quotient_bounds(raised as int, bottom as int, 0x400_0000, 0x1000_0001);
        vstd::arithmetic::div_mod::lemma_fundamental_div_mod(raised as int, bottom as int);
        vstd::arithmetic::div_mod::lemma_mod_bound(raised as int, bottom as int);
    }
    let up = xa + cb + 149;
    let down = xb + ca + 27;
    let p = round_ratio(whole, rem, bottom as u64, up, down);
    proof {
        let k = pow2((ca + cb + 27) as nat) as int;
        let num = (magnitude(ua) * pow2(149)) as int;
        let den = magnitude(ub) as int;
        lemma_pow2_pos((ca + cb + 27) as nat);
        lemma2_to64();
        lemma_pow2_adds(ca as nat, 27);
        lemma_pow2_adds((ca + 27) as nat, cb as nat);
        lemma_pow2_adds(xa as nat, cb as nat);
        lemma_pow2_adds((xa + cb) as nat, 149);
        lemma_pow2_adds(xb as nat, ca as nat);
        lemma_pow2_adds((xb + ca) as nat, 27);
        lemma_pow2_adds(cb as nat, (xb + ca + 27) as nat);
        lemma_pow2_adds(cb as nat, (ca + 27) as nat);
        assert((whole * bottom + rem) * pow2(up as nat) == num * k) by (nonlinear_arith)
            requires
                whole * bottom + rem == raised,
                raised == (ma * pow2(ca as nat)) * pow2(27),
                pow2(up as nat) == pow2(xa as nat) * pow2(cb as nat) * pow2(149),
                num == (ma * pow2(xa as nat)) * pow2(149),
                k == pow2(ca as nat) * pow2(27) * pow2(cb as nat),
        ;
        assert(bottom * pow2(down as nat) == den * k) by (nonlinear_arith)
            requires
                bottom == mb * pow2(cb as nat),
                pow2(down as nat) == pow2(xb as nat) * pow2(ca as nat) * pow2(27),
                den == mb * pow2(xb as nat),
                k == pow2(ca as nat) * pow2(27) * pow2(cb as nat),
        ;
        lemma_nearest_rescaled(p, num, den, k);
    }
    p
}

/// Plus zero by a finite number above zero is plus zero.
pub proof fn lemma_zero_by(w: u32)
    requires
        0 < w < INFINITY,
    ensures
        quotient(SILENCE, w) == SILENCE,
{
    lemma_unsigned(w);
    lemma_unsigned(0);
    assert(is_quotient(0, 0, w));
    lemma_quotient_unique(0, 0, w);
}

/// A quotient of two levels that is a quotient at all is a level.
pub proof fn lemma_quotient_of_levels(r: u32, a: u32, b: u32)
    requires
        is_quotient(r, a, b),
        is_level(a),
        is_level(b),
    ensures
        is_level(r),
{
    lemma_unsigned(QUIET_NAN);
}

} // verus!

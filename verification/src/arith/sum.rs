//! The sum and the difference of two samples.
use vstd::prelude::*;
use super::order::is_level;
use super::steps::{distance, lemma_steps_ordered};
use vstd::arithmetic::power2::{
    lemma2_to64, lemma_pow2_adds, lemma_pow2_pos, lemma_pow2_unfold, pow2,
};
use crate::sample::{
    SILENCE, abs, is_nan, lemma_fields, lemma_smaller_pattern_smaller_magnitude, magnitude,
    sign_bit,
};
use super::rounding::{binade, lemma_pow2_grows, round_scaled, split, two_to};
use super::steps::{
    INFINITY, QUIET_NAN, is_infinite, is_nearest, lemma_nearest_between, lemma_nearest_exact,
    lemma_nearest_unique, lemma_same_parts, lemma_step_magnitude, lemma_unsigned, unsigned,
};

verus! {

/// The number that a finite pattern denotes, times `2^149`.
pub open spec fn signed_magnitude(bits: u32) -> int {
    if sign_bit(bits) {
        -(magnitude(bits) as int)
    } else {
        magnitude(bits) as int
    }
}

/// `r` is the sum of `a` and `b`.
///
/// A NaN gives a NaN, and so do two infinities of different sign: the NaN
/// that comes out is always [`QUIET_NAN`]. An infinity and anything else
/// give the infinity. The sum of two finite patterns is the nearest step to
/// the exact sum; an exact sum of zero is plus zero, unless both are minus
/// zero.
pub open spec fn is_sum(r: u32, a: u32, b: u32) -> bool {
    if is_nan(a) || is_nan(b) {
        r == QUIET_NAN
    } else if is_infinite(a) && is_infinite(b) && sign_bit(a) != sign_bit(b) {
        r == QUIET_NAN
    } else if is_infinite(a) {
        r == a
    } else if is_infinite(b) {
        r == b
    } else {
        let exact = signed_magnitude(a) + signed_magnitude(b);
        if exact == 0 {
            r == if sign_bit(a) && sign_bit(b) {
                0x8000_0000u32
            } else {
                0u32
            }
        } else {
            &&& sign_bit(r) == (exact < 0)
            &&& is_nearest(unsigned(r), abs(exact), 1)
        }
    }
}

/// The sum of two patterns.
pub open spec fn sum(a: u32, b: u32) -> u32 {
    choose|r: u32| is_sum(r, a, b)
}

/// Two patterns have one sum only: [`sum`] is it.
pub proof fn lemma_sum_unique(r: u32, a: u32, b: u32)
    requires
        is_sum(r, a, b),
    ensures
        r == sum(a, b),
{
    let s = sum(a, b);
    assert(is_sum(s, a, b));
    if !(is_nan(a) || is_nan(b) || is_infinite(a) || is_infinite(b)) {
        let exact = signed_magnitude(a) + signed_magnitude(b);
        if exact != 0 {
            lemma_nearest_unique(unsigned(r), unsigned(s), abs(exact), 1);
            lemma_same_parts(r, s);
        }
    }
}

/// A pattern with the other sign.
pub open spec fn negated(bits: u32) -> u32 {
    if bits >= 0x8000_0000 {
        (bits - 0x8000_0000) as u32
    } else {
        (bits + 0x8000_0000) as u32
    }
}

/// A sample with the other sign.
pub fn negate(bits: u32) -> (r: u32)
    ensures
        r == negated(bits),
{
    if bits >= 0x8000_0000 {
        bits - 0x8000_0000
    } else {
        bits + 0x8000_0000
    }
}

/// The sum of two samples.
pub fn plus(a: u32, b: u32) -> (r: u32)
    ensures
        r == sum(a, b),
        is_sum(r, a, b),
{
    let r = plus_by_case(a, b);
    proof {
        lemma_sum_unique(r, a, b);
    }
    r
}

/// The difference of two samples: the sum of the first and the second with
/// the other sign.
pub fn minus(a: u32, b: u32) -> (r: u32)
    ensures
        r == sum(a, negated(b)),
{
    plus(a, negate(b))
}

/// The sum of two samples, by case.
pub(crate) fn plus_by_case(a: u32, b: u32) -> (r: u32)
    ensures
        is_sum(r, a, b),
{
    let negative_a = a >= 0x8000_0000;
    let negative_b = b >= 0x8000_0000;
    let ua = a % 0x8000_0000;
    let ub = b % 0x8000_0000;
    proof {
        lemma_unsigned(a);
        lemma_unsigned(b);
        lemma_unsigned(QUIET_NAN);
    }
    if ua > INFINITY || ub > INFINITY {
        return QUIET_NAN;
    }
    if ua == INFINITY {
        if ub == INFINITY && negative_a != negative_b {
            return QUIET_NAN;
        }
        return a;
    }
    if ub == INFINITY {
        return b;
    }
    if ua >= ub {
        plus_finite(ua, negative_a, ub, negative_b)
    } else {
        plus_finite(ub, negative_b, ua, negative_a)
    }
}

/// A magnitude with the sign it is to carry.
pub open spec fn with_sign(magnitude: int, negative: bool) -> int {
    if negative {
        -magnitude
    } else {
        magnitude
    }
}

/// `r` is the sum of two finite numbers given by sign and pattern, the
/// first not smaller in magnitude than the second.
pub open spec fn is_finite_sum(r: u32, hi: u32, negative_hi: bool, lo: u32, negative_lo: bool) -> bool {
    let exact = with_sign(magnitude(hi) as int, negative_hi) + with_sign(
        magnitude(lo) as int,
        negative_lo,
    );
    if exact == 0 {
        r == if negative_hi && negative_lo {
            0x8000_0000u32
        } else {
            0u32
        }
    } else {
        &&& sign_bit(r) == (exact < 0)
        &&& is_nearest(unsigned(r), abs(exact), 1)
    }
}

/// The sum of two finite numbers given by sign and pattern.
pub(crate) fn plus_finite(hi: u32, negative_hi: bool, lo: u32, negative_lo: bool) -> (r: u32)
    requires
        lo <= hi < INFINITY,
    ensures
        is_finite_sum(r, hi, negative_hi, lo, negative_lo),
{
    let (m_hi, x_hi) = split(hi);
    let (m_lo, x_lo) = split(lo);
    let sign_hi: u32 = if negative_hi {
        0x8000_0000
    } else {
        0
    };
    let same = negative_hi == negative_lo;
    proof {
        if lo < hi {
            lemma_smaller_pattern_smaller_magnitude(lo, hi);
        }
        lemma_unsigned(sign_hi);
    }
    assert(x_lo <= x_hi);
    let step = if x_hi - x_lo >= 26 {
        proof {
            lemma_far_sum(hi, m_hi as nat, x_hi as nat, m_lo as nat, x_lo as nat, !same);
        }
        Some(hi)
    } else {
        plus_near(m_hi, x_hi, m_lo, x_lo, same)
    };
    match step {
        Some(p) => {
            proof {
                lemma_unsigned((sign_hi + p) as u32);
            }
            sign_hi + p
        },
        None => {
            if negative_hi && negative_lo {
                0x8000_0000
            } else {
                0
            }
        },
    }
}

/// The nearest step to the sum or the difference of two magnitudes whose
/// powers of two lie close together; nothing where the difference is zero.
pub(crate) fn plus_near(m_hi: u32, x_hi: u32, m_lo: u32, x_lo: u32, same: bool) -> (p: Option<u32>)
    requires
        m_hi < 0x100_0000,
        m_lo < 0x100_0000,
        x_lo <= x_hi <= 253,
        x_hi - x_lo < 26,
        m_hi * pow2(x_hi as nat) >= m_lo * pow2(x_lo as nat),
    ensures
        ({
            let big = m_hi * pow2(x_hi as nat);
            let small = m_lo * pow2(x_lo as nat);
            let exact = if same {
                big + small
            } else {
                big - small
            };
            match p {
                Some(step) => exact > 0 && is_nearest(step, exact, 1),
                None => exact == 0,
            }
        }),
{
    let shift = x_hi - x_lo;
    let scale = two_to(shift);
    let ghost big = m_hi * pow2(x_hi as nat);
    let ghost small = m_lo * pow2(x_lo as nat);
    let ghost unit = pow2(x_lo as nat) as int;
    proof {
        lemma_pow2_pos(x_lo as nat);
        lemma_pow2_grows(shift as nat, 25);
        lemma2_to64();
        lemma_pow2_adds(shift as nat, x_lo as nat);
        assert((m_hi as u64) * scale < 0x100_0000 * 0x200_0000) by (nonlinear_arith)
            requires
                m_hi < 0x100_0000,
                scale <= 0x200_0000,
        ;
        assert(big == (m_hi * scale) * unit) by (nonlinear_arith)
            requires
                big == m_hi * pow2(x_hi as nat),
                pow2(x_hi as nat) == scale * unit,
        ;
    }
    let raised: u64 = (m_hi as u64) * scale;
    proof {
        assert(raised >= m_lo) by (nonlinear_arith)
            requires
                raised * unit >= m_lo * unit,
                unit > 0,
        ;
    }
    let n: u64 = if same {
        raised + (m_lo as u64)
    } else {
        raised - (m_lo as u64)
    };
    proof {
        assert(n * unit == if same {
            big + small
        } else {
            big - small
        }) by (nonlinear_arith)
            requires
                big == raised * unit,
                small == m_lo * unit,
                n == if same {
                    raised + m_lo
                } else {
                    raised - m_lo
                },
        ;
    }
    if n == 0 {
        proof {
            assert(n * unit == 0);
        }
        return None;
    }
    let p = round_scaled(n, x_lo, 0);
    proof {
        assert(n * unit > 0) by (nonlinear_arith)
            requires
                n > 0,
                unit > 0,
        ;
    }
    Some(p)
}

/// Where the powers of two of two magnitudes lie far apart, the larger
/// magnitude is the nearest step to their sum and to their difference.
pub(crate) proof fn lemma_far_sum(hi: u32, m_hi: nat, x_hi: nat, m_lo: nat, x_lo: nat, minus: bool)
    requires
        hi < INFINITY,
        hi == x_hi * 0x80_0000 + m_hi,
        m_hi < 0x100_0000,
        m_lo < 0x100_0000,
        x_hi >= 1 ==> m_hi >= 0x80_0000,
        x_hi <= 253,
        x_lo + 26 <= x_hi,
    ensures
        is_nearest(
            hi,
            if minus {
                m_hi * pow2(x_hi) - m_lo * pow2(x_lo)
            } else {
                (m_hi * pow2(x_hi) + m_lo * pow2(x_lo)) as int
            },
            1,
        ),
        m_hi * pow2(x_hi) > m_lo * pow2(x_lo),
        m_lo * pow2(x_lo) >= 0,
{
    let small = m_lo * pow2(x_lo);
    lemma_pow2_pos(x_hi);
    lemma_pow2_pos(x_lo);
    lemma_pow2_adds(24, x_lo);
    lemma_pow2_adds(2, 24 + x_lo);
    lemma_pow2_grows(26 + x_lo, x_hi);
    lemma2_to64();
    assert(0 <= small < pow2(24) * pow2(x_lo)) by (nonlinear_arith)
        requires
            small == m_lo * pow2(x_lo),
            0 <= m_lo < pow2(24),
            pow2(x_lo) > 0,
    ;
    assert(m_hi * pow2(x_hi) >= 0x80_0000 * pow2(x_hi)) by (nonlinear_arith)
        requires
            m_hi >= 0x80_0000,
            pow2(x_hi) > 0,
    ;
    lemma_nearest_unmoved(m_hi, x_hi, small as int, minus);
}

/// A number that lies less than a quarter of the size of a normal step
/// away from that step, above it or below, has the step as its nearest.
pub(crate) proof fn lemma_nearest_unmoved(m: nat, x: nat, small: int, minus: bool)
    requires
        x >= 2,
        x <= 253,
        0x80_0000 <= m < 0x100_0000,
        0 <= small,
        4 * small < pow2(x),
    ensures
        x * 0x80_0000 + m < INFINITY,
        is_nearest(
            (x * 0x80_0000 + m) as u32,
            if minus {
                m * pow2(x) - small
            } else {
                m * pow2(x) + small
            },
            1,
        ),
{
    let p = (x * 0x80_0000 + m) as u32;
    let step = pow2(x) as int;
    let a = m * step;
    lemma_step_magnitude(x, m);
    lemma_pow2_pos(x);
    lemma_pow2_unfold(x);
    assert(magnitude(p) * 1 == a) by (nonlinear_arith)
        requires
            magnitude(p) == m * step,
            a == m * step,
    ;
    if small == 0 {
        lemma_nearest_exact(p, a, 1);
    } else if !minus {
        lemma_step_magnitude(x, m + 1);
        assert((m + 1) * step == a + step) by (nonlinear_arith)
            requires
                a == m * step,
        ;
        assert(magnitude((p + 1) as u32) * 1 == a + step);
        lemma_nearest_between(p, a + small, 1, false);
    } else {
        let half = pow2((x - 1) as nat) as int;
        assert(step == 2 * half);
        if m > 0x80_0000 {
            lemma_step_magnitude(x, (m - 1) as nat);
            assert((m - 1) * step == a - step) by (nonlinear_arith)
                requires
                    a == m * step,
            ;
            assert(magnitude((p - 1) as u32) * 1 == a - step);
        } else {
            lemma_step_magnitude((x - 1) as nat, 0xFF_FFFF);
            assert((x - 1) * 0x80_0000 + 0xFF_FFFF == p - 1);
            assert(0xFF_FFFF * half == a - half) by (nonlinear_arith)
                requires
                    a == 0x80_0000 * (2 * half),
            ;
            assert(magnitude((p - 1) as u32) * 1 == a - half);
        }
        lemma_nearest_between((p - 1) as u32, a - small, 1, true);
    }
}

/// Adding plus zero to a number without a sign changes nothing.
pub proof fn lemma_sum_with_zero(p: u32)
    requires
        !is_nan(p),
        !sign_bit(p),
    ensures
        sum(p, SILENCE) == p,
{
    lemma_unsigned(p);
    lemma_fields(0, 0, 0);
    assert(magnitude(0u32) == 0);
    if !is_infinite(p) {
        if p > 0 {
            lemma_smaller_pattern_smaller_magnitude(0, p);
            assert(magnitude(p) * 1 == magnitude(p));
            lemma_nearest_exact(p, magnitude(p) as int, 1);
        }
    }
    assert(is_sum(p, p, SILENCE));
    lemma_sum_unique(p, p, SILENCE);
}

/// A sum of two levels that is a sum at all is a level.
pub proof fn lemma_sum_of_levels(r: u32, a: u32, b: u32)
    requires
        is_sum(r, a, b),
        is_level(a),
        is_level(b),
    ensures
        is_level(r),
{
    lemma_unsigned(QUIET_NAN);
    lemma_unsigned(a);
    lemma_unsigned(b);
}

/// The sum of two finite numbers without a sign does not pass a step that
/// their exact sum does not pass.
pub proof fn lemma_sum_up_to(r: u32, a: u32, b: u32, top: u32)
    requires
        is_sum(r, a, b),
        a < INFINITY,
        b < INFINITY,
        top <= INFINITY,
        magnitude(a) + magnitude(b) <= magnitude(top),
    ensures
        r <= top,
{
    lemma_unsigned(a);
    lemma_unsigned(b);
    lemma_unsigned(r);
    let exact = (magnitude(a) + magnitude(b)) as int;
    if exact != 0 {
        let ur = unsigned(r);
        assert(ur == r);
        if ur > top {
            lemma_steps_ordered(top, ur, 1);
            assert(distance(top, exact, 1) < distance(ur, exact, 1));
        }
    }
}

} // verus!

//! The scale of magnitudes: the patterns from zero up to infinity are its
//! steps, and a number has a nearest step.
use vstd::prelude::*;
use vstd::arithmetic::power2::{lemma2_to64, lemma_pow2_unfold, pow2};
use crate::sample::{
    abs, exponent_field, fraction_field, is_nan, lemma_fields,
    lemma_smaller_pattern_smaller_magnitude, magnitude, sign_bit,
};
use super::sum::{minus, plus};

verus! {

/// The pattern of plus infinity. The patterns from zero up to this one are
/// the steps of the scale of magnitudes.
pub const INFINITY: u32 = 0x7F80_0000;

/// The pattern of a NaN.
pub const QUIET_NAN: u32 = 0x7FC0_0000;

/// True of plus and minus infinity.
pub open spec fn is_infinite(bits: u32) -> bool {
    exponent_field(bits) == 255 && fraction_field(bits) == 0
}

/// True of plus and minus zero.
pub open spec fn is_zero(bits: u32) -> bool {
    bits == 0 || bits == 0x8000_0000
}

/// A pattern without its sign.
pub open spec fn unsigned(bits: u32) -> u32 {
    (bits % 0x8000_0000) as u32
}

/// How far the magnitude of step `p` lies from the number `num / den`, in
/// units of `1 / den`.
pub open spec fn distance(p: u32, num: int, den: int) -> int {
    abs(magnitude(p) * den - num)
}

/// `r` is the step of the scale nearest to `num / den`: no step lies nearer,
/// and where another lies as near, `r` is the even one of the two.
pub open spec fn is_nearest(r: u32, num: int, den: int) -> bool {
    &&& r <= INFINITY
    &&& forall|p: u32| p <= INFINITY ==> distance(r, num, den) <= #[trigger] distance(p, num, den)
    &&& forall|p: u32|
        p <= INFINITY && p != r && #[trigger] distance(p, num, den) == distance(r, num, den) ==> r
            % 2 == 0
}

/// What the fields of a pattern are in terms of the pattern without its
/// sign.
pub proof fn lemma_unsigned(bits: u32)
    ensures
        unsigned(bits) < 0x8000_0000,
        exponent_field(bits) == unsigned(bits) / 0x80_0000,
        fraction_field(bits) == unsigned(bits) % 0x80_0000,
        exponent_field(unsigned(bits)) == exponent_field(bits),
        fraction_field(unsigned(bits)) == fraction_field(bits),
        magnitude(unsigned(bits)) == magnitude(bits),
        is_nan(bits) == (unsigned(bits) > INFINITY),
        is_infinite(bits) == (unsigned(bits) == INFINITY),
        is_zero(bits) == (unsigned(bits) == 0),
        bits == unsigned(bits) + if sign_bit(bits) {
            0x8000_0000int
        } else {
            0
        },
{
    let u = unsigned(bits);
    if bits >= 0x8000_0000 {
        assert(u == bits - 0x8000_0000);
        assert(bits / 0x80_0000 == u / 0x80_0000 + 256);
        assert(bits % 0x80_0000 == u % 0x80_0000);
    } else {
        assert(u == bits);
    }
    assert(u / 0x80_0000 < 256);
}

/// A pattern is identified by its sign and by what it is without the sign.
pub(crate) proof fn lemma_same_parts(r: u32, s: u32)
    requires
        sign_bit(r) == sign_bit(s),
        unsigned(r) == unsigned(s),
    ensures
        r == s,
{
}

/// Steps in their order have magnitudes in the same order.
pub(crate) proof fn lemma_steps_ordered(p: u32, q: u32, den: int)
    requires
        p <= q <= INFINITY,
        den > 0,
    ensures
        magnitude(p) * den <= magnitude(q) * den,
        p != q ==> magnitude(p) * den < magnitude(q) * den,
{
    if p < q {
        lemma_smaller_pattern_smaller_magnitude(p, q);
        assert(magnitude(p) * den < magnitude(q) * den) by (nonlinear_arith)
            requires
                magnitude(p) < magnitude(q),
                den > 0,
        ;
    }
}

/// The step that lies `q` units of `2^j` up the scale: its pattern is
/// `j * 2^23 + q`.
pub proof fn lemma_step_magnitude(j: nat, q: nat)
    requires
        j <= 253,
        q <= 0x100_0000,
        j >= 1 ==> q >= 0x80_0000,
    ensures
        j * 0x80_0000 + q <= INFINITY,
        magnitude((j * 0x80_0000 + q) as u32) == q * pow2(j),
{
    let p = (j * 0x80_0000 + q) as u32;
    lemma2_to64();
    if q < 0x80_0000 {
        assert(j == 0);
        lemma_fields(0, 0, q as u32);
    } else if q < 0x100_0000 {
        lemma_fields(0, (j + 1) as u32, (q - 0x80_0000) as u32);
    } else {
        lemma_fields(0, (j + 2) as u32, 0);
        lemma_pow2_unfold(j + 1);
        assert(0x80_0000 * (2 * pow2(j)) == 0x100_0000 * pow2(j)) by (nonlinear_arith);
    }
}

/// A step whose magnitude is the number itself is the nearest step.
pub(crate) proof fn lemma_nearest_exact(r: u32, num: int, den: int)
    requires
        r <= INFINITY,
        den > 0,
        magnitude(r) * den == num,
    ensures
        is_nearest(r, num, den),
{
    assert forall|p: u32| p <= INFINITY && p != r implies #[trigger] distance(p, num, den)
        > distance(r, num, den) by {
        if p < r {
            lemma_steps_ordered(p, r, den);
        } else {
            lemma_steps_ordered(r, p, den);
        }
    }
}

/// A step whose magnitude is a number is the nearest step to that number.
pub proof fn lemma_nearest_exact_step(r: u32, exact: int)
    requires
        r <= INFINITY,
        magnitude(r) == exact,
    ensures
        is_nearest(r, exact, 1),
{
    assert(magnitude(r) * 1 == exact);
    lemma_nearest_exact(r, exact, 1);
}

/// Where the number is at least the magnitude of infinity, infinity is the
/// nearest step.
pub(crate) proof fn lemma_nearest_top(num: int, den: int)
    requires
        den > 0,
        magnitude(INFINITY) * den <= num,
    ensures
        is_nearest(INFINITY, num, den),
{
    assert forall|p: u32| p <= INFINITY && p != INFINITY implies #[trigger] distance(p, num, den)
        > distance(INFINITY, num, den) by {
        lemma_steps_ordered(p, INFINITY, den);
    }
}

/// Where the number lies between two neighbouring steps, the nearer of the
/// two is the nearest step, and in a tie the even one.
pub(crate) proof fn lemma_nearest_between(lo: u32, num: int, den: int, upper: bool)
    requires
        lo < INFINITY,
        den > 0,
        magnitude(lo) * den <= num <= magnitude((lo + 1) as u32) * den,
        upper ==> magnitude((lo + 1) as u32) * den - num <= num - magnitude(lo) * den,
        upper && magnitude((lo + 1) as u32) * den - num == num - magnitude(lo) * den ==> lo % 2
            == 1,
        !upper ==> num - magnitude(lo) * den <= magnitude((lo + 1) as u32) * den - num,
        !upper && magnitude((lo + 1) as u32) * den - num == num - magnitude(lo) * den ==> lo % 2
            == 0,
    ensures
        is_nearest(
            if upper {
                (lo + 1) as u32
            } else {
                lo
            },
            num,
            den,
        ),
{
    let hi = (lo + 1) as u32;
    let r = if upper {
        hi
    } else {
        lo
    };
    let below = num - magnitude(lo) * den;
    let above = magnitude(hi) * den - num;
    assert(distance(lo, num, den) == below);
    assert(distance(hi, num, den) == above);
    assert forall|p: u32| p <= INFINITY implies distance(r, num, den) <= #[trigger] distance(
        p,
        num,
        den,
    ) && (p != r && distance(p, num, den) == distance(r, num, den) ==> r % 2 == 0) by {
        if p <= lo {
            lemma_steps_ordered(p, lo, den);
            assert(distance(p, num, den) >= below);
            assert(p != lo ==> distance(p, num, den) > below);
        } else {
            lemma_steps_ordered(hi, p, den);
            assert(distance(p, num, den) >= above);
            assert(p != hi ==> distance(p, num, den) > above);
        }
    }
}

/// A number has one nearest step only.
pub proof fn lemma_nearest_unique(r: u32, s: u32, num: int, den: int)
    requires
        den > 0,
        is_nearest(r, num, den),
        is_nearest(s, num, den),
    ensures
        r == s,
{
    if r != s {
        let lo = if r < s {
            r
        } else {
            s
        };
        let hi = if r < s {
            s
        } else {
            r
        };
        let far = distance(r, num, den);
        assert(distance(s, num, den) == far);
        assert(lo % 2 == 0 && hi % 2 == 0);
        let mid = (lo + 1) as u32;
        assert(lo < mid < hi);
        lemma_steps_ordered(lo, mid, den);
        lemma_steps_ordered(mid, hi, den);
        lemma_steps_ordered(lo, hi, den);
        assert(distance(lo, num, den) <= distance(mid, num, den));
        assert(distance(hi, num, den) <= distance(mid, num, den));
    }
}

/// The nearest step does not depend on the unit in which the number is
/// given.
pub(crate) proof fn lemma_nearest_rescaled(r: u32, num: int, den: int, k: int)
    requires
        k > 0,
        den > 0,
        is_nearest(r, num * k, den * k),
    ensures
        is_nearest(r, num, den),
{
    assert forall|p: u32| true implies #[trigger] distance(p, num * k, den * k) == k * distance(
        p,
        num,
        den,
    ) by {
        let m = magnitude(p) as int;
        assert(m * (den * k) - num * k == k * (m * den - num)) by (nonlinear_arith);
        assert(abs(k * (m * den - num)) == k * abs(m * den - num)) by (nonlinear_arith)
            requires
                k > 0,
        ;
    }
    assert forall|p: u32| p <= INFINITY implies distance(r, num, den) <= #[trigger] distance(
        p,
        num,
        den,
    ) && (p != r && distance(p, num, den) == distance(r, num, den) ==> r % 2 == 0) by {
        let dr = distance(r, num, den);
        let dp = distance(p, num, den);
        assert(distance(r, num * k, den * k) == k * dr);
        assert(distance(p, num * k, den * k) == k * dp);
        assert(k * dr <= k * dp ==> dr <= dp) by (nonlinear_arith)
            requires
                k > 0,
        ;
        assert(dp == dr ==> k * dp == k * dr);
    }
}

/// Below a step whose magnitude lies above a number there is a step whose
/// magnitude does not, next to one whose magnitude does.
pub(crate) proof fn lemma_step_below(num: int, den: int, top: u32) -> (lo: u32)
    requires
        den > 0,
        num >= 0,
        top <= INFINITY,
        magnitude(top) * den > num,
    ensures
        lo < top,
        magnitude(lo) * den <= num < magnitude((lo + 1) as u32) * den,
    decreases top,
{
    lemma_fields(0, 0, 0);
    assert(magnitude(0u32) * den == 0) by (nonlinear_arith)
        requires
            magnitude(0u32) == 0,
    ;
    let under = (top - 1) as u32;
    if magnitude(under) * den <= num {
        under
    } else {
        lemma_step_below(num, den, under)
    }
}

/// Every number of the scale has a nearest step.
pub proof fn lemma_nearest_exists(num: int, den: int)
    requires
        den > 0,
        num >= 0,
    ensures
        exists|p: u32| #[trigger] is_nearest(p, num, den),
{
    lemma_fields(0, 0, 0);
    assert(magnitude(0u32) * den == 0) by (nonlinear_arith)
        requires
            magnitude(0u32) == 0,
    ;
    if magnitude(INFINITY) * den <= num {
        lemma_nearest_top(num, den);
    } else {
        let lo = lemma_step_below(num, den, INFINITY);
        let below = num - magnitude(lo) * den;
        let above = magnitude((lo + 1) as u32) * den - num;
        let upper = above < below || (above == below && lo % 2 == 1);
        lemma_nearest_between(lo, num, den, upper);
    }
}

} // verus!

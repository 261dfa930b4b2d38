//! The square root of a sample.
use vstd::prelude::*;
use super::order::is_level;
use vstd::arithmetic::power2::{
    lemma2_to64, lemma_pow2_adds, lemma_pow2_pos, lemma_pow2_unfold, pow2,
};
use crate::sample::{
    SILENCE, is_nan, lemma_fields, lemma_smaller_pattern_smaller_magnitude, magnitude, sign_bit,
};
use super::rounding::{normalise, split, two_to};
use super::steps::{INFINITY, QUIET_NAN, is_zero, lemma_step_magnitude, lemma_unsigned};
use super::sum::{plus};

verus! {

/// Whether the magnitude `s` lies at least as near to the square root of
/// `x` as the magnitude `t` does.
pub open spec fn nearer_root(s: int, t: int, x: int) -> bool {
    if s > t {
        (s + t) * (s + t) <= 4 * x
    } else if s < t {
        (s + t) * (s + t) >= 4 * x
    } else {
        true
    }
}

/// `r` is the step of the scale nearest to the square root of `x`: no step
/// lies nearer, and where another lies as near, `r` is the even one of the
/// two.
pub open spec fn is_nearest_root(r: u32, x: int) -> bool {
    &&& r <= INFINITY
    &&& forall|p: u32|
        p <= INFINITY ==> nearer_root(magnitude(r) as int, #[trigger] magnitude(p) as int, x)
    &&& forall|p: u32|
        p <= INFINITY && p != r && nearer_root(#[trigger] magnitude(p) as int, magnitude(r) as int, x)
            ==> r % 2 == 0
}

/// `r` is the square root of `a`.
///
/// A NaN gives a NaN, and so does every number below zero: the NaN that
/// comes out is always [`QUIET_NAN`]. The zeros and plus infinity are their
/// own roots. The root of any other pattern is the nearest step to the
/// exact root.
pub open spec fn is_root(r: u32, a: u32) -> bool {
    if is_nan(a) {
        r == QUIET_NAN
    } else if is_zero(a) || a == INFINITY {
        r == a
    } else if sign_bit(a) {
        r == QUIET_NAN
    } else {
        r <= INFINITY && is_nearest_root(r, (magnitude(a) * pow2(149)) as int)
    }
}

/// The square root of a pattern.
pub open spec fn root(a: u32) -> u32 {
    choose|r: u32| is_root(r, a)
}

/// A pattern has one root only: [`root`] is it.
pub proof fn lemma_root_unique(r: u32, a: u32)
    requires
        is_root(r, a),
    ensures
        r == root(a),
{
    let s = root(a);
    assert(is_root(s, a));
    if !is_nan(a) && !is_zero(a) && a != INFINITY && !sign_bit(a) {
        lemma_nearest_root_unique(r, s, (magnitude(a) * pow2(149)) as int);
    }
}

/// The square root of a sample.
pub fn square_root(a: u32) -> (r: u32)
    ensures
        r == root(a),
        is_root(r, a),
{
    proof {
        lemma_unsigned(a);
    }
    let r = if a % 0x8000_0000 > INFINITY {
        QUIET_NAN
    } else if a % 0x8000_0000 == 0 || a == INFINITY {
        a
    } else if a >= 0x8000_0000 {
        QUIET_NAN
    } else {
        root_finite(a)
    };
    proof {
        lemma_root_unique(r, a);
    }
    r
}

/// The square root of a finite sample above zero.
pub(crate) fn root_finite(ua: u32) -> (p: u32)
    requires
        0 < ua < INFINITY,
    ensures
        p < INFINITY,
        is_nearest_root(p, (magnitude(ua) * pow2(149)) as int),
{
    let (m, x) = split(ua);
    proof {
        lemma_fields(0, 0, 0);
        lemma_smaller_pattern_smaller_magnitude(0, ua);
        lemma_pow2_pos(x as nat);
        assert(m > 0) by (nonlinear_arith)
            requires
                m * pow2(x as nat) > 0,
                m >= 0,
        ;
    }
    let (top, c) = normalise(m);
    let e1 = x + 149 - c;
    let s: u32 = if e1 % 2 == 1 {
        27
    } else {
        28
    };
    let h = (e1 - s) / 2;
    let scale = two_to(s);
    proof {
        lemma2_to64();
        assert((top as u64) * scale < 0x100_0000 * 0x1000_0000) by (nonlinear_arith)
            requires
                top < 0x100_0000,
                scale <= 0x1000_0000,
        ;
        assert((top as u64) * scale >= 0x80_0000 * 0x800_0000) by (nonlinear_arith)
            requires
                top >= 0x80_0000,
                scale >= 0x800_0000,
        ;
    }
    let n: u64 = (top as u64) * scale;
    let r0 = whole_root(n);
    proof {
        if r0 < 0x200_0000 {
            lemma_square_grows(r0 + 1, 0x200_0000);
        }
        assert(r0 >= 0x200_0000);
    }
    let q = r0 / 4;
    let c2 = 4 * q + 2;
    assert(c2 * c2 <= 0x400_0000 * 0x400_0000) by (nonlinear_arith)
        requires
            0 <= c2 <= 0x400_0000,
    ;
    let square = c2 * c2;
    let upper = square < n || (square == n && q % 2 == 1);
    let lo = (h + 2) * 0x80_0000 + (q as u32);
    proof {
        lemma_root_scaling(m as int, x as nat, top as int, c as nat, s as nat, h as nat, n as int);
        lemma_root_rounds(n as int, r0 as int, q as int, h as nat, upper);
    }
    if upper {
        lo + 1
    } else {
        lo
    }
}

/// The whole part of the square root of `n`.
pub(crate) fn whole_root(n: u64) -> (r: u64)
    requires
        n < 0x10_0000_0000_0000,
    ensures
        r * r <= n < (r + 1) * (r + 1),
        r < 0x400_0000,
{
    let mut r: u64 = 0;
    let mut bit: u32 = 26;
    proof {
        lemma2_to64();
    }
    while bit > 0
        invariant
            bit <= 26,
            n < 0x10_0000_0000_0000,
            r + pow2(bit as nat) <= 0x400_0000,
            r * r <= n < (r + pow2(bit as nat)) * (r + pow2(bit as nat)),
        decreases bit,
    {
        proof {
            lemma_pow2_unfold(bit as nat);
            lemma_pow2_pos((bit - 1) as nat);
        }
        bit = bit - 1;
        let step = two_to(bit);
        let trial = r + step;
        assert(trial * trial <= 0x400_0000 * 0x400_0000) by (nonlinear_arith)
            requires
                0 <= trial <= 0x400_0000,
        ;
        if trial * trial <= n {
            r = trial;
        }
    }
    proof {
        lemma2_to64();
    }
    r
}

/// Squares of magnitudes in their order.
pub(crate) proof fn lemma_square_grows(a: int, b: int)
    requires
        0 <= a <= b,
    ensures
        a * a <= b * b,
        a < b ==> a * a < b * b,
{
    assert(a * a <= b * b) by (nonlinear_arith)
        requires
            0 <= a <= b,
    ;
    assert(a < b ==> a * a < b * b) by (nonlinear_arith)
        requires
            0 <= a <= b,
    ;
}

/// How a square compares with a number once both are scaled by a square.
pub(crate) proof fn lemma_scaled_squares(c: int, n: int, unit: int)
    requires
        unit > 0,
    ensures
        c * c <= n ==> (c * c) * (unit * unit) <= n * (unit * unit),
        c * c >= n ==> (c * c) * (unit * unit) >= n * (unit * unit),
        c * c < n ==> (c * c) * (unit * unit) < n * (unit * unit),
        c * c > n ==> (c * c) * (unit * unit) > n * (unit * unit),
{
    let k = unit * unit;
    assert(k > 0) by (nonlinear_arith)
        requires
            k == unit * unit,
            unit > 0,
    ;
    let a = c * c;
    assert(a <= n ==> a * k <= n * k) by (nonlinear_arith)
        requires
            k > 0,
    ;
    assert(a >= n ==> a * k >= n * k) by (nonlinear_arith)
        requires
            k > 0,
    ;
    assert(a < n ==> a * k < n * k) by (nonlinear_arith)
        requires
            k > 0,
    ;
    assert(a > n ==> a * k > n * k) by (nonlinear_arith)
        requires
            k > 0,
    ;
}

/// A magnitude times `2^149` as a number of 52 binary digits times an
/// even power of two.
pub(crate) proof fn lemma_root_scaling(m: int, x: nat, top: int, c: nat, s: nat, h: nat, n: int)
    requires
        top == m * pow2(c),
        n == top * pow2(s),
        x + 149 == c + s + 2 * h,
    ensures
        (m * pow2(x)) * pow2(149) == n * (pow2(h) * pow2(h)),
{
    let unit = pow2(h) as int;
    lemma_pow2_adds(h, h);
    lemma_pow2_adds(s, 2 * h);
    lemma_pow2_adds(c, s + 2 * h);
    lemma_pow2_adds(x, 149);
    assert((m * pow2(x)) * pow2(149) == n * (unit * unit)) by (nonlinear_arith)
        requires
            pow2(x) * pow2(149) == pow2(c) * (pow2(s) * (unit * unit)),
            top == m * pow2(c),
            n == top * pow2(s),
    ;
}

/// The nearest step to the root of `n * 2^(2h)`, given the whole part of
/// the root of `n`.
pub(crate) proof fn lemma_root_rounds(n: int, r0: int, q: int, h: nat, upper: bool)
    requires
        r0 * r0 <= n < (r0 + 1) * (r0 + 1),
        0x200_0000 <= r0 < 0x400_0000,
        q == r0 / 4,
        h + 2 <= 253,
        upper == ((4 * q + 2) * (4 * q + 2) < n || ((4 * q + 2) * (4 * q + 2) == n && q % 2
            == 1)),
    ensures
        (h + 2) * 0x80_0000 + q < INFINITY,
        is_nearest_root(
            if upper {
                ((h + 2) * 0x80_0000 + q + 1) as u32
            } else {
                ((h + 2) * 0x80_0000 + q) as u32
            },
            n * (pow2(h) * pow2(h)),
        ),
{
    let j = h + 2;
    let unit = pow2(h) as int;
    let x_full = n * (unit * unit);
    let lo = (j * 0x80_0000 + q) as u32;
    let square = (4 * q + 2) * (4 * q + 2);
    lemma_pow2_pos(h);
    lemma_pow2_adds(2, h);
    lemma2_to64();
    lemma_step_magnitude(j, q as nat);
    lemma_step_magnitude(j, (q + 1) as nat);
    let below = magnitude(lo) as int;
    let above = magnitude((lo + 1) as u32) as int;
    assert(below == (4 * q) * unit && above == (4 * q + 4) * unit) by (nonlinear_arith)
        requires
            below == q * pow2(j),
            above == (q + 1) * pow2(j),
            pow2(j) == 4 * unit,
    ;
    lemma_square_grows(4 * q, r0);
    lemma_square_grows(r0 + 1, 4 * q + 4);
    lemma_scaled_squares(4 * q, n, unit);
    lemma_scaled_squares(4 * q + 4, n, unit);
    lemma_scaled_squares(4 * q + 2, n, unit);
    assert(below * below == ((4 * q) * (4 * q)) * (unit * unit)) by (nonlinear_arith)
        requires
            below == (4 * q) * unit,
    ;
    assert(above * above == ((4 * q + 4) * (4 * q + 4)) * (unit * unit)) by (nonlinear_arith)
        requires
            above == (4 * q + 4) * unit,
    ;
    let hsum = below + above;
    assert(hsum * hsum == 4 * (square * (unit * unit))) by (nonlinear_arith)
        requires
            hsum == (4 * q) * unit + (4 * q + 4) * unit,
            square == (4 * q + 2) * (4 * q + 2),
    ;
    lemma_nearest_root_between(lo, x_full, upper);
}

/// Where the root lies between two neighbouring steps, the nearer of the
/// two is the nearest step, and in a tie the even one.
pub(crate) proof fn lemma_nearest_root_between(lo: u32, x: int, upper: bool)
    requires
        lo < INFINITY,
        magnitude(lo) * magnitude(lo) <= x,
        x <= magnitude((lo + 1) as u32) * magnitude((lo + 1) as u32),
        ({
            let h = magnitude(lo) + magnitude((lo + 1) as u32);
            &&& upper ==> h * h <= 4 * x
            &&& upper && h * h == 4 * x ==> lo % 2 == 1
            &&& !upper ==> h * h >= 4 * x
            &&& !upper && h * h == 4 * x ==> lo % 2 == 0
        }),
    ensures
        is_nearest_root(
            if upper {
                (lo + 1) as u32
            } else {
                lo
            },
            x,
        ),
{
    let hi = (lo + 1) as u32;
    let r = if upper {
        hi
    } else {
        lo
    };
    let below = magnitude(lo) as int;
    let above = magnitude(hi) as int;
    let h = below + above;
    lemma_smaller_pattern_smaller_magnitude(lo, hi);
    assert forall|p: u32| p <= INFINITY implies nearer_root(
        magnitude(r) as int,
        #[trigger] magnitude(p) as int,
        x,
    ) && (p != r && nearer_root(magnitude(p) as int, magnitude(r) as int, x) ==> r % 2 == 0) by {
        let t = magnitude(p) as int;
        if p <= lo {
            if p < lo {
                lemma_smaller_pattern_smaller_magnitude(p, lo);
            }
            // t <= below, so t + s <= 2 * below or t + s <= h.
            lemma_square_grows(t + below, 2 * below);
            lemma_square_grows(t + above, h);
            assert((2 * below) * (2 * below) == 4 * (below * below)) by (nonlinear_arith);
        } else {
            if hi < p {
                lemma_smaller_pattern_smaller_magnitude(hi, p);
            }
            lemma_square_grows(2 * above, t + above);
            lemma_square_grows(h, t + below);
            assert((2 * above) * (2 * above) == 4 * (above * above)) by (nonlinear_arith);
        }
    }
}

/// A root has one nearest step only.
pub(crate) proof fn lemma_nearest_root_unique(r: u32, s: u32, x: int)
    requires
        is_nearest_root(r, x),
        is_nearest_root(s, x),
    ensures
        r == s,
{
    if r != s {
        let lo = if r < s {
            r
        } else {
            s
        };
        let hi = if r < s {
            s
        } else {
            r
        };
        assert(nearer_root(magnitude(r) as int, magnitude(s) as int, x));
        assert(nearer_root(magnitude(s) as int, magnitude(r) as int, x));
        assert(lo % 2 == 0 && hi % 2 == 0);
        let mid = (lo + 1) as u32;
        lemma_smaller_pattern_smaller_magnitude(lo, mid);
        lemma_smaller_pattern_smaller_magnitude(mid, hi);
        let a = magnitude(lo) as int;
        let m = magnitude(mid) as int;
        let b = magnitude(hi) as int;
        assert(nearer_root(a, m, x));
        assert(nearer_root(b, m, x));
        lemma_square_grows(a + m, m + b);
    }
}

/// The root of plus zero is plus zero.
pub proof fn lemma_root_of_zero()
    ensures
        root(SILENCE) == SILENCE,
{
    lemma_unsigned(0);
    assert(is_root(0, 0));
    lemma_root_unique(0, 0);
}

/// A root that is a root at all is a level.
pub proof fn lemma_root_is_level(r: u32, a: u32)
    requires
        is_root(r, a),
    ensures
        a != 0x8000_0000u32 ==> is_level(r),
{
    lemma_unsigned(QUIET_NAN);
    lemma_unsigned(a);
    lemma_unsigned(r);
}

} // verus!

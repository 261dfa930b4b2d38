//! Rounding to the nearest step: a number given as a ratio of whole numbers
//! and powers of two is brought to the step that lies nearest to it.
use vstd::prelude::*;
use vstd::arithmetic::power2::{
    lemma2_to64, lemma2_to64_rest, lemma_pow2_adds, lemma_pow2_pos, lemma_pow2_strictly_increases,
    lemma_pow2_unfold, pow2,
};
use crate::sample::{exponent_field, fraction_field, lemma_fields, magnitude};
use super::quotient::{quotient};
use super::steps::{
    INFINITY, is_nearest, lemma_nearest_between, lemma_nearest_exact, lemma_nearest_top,
    lemma_step_magnitude,
};

verus! {

/// Powers of two grow with their exponents.
pub(crate) proof fn lemma_pow2_grows(lo: nat, hi: nat)
    requires
        lo <= hi,
    ensures
        pow2(lo) <= pow2(hi),
        pow2(lo) >= 1,
{
    lemma_pow2_pos(lo);
    if lo < hi {
        lemma_pow2_strictly_increases(lo, hi);
    }
}

/// Two to the power `k`.
pub(crate) fn two_to(k: u32) -> (r: u64)
    requires
        k <= 63,
    ensures
        r == pow2(k as nat),
        r >= 1,
{
    let mut r: u64 = 1;
    let mut i: u32 = 0;
    proof {
        lemma2_to64();
    }
    while i < k
        invariant
            i <= k <= 63,
            r == pow2(i as nat),
            r >= 1,
        decreases k - i,
    {
        proof {
            lemma_pow2_unfold((i + 1) as nat);
            if i + 1 < 63 {
                lemma_pow2_strictly_increases((i + 1) as nat, 63);
            }
            lemma2_to64_rest();
        }
        r = r * 2;
        i = i + 1;
    }
    r
}

/// The number of binary digits of `n`.
pub(crate) fn bit_length(n: u64) -> (len: u32)
    requires
        0 < n < 0x4000_0000_0000_0000,
    ensures
        1 <= len <= 62,
        pow2((len - 1) as nat) <= n < pow2(len as nat),
{
    let mut len: u32 = 1;
    let mut bound: u64 = 2;
    proof {
        lemma2_to64();
    }
    while bound <= n
        invariant
            1 <= len <= 62,
            0 < n < 0x4000_0000_0000_0000,
            bound == pow2(len as nat),
            pow2((len - 1) as nat) <= n,
            len == 62 ==> bound > n,
        decreases 62 - len,
    {
        proof {
            lemma_pow2_unfold((len + 1) as nat);
            lemma2_to64_rest();
            if len + 1 < 62 {
                lemma_pow2_strictly_increases((len + 1) as nat, 62);
            }
        }
        bound = bound * 2;
        len = len + 1;
    }
    len
}

/// The significand of a finite pattern without a sign, and the power of
/// two that it counts: the magnitude is `significand * 2^power`.
pub(crate) fn split(bits: u32) -> (parts: (u32, u32))
    requires
        bits < INFINITY,
    ensures
        parts.0 < 0x100_0000,
        parts.1 <= 253,
        parts.1 >= 1 ==> parts.0 >= 0x80_0000,
        bits == parts.1 * 0x80_0000 + parts.0,
        magnitude(bits) == parts.0 * pow2(parts.1 as nat),
{
    let e = bits / 0x80_0000;
    let f = bits % 0x80_0000;
    proof {
        lemma2_to64();
        assert(e < 255);
        assert(exponent_field(bits) == e);
        assert(fraction_field(bits) == f);
        assert(f * pow2(0) == f) by (nonlinear_arith)
            requires
                pow2(0) == 1,
        ;
    }
    if e == 0 {
        (f, 0)
    } else {
        (0x80_0000 + f, e - 1)
    }
}

/// A significand brought up to 24 binary digits, and by how many digits it
/// was moved.
pub(crate) fn normalise(m: u32) -> (r: (u32, u32))
    requires
        0 < m < 0x100_0000,
    ensures
        0x80_0000 <= r.0 < 0x100_0000,
        r.1 <= 23,
        r.0 == m * pow2(r.1 as nat),
{
    let mut lifted = m;
    let mut by: u32 = 0;
    proof {
        lemma2_to64();
    }
    while lifted < 0x80_0000
        invariant
            0 < lifted < 0x100_0000,
            by <= 23,
            lifted == m * pow2(by as nat),
            pow2(by as nat) <= lifted,
        decreases 0x100_0000 - lifted,
    {
        proof {
            lemma_pow2_unfold((by + 1) as nat);
            if by >= 23 {
                lemma_pow2_grows(23, by as nat);
                lemma2_to64();
            }
            assert(2 * (m * pow2(by as nat)) == m * (2 * pow2(by as nat))) by (nonlinear_arith);
        }
        lifted = lifted * 2;
        by = by + 1;
    }
    (lifted, by)
}

/// What a division with remainder says of the distances to the two
/// multiples of `d * u` that `n * u` lies between.
pub(crate) proof fn lemma_remainder_distances(n: int, d: int, u: int)
    requires
        n >= 0,
        d > 0,
        u > 0,
    ensures
        0 <= n % d < d,
        (n / d) * (d * u) + (n % d) * u == n * u,
        ((n / d) + 1) * (d * u) - n * u == (d - n % d) * u,
        2 * (n % d) > d ==> (d - n % d) * u < (n % d) * u,
        2 * (n % d) == d ==> (d - n % d) * u == (n % d) * u,
        2 * (n % d) < d ==> (d - n % d) * u > (n % d) * u,
        (n % d) * u >= 0,
        (d - n % d) * u >= 0,
{
    let lo = n / d;
    let rem = n % d;
    vstd::arithmetic::div_mod::lemma_fundamental_div_mod(n, d);
    vstd::arithmetic::div_mod::lemma_mod_bound(n, d);
    assert(lo * (d * u) + rem * u == n * u) by (nonlinear_arith)
        requires
            n == d * lo + rem,
    ;
    assert((lo + 1) * (d * u) - n * u == (d - rem) * u) by (nonlinear_arith)
        requires
            n == d * lo + rem,
    ;
    assert(2 * rem > d ==> (d - rem) * u < rem * u) by (nonlinear_arith)
        requires
            u > 0,
    ;
    assert(2 * rem < d ==> (d - rem) * u > rem * u) by (nonlinear_arith)
        requires
            u > 0,
    ;
    assert(rem * u >= 0 && (d - rem) * u >= 0) by (nonlinear_arith)
        requires
            u > 0,
            0 <= rem < d,
    ;
}

/// The quotient of a number between two multiples of `d`.
pub(crate) proof fn lemma_quotient_bounds(n: int, d: int, low: int, high: int)
    requires
        d > 0,
        low * d <= n < high * d,
    ensures
        low <= n / d < high,
{
    vstd::arithmetic::div_mod::lemma_fundamental_div_mod(n, d);
    vstd::arithmetic::div_mod::lemma_mod_bound(n, d);
    let q = n / d;
    let r = n % d;
    assert(q < high) by (nonlinear_arith)
        requires
            d > 0,
            d * q + r < high * d,
            r >= 0,
    ;
    assert(q >= low) by (nonlinear_arith)
        requires
            d > 0,
            d * q + r >= low * d,
            r < d,
    ;
}

/// The binade of a number of `len` binary digits times `2^up / 2^down`:
/// zero for the binade of the smallest steps.
pub open spec fn binade(len: int, up: int, down: int) -> int {
    if len + up > down + 24 {
        len + up - down - 24
    } else {
        0
    }
}

/// A number beyond the scale has infinity as its nearest step.
pub(crate) proof fn lemma_ratio_overflows(n: int, rem: int, part: int, len: nat, up: nat, down: nat)
    requires
        pow2((len - 1) as nat) <= n,
        len >= 1,
        0 <= rem,
        0 < part,
        binade(len as int, up as int, down as int) >= 254,
    ensures
        is_nearest(INFINITY, (n * part + rem) * pow2(up), part * pow2(down)),
{
    let u = pow2(up) as int;
    let whole = n * part + rem;
    let num = whole * u;
    let den = part * pow2(down);
    lemma_pow2_pos(down);
    lemma_pow2_pos(up);
    lemma_pow2_adds((len - 1) as nat, up);
    lemma_pow2_grows(277 + down, (len - 1 + up) as nat);
    lemma_pow2_adds(277, down);
    lemma_fields(0, 255, 0);
    lemma_pow2_adds(23, 254);
    lemma2_to64();
    assert(magnitude(INFINITY) == pow2(277));
    assert(den > 0) by (nonlinear_arith)
        requires
            den == part * pow2(down),
            part > 0,
            pow2(down) > 0,
    ;
    assert(num >= (pow2(277) * pow2(down)) * part) by (nonlinear_arith)
        requires
            num == whole * u,
            whole >= n * part,
            n >= pow2((len - 1) as nat),
            pow2((len - 1) as nat) * u >= pow2(277) * pow2(down),
            part > 0,
            u > 0,
            n * part >= 0,
    ;
    assert(magnitude(INFINITY) * den == (pow2(277) * pow2(down)) * part) by (nonlinear_arith)
        requires
            magnitude(INFINITY) == pow2(277),
            den == part * pow2(down),
    ;
    lemma_nearest_top(num, den);
}

/// The step of a number that lies on the scale.
pub(crate) fn round_exact(n: u64, part: u64, len: u32, j: u32, up: u32, down: u32) -> (p: u32)
    requires
        1 <= len <= 62,
        pow2((len - 1) as nat) <= n < pow2(len as nat),
        0 < part <= 0x100_0000,
        up <= 1000,
        down <= 1000,
        j == binade(len as int, up as int, down as int),
        j <= 253,
        j + down <= up,
    ensures
        is_nearest(p, (n * part) * pow2(up as nat), part * pow2(down as nat)),
{
    let ghost u: int = pow2(up as nat) as int;
    let ghost num: int = (n * part) * u;
    let ghost den: int = part * pow2(down as nat);
    let k = up - down - j;
    proof {
        lemma_pow2_pos(down as nat);
        lemma2_to64();
        assert(den > 0) by (nonlinear_arith)
            requires
                den == part * pow2(down as nat),
                part > 0,
                pow2(down as nat) > 0,
        ;
        lemma_pow2_adds(len as nat, k as nat);
        lemma_pow2_grows((len + k) as nat, 24);
        if j >= 1 {
            lemma_pow2_adds((len - 1) as nat, k as nat);
        }
    }
    let scale = two_to(k);
    proof {
        assert(n * scale < pow2(len as nat) * scale) by (nonlinear_arith)
            requires
                n < pow2(len as nat),
                scale >= 1,
        ;
        if j >= 1 {
            assert(n * scale >= pow2((len - 1) as nat) * scale) by (nonlinear_arith)
                requires
                    n >= pow2((len - 1) as nat),
                    scale >= 1,
            ;
        }
    }
    let q = n * scale;
    let p = j * 0x80_0000 + (q as u32);
    proof {
        lemma_step_magnitude(j as nat, q as nat);
        lemma_pow2_adds(k as nat, j as nat);
        lemma_pow2_adds((k + j) as nat, down as nat);
        assert((q * pow2(j as nat)) * den == num) by (nonlinear_arith)
            requires
                q == n * scale,
                scale * pow2(j as nat) * pow2(down as nat) == u,
                den == part * pow2(down as nat),
                num == (n * part) * u,
        ;
        lemma_nearest_exact(p, num, den);
    }
    p
}

/// What is known of a number that lies between steps of the size `2^j`:
/// it is `whole / by` such steps up the scale.
pub(crate) proof fn lemma_between_steps(
    n: int,
    rem: int,
    part: int,
    len: nat,
    j: nat,
    up: nat,
    down: nat,
)
    requires
        1 <= len,
        pow2((len - 1) as nat) <= n < pow2(len),
        0 < part,
        0 <= rem < part,
        j == binade(len as int, up as int, down as int),
        j + down > up,
    ensures
        pow2((j + down - up) as nat) * part > 0,
        pow2(up) > 0,
        n * part + rem < 0x100_0000 * (pow2((j + down - up) as nat) * part),
        j >= 1 ==> n * part + rem >= 0x80_0000 * (pow2((j + down - up) as nat) * part),
        (pow2((j + down - up) as nat) * part) * pow2(up) == pow2(j) * (part * pow2(down)),
        part * pow2(down) > 0,
        n * part + rem >= 0,
{
    let sh = (j + down - up) as nat;
    let d = pow2(sh) as int;
    let dd = d * part;
    let u = pow2(up) as int;
    let whole = n * part + rem;
    lemma_pow2_adds(sh, up);
    lemma_pow2_adds(j, down);
    lemma_pow2_pos(sh);
    lemma_pow2_pos(j);
    lemma_pow2_pos(up);
    lemma_pow2_pos(down);
    lemma2_to64();
    assert(dd > 0) by (nonlinear_arith)
        requires
            dd == d * part,
            d > 0,
            part > 0,
    ;
    assert(part * pow2(down) > 0) by (nonlinear_arith)
        requires
            part > 0,
            pow2(down) > 0,
    ;
    assert(dd * u == pow2(j) * (part * pow2(down))) by (nonlinear_arith)
        requires
            dd == d * part,
            d * u == pow2(j) * pow2(down),
    ;
    assert(n * part <= whole < (n + 1) * part) by (nonlinear_arith)
        requires
            whole == n * part + rem,
            0 <= rem < part,
    ;
    assert(n * part >= 0) by (nonlinear_arith)
        requires
            n >= 0,
            part > 0,
    ;
    lemma_pow2_adds(24, sh);
    lemma_pow2_grows(len, 24 + sh);
    assert(whole < 0x100_0000 * dd) by (nonlinear_arith)
        requires
            whole < (n + 1) * part,
            n + 1 <= 0x100_0000 * d,
            dd == d * part,
            part > 0,
    ;
    if j >= 1 {
        lemma_pow2_adds(23, sh);
        assert(whole >= 0x80_0000 * dd) by (nonlinear_arith)
            requires
                whole >= n * part,
                n >= 0x80_0000 * d,
                dd == d * part,
                part > 0,
        ;
    }
}

/// A number below a quarter of the smallest step has zero as its nearest
/// step.
pub(crate) proof fn lemma_ratio_vanishes(n: int, rem: int, part: int, up: nat, down: nat)
    requires
        0 < n < 0x4000_0000_0000_0000,
        0 < part,
        0 <= rem < part,
        down >= up + 64,
    ensures
        is_nearest(0, (n * part + rem) * pow2(up), part * pow2(down)),
{
    let sh = (down - up) as nat;
    let d = pow2(sh) as int;
    let u = pow2(up) as int;
    let whole = n * part + rem;
    let num = whole * u;
    let den = part * pow2(down);
    lemma_pow2_adds(sh, up);
    lemma_pow2_pos(up);
    lemma_pow2_grows(64, sh);
    lemma2_to64();
    lemma_fields(0, 0, 0);
    lemma_fields(0, 0, 1);
    assert(magnitude(0u32) == 0);
    assert(magnitude(1u32) == 1);
    assert(2 * num < den && num >= 0 && den > 0) by (nonlinear_arith)
        requires
            num == whole * u,
            den == part * (d * u),
            whole == n * part + rem,
            0 <= rem < part,
            0 < n,
            2 * (n + 1) <= d,
            part > 0,
            u > 0,
    ;
    assert(magnitude(0u32) * den == 0) by (nonlinear_arith)
        requires
            magnitude(0u32) == 0,
    ;
    assert(magnitude(1u32) * den == den) by (nonlinear_arith)
        requires
            magnitude(1u32) == 1,
    ;
    lemma_nearest_between(0, num, den, false);
}

/// The nearest step to a number that lies between steps.
pub(crate) fn round_inexact(n: u64, rem: u64, part: u64, len: u32, j: u32, up: u32, down: u32) -> (p: u32)
    requires
        1 <= len <= 62,
        pow2((len - 1) as nat) <= n < pow2(len as nat),
        0 < n < 0x4000_0000_0000_0000,
        0 < part <= 0x100_0000,
        rem < part,
        up <= 1000,
        down <= 1000,
        j == binade(len as int, up as int, down as int),
        j <= 253,
        j + down > up,
    ensures
        is_nearest(p, (n * part + rem) * pow2(up as nat), part * pow2(down as nat)),
{
    let sh = j + down - up;
    if sh >= 64 {
        proof {
            assert(j == 0);
            lemma_ratio_vanishes(n as int, rem as int, part as int, up as nat, down as nat);
        }
        return 0;
    }
    let ghost u: int = pow2(up as nat) as int;
    let ghost whole: int = n * part + rem;
    let ghost num: int = whole * u;
    let ghost den: int = part * pow2(down as nat);
    let ghost dd: int = pow2(sh as nat) * part;
    let ghost w: int = dd * u;
    let divisor = two_to(sh);
    proof {
        lemma_between_steps(
            n as int,
            rem as int,
            part as int,
            len as nat,
            j as nat,
            up as nat,
            down as nat,
        );
        lemma_pow2_grows(sh as nat, 63);
        lemma2_to64_rest();
        assert((n as u128) * (part as u128) + (rem as u128) < 0x4000_0000_0000_0000 * 0x100_0000
            + 0x100_0000) by (nonlinear_arith)
            requires
                n < 0x4000_0000_0000_0000,
                part <= 0x100_0000,
                rem < 0x100_0000,
        ;
        assert((divisor as u128) * (part as u128) <= 0x8000_0000_0000_0000 * 0x100_0000)
            by (nonlinear_arith)
            requires
                divisor <= 0x8000_0000_0000_0000,
                part <= 0x100_0000,
        ;
    }
    let total: u128 = (n as u128) * (part as u128) + (rem as u128);
    let by: u128 = (divisor as u128) * (part as u128);
    let lo = total / by;
    let left = total % by;
    let upper = 2 * left > by || (2 * left == by && lo % 2 == 1);
    proof {
        assert(total == whole);
        assert(by == dd);
        lemma_quotient_bounds(
            whole,
            dd,
            if j >= 1 {
                0x80_0000
            } else {
                0
            },
            0x100_0000,
        );
        lemma_remainder_distances(whole, dd, u);
        lemma_step_magnitude(j as nat, lo as nat);
        lemma_step_magnitude(j as nat, (lo + 1) as nat);
        let p_lo = (j * 0x80_0000 + lo) as u32;
        assert(magnitude(p_lo) * den == lo * w) by (nonlinear_arith)
            requires
                magnitude(p_lo) == lo * pow2(j as nat),
                w == pow2(j as nat) * den,
        ;
        assert(magnitude((p_lo + 1) as u32) * den == (lo + 1) * w) by (nonlinear_arith)
            requires
                magnitude((p_lo + 1) as u32) == (lo + 1) * pow2(j as nat),
                w == pow2(j as nat) * den,
        ;
        lemma_nearest_between(p_lo, num, den, upper);
    }
    if upper {
        j * 0x80_0000 + (lo as u32) + 1
    } else {
        j * 0x80_0000 + (lo as u32)
    }
}

/// The nearest step to `(n + rem / part) * 2^up / 2^down`.
pub(crate) fn round_ratio(n: u64, rem: u64, part: u64, up: u32, down: u32) -> (p: u32)
    requires
        0 < n < 0x4000_0000_0000_0000,
        0 < part <= 0x100_0000,
        rem < part,
        rem > 0 ==> n >= 0x200_0000,
        up <= 1000,
        down <= 1000,
    ensures
        is_nearest(p, (n * part + rem) * pow2(up as nat), part * pow2(down as nat)),
{
    let len = bit_length(n);
    let j: u32 = if len + up > down + 24 {
        len + up - down - 24
    } else {
        0
    };
    if j >= 254 {
        proof {
            lemma_ratio_overflows(
                n as int,
                rem as int,
                part as int,
                len as nat,
                up as nat,
                down as nat,
            );
        }
        return INFINITY;
    }
    if j + down <= up {
        proof {
            lemma2_to64();
            if rem > 0 && len < 26 {
                lemma_pow2_grows(len as nat, 25);
            }
            assert(rem == 0);
        }
        return round_exact(n, part, len, j, up, down);
    }
    round_inexact(n, rem, part, len, j, up, down)
}

/// The nearest step to `n * 2^up / 2^down`.
pub(crate) fn round_scaled(n: u64, up: u32, down: u32) -> (p: u32)
    requires
        0 < n < 0x4000_0000_0000_0000,
        up <= 1000,
        down <= 1000,
    ensures
        is_nearest(p, n * pow2(up as nat), pow2(down as nat) as int),
{
    let p = round_ratio(n, 0, 1, up, down);
    proof {
        assert((n * 1 + 0) * pow2(up as nat) == n * pow2(up as nat)) by (nonlinear_arith);
        assert(1 * pow2(down as nat) == pow2(down as nat));
    }
    p
}

} // verus!

//! Samples as 32-bit IEEE-754 patterns, and the conversion of integer PCM
//! into them.
//!
//! A finite pattern denotes `± magnitude / 2^149`, where the magnitude is an
//! integer: the spec functions here speak of that integer, so that every
//! statement about a sample's value is exact.
use vstd::prelude::*;
use vstd::arithmetic::power2::{
    lemma2_to64,
    lemma_pow2_adds,
    lemma_pow2_pos,
    lemma_pow2_strictly_increases,
    lemma_pow2_unfold,
    pow2,
};

verus! {

/// The pattern of `+0.0`: what an idle output slot holds.
pub const SILENCE: u32 = 0;

/// The pattern of `1.0`.
pub const UNITY: u32 = 0x3F80_0000;

/// The sign bit of a pattern.
pub open spec fn sign_bit(bits: u32) -> bool {
    bits >= 0x8000_0000
}

/// The biased exponent of a pattern, `0..=255`.
pub open spec fn exponent_field(bits: u32) -> nat {
    ((bits / 0x80_0000) % 256) as nat
}

/// The 23 fraction bits of a pattern.
pub open spec fn fraction_field(bits: u32) -> nat {
    (bits % 0x80_0000) as nat
}

/// True of zeros, subnormal and normal numbers; false of infinities and NaNs.
pub open spec fn is_finite(bits: u32) -> bool {
    exponent_field(bits) < 255
}

/// True of every NaN pattern.
pub open spec fn is_nan(bits: u32) -> bool {
    exponent_field(bits) == 255 && fraction_field(bits) != 0
}

/// The absolute value that a finite pattern denotes, times `2^149`.
///
/// The formula gives every other pattern a magnitude too: that of plus
/// infinity is `2^277`, the next step after the largest finite magnitude.
pub open spec fn magnitude(bits: u32) -> nat {
    if exponent_field(bits) == 0 {
        fraction_field(bits)
    } else {
        (0x80_0000 + fraction_field(bits)) * pow2((exponent_field(bits) - 1) as nat)
    }
}

/// `bits` is the finite pattern with the given sign whose absolute value is
/// `mag / 2^149`. There is at most one such pattern
/// ([`lemma_denotes_unique`]).
pub open spec fn denotes(bits: u32, negative: bool, mag: int) -> bool {
    &&& is_finite(bits)
    &&& sign_bit(bits) == negative
    &&& magnitude(bits) == mag
}

/// The absolute value of an integer.
pub open spec fn abs(x: int) -> int {
    if x < 0 {
        -x
    } else {
        x
    }
}

/// The fields of a pattern assembled from its parts.
pub proof fn lemma_fields(sign: u32, e: u32, f: u32)
    requires
        sign == 0 || sign == 0x8000_0000,
        e < 256,
        f < 0x80_0000,
    ensures
        sign + e * 0x80_0000 + f <= u32::MAX,
        sign_bit((sign + e * 0x80_0000 + f) as u32) == (sign != 0),
        exponent_field((sign + e * 0x80_0000 + f) as u32) == e,
        fraction_field((sign + e * 0x80_0000 + f) as u32) == f,
{
}

/// The pattern of `± m / 2^shift`, for a magnitude of at most 24 bits, which
/// a pattern holds exactly.
pub fn pcm_sample(negative: bool, m: u32, shift: u32) -> (bits: u32)
    requires
        m <= 0x100_0000,
        shift <= 126,
    ensures
        denotes(bits, negative, m * pow2((149 - shift) as nat)),
        m == 0 && !negative ==> bits == SILENCE,
{
    let sign: u32 = if negative {
        0x8000_0000
    } else {
        0
    };
    if m == 0 {
        proof {
            lemma_fields(sign, 0, 0);
        }
        return sign;
    }
    let ghost target = m * pow2((149 - shift) as nat);
    let start: u32 = 150 - shift;
    let mut mant: u32 = m;
    let mut e: u32 = start;
    if mant == 0x100_0000 {
        mant = 0x80_0000;
        e = e + 1;
        proof {
            lemma_pow2_unfold((e - 1) as nat);
            assert(mant * pow2((e - 1) as nat) == target) by (nonlinear_arith)
                requires
                    mant == 0x80_0000,
                    m == 0x100_0000,
                    pow2((e - 1) as nat) == 2 * pow2((149 - shift) as nat),
                    target == m * pow2((149 - shift) as nat),
            ;
        }
    }
    proof {
        lemma2_to64();
    }
    while mant < 0x80_0000
        invariant
            0 < mant < 0x100_0000,
            24 <= start <= 150,
            1 <= e <= start + 1,
            mant < 0x80_0000 ==> e <= start,
            e <= start ==> pow2((start - e) as nat) <= mant,
            mant * pow2((e - 1) as nat) == target,
        decreases e,
    {
        proof {
            lemma2_to64();
            if start - e > 23 {
                lemma_pow2_strictly_increases(23, (start - e) as nat);
            }
            assert(start - e < 23);
            lemma_pow2_unfold((e - 1) as nat);
            lemma_pow2_unfold((start - e + 1) as nat);
            assert((2 * mant) * pow2((e - 2) as nat) == mant * pow2((e - 1) as nat))
                by (nonlinear_arith)
                requires
                    pow2((e - 1) as nat) == 2 * pow2((e - 2) as nat),
            ;
        }
        mant = mant * 2;
        e = e - 1;
    }
    proof {
        lemma_fields(sign, e, (mant - 0x80_0000) as u32);
    }
    sign + e * 0x80_0000 + (mant - 0x80_0000)
}

/// The pattern of `x / 32768`: a 16-bit signed sample on the scale `[-1, 1)`.
pub fn from_i16(x: i16) -> (bits: u32)
    ensures
        denotes(bits, x < 0, abs(x as int) * pow2(134)),
        x == 0 ==> bits == SILENCE,
{
    let v: i32 = x as i32;
    let m: u32 = if v < 0 {
        (-v) as u32
    } else {
        v as u32
    };
    pcm_sample(v < 0, m, 15)
}

/// The pattern of `(x - 128) / 128`: an 8-bit unsigned sample on the scale
/// `[-1, 1)`.
pub fn from_u8(x: u8) -> (bits: u32)
    ensures
        denotes(bits, x < 128, abs(x - 128) * pow2(142)),
        x == 128 ==> bits == SILENCE,
{
    let v: i32 = x as i32 - 128;
    let m: u32 = if v < 0 {
        (-v) as u32
    } else {
        v as u32
    };
    pcm_sample(v < 0, m, 7)
}

/// The power of two in whose multiples a magnitude of up to 32 bits is held
/// once it is cut to 24 significant bits.
pub open spec fn rounding_unit(m: int) -> int {
    if m < 0x100_0000 {
        1
    } else if m < 0x200_0000 {
        2
    } else if m < 0x400_0000 {
        4
    } else if m < 0x800_0000 {
        8
    } else if m < 0x1000_0000 {
        16
    } else if m < 0x2000_0000 {
        32
    } else if m < 0x4000_0000 {
        64
    } else if m < 0x8000_0000 {
        128
    } else {
        256
    }
}

/// `m / unit` rounded to the nearest integer, a tie going to the even one.
pub open spec fn round_half_even(m: int, unit: int) -> int
    recommends
        unit > 0,
{
    let q = m / unit;
    let r = m % unit;
    if 2 * r < unit || (2 * r == unit && q % 2 == 0) {
        q
    } else {
        q + 1
    }
}

/// The magnitude `m` rounded to 24 significant bits, ties to even.
pub open spec fn rounded_to_24_bits(m: int) -> int {
    round_half_even(m, rounding_unit(m)) * rounding_unit(m)
}

/// The rounding unit of `m` and its binary logarithm.
fn unit_of(m: u32) -> (r: (u32, u32))
    ensures
        r.0 == rounding_unit(m as int),
        r.0 == pow2(r.1 as nat),
        r.1 <= 8,
{
    proof {
        lemma2_to64();
    }
    if m < 0x100_0000 {
        (1, 0)
    } else if m < 0x200_0000 {
        (2, 1)
    } else if m < 0x400_0000 {
        (4, 2)
    } else if m < 0x800_0000 {
        (8, 3)
    } else if m < 0x1000_0000 {
        (16, 4)
    } else if m < 0x2000_0000 {
        (32, 5)
    } else if m < 0x4000_0000 {
        (64, 6)
    } else if m < 0x8000_0000 {
        (128, 7)
    } else {
        (256, 8)
    }
}

/// The pattern nearest to `x / 2^31`, a tie going to the pattern with an even
/// fraction: a 32-bit signed sample on the scale `[-1, 1)`.
pub fn from_i32(x: i32) -> (bits: u32)
    ensures
        denotes(bits, x < 0, rounded_to_24_bits(abs(x as int)) * pow2(118)),
        x == 0 ==> bits == SILENCE,
{
    let v: i64 = x as i64;
    let m: u32 = if v < 0 {
        (-v) as u32
    } else {
        v as u32
    };
    let (unit, k) = unit_of(m);
    let q: u32 = m / unit;
    let r: u32 = m % unit;
    assert(q < 0x100_0000) by (nonlinear_arith)
        requires
            q == m / unit,
            unit > 0,
            m < 0x100_0000 * unit,
    ;
    let units: u32 = if 2 * r < unit || (2 * r == unit && q % 2 == 0) {
        q
    } else {
        q + 1
    };
    let bits = pcm_sample(v < 0, units, 31 - k);
    proof {
        lemma_pow2_adds(k as nat, 118);
        assert(units * pow2((118 + k) as nat) == units * unit * pow2(118)) by (nonlinear_arith)
            requires
                pow2((118 + k) as nat) == unit * pow2(118),
        ;
    }
    bits
}

/// Lower and upper bound of a pattern's magnitude, by its exponent.
pub proof fn lemma_magnitude_range(bits: u32)
    ensures
        exponent_field(bits) == 0 ==> magnitude(bits) < 0x80_0000,
        exponent_field(bits) > 0 ==> 0x80_0000 * pow2((exponent_field(bits) - 1) as nat)
            <= magnitude(bits) < 0x80_0000 * pow2(exponent_field(bits)),
{
    let e = exponent_field(bits);
    let f = fraction_field(bits);
    if e > 0 {
        let p = pow2((e - 1) as nat);
        lemma_pow2_unfold(e);
        lemma_pow2_pos((e - 1) as nat);
        assert(0x80_0000 * p <= (0x80_0000 + f) * p < 0x80_0000 * (2 * p)) by (nonlinear_arith)
            requires
                0 <= f < 0x80_0000,
                p > 0,
        ;
    }
}

/// A sign and a magnitude belong to at most one finite pattern: a contract
/// that states [`denotes`] of a result states the result.
pub proof fn lemma_denotes_unique(a: u32, b: u32, negative: bool, mag: int)
    requires
        denotes(a, negative, mag),
        denotes(b, negative, mag),
    ensures
        a == b,
{
    let ea = exponent_field(a);
    let eb = exponent_field(b);
    lemma_magnitude_range(a);
    lemma_magnitude_range(b);
    if ea < eb {
        lemma_exponent_orders(ea, eb);
    }
    if eb < ea {
        lemma_exponent_orders(eb, ea);
    }
    assert(ea == eb);
    if ea > 0 {
        let p = pow2((ea - 1) as nat);
        lemma_pow2_pos((ea - 1) as nat);
        assert(fraction_field(a) == fraction_field(b)) by (nonlinear_arith)
            requires
                (0x80_0000 + fraction_field(a)) * p == (0x80_0000 + fraction_field(b)) * p,
                p > 0,
        ;
    }
    assert(a == b) by {
        assert(a % 0x80_0000 == b % 0x80_0000);
        assert((a / 0x80_0000) % 256 == (b / 0x80_0000) % 256);
        assert((a >= 0x8000_0000) == (b >= 0x8000_0000));
    }
}

/// Magnitudes of a smaller exponent lie below those of a larger one.
proof fn lemma_exponent_orders(lo: nat, hi: nat)
    requires
        lo < hi,
    ensures
        lo == 0 ==> 0x80_0000 <= 0x80_0000 * pow2((hi - 1) as nat),
        lo > 0 ==> 0x80_0000 * pow2(lo) <= 0x80_0000 * pow2((hi - 1) as nat),
{
    lemma_pow2_pos((hi - 1) as nat);
    if lo > 0 && lo < hi - 1 {
        lemma_pow2_strictly_increases(lo, (hi - 1) as nat);
    }
}

/// Among patterns without a sign, a smaller pattern has a smaller
/// magnitude.
pub proof fn lemma_smaller_pattern_smaller_magnitude(a: u32, b: u32)
    requires
        !sign_bit(a),
        !sign_bit(b),
        a < b,
    ensures
        magnitude(a) < magnitude(b),
{
    let ea = exponent_field(a);
    let eb = exponent_field(b);
    assert(ea == a / 0x80_0000);
    assert(eb == b / 0x80_0000);
    assert(ea <= eb);
    lemma_magnitude_range(a);
    lemma_magnitude_range(b);
    if ea < eb {
        lemma_exponent_orders(ea, eb);
    } else if ea > 0 {
        let p = pow2((ea - 1) as nat);
        lemma_pow2_pos((ea - 1) as nat);
        assert((0x80_0000 + fraction_field(a)) * p < (0x80_0000 + fraction_field(b)) * p)
            by (nonlinear_arith)
            requires
                fraction_field(a) < fraction_field(b),
                p > 0,
        ;
    }
}

/// Among finite patterns without a sign, the order of the patterns is the
/// order of the numbers they denote.
pub proof fn lemma_pattern_order(a: u32, b: u32)
    requires
        is_finite(a),
        is_finite(b),
        !sign_bit(a),
        !sign_bit(b),
    ensures
        a < b <==> magnitude(a) < magnitude(b),
{
    if a < b {
        lemma_smaller_pattern_smaller_magnitude(a, b);
    } else if b < a {
        lemma_smaller_pattern_smaller_magnitude(b, a);
    }
}

/// The number that [`UNITY`] denotes is one: its magnitude is `2^149`.
pub proof fn lemma_unity_is_one()
    ensures
        denotes(UNITY, false, pow2(149) as int),
{
    lemma_fields(0, 127, 0);
    lemma_pow2_adds(23, 126);
    lemma2_to64();
}

/// True of the patterns that denote a number below zero, minus infinity
/// among them. Minus zero is not below zero.
pub open spec fn is_below_zero(bits: u32) -> bool {
    !is_nan(bits) && bits > 0x8000_0000
}

/// True of the patterns that denote a number above one, plus infinity among
/// them: among patterns without a sign, those above [`UNITY`]
/// ([`lemma_pattern_order`]).
pub open spec fn is_above_one(bits: u32) -> bool {
    !is_nan(bits) && UNITY < bits < 0x8000_0000
}

/// True of the patterns that denote a number from zero to one, both zeros
/// among them. No NaN is in the range.
pub open spec fn is_in_unit_range(bits: u32) -> bool {
    bits <= UNITY || bits == 0x8000_0000
}

/// `bits` brought into the range from zero to one: a number below zero
/// becomes zero, a number above one becomes one, and a NaN, which is no
/// number, becomes zero. Every other pattern stays as it is.
pub open spec fn clamped_to_unit(bits: u32) -> u32 {
    if is_nan(bits) || is_below_zero(bits) {
        SILENCE
    } else if is_above_one(bits) {
        UNITY
    } else {
        bits
    }
}

/// Brings a pattern into the range from zero to one.
pub fn clamp_unit(bits: u32) -> (clamped: u32)
    ensures
        clamped == clamped_to_unit(bits),
        is_in_unit_range(clamped),
{
    let magnitude_bits = bits % 0x8000_0000;
    let nan = magnitude_bits > 0x7F80_0000;
    assert(nan == is_nan(bits));
    if nan {
        SILENCE
    } else if bits > 0x8000_0000 {
        SILENCE
    } else if bits < 0x8000_0000 && bits > UNITY {
        UNITY
    } else {
        bits
    }
}

/// A pattern of the range from zero to one denotes a number that is not
/// below zero and not above one.
pub proof fn lemma_unit_range(bits: u32)
    requires
        is_in_unit_range(bits),
    ensures
        !is_nan(bits),
        is_finite(bits),
        magnitude(bits) <= pow2(149),
        sign_bit(bits) ==> magnitude(bits) == 0,
{
    lemma_unity_is_one();
    lemma_fields(0x8000_0000, 0, 0);
    if bits < UNITY {
        lemma_smaller_pattern_smaller_magnitude(bits, UNITY);
    }
}

} // verus!

//! Whole numbers as samples, and the whole part of a sample.
use vstd::prelude::*;
use vstd::arithmetic::power2::{
    lemma2_to64, lemma2_to64_rest, lemma_pow2_adds, lemma_pow2_pos, pow2,
};
use crate::sample::{is_nan, lemma_fields, magnitude, sign_bit};
use super::rounding::{lemma_pow2_grows, round_ratio, round_scaled, split, two_to};
use super::steps::{
    INFINITY, is_nearest, lemma_nearest_exact_step, lemma_nearest_rescaled, lemma_nearest_unique,
    lemma_unsigned,
};

verus! {

/// The pattern of the whole number `n`: the nearest step to it.
pub open spec fn whole_number(n: int) -> u32 {
    choose|r: u32| #[trigger] is_nearest(r, n * pow2(149), 1)
}

/// The pattern of a whole number.
pub fn from_whole(n: u64) -> (r: u32)
    ensures
        r == whole_number(n as int),
        is_nearest(r, n * pow2(149), 1),
        r <= INFINITY,
{
    proof {
        lemma2_to64();
    }
    let r = if n == 0 {
        proof {
            lemma_fields(0, 0, 0);
            assert(n * pow2(149) == 0) by (nonlinear_arith)
                requires
                    n == 0,
            ;
            lemma_nearest_exact_step(0, 0);
        }
        0
    } else if n < 0x4000_0000_0000_0000 {
        round_scaled(n, 149, 0)
    } else {
        let p = round_ratio(n / 4, n % 4, 4, 151, 0);
        proof {
            lemma_pow2_adds(2, 149);
            assert(((n / 4) * 4 + n % 4) * pow2(151) == (n * pow2(149)) * 4) by (nonlinear_arith)
                requires
                    (n / 4) * 4 + n % 4 == n,
                    pow2(151) == 4 * pow2(149),
            ;
            assert(4 * pow2(0) == 1 * 4);
            lemma_nearest_rescaled(p, n * pow2(149), 1, 4);
        }
        p
    };
    proof {
        let s = whole_number(n as int);
        assert(is_nearest(r, n * pow2(149), 1));
        lemma_nearest_unique(r, s, n * pow2(149), 1);
    }
    r
}

/// The whole part of the number that a pattern denotes: what is left of it
/// when the digits after the point are cut off. The whole part of a NaN and
/// of every number below zero is zero.
pub open spec fn whole_part(bits: u32) -> int {
    if is_nan(bits) || sign_bit(bits) {
        0
    } else {
        magnitude(bits) as int / pow2(149) as int
    }
}

/// The whole part of a number, but `limit` at most.
pub fn whole_part_up_to(bits: u32, limit: u64) -> (whole: u64)
    ensures
        whole == if whole_part(bits) <= limit {
            whole_part(bits)
        } else {
            limit as int
        },
{
    proof {
        lemma_unsigned(bits);
        lemma_pow2_pos(149);
        lemma2_to64();
    }
    if bits >= 0x8000_0000 || bits > INFINITY {
        return 0;
    }
    if bits == INFINITY {
        proof {
            lemma_fields(0, 255, 0);
            lemma_pow2_adds(23, 254);
            lemma_pow2_adds(128, 149);
            lemma_pow2_grows(64, 128);
            vstd::arithmetic::div_mod::lemma_div_multiples_vanish(
                pow2(128) as int,
                pow2(149) as int,
            );
            assert(pow2(128) * pow2(149) == pow2(149) * pow2(128)) by (nonlinear_arith);
        }
        return limit;
    }
    let (m, x) = split(bits);
    let ghost den = pow2(149) as int;
    if x >= 149 {
        let up = x - 149;
        proof {
            lemma_pow2_adds(up as nat, 149);
            assert(magnitude(bits) == (m * pow2(up as nat)) * den) by (nonlinear_arith)
                requires
                    magnitude(bits) == m * pow2(x as nat),
                    pow2(x as nat) == pow2(up as nat) * den,
            ;
            assert(m * pow2(up as nat) >= 0) by (nonlinear_arith)
                requires
                    m >= 0,
                    pow2(up as nat) >= 0,
            ;
            vstd::arithmetic::div_mod::lemma_div_multiples_vanish(
                (m * pow2(up as nat)) as int,
                den,
            );
            assert((m * pow2(up as nat)) * den == den * (m * pow2(up as nat)))
                by (nonlinear_arith);
        }
        if up > 40 {
            proof {
                lemma_pow2_grows(41, up as nat);
                assert(m * pow2(up as nat) >= 0x80_0000 * pow2(41)) by (nonlinear_arith)
                    requires
                        m >= 0x80_0000,
                        pow2(up as nat) >= pow2(41),
                ;
                lemma2_to64_rest();
            }
            return limit;
        }
        let scale = two_to(up);
        proof {
            lemma_pow2_grows(up as nat, 40);
            lemma2_to64_rest();
            assert((m as u64) * scale < 0x100_0000 * 0x100_0000_0000) by (nonlinear_arith)
                requires
                    0 <= m < 0x100_0000,
                    0 < scale <= 0x100_0000_0000,
            ;
        }
        let whole = (m as u64) * scale;
        if whole <= limit {
            whole
        } else {
            limit
        }
    } else {
        let down = 149 - x;
        proof {
            lemma_pow2_adds(down as nat, x as nat);
            lemma_pow2_pos(x as nat);
            lemma_pow2_pos(down as nat);
            lemma_part_of_part(m as int, pow2(down as nat) as int, pow2(x as nat) as int);
            assert(magnitude(bits) as int / den == m as int / pow2(down as nat) as int);
        }
        if down >= 24 {
            proof {
                lemma_pow2_grows(24, down as nat);
                vstd::arithmetic::div_mod::lemma_basic_div(m as int, pow2(down as nat) as int);
            }
            return 0;
        }
        let divisor = two_to(down);
        let whole = (m as u64) / divisor;
        if whole <= limit {
            whole
        } else {
            limit
        }
    }
}

/// A common factor of a number and what it is divided by can be left out.
pub(crate) proof fn lemma_part_of_part(m: int, d: int, k: int)
    requires
        m >= 0,
        d > 0,
        k > 0,
    ensures
        (m * k) / (d * k) == m / d,
{
    vstd::arithmetic::div_mod::lemma_fundamental_div_mod(m, d);
    vstd::arithmetic::div_mod::lemma_mod_bound(m, d);
    let q = m / d;
    let r = m % d;
    assert(m * k == q * (d * k) + r * k) by (nonlinear_arith)
        requires
            m == d * q + r,
    ;
    assert(0 <= r * k < d * k) by (nonlinear_arith)
        requires
            0 <= r < d,
            k > 0,
    ;
    assert(d * k > 0) by (nonlinear_arith)
        requires
            d > 0,
            k > 0,
    ;
    vstd::arithmetic::div_mod::lemma_fundamental_div_mod_converse(m * k, d * k, q, r * k);
}

} // verus!

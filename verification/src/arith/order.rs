//! The order of the numbers that samples denote.
use vstd::prelude::*;
use crate::sample::{is_nan, sign_bit};
use super::steps::{INFINITY, lemma_unsigned, unsigned};

verus! {

/// The place of a pattern in the order of the numbers: patterns with a
/// sign count downwards. Both zeros have the place zero.
pub open spec fn place(bits: u32) -> int {
    if sign_bit(bits) {
        -(unsigned(bits) as int)
    } else {
        unsigned(bits) as int
    }
}

/// Whether the first number is at least the second. False where one of
/// them is a NaN.
pub open spec fn at_least(a: u32, b: u32) -> bool {
    !is_nan(a) && !is_nan(b) && place(a) >= place(b)
}

/// The smaller of two numbers. A NaN gives way to the other; of two equal
/// numbers the first is taken.
pub open spec fn lesser_of(a: u32, b: u32) -> u32 {
    if is_nan(a) {
        b
    } else if is_nan(b) {
        a
    } else if place(b) < place(a) {
        b
    } else {
        a
    }
}

/// The larger of two numbers. A NaN gives way to the other; of two equal
/// numbers the first is taken.
pub open spec fn greater_of(a: u32, b: u32) -> u32 {
    if is_nan(a) {
        b
    } else if is_nan(b) {
        a
    } else if place(b) > place(a) {
        b
    } else {
        a
    }
}

/// Whether the first number is smaller than the second. False where one of
/// them is a NaN.
pub fn is_below(a: u32, b: u32) -> (below: bool)
    ensures
        below == (!is_nan(a) && !is_nan(b) && place(a) < place(b)),
{
    let ua = a % 0x8000_0000;
    let ub = b % 0x8000_0000;
    proof {
        lemma_unsigned(a);
        lemma_unsigned(b);
    }
    if ua > INFINITY || ub > INFINITY {
        false
    } else if a >= 0x8000_0000 {
        if b >= 0x8000_0000 {
            ua > ub
        } else {
            ua > 0 || ub > 0
        }
    } else {
        if b >= 0x8000_0000 {
            false
        } else {
            ua < ub
        }
    }
}

/// Whether the first number is at least the second.
pub fn is_at_least(a: u32, b: u32) -> (holds: bool)
    ensures
        holds == at_least(a, b),
{
    proof {
        lemma_unsigned(a);
        lemma_unsigned(b);
    }
    if a % 0x8000_0000 > INFINITY || b % 0x8000_0000 > INFINITY {
        false
    } else {
        !is_below(a, b)
    }
}

/// The smaller of two numbers.
pub fn lesser(a: u32, b: u32) -> (r: u32)
    ensures
        r == lesser_of(a, b),
{
    proof {
        lemma_unsigned(a);
        lemma_unsigned(b);
    }
    if a % 0x8000_0000 > INFINITY {
        b
    } else if is_below(b, a) {
        b
    } else {
        a
    }
}

/// The larger of two numbers.
pub fn greater(a: u32, b: u32) -> (r: u32)
    ensures
        r == greater_of(a, b),
{
    proof {
        lemma_unsigned(a);
        lemma_unsigned(b);
    }
    if a % 0x8000_0000 > INFINITY {
        b
    } else if is_below(a, b) {
        b
    } else {
        a
    }
}

/// True of a NaN and of every pattern without a sign. Squares are such
/// patterns, and so are the sums, products, quotients and roots of such
/// patterns: a level that is built from them is never below zero.
pub open spec fn is_level(bits: u32) -> bool {
    is_nan(bits) || !sign_bit(bits)
}

/// The lesser of a level and one is a number from zero to one.
pub proof fn lemma_level_up_to_one(level: u32)
    requires
        is_level(level),
    ensures
        lesser_of(level, crate::sample::UNITY) <= crate::sample::UNITY,
        crate::sample::is_in_unit_range(lesser_of(level, crate::sample::UNITY)),
{
    lemma_unsigned(level);
    lemma_unsigned(crate::sample::UNITY);
}

} // verus!

//! Text and colours that the screen shows beside the bars.
use vstd::prelude::*;
use vstd::string::StringExecFns;
use crate::arith::{
    divide,
    from_whole,
    minus,
    multiply,
    negated,
    plus,
    product,
    quotient,
    sum,
    whole_number,
    whole_part,
    whole_part_up_to,
};
use crate::sample::SILENCE;

verus! {

/// The page on which the composer can be supported.
pub const SUPPORT_URL: &'static str = "https://www.scottbuckley.com.au/library/donate/";

/// The pattern of `100.0`.
pub const HUNDRED: u32 = 0x42C8_0000;

/// The pattern of `255.0`: the brightest a colour can be.
pub const BRIGHTEST: u32 = 0x437F_0000;

/// The pattern of `135.0`: how much green the bottom row has lost.
pub const GREEN_FALL: u32 = 0x4307_0000;

/// The pattern of `115.0`: how much blue the bottom row has lost.
pub const BLUE_FALL: u32 = 0x42E6_0000;

/// `text` as a link to `url` that terminals with support for links make
/// clickable: the text between the escape sequence that opens the link and
/// the one that closes it.
pub fn hyperlink(url: &str, text: &str) -> (link: String)
    ensures
        link@ == "\x1b]8;;"@ + url@ + "\x1b\\"@ + text@ + "\x1b]8;;\x1b\\"@,
{
    String::from_str("\x1b]8;;").concat(url).concat("\x1b\\").concat(text).concat(
        "\x1b]8;;\x1b\\",
    )
}

/// A whole number, but `limit` at most.
pub open spec fn up_to(whole: int, limit: int) -> int {
    if whole <= limit {
        whole
    } else {
        limit
    }
}

/// A level in hundredths, with what follows the point cut off: the number
/// that is shown before the percent sign.
pub open spec fn percent_of(level: u32) -> int {
    up_to(whole_part(product(level, HUNDRED)), u32::MAX as int)
}

/// A level in hundredths.
pub fn percent(level: u32) -> (hundredths: u32)
    ensures
        hundredths == percent_of(level),
{
    whole_part_up_to(multiply(level, HUNDRED), 0xFFFF_FFFF) as u32
}

/// How far down row `row` of `height` rows lies: zero for the top row. A
/// field without rows counts as one row.
pub open spec fn depth_of(row: int, height: int) -> u32 {
    quotient(
        whole_number(row),
        whole_number(
            if height < 1 {
                1
            } else {
                height
            },
        ),
    )
}

/// One part of a colour, from a number: what follows the point is cut off,
/// and the part is 255 at most.
pub open spec fn colour_part(value: u32) -> int {
    up_to(whole_part(value), 255)
}

/// The colour of row `row` of `height` rows: from cyan at the top towards a
/// muted blue-grey at the bottom. Red rises by a hundred, green falls by
/// 135 and blue by 115 over the whole depth.
pub open spec fn gradient_of(row: int, height: int) -> (int, int, int) {
    let depth = depth_of(row, height);
    (
        colour_part(sum(SILENCE, product(depth, HUNDRED))),
        colour_part(sum(BRIGHTEST, negated(product(depth, GREEN_FALL)))),
        colour_part(sum(BRIGHTEST, negated(product(depth, BLUE_FALL)))),
    )
}

/// The colour of a row of the bars, as red, green and blue.
pub fn gradient(row: usize, height: usize) -> (colour: (u8, u8, u8))
    ensures
        (colour.0 as int, colour.1 as int, colour.2 as int) == gradient_of(
            row as int,
            height as int,
        ),
{
    let rows: usize = if height < 1 {
        1
    } else {
        height
    };
    let depth = divide(from_whole(row as u64), from_whole(rows as u64));
    let red = whole_part_up_to(plus(SILENCE, multiply(depth, HUNDRED)), 255);
    let green = whole_part_up_to(minus(BRIGHTEST, multiply(depth, GREEN_FALL)), 255);
    let blue = whole_part_up_to(minus(BRIGHTEST, multiply(depth, BLUE_FALL)), 255);
    (red as u8, green as u8, blue as u8)
}

} // verus!

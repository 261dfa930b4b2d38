//! The bar display of the band levels.
use vstd::prelude::*;
use vstd::string::StringExecFns;
use crate::arith::{
    at_least,
    divide,
    from_whole,
    is_at_least,
    minus,
    multiply,
    negated,
    plus,
    product,
    quotient,
    sum,
    whole_number,
    whole_part,
    whole_part_up_to,
};
use crate::sample::UNITY;

verus! {

/// Blank columns to the left of the bars.
pub const LEFT_PADDING: usize = 6;

/// The pattern of `8.0`: the steps of height inside one row. A bar ends in
/// a block of one to seven eighths, or between two rows.
pub const STEPS_PER_ROW: u32 = 0x4100_0000;

/// The bar display. It keeps no state between frames.
pub struct Visualizer {
    _placeholder: (),
}

/// The block that is `eighths` eighths of a row high.
pub open spec fn block_char(eighths: int) -> char {
    if eighths <= 0 {
        ' '
    } else if eighths == 1 {
        '▁'
    } else if eighths == 2 {
        '▂'
    } else if eighths == 3 {
        '▃'
    } else if eighths == 4 {
        '▄'
    } else if eighths == 5 {
        '▅'
    } else if eighths == 6 {
        '▆'
    } else if eighths == 7 {
        '▇'
    } else {
        '█'
    }
}

/// The level that a bar has to reach to fill row `row` of `height` rows,
/// the top row being row zero: one less the part of the rows that lie
/// above the row.
pub open spec fn row_threshold(row: int, height: int) -> u32 {
    sum(UNITY, negated(quotient(whole_number(row), whole_number(height))))
}

/// The part of the levels that one of `height` rows stands for.
pub open spec fn row_share(height: int) -> u32 {
    quotient(UNITY, whole_number(height))
}

/// The character of a bar of level `level` at row `row` of `height` rows: a
/// full block where the bar reaches the threshold of the row, a part of a
/// block where it ends inside the row, and a blank above it.
pub open spec fn cell_char(level: u32, row: int, height: int) -> char {
    let threshold = row_threshold(row, height);
    let share = row_share(height);
    if at_least(level, threshold) {
        block_char(8)
    } else if at_least(level, sum(threshold, negated(share))) {
        let inside = sum(sum(level, negated(threshold)), share);
        let eighths = whole_part(product(product(inside, whole_number(height)), STEPS_PER_ROW));
        block_char(eighths)
    } else {
        ' '
    }
}

/// The width of each bar when `bars` bars with one blank between neighbours
/// share `width` columns: an equal share, but one column at least and two at
/// most.
pub open spec fn bar_width(bars: int, width: int) -> int {
    let room = if width > bars - 1 {
        width - (bars - 1)
    } else {
        0
    };
    if room / bars < 1 {
        1
    } else if room / bars > 2 {
        2
    } else {
        room / bars
    }
}

/// The first `upto` bars of a row: each bar as wide as `each`, and a blank
/// after every bar but the last of the row.
pub open spec fn bars_text(levels: Seq<u32>, upto: int, each: int, row: int, height: int) -> Seq<
    char,
>
    decreases upto,
{
    if upto <= 0 {
        Seq::<char>::empty()
    } else {
        let bar = Seq::new(each as nat, |i: int| cell_char(levels[upto - 1], row, height));
        let gap = if upto < levels.len() {
            seq![' ']
        } else {
            Seq::<char>::empty()
        };
        bars_text(levels, upto - 1, each, row, height) + bar + gap
    }
}

/// A row of the display: the padding, then the bars.
pub open spec fn row_text(levels: Seq<u32>, width: int, row: int, height: int) -> Seq<char> {
    Seq::new(LEFT_PADDING as nat, |i: int| ' ') + bars_text(
        levels,
        levels.len() as int,
        bar_width(levels.len() as int, width),
        row,
        height,
    )
}

/// The text of one cell of a bar, given the threshold of its row and the
/// share of a row.
fn cell_text(level: u32, threshold: u32, share: u32, rows: u32) -> (text: &'static str)
    ensures
        text@ == seq![
            if at_least(level, threshold) {
                block_char(8)
            } else if at_least(level, sum(threshold, negated(share))) {
                block_char(
                    whole_part(
                        product(
                            product(sum(sum(level, negated(threshold)), share), rows),
                            STEPS_PER_ROW,
                        ),
                    ),
                )
            } else {
                ' '
            },
        ],
{
    proof {
        reveal_strlit(" ");
        reveal_strlit("▁");
        reveal_strlit("▂");
        reveal_strlit("▃");
        reveal_strlit("▄");
        reveal_strlit("▅");
        reveal_strlit("▆");
        reveal_strlit("▇");
        reveal_strlit("█");
    }
    if is_at_least(level, threshold) {
        "█"
    } else if is_at_least(level, minus(threshold, share)) {
        let inside = plus(minus(level, threshold), share);
        let eighths = whole_part_up_to(multiply(multiply(inside, rows), STEPS_PER_ROW), 8);
        if eighths == 0 {
            " "
        } else if eighths == 1 {
            "▁"
        } else if eighths == 2 {
            "▂"
        } else if eighths == 3 {
            "▃"
        } else if eighths == 4 {
            "▄"
        } else if eighths == 5 {
            "▅"
        } else if eighths == 6 {
            "▆"
        } else if eighths == 7 {
            "▇"
        } else {
            "█"
        }
    } else {
        " "
    }
}

impl Visualizer {
    /// A bar display.
    pub fn new() -> (v: Visualizer) {
        Visualizer { _placeholder: () }
    }

    /// Takes the levels of a frame. The bars keep nothing of it.
    pub fn update(&mut self, _rms: u32, _bands: &[u32])
        ensures
            *final(self) == *old(self),
    {
    }

    /// Draws the bars: one row of text for each of `height` rows, top row
    /// first. `bands` holds the level of each bar, from zero to one.
    pub fn render_sized(&self, _rms: u32, bands: &[u32], width: usize, height: usize) -> (lines:
        Vec<String>)
        requires
            bands@.len() > 0,
        ensures
            lines@.len() == height,
            forall|row: int|
                0 <= row < height ==> (#[trigger] lines@[row])@ == row_text(
                    bands@,
                    width as int,
                    row,
                    height as int,
                ),
    {
        let bars = bands.len();
        let room = if width > bars - 1 {
            width - (bars - 1)
        } else {
            0
        };
        let share_of_room = room / bars;
        let each: usize = if share_of_room < 1 {
            1
        } else if share_of_room > 2 {
            2
        } else {
            share_of_room
        };
        assert(each == bar_width(bars as int, width as int));
        let rows = from_whole(height as u64);
        let share = divide(UNITY, rows);
        let mut lines: Vec<String> = Vec::new();
        let mut row: usize = 0;
        while row < height
            invariant
                row <= height,
                bars == bands@.len(),
                bars > 0,
                1 <= each <= 2,
                each == bar_width(bars as int, width as int),
                rows == whole_number(height as int),
                share == row_share(height as int),
                lines@.len() == row,
                forall|r: int|
                    0 <= r < row ==> (#[trigger] lines@[r])@ == row_text(
                        bands@,
                        width as int,
                        r,
                        height as int,
                    ),
            decreases height - row,
        {
            proof {
                reveal_strlit("      ");
                reveal_strlit(" ");
            }
            let threshold = minus(UNITY, divide(from_whole(row as u64), rows));
            let mut text = String::from_str("      ");
            assert(text@ =~= Seq::new(LEFT_PADDING as nat, |i: int| ' '));
            let ghost padding = text@;
            let mut bar: usize = 0;
            while bar < bars
                invariant
                    bar <= bars,
                    bars == bands@.len(),
                    row < height,
                    1 <= each <= 2,
                    rows == whole_number(height as int),
                    share == row_share(height as int),
                    threshold == row_threshold(row as int, height as int),
                    " "@ == seq![' '],
                    text@ == padding + bars_text(
                        bands@,
                        bar as int,
                        each as int,
                        row as int,
                        height as int,
                    ),
                decreases bars - bar,
            {
                let cell = cell_text(bands[bar], threshold, share, rows);
                let ghost before = text@;
                text.append(cell);
                if each == 2 {
                    text.append(cell);
                }
                if bar + 1 < bars {
                    text.append(" ");
                }
                proof {
                    let ch = cell_char(bands@[bar as int], row as int, height as int);
                    assert(cell@ == seq![ch]);
                    let wide = Seq::new(each as nat, |i: int| ch);
                    if each == 2 {
                        assert(wide =~= seq![ch] + seq![ch]);
                    } else {
                        assert(wide =~= seq![ch]);
                    }
                    let gap = if bar + 1 < bars {
                        seq![' ']
                    } else {
                        Seq::<char>::empty()
                    };
                    assert(text@ =~= before + wide + gap);
                    assert(bars_text(
                        bands@,
                        bar + 1,
                        each as int,
                        row as int,
                        height as int,
                    ) =~= bars_text(bands@, bar as int, each as int, row as int, height as int)
                        + wide + gap);
                    assert(text@ =~= padding + bars_text(
                        bands@,
                        bar + 1,
                        each as int,
                        row as int,
                        height as int,
                    ));
                }
                bar = bar + 1;
            }
            lines.push(text);
            row = row + 1;
        }
        lines
    }
}

impl Default for Visualizer {
    /// A bar display.
    fn default() -> (v: Visualizer) {
        Visualizer::new()
    }
}

} // verus!

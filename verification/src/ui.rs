//! The layout of the display: where the beat bar puts its marks, in which
//! column a text starts, which rows are used, and which characters of a help
//! line are shown in bold. Drawing itself is left to the caller.

use vstd::prelude::*;
use vstd::arithmetic::div_mod::*;
use vstd::arithmetic::mul::*;
use unicode_width::UnicodeWidthStr;
use crate::scheduler::TickEvent;
use crate::text::{decimal_string, decimal_text};

verus! {

/// The number of terminal columns that a text takes up, as the crate
/// `unicode-width` counts them outside an East Asian context.
pub uninterp spec fn display_width(text: Seq<char>) -> nat;

/// Calls `UnicodeWidthStr::width` of the crate `unicode-width`, which adds
/// up the columns of a string from its characters by the rules of Unicode
/// Standard Annex 11. The result is taken to depend on the characters of the
/// string alone; nothing more is claimed of it.
#[verifier::external_body]
fn text_width(text: &str) -> (columns: usize)
    ensures
        columns == display_width(text@),
{
    UnicodeWidthStr::width(text)
}

/// A width as a column count of the terminal, which counts in sixteen bits:
/// widths beyond that wrap round.
pub open spec fn wrapped_columns(width: nat) -> u16 {
    (width % 65536) as u16
}

pub fn columns_of_width(width: usize) -> (columns: u16)
    ensures
        columns == wrapped_columns(width as nat),
{
    (width % 65536) as u16
}

/// The width of a text as a column count of the terminal.
pub open spec fn text_columns_of(text: Seq<char>) -> u16 {
    wrapped_columns(display_width(text))
}

pub fn text_columns(text: &str) -> (columns: u16)
    ensures
        columns == text_columns_of(text@),
{
    columns_of_width(text_width(text))
}

/// The column at which a text of `columns` columns starts when it is set
/// flush with the right edge of a row of `width` columns: the leftmost column
/// where it does not fit, and none in a row without columns.
pub open spec fn flush_right(width: u16, columns: u16) -> Option<u16> {
    if width == 0 {
        None
    } else if width >= columns {
        Some((width - columns) as u16)
    } else {
        Some(0u16)
    }
}

pub fn flush_right_column(width: u16, columns: u16) -> (column: Option<u16>)
    ensures
        column == flush_right(width, columns),
{
    if width == 0 {
        None
    } else if width >= columns {
        Some(width - columns)
    } else {
        Some(0)
    }
}

/// The column at which the status text starts: flush with the right edge.
pub fn hud_column(width: u16, text: &str) -> (column: Option<u16>)
    ensures
        column == flush_right(width, text_columns_of(text@)),
{
    flush_right_column(width, text_columns(text))
}

/// The column at which a text of `columns` columns starts when it is centred
/// in a row of `width` columns: the leftmost column where it does not fit.
pub open spec fn centered(width: u16, columns: u16) -> u16 {
    if width > columns {
        ((width - columns) / 2) as u16
    } else {
        0
    }
}

pub fn centered_start(width: u16, columns: u16) -> (column: u16)
    ensures
        column == centered(width, columns),
{
    if width > columns {
        (width - columns) / 2
    } else {
        0
    }
}

/// The column at which a centred text starts.
pub fn centered_column(width: u16, text: &str) -> (column: u16)
    ensures
        column == centered(width, text_columns_of(text@)),
{
    centered_start(width, text_columns(text))
}

/// The first and the last row of the beat bar on a screen of `height` rows:
/// from the third row to the fourth from the bottom, and one row at least.
pub fn bar_rows(height: u16) -> (rows: (u16, u16))
    ensures
        rows.0 == 2,
        rows.1 == if height >= 5 {
            height - 3
        } else {
            2
        },
{
    if height >= 5 {
        (2, height - 3)
    } else {
        (2, 2)
    }
}

/// The row of the help line: the last row of the screen.
pub fn help_row(height: u16) -> (row: u16)
    ensures
        row == if height >= 1 {
            height - 1
        } else {
            0
        },
{
    if height >= 1 {
        height - 1
    } else {
        0
    }
}

/// The first row of the help box: the fifth from the bottom, where the help
/// is to be shown and the screen has more than four rows.
pub fn help_box_top(height: u16, show_help: bool) -> (top: Option<u16>)
    ensures
        top == if show_help && height > 4 {
            Some((height - 5) as u16)
        } else {
            None
        },
{
    if show_help && height > 4 {
        Some(height - 5)
    } else {
        None
    }
}

/// The column at which the short help on the right starts when it takes
/// `columns` columns: it is shown flush right, and only where the row is more
/// than two columns wider than the text.
pub open spec fn right_help_start(width: u16, columns: u16) -> Option<u16> {
    if width > columns + 2 {
        Some((width - columns) as u16)
    } else {
        None
    }
}

pub fn right_help_start_column(width: u16, columns: u16) -> (column: Option<u16>)
    ensures
        column == right_help_start(width, columns),
{
    if width as u32 > columns as u32 + 2 {
        Some(width - columns)
    } else {
        None
    }
}

/// The column at which the short help on the right starts, if it is shown.
pub fn right_help_column(width: u16, text: &str) -> (column: Option<u16>)
    ensures
        column == right_help_start(width, text_columns_of(text@)),
{
    right_help_start_column(width, text_columns(text))
}

/// How many characters of a help line of `length` characters and `columns`
/// columns are shown in a row of `width` columns: all of them where the line
/// is narrower than the row, else one fewer than the row has columns, as far
/// as the line has that many.
pub open spec fn help_shown(length: nat, columns: u16, width: u16) -> nat {
    if columns >= width {
        if width == 0 {
            0
        } else if length < width - 1 {
            length
        } else {
            (width - 1) as nat
        }
    } else {
        length
    }
}

pub fn help_shown_count(length: usize, columns: u16, width: u16) -> (shown: usize)
    ensures
        shown == help_shown(length as nat, columns, width),
        shown <= length,
{
    if columns >= width {
        if width == 0 {
            0
        } else if length < (width - 1) as usize {
            length
        } else {
            (width - 1) as usize
        }
    } else {
        length
    }
}

/// The part of the help line on the left that is shown in a row of `width`
/// columns.
pub fn help_visible<'a>(text: &'a str, width: u16) -> (shown: &'a str)
    ensures
        shown@ == text@.take(help_shown(text@.len(), text_columns_of(text@), width) as int),
{
    let keep: usize = help_shown_count(text.unicode_len(), text_columns(text), width);
    text.substring_char(0, keep)
}

/// Whether the dot of the current tick is shown as accented: on an accented
/// tick that is the first tick of the first beat.
pub fn dot_accented(accent: bool, beat_in_bar: u8, tick_in_beat: u8) -> (shown: bool)
    ensures
        shown == (accent && tick_in_beat == 0 && beat_in_bar == 1),
{
    accent && tick_in_beat == 0 && beat_in_bar == 1
}

/// Where the tap screen puts its lines: the title one row above the middle
/// row, the tap count on the middle row, the marks one row below it, and the
/// light of a tap on that same row in the middle column.
#[derive(Copy, Clone, Debug, PartialEq, Eq, Structural)]
pub struct TapLayout {
    pub title_row: u16,
    pub info_row: u16,
    pub progress_row: u16,
    pub flash_row: u16,
    pub flash_column: u16,
}

/// The layout of the tap screen on a terminal of `width` columns and `height`
/// rows. A screen of fewer than two rows has no row above its middle row.
pub fn tap_layout(width: u16, height: u16) -> (layout: TapLayout)
    requires
        height >= 2,
    ensures
        layout == (TapLayout {
            title_row: (height / 2 - 1) as u16,
            info_row: height / 2,
            progress_row: (height / 2 + 1) as u16,
            flash_row: (height / 2 + 1) as u16,
            flash_column: width / 2,
        }),
{
    let middle: u16 = height / 2;
    TapLayout {
        title_row: middle - 1,
        info_row: middle,
        progress_row: middle + 1,
        flash_row: middle + 1,
        flash_column: width / 2,
    }
}

/// Whether a help text stands inside a key token after its last character:
/// a `<` opens a token, a `>` closes it.
pub open spec fn in_token_after(text: Seq<char>) -> bool
    decreases text.len(),
{
    if text.len() == 0 {
        false
    } else if text.last() == '<' {
        true
    } else if text.last() == '>' {
        false
    } else {
        in_token_after(text.drop_last())
    }
}

/// Whether the character at `i` of a help text is shown in bold: the `<`
/// that opens a key token, what stands in it, and the `>` that closes it.
pub open spec fn bold_at(text: Seq<char>, i: int) -> bool {
    text[i] == '<' || in_token_after(text.take(i))
}

/// For every character of a help text, whether it is shown in bold.
pub fn token_styles(text: &str) -> (bold: Vec<bool>)
    ensures
        bold@.len() == text@.len(),
        forall|i: int| 0 <= i < text@.len() ==> bold@[i] == bold_at(text@, i),
{
    let n: usize = text.unicode_len();
    let mut bold: Vec<bool> = Vec::new();
    let mut in_token: bool = false;
    let mut i: usize = 0;
    while i < n
        invariant
            n == text@.len(),
            i <= n,
            bold@.len() == i,
            in_token == in_token_after(text@.take(i as int)),
            forall|j: int| 0 <= j < i ==> bold@[j] == bold_at(text@, j),
        decreases n - i,
    {
        let c: char = text.get_char(i);
        proof {
            let next = text@.take(i + 1);
            assert(next.last() == c);
            assert(next.drop_last() == text@.take(i as int));
        }
        if c == '<' {
            bold.push(true);
            in_token = true;
        } else if c == '>' {
            bold.push(in_token);
            in_token = false;
        } else {
            bold.push(in_token);
        }
        i += 1;
    }
    bold
}

/// The column of tick number `t` out of `total` in a row of `width` columns:
/// its share of the row, rounded down, and the last column at most.
pub open spec fn column_of(t: int, total: int, width: int) -> int {
    let c = (t * width) / total;
    if c > width - 1 {
        width - 1
    } else {
        c
    }
}

/// The column of the mark that stands before beat `b`, beats counted from
/// zero; the mark behind the last beat stands in the last column.
pub open spec fn marker_column(b: int, numerator: int, ticks_per_beat: int, width: int) -> int {
    column_of(b * ticks_per_beat, numerator * ticks_per_beat, width)
}

/// One of the first `b` beat marks stands in column `i`.
pub open spec fn marked_before(i: int, b: int, numerator: int, ticks_per_beat: int, width: int)
    -> bool {
    exists|k: int| 0 <= k < b && #[trigger] marker_column(k, numerator, ticks_per_beat, width) == i
}

/// What stands in column `i` of the beat bar: a dot where the current tick
/// is; else a stroke where a beat begins or the bar ends; else, between two
/// strokes, `=` inside the current beat and `-` inside any other.
pub open spec fn bar_cell(
    i: int,
    width: int,
    numerator: int,
    ticks_per_beat: int,
    beat_in_bar: int,
    tick_in_beat: int,
) -> char {
    if i == column_of(
        (beat_in_bar - 1) * ticks_per_beat + tick_in_beat,
        numerator * ticks_per_beat,
        width,
    ) {
        '\u{25cf}'
    } else if marked_before(i, numerator + 1, numerator, ticks_per_beat, width) {
        '|'
    } else if marker_column(beat_in_bar - 1, numerator, ticks_per_beat, width) < i < marker_column(
        beat_in_bar,
        numerator,
        ticks_per_beat,
        width,
    ) {
        '='
    } else {
        '-'
    }
}

proof fn lemma_column_ordered(t1: int, t2: int, total: int, width: int)
    requires
        0 <= t1 <= t2,
        0 < total,
        1 <= width,
    ensures
        0 <= column_of(t1, total, width) <= column_of(t2, total, width) < width,
{
    lemma_mul_inequality(t1, t2, width);
    lemma_mul_nonnegative(t1, width);
    lemma_div_is_ordered(t1 * width, t2 * width, total);
    lemma_div_pos_is_pos(t1 * width, total);
}

proof fn lemma_marker_ordered(b1: int, b2: int, numerator: int, ticks_per_beat: int, width: int)
    requires
        0 <= b1 <= b2,
        1 <= numerator,
        1 <= ticks_per_beat,
        1 <= width,
    ensures
        0 <= marker_column(b1, numerator, ticks_per_beat, width) <= marker_column(
            b2,
            numerator,
            ticks_per_beat,
            width,
        ) < width,
{
    lemma_mul_inequality(b1, b2, ticks_per_beat);
    lemma_mul_nonnegative(b1, ticks_per_beat);
    lemma_mul_strictly_positive(numerator, ticks_per_beat);
    lemma_column_ordered(b1 * ticks_per_beat, b2 * ticks_per_beat, numerator * ticks_per_beat, width);
}

proof fn lemma_marker_ends(numerator: int, ticks_per_beat: int, width: int)
    requires
        1 <= numerator,
        1 <= ticks_per_beat,
        1 <= width,
    ensures
        marker_column(0, numerator, ticks_per_beat, width) == 0,
        marker_column(numerator, numerator, ticks_per_beat, width) == width - 1,
{
    let total = numerator * ticks_per_beat;
    lemma_mul_strictly_positive(numerator, ticks_per_beat);
    assert(0 * ticks_per_beat == 0);
    assert(0 * width == 0);
    lemma_div_basics(total);
    lemma_div_multiples_vanish(width, total);
    lemma_mul_is_commutative(total, width);
}

/// The column of tick number `t` out of `total` in a row of `width` columns.
fn column(t: u32, total: u32, width: u16) -> (c: u16)
    requires
        t <= 65535,
        total >= 1,
        width >= 1,
    ensures
        c == column_of(t as int, total as int, width as int),
        c < width,
{
    assert(t * width <= 65535 * 65535) by (nonlinear_arith)
        requires
            t <= 65535,
            width <= 65535,
    ;
    let share: u32 = t * width as u32 / total;
    if share > width as u32 - 1 {
        width - 1
    } else {
        share as u16
    }
}

/// The column of the dot that shows the current tick.
pub fn tick_column(width: u16, numerator: u8, ticks_per_beat: u8, beat_in_bar: u8, tick_in_beat: u8)
    -> (c: u16)
    requires
        width >= 1,
        numerator >= 1,
        ticks_per_beat >= 1,
        beat_in_bar >= 1,
    ensures
        c == column_of(
            (beat_in_bar - 1) * ticks_per_beat + tick_in_beat,
            numerator * ticks_per_beat,
            width as int,
        ),
        c < width,
{
    assert(1 <= numerator * ticks_per_beat <= 255 * 255 && 0 <= (beat_in_bar - 1) * ticks_per_beat
        <= 254 * 255) by (nonlinear_arith)
        requires
            1 <= numerator <= 255,
            1 <= ticks_per_beat <= 255,
            1 <= beat_in_bar <= 255,
    ;
    let total: u32 = numerator as u32 * ticks_per_beat as u32;
    let index: u32 = (beat_in_bar as u32 - 1) * ticks_per_beat as u32 + tick_in_beat as u32;
    column(index, total, width)
}

/// The columns of the beat marks, from the one before the first beat to the
/// one behind the last.
pub fn marker_columns(width: u16, numerator: u8, ticks_per_beat: u8) -> (columns: Vec<u16>)
    requires
        width >= 1,
        numerator >= 1,
        ticks_per_beat >= 1,
    ensures
        columns@.len() == numerator + 1,
        forall|b: int|
            0 <= b <= numerator ==> #[trigger] columns@[b] == marker_column(
                b,
                numerator as int,
                ticks_per_beat as int,
                width as int,
            ),
{
    assert(1 <= numerator * ticks_per_beat <= 255 * 255) by (nonlinear_arith)
        requires
            1 <= numerator <= 255,
            1 <= ticks_per_beat <= 255,
    ;
    let total: u32 = numerator as u32 * ticks_per_beat as u32;
    let mut columns: Vec<u16> = Vec::new();
    let mut b: u32 = 0;
    while b <= numerator as u32
        invariant
            b <= numerator + 1,
            width >= 1,
            ticks_per_beat >= 1,
            total == numerator * ticks_per_beat,
            total >= 1,
            columns@.len() == b,
            forall|k: int|
                0 <= k < b ==> #[trigger] columns@[k] == marker_column(
                    k,
                    numerator as int,
                    ticks_per_beat as int,
                    width as int,
                ),
        decreases numerator + 1 - b,
    {
        assert(b * ticks_per_beat <= 255 * 255) by (nonlinear_arith)
            requires
                b <= 255,
                ticks_per_beat <= 255,
        ;
        columns.push(column(b * ticks_per_beat as u32, total, width));
        b += 1;
    }
    columns
}

/// One row of the beat bar, `width` characters long.
pub fn bar_cells(width: u16, numerator: u8, ticks_per_beat: u8, beat_in_bar: u8, tick_in_beat: u8)
    -> (cells: Vec<char>)
    requires
        numerator >= 1,
        ticks_per_beat >= 1,
        beat_in_bar >= 1,
    ensures
        cells@.len() == width,
        forall|i: int|
            0 <= i < width ==> cells@[i] == bar_cell(
                i,
                width as int,
                numerator as int,
                ticks_per_beat as int,
                beat_in_bar as int,
                tick_in_beat as int,
            ),
{
    let ghost w = width as int;
    let ghost n = numerator as int;
    let ghost tpb = ticks_per_beat as int;
    let mut cells: Vec<char> = Vec::new();
    let mut x: u16 = 0;
    while x < width
        invariant
            x <= width,
            cells@.len() == x,
            forall|i: int| 0 <= i < x ==> cells@[i] == ' ',
        decreases width - x,
    {
        cells.push(' ');
        x += 1;
    }
    if width == 0 {
        return cells;
    }
    let marks: Vec<u16> = marker_columns(width, numerator, ticks_per_beat);
    proof {
        assert forall|k: int| 0 <= k <= n implies 0 <= #[trigger] marker_column(k, n, tpb, w)
            < w by {
            lemma_marker_ordered(k, k, n, tpb, w);
        }
    }

    // The strokes.
    let mut b: usize = 0;
    while b <= numerator as usize
        invariant
            b <= n + 1,
            w == width,
            n == numerator,
            tpb == ticks_per_beat,
            cells@.len() == w,
            marks@.len() == n + 1,
            forall|k: int| 0 <= k <= n ==> #[trigger] marks@[k] == marker_column(k, n, tpb, w),
            forall|k: int| 0 <= k <= n ==> 0 <= #[trigger] marker_column(k, n, tpb, w) < w,
            forall|i: int|
                0 <= i < w ==> cells@[i] == if marked_before(i, b as int, n, tpb, w) {
                    '|'
                } else {
                    ' '
                },
        decreases n + 1 - b,
    {
        let at: usize = marks[b] as usize;
        assert(marks@[b as int] == marker_column(b as int, n, tpb, w));
        cells.set(at, '|');
        assert forall|i: int| 0 <= i < w implies cells@[i] == if marked_before(
            i,
            b + 1,
            n,
            tpb,
            w,
        ) {
            '|'
        } else {
            ' '
        } by {
            if i == at {
                assert(marker_column(b as int, n, tpb, w) == i);
            } else if marked_before(i, b + 1, n, tpb, w) {
                let k = choose|k: int|
                    0 <= k < b + 1 && #[trigger] marker_column(k, n, tpb, w) == i;
                assert(k != b);
                assert(marked_before(i, b as int, n, tpb, w));
            }
        }
        b += 1;
    }

    // What lies between the strokes.
    let mut beat: usize = 0;
    proof {
        lemma_marker_ends(n, tpb, w);
    }
    while beat < numerator as usize
        invariant
            beat <= n,
            w == width,
            w >= 1,
            n == numerator,
            n >= 1,
            tpb == ticks_per_beat,
            tpb >= 1,
            beat_in_bar >= 1,
            cells@.len() == w,
            marks@.len() == n + 1,
            forall|k: int| 0 <= k <= n ==> #[trigger] marks@[k] == marker_column(k, n, tpb, w),
            forall|i: int|
                0 <= i < w ==> cells@[i] == if marked_before(i, n + 1, n, tpb, w) {
                    '|'
                } else if i < marker_column(beat as int, n, tpb, w) {
                    if marker_column(beat_in_bar - 1, n, tpb, w) < i < marker_column(
                        beat_in_bar as int,
                        n,
                        tpb,
                        w,
                    ) {
                        '='
                    } else {
                        '-'
                    }
                } else {
                    ' '
                },
        decreases n - beat,
    {
        let left: usize = marks[beat] as usize;
        let right: usize = marks[beat + 1] as usize;
        let fill: char = if beat + 1 == beat_in_bar as usize {
            '='
        } else {
            '-'
        };
        proof {
            assert(marks@[beat as int] == marker_column(beat as int, n, tpb, w));
            assert(marks@[beat + 1] == marker_column(beat + 1, n, tpb, w));
            lemma_marker_ordered(beat as int, beat + 1, n, tpb, w);
            assert(marked_before(left as int, n + 1, n, tpb, w));
        }
        let mut i: usize = left + 1;
        while i < right
            invariant
                left < i,
                i <= right || i == left + 1,
                left == marker_column(beat as int, n, tpb, w),
                right == marker_column(beat + 1, n, tpb, w),
                right < w,
                beat < n,
                w == width,
                w >= 1,
                n == numerator,
                n >= 1,
                tpb == ticks_per_beat,
                tpb >= 1,
                beat_in_bar >= 1,
                fill == if beat + 1 == beat_in_bar {
                    '='
                } else {
                    '-'
                },
                cells@.len() == w,
                forall|x: int|
                    0 <= x < w ==> cells@[x] == if marked_before(x, n + 1, n, tpb, w) {
                        '|'
                    } else if x < left || (left < x < i) {
                        if marker_column(beat_in_bar - 1, n, tpb, w) < x < marker_column(
                            beat_in_bar as int,
                            n,
                            tpb,
                            w,
                        ) {
                            '='
                        } else {
                            '-'
                        }
                    } else {
                        ' '
                    },
            decreases right - i,
        {
            proof {
                let c = i as int;
                assert forall|k: int| 0 <= k < n + 1 implies #[trigger] marker_column(k, n, tpb, w)
                    != c by {
                    if k <= beat {
                        lemma_marker_ordered(k, beat as int, n, tpb, w);
                    } else {
                        lemma_marker_ordered(beat + 1, k, n, tpb, w);
                    }
                }
                assert(!marked_before(c, n + 1, n, tpb, w));
                if beat + 1 < beat_in_bar {
                    lemma_marker_ordered(beat + 1, beat_in_bar - 1, n, tpb, w);
                } else if beat + 1 > beat_in_bar {
                    lemma_marker_ordered(beat_in_bar as int, beat as int, n, tpb, w);
                }
            }
            cells.set(i, fill);
            i += 1;
        }
        assert forall|x: int| 0 <= x < w implies cells@[x] == if marked_before(x, n + 1, n, tpb, w) {
            '|'
        } else if x < marker_column(beat + 1, n, tpb, w) {
            if marker_column(beat_in_bar - 1, n, tpb, w) < x < marker_column(
                beat_in_bar as int,
                n,
                tpb,
                w,
            ) {
                '='
            } else {
                '-'
            }
        } else {
            ' '
        } by {
            if x == left {
                assert(marked_before(x, n + 1, n, tpb, w));
            }
        }
        beat += 1;
    }

    // The dot.
    let dot: u16 = tick_column(width, numerator, ticks_per_beat, beat_in_bar, tick_in_beat);
    cells.set(dot as usize, '\u{25cf}');
    cells
}

/// `text` with blanks put in front of it until it is `width` characters
/// long; a text that long or longer is left as it is.
pub open spec fn padded_left(text: Seq<char>, width: nat) -> Seq<char> {
    if text.len() >= width {
        text
    } else {
        Seq::new((width - text.len()) as nat, |i: int| ' ') + text
    }
}

/// The status text: the tempo in at least three places, the signature, the
/// ticks per beat, and whether the metronome runs.
pub open spec fn hud_text_of(event: TickEvent, ticks_per_beat: u8) -> Seq<char> {
    padded_left(decimal_text(event.bpm as nat), 3) + " BPM  |  "@ + decimal_text(
        event.signature.numerator as nat,
    ) + "/"@ + decimal_text(event.signature.denominator as nat) + "  |  sub "@ + decimal_text(
        ticks_per_beat as nat,
    ) + "  |  "@ + if event.playing {
        "RUN"@
    } else {
        "PAUSE"@
    }
}

pub fn hud_text(event: &TickEvent, ticks_per_beat: u8) -> (text: String)
    ensures
        text@ == hud_text_of(*event, ticks_per_beat),
{
    let bpm: String = decimal_string(event.bpm as u64);
    let mut text: String = String::new();
    proof {
        reveal_strlit(" ");
        reveal_strlit("  ");
        let t = decimal_text(event.bpm as nat);
        assert(event.bpm < 10 ==> t.len() == 1);
        assert(event.bpm >= 10 ==> t == decimal_text((event.bpm / 10) as nat).push(t.last()));
        assert(10 <= event.bpm < 100 ==> t.len() == 2);
        if event.bpm >= 100 {
            let front = decimal_text((event.bpm / 10) as nat);
            assert(front == decimal_text((event.bpm / 100) as nat).push(front.last()));
            assert(t.len() >= 3);
        }
    }
    if event.bpm < 10 {
        text.append("  ");
        assert(text@ =~= Seq::new(2, |i: int| ' '));
    } else if event.bpm < 100 {
        text.append(" ");
        assert(text@ =~= Seq::new(1, |i: int| ' '));
    }
    text.append(bpm.as_str());
    assert(text@ =~= padded_left(decimal_text(event.bpm as nat), 3));
    text.append(" BPM  |  ");
    text.append(decimal_string(event.signature.numerator as u64).as_str());
    text.append("/");
    text.append(decimal_string(event.signature.denominator as u64).as_str());
    text.append("  |  sub ");
    text.append(decimal_string(ticks_per_beat as u64).as_str());
    text.append("  |  ");
    if event.playing {
        text.append("RUN");
    } else {
        text.append("PAUSE");
    }
    text
}

/// The line of the tap screen that counts the taps and names the tempo they
/// show so far, or `--` where they show none yet.
pub open spec fn tap_info_of(filled: nat, estimate: Option<u16>) -> Seq<char> {
    "Taps: "@ + decimal_text(filled) + "/8   BPM: "@ + match estimate {
        Some(bpm) => decimal_text(bpm as nat),
        None => "--"@,
    }
}

pub fn tap_info(filled: usize, estimate: Option<u16>) -> (text: String)
    ensures
        text@ == tap_info_of(filled as nat, estimate),
{
    let mut text: String = String::from_str("Taps: ");
    text.append(decimal_string(filled as u64).as_str());
    text.append("/8   BPM: ");
    match estimate {
        Some(bpm) => {
            text.append(decimal_string(bpm as u64).as_str());
        },
        None => {
            text.append("--");
        },
    }
    text
}

/// The eight marks of the tap screen: `filled` full ones, then empty ones.
pub open spec fn tap_progress_of(filled: nat) -> Seq<char> {
    Seq::new(
        8,
        |i: int|
            if i < filled {
                '\u{25cf}'
            } else {
                '\u{25cb}'
            },
    )
}

pub fn tap_progress(filled: usize) -> (text: String)
    ensures
        text@ == tap_progress_of(filled as nat),
{
    let mut text: String = String::new();
    let mut i: usize = 0;
    proof {
        reveal_strlit("\u{25cf}");
        reveal_strlit("\u{25cb}");
    }
    while i < 8
        invariant
            i <= 8,
            text@.len() == i,
            forall|k: int| 0 <= k < i ==> text@[k] == tap_progress_of(filled as nat)[k],
            "\u{25cf}"@.len() == 1 && "\u{25cf}"@[0] == '\u{25cf}',
            "\u{25cb}"@.len() == 1 && "\u{25cb}"@[0] == '\u{25cb}',
        decreases 8 - i,
    {
        if i < filled {
            text.append("\u{25cf}");
        } else {
            text.append("\u{25cb}");
        }
        i += 1;
    }
    assert(text@ =~= tap_progress_of(filled as nat));
    text
}

} // verus!

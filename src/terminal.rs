//! The terminal size the game needs, and where the board sits in it.
use vstd::prelude::*;
use crate::render::INSTRUCTIONS;

verus! {

/// Columns kept free beside the widest line.
pub const HORIZONTAL_PADDING: usize = 2;

/// Rows needed besides the board: title, blank lines and the line under it.
pub const VERTICAL_PADDING: usize = 7;

/// The number of terminal columns a string takes once styling escapes are removed.
pub uninterp spec fn text_width_of(s: Seq<char>) -> nat;

/// Relies on console's `measure_text_width`: the display width of the
/// string without its ANSI escapes, a function of the string alone.
#[verifier::external_body]
fn text_width(s: &str) -> (r: usize)
    ensures
        r == text_width_of(s@),
{
    console::measure_text_width(s)
}

/// `a + b`, or `usize::MAX` where that does not fit.
pub open spec fn capped_sum(a: int, b: int) -> int {
    if a + b > usize::MAX {
        usize::MAX as int
    } else {
        a + b
    }
}

/// The columns and rows a terminal needs for a `board_width` by
/// `board_height` board whose instruction line is `text_width` columns wide:
/// the wider of the two plus padding, and the board's height plus padding.
pub fn required_size_for(board_width: usize, board_height: usize, text_width: usize) -> (r: (
    usize,
    usize,
))
    ensures
        r.0 == capped_sum(
            if board_width >= text_width { board_width as int } else { text_width as int },
            HORIZONTAL_PADDING as int,
        ),
        r.1 == capped_sum(board_height as int, VERTICAL_PADDING as int),
{
    let widest = if board_width >= text_width { board_width } else { text_width };
    (widest.saturating_add(HORIZONTAL_PADDING), board_height.saturating_add(VERTICAL_PADDING))
}

/// The columns and rows a terminal needs for a `board_width` by
/// `board_height` board under the instruction line.
pub fn required_size(board_width: usize, board_height: usize) -> (r: (usize, usize))
    ensures
        r.0 == capped_sum(
            if board_width >= text_width_of(INSTRUCTIONS@) {
                board_width as int
            } else {
                text_width_of(INSTRUCTIONS@) as int
            },
            HORIZONTAL_PADDING as int,
        ),
        r.1 == capped_sum(board_height as int, VERTICAL_PADDING as int),
{
    required_size_for(board_width, board_height, text_width(INSTRUCTIONS))
}

/// Whether a terminal of `columns` by `rows` is large enough for the board.
pub fn fits(columns: usize, rows: usize, board_width: usize, board_height: usize) -> (r: bool)
    ensures
        r == (columns >= capped_sum(
            if board_width >= text_width_of(INSTRUCTIONS@) {
                board_width as int
            } else {
                text_width_of(INSTRUCTIONS@) as int
            },
            HORIZONTAL_PADDING as int,
        ) && rows >= capped_sum(board_height as int, VERTICAL_PADDING as int)),
{
    let (need_columns, need_rows) = required_size(board_width, board_height);
    columns >= need_columns && rows >= need_rows
}

/// The blank rows above the title (and again below the board) that centre
/// a board of `board_height` rows in a terminal of `rows` rows.
pub fn margin_rows(rows: usize, board_height: usize) -> (r: usize)
    requires
        rows >= board_height + VERTICAL_PADDING,
    ensures
        r == (rows - board_height) / 2 - 2,
{
    (rows - board_height) / 2 - 2
}

} // verus!

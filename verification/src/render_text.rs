//! The two boards as lines of text, side by side. A player under a blind effect
//! has a part of the board hidden.

use crate::grid::{Grid, COLS, ROWS_TOTAL};
use crate::text::{chars_of, decimal, decimal_text};
use vstd::prelude::*;

verus! {

/// The number of blanks between the two boards.
pub const GAP: usize = 5;

/// The glyph that a hidden cell shows.
pub const MASK: char = '?';

/// First row of the hidden part of a board.
pub const BLIND_ROW_START: usize = 9;

/// Last row of the hidden part of a board.
pub const BLIND_ROW_END: usize = 18;

/// First column of the hidden part of a board.
pub const BLIND_COL_START: usize = 2;

/// Last column of the hidden part of a board.
pub const BLIND_COL_END: usize = 8;

/// Whether `(r, c)` lies in the part that a blind effect hides: ten rows of
/// seven columns.
pub open spec fn blind_spot(r: int, c: int) -> bool {
    BLIND_ROW_START <= r <= BLIND_ROW_END && BLIND_COL_START <= c <= BLIND_COL_END
}

/// The glyph that the board shows at `(r, c)`.
pub open spec fn shown_glyph(glyphs: Seq<Seq<char>>, blind: bool, r: int, c: int) -> char {
    if blind && blind_spot(r, c) {
        MASK
    } else {
        glyphs[r][c]
    }
}

/// One line of the two boards: row `r` of the first, a gap, and row `r` of the
/// second.
pub open spec fn shown_row(
    first: Seq<Seq<char>>,
    second: Seq<Seq<char>>,
    r: int,
    blind1: bool,
    blind2: bool,
) -> Seq<char> {
    Seq::new(
        (2 * COLS + GAP) as nat,
        |k: int|
            if k < COLS {
                shown_glyph(first, blind1, r, k)
            } else if k < COLS + GAP {
                ' '
            } else {
                shown_glyph(second, blind2, r, k - COLS - GAP)
            },
    )
}

/// The line that shows the high score.
pub open spec fn high_score_line(hi_score: int) -> Seq<char> {
    "Hi Score: "@ + decimal(hi_score)
}

/// The lines of the two boards: an empty line, the high score, an empty line,
/// the rows of the boards but for the topmost, and an empty line.
pub open spec fn shown_boards(
    first: Seq<Seq<char>>,
    second: Seq<Seq<char>>,
    blind1: bool,
    blind2: bool,
    hi_score: int,
) -> Seq<Seq<char>> {
    Seq::new(
        (ROWS_TOTAL + 3) as nat,
        |k: int|
            if k == 1 {
                high_score_line(hi_score)
            } else if 3 <= k < ROWS_TOTAL + 2 {
                shown_row(first, second, k - 2, blind1, blind2)
            } else {
                Seq::empty()
            },
    )
}

/// Whether `(r, c)` lies in the part that a blind effect hides.
pub fn in_blind(r: usize, c: usize) -> (hidden: bool)
    ensures
        hidden == blind_spot(r as int, c as int),
{
    r >= BLIND_ROW_START && r <= BLIND_ROW_END && c >= BLIND_COL_START && c <= BLIND_COL_END
}

/// The text of one line of the two boards.
pub fn two_row(g1: &Grid, g2: &Grid, row: usize, blind1: bool, blind2: bool) -> (line: Vec<char>)
    requires
        g1.wf(),
        g2.wf(),
        row < ROWS_TOTAL,
    ensures
        line@ == shown_row(g1@.glyphs, g2@.glyphs, row as int, blind1, blind2),
{
    let mut line: Vec<char> = Vec::new();
    let mut c: usize = 0;
    while c < COLS
        invariant
            c <= COLS,
            row < ROWS_TOTAL,
            g1.wf(),
            line@.len() == c,
            forall|k: int|
                0 <= k < c ==> line@[k] == shown_row(
                    g1@.glyphs,
                    g2@.glyphs,
                    row as int,
                    blind1,
                    blind2,
                )[k],
        decreases COLS - c,
    {
        let mut ch = g1.get(row, c);
        if blind1 && in_blind(row, c) {
            ch = MASK;
        }
        line.push(ch);
        c += 1;
    }
    let mut gap: usize = 0;
    while gap < GAP
        invariant
            gap <= GAP,
            line@.len() == COLS + gap,
            forall|k: int|
                0 <= k < COLS + gap ==> line@[k] == shown_row(
                    g1@.glyphs,
                    g2@.glyphs,
                    row as int,
                    blind1,
                    blind2,
                )[k],
        decreases GAP - gap,
    {
        line.push(' ');
        gap += 1;
    }
    let mut c: usize = 0;
    while c < COLS
        invariant
            c <= COLS,
            row < ROWS_TOTAL,
            g2.wf(),
            line@.len() == COLS + GAP + c,
            forall|k: int|
                0 <= k < COLS + GAP + c ==> line@[k] == shown_row(
                    g1@.glyphs,
                    g2@.glyphs,
                    row as int,
                    blind1,
                    blind2,
                )[k],
        decreases COLS - c,
    {
        let mut ch = g2.get(row, c);
        if blind2 && in_blind(row, c) {
            ch = MASK;
        }
        line.push(ch);
        c += 1;
    }
    assert(line@ =~= shown_row(g1@.glyphs, g2@.glyphs, row as int, blind1, blind2));
    line
}

/// The text of the two boards, line by line.
pub fn two_boards(g1: &Grid, g2: &Grid, blind1: bool, blind2: bool, hi_score: i32) -> (lines: Vec<
    Vec<char>,
>)
    requires
        g1.wf(),
        g2.wf(),
    ensures
        lines@.len() == ROWS_TOTAL + 3,
        forall|k: int|
            0 <= k < lines@.len() ==> (#[trigger] lines@[k])@ == shown_boards(
                g1@.glyphs,
                g2@.glyphs,
                blind1,
                blind2,
                hi_score as int,
            )[k],
{
    let mut lines: Vec<Vec<char>> = Vec::new();
    lines.push(Vec::new());
    let mut head = chars_of("Hi Score: ");
    let mut number = decimal_text(hi_score);
    head.append(&mut number);
    lines.push(head);
    lines.push(Vec::new());
    let mut row: usize = 1;
    while row < ROWS_TOTAL
        invariant
            1 <= row <= ROWS_TOTAL,
            g1.wf(),
            g2.wf(),
            lines@.len() == row + 2,
            forall|k: int|
                0 <= k < lines@.len() ==> (#[trigger] lines@[k])@ == shown_boards(
                    g1@.glyphs,
                    g2@.glyphs,
                    blind1,
                    blind2,
                    hi_score as int,
                )[k],
        decreases ROWS_TOTAL - row,
    {
        lines.push(two_row(g1, g2, row, blind1, blind2));
        row += 1;
    }
    lines.push(Vec::new());
    lines
}

} // verus!

//! What holds of quarter turns: a piece whose cells stand apart and show no
//! blank keeps its number of cells under a turn, and four turns the same way
//! bring it back to where it was.

use crate::block::{
    apart, glyph_at, height, inked, lemma_spawn_layout, max_col, max_row, min_col, min_row, on_field,
    spawn_layout, turned, turned_cell, turned_glyph, turned_row, turned_rows, width, BlockKind, Cell,
};
use crate::grid::BLANK;
use vstd::prelude::*;

verus! {

/// The largest coordinate, in size, for which the laws of this file are
/// stated. It leaves room for the arithmetic of four turns.
pub const REACH: i32 = 1_000_000;

/// Every coordinate of the cells is at most `b` in size.
pub open spec fn within(cells: Seq<Cell>, b: int) -> bool {
    forall|i: int|
        0 <= i < cells.len() ==> -b <= (#[trigger] cells[i]).r <= b && -b <= cells[i].c <= b
}

/// Whether `a` comes before `b` in reading order: in a row above, or to the
/// left in the same row.
pub open spec fn reads_before(a: Cell, b: Cell) -> bool {
    a.r < b.r || (a.r == b.r && a.c < b.c)
}

/// The cells come in strict reading order.
pub open spec fn in_reading_order(cells: Seq<Cell>) -> bool {
    forall|j: int, k: int|
        0 <= j < k < cells.len() ==> reads_before(#[trigger] cells[j], #[trigger] cells[k])
}

/// Where a cell of the piece comes to stand under a quarter turn of the piece.
pub open spec fn turn_of(cells: Seq<Cell>, cw: bool, cell: Cell) -> Cell {
    if cw {
        Cell {
            r: (max_row(cells) - max_col(cells) + cell.c) as i32,
            c: (min_col(cells) + max_row(cells) - cell.r) as i32,
            ch: cell.ch,
        }
    } else {
        Cell {
            r: (max_row(cells) + min_col(cells) - cell.c) as i32,
            c: (min_col(cells) + cell.r - min_row(cells)) as i32,
            ch: cell.ch,
        }
    }
}

/// Where a cell of the piece comes to stand under a half turn of the piece
/// within its bounding box.
pub open spec fn half_turn_of(cells: Seq<Cell>, cell: Cell) -> Cell {
    Cell {
        r: (max_row(cells) + min_row(cells) - cell.r) as i32,
        c: (max_col(cells) + min_col(cells) - cell.c) as i32,
        ch: cell.ch,
    }
}

/// Every cell lies in the bounding box, and each side of the box is touched.
pub proof fn lemma_box(cells: Seq<Cell>)
    requires
        cells.len() > 0,
    ensures
        forall|i: int|
            0 <= i < cells.len() ==> min_row(cells) <= (#[trigger] cells[i]).r <= max_row(cells)
                && min_col(cells) <= cells[i].c <= max_col(cells),
        exists|i: int| 0 <= i < cells.len() && (#[trigger] cells[i]).r == min_row(cells),
        exists|i: int| 0 <= i < cells.len() && (#[trigger] cells[i]).r == max_row(cells),
        exists|i: int| 0 <= i < cells.len() && (#[trigger] cells[i]).c == min_col(cells),
        exists|i: int| 0 <= i < cells.len() && (#[trigger] cells[i]).c == max_col(cells),
    decreases cells.len(),
{
    let front = cells.drop_last();
    let n = cells.len() - 1;
    assert(cells[n] == cells.last());
    if front.len() > 0 {
        lemma_box(front);
        assert forall|i: int| 0 <= i < cells.len() implies min_row(cells) <= (#[trigger] cells[i]).r
            <= max_row(cells) && min_col(cells) <= cells[i].c <= max_col(cells) by {
            if i < n {
                assert(cells[i] == front[i]);
            }
        }
        let a = choose|i: int| 0 <= i < front.len() && (#[trigger] front[i]).r == min_row(front);
        let b = choose|i: int| 0 <= i < front.len() && (#[trigger] front[i]).r == max_row(front);
        let c = choose|i: int| 0 <= i < front.len() && (#[trigger] front[i]).c == min_col(front);
        let d = choose|i: int| 0 <= i < front.len() && (#[trigger] front[i]).c == max_col(front);
        assert(cells[a] == front[a] && cells[b] == front[b] && cells[c] == front[c] && cells[d]
            == front[d]);
        assert(cells[a].r == min_row(cells) || cells[n].r == min_row(cells));
        assert(cells[b].r == max_row(cells) || cells[n].r == max_row(cells));
        assert(cells[c].c == min_col(cells) || cells[n].c == min_col(cells));
        assert(cells[d].c == max_col(cells) || cells[n].c == max_col(cells));
    } else {
        assert(min_row(front) == i32::MAX);
        assert(max_row(front) == i32::MIN);
        assert(min_col(front) == i32::MAX);
        assert(max_col(front) == i32::MIN);
        assert(cells[n].r == min_row(cells) && cells[n].r == max_row(cells));
        assert(cells[n].c == min_col(cells) && cells[n].c == max_col(cells));
    }
}

/// A box that holds every cell and is touched on each side is the bounding
/// box.
pub proof fn lemma_box_is(cells: Seq<Cell>, top: int, bottom: int, left: int, right: int)
    requires
        cells.len() > 0,
        forall|i: int|
            0 <= i < cells.len() ==> top <= (#[trigger] cells[i]).r <= bottom && left <= cells[i].c
                <= right,
        exists|i: int| 0 <= i < cells.len() && (#[trigger] cells[i]).r == top,
        exists|i: int| 0 <= i < cells.len() && (#[trigger] cells[i]).r == bottom,
        exists|i: int| 0 <= i < cells.len() && (#[trigger] cells[i]).c == left,
        exists|i: int| 0 <= i < cells.len() && (#[trigger] cells[i]).c == right,
    ensures
        min_row(cells) == top,
        max_row(cells) == bottom,
        min_col(cells) == left,
        max_col(cells) == right,
{
    lemma_box(cells);
}

/// Where the cells show a glyph that is not blank, one of them stands with
/// that glyph.
pub proof fn lemma_glyph_at_found(cells: Seq<Cell>, r: int, c: int)
    ensures
        glyph_at(cells, r, c) != BLANK ==> exists|i: int|
            0 <= i < cells.len() && (#[trigger] cells[i]).r == r && cells[i].c == c && cells[i].ch
                == glyph_at(cells, r, c),
    decreases cells.len(),
{
    if cells.len() > 0 {
        let n = cells.len() - 1;
        if cells.last().r == r && cells.last().c == c {
            assert(cells[n] == cells.last());
        } else {
            lemma_glyph_at_found(cells.drop_last(), r, c);
            if glyph_at(cells, r, c) != BLANK {
                let front = cells.drop_last();
                let i = choose|i: int|
                    0 <= i < front.len() && (#[trigger] front[i]).r == r && front[i].c == c
                        && front[i].ch == glyph_at(front, r, c);
                assert(cells[i] == front[i]);
            }
        }
    }
}

/// Cells that stand apart each show their own glyph where they stand.
pub proof fn lemma_glyph_at_own(cells: Seq<Cell>, i: int)
    requires
        apart(cells),
        0 <= i < cells.len(),
    ensures
        glyph_at(cells, cells[i].r as int, cells[i].c as int) == cells[i].ch,
    decreases cells.len(),
{
    let n = cells.len() - 1;
    assert(cells[n] == cells.last());
    if i < n {
        let front = cells.drop_last();
        assert(front[i] == cells[i]);
        assert(!(cells[i].r == cells[n].r && cells[i].c == cells[n].c));
        assert forall|j: int, k: int| 0 <= j < k < front.len() implies !((#[trigger] front[j]).r == (
        #[trigger] front[k]).r && front[j].c == front[k].c) by {
            assert(front[j] == cells[j] && front[k] == cells[k]);
        }
        lemma_glyph_at_own(front, i);
    }
}

/// The grid row in which row `x` of the turned box comes to stand.
pub open spec fn turned_row_at(cells: Seq<Cell>, x: int) -> int {
    max_row(cells) - (width(cells) - 1 - x)
}

/// What the scan of one row of the turned box gives: each cell found is the
/// cell of its column and shows no blank, every column that shows a glyph is
/// found, and the cells come from left to right.
pub proof fn lemma_turned_row(cells: Seq<Cell>, cw: bool, x: int, upto: int)
    requires
        cells.len() > 0,
        within(cells, REACH as int),
        0 <= x < width(cells),
        0 <= upto <= height(cells),
    ensures
        forall|j: int|
            0 <= j < turned_row(cells, cw, x, upto).len() ==> {
                let cell = #[trigger] turned_row(cells, cw, x, upto)[j];
                &&& cell.r == turned_row_at(cells, x)
                &&& min_col(cells) <= cell.c < min_col(cells) + upto
                &&& cell == turned_cell(cells, cw, x, cell.c - min_col(cells))
                &&& cell.ch != BLANK
            },
        forall|y: int|
            0 <= y < upto && #[trigger] turned_glyph(cells, cw, x, y) != BLANK ==> turned_row(
                cells,
                cw,
                x,
                upto,
            ).contains(turned_cell(cells, cw, x, y)),
        in_reading_order(turned_row(cells, cw, x, upto)),
    decreases upto,
{
    lemma_box(cells);
    if upto > 0 {
        lemma_turned_row(cells, cw, x, upto - 1);
        let before = turned_row(cells, cw, x, upto - 1);
        let row = turned_row(cells, cw, x, upto);
        let last = turned_cell(cells, cw, x, upto - 1);
        if turned_glyph(cells, cw, x, upto - 1) != BLANK {
            assert(row == before.push(last));
            assert forall|j: int| 0 <= j < row.len() implies {
                let cell = #[trigger] row[j];
                &&& cell.r == turned_row_at(cells, x)
                &&& min_col(cells) <= cell.c < min_col(cells) + upto
                &&& cell == turned_cell(cells, cw, x, cell.c - min_col(cells))
                &&& cell.ch != BLANK
            } by {
                if j < before.len() {
                    assert(row[j] == before[j]);
                }
            }
            assert forall|y: int|
                0 <= y < upto && #[trigger] turned_glyph(cells, cw, x, y) != BLANK implies row.contains(
                turned_cell(cells, cw, x, y),
            ) by {
                if y < upto - 1 {
                    let cell = turned_cell(cells, cw, x, y);
                    assert(before.contains(cell));
                    let j = choose|j: int| 0 <= j < before.len() && before[j] == cell;
                    assert(row[j] == cell);
                } else {
                    assert(row[row.len() - 1] == last);
                }
            }
            assert forall|j: int, k: int| 0 <= j < k < row.len() implies reads_before(
                #[trigger] row[j],
                #[trigger] row[k],
            ) by {
                assert(row[j] == before[j]);
                if k < before.len() {
                    assert(row[k] == before[k]);
                }
            }
        } else {
            assert(row == before);
        }
    }
}

/// What the scan of the first rows of the turned box gives: each cell found is
/// the cell of its place in the box and shows no blank, every place that shows
/// a glyph is found, and the cells come in reading order.
pub proof fn lemma_turned_rows(cells: Seq<Cell>, cw: bool, upto: int)
    requires
        cells.len() > 0,
        within(cells, REACH as int),
        0 <= upto <= width(cells),
    ensures
        forall|j: int|
            0 <= j < turned_rows(cells, cw, upto).len() ==> {
                let cell = #[trigger] turned_rows(cells, cw, upto)[j];
                &&& turned_row_at(cells, 0) <= cell.r < turned_row_at(cells, upto)
                &&& min_col(cells) <= cell.c < min_col(cells) + height(cells)
                &&& cell == turned_cell(
                    cells,
                    cw,
                    cell.r - turned_row_at(cells, 0),
                    cell.c - min_col(cells),
                )
                &&& cell.ch != BLANK
            },
        forall|x: int, y: int|
            0 <= x < upto && 0 <= y < height(cells) && #[trigger] turned_glyph(cells, cw, x, y)
                != BLANK ==> turned_rows(cells, cw, upto).contains(turned_cell(cells, cw, x, y)),
        in_reading_order(turned_rows(cells, cw, upto)),
    decreases upto,
{
    lemma_box(cells);
    if upto > 0 {
        lemma_turned_rows(cells, cw, upto - 1);
        lemma_turned_row(cells, cw, upto - 1, height(cells));
        let before = turned_rows(cells, cw, upto - 1);
        let row = turned_row(cells, cw, upto - 1, height(cells));
        let all = turned_rows(cells, cw, upto);
        assert(all == before + row);
        assert forall|j: int| 0 <= j < all.len() implies {
            let cell = #[trigger] all[j];
            &&& turned_row_at(cells, 0) <= cell.r < turned_row_at(cells, upto)
            &&& min_col(cells) <= cell.c < min_col(cells) + height(cells)
            &&& cell == turned_cell(
                cells,
                cw,
                cell.r - turned_row_at(cells, 0),
                cell.c - min_col(cells),
            )
            &&& cell.ch != BLANK
        } by {
            if j < before.len() {
                assert(all[j] == before[j]);
            } else {
                assert(all[j] == row[j - before.len()]);
            }
        }
        assert forall|x: int, y: int|
            0 <= x < upto && 0 <= y < height(cells) && #[trigger] turned_glyph(cells, cw, x, y)
                != BLANK implies all.contains(turned_cell(cells, cw, x, y)) by {
            let cell = turned_cell(cells, cw, x, y);
            if x < upto - 1 {
                assert(before.contains(cell));
                let j = choose|j: int| 0 <= j < before.len() && before[j] == cell;
                assert(all[j] == cell);
            } else {
                assert(row.contains(cell));
                let j = choose|j: int| 0 <= j < row.len() && row[j] == cell;
                assert(all[before.len() + j] == cell);
            }
        }
        assert forall|j: int, k: int| 0 <= j < k < all.len() implies reads_before(
            #[trigger] all[j],
            #[trigger] all[k],
        ) by {
            if k < before.len() {
                assert(all[j] == before[j] && all[k] == before[k]);
            } else if j < before.len() {
                assert(all[j] == before[j] && all[k] == row[k - before.len()]);
            } else {
                assert(all[j] == row[j - before.len()] && all[k] == row[k - before.len()]);
            }
        }
    }
}

/// Cells in strict reading order stand apart.
pub proof fn lemma_reading_order_apart(cells: Seq<Cell>)
    requires
        in_reading_order(cells),
    ensures
        apart(cells),
        cells.no_duplicates(),
{
}

/// The turned cell of each cell of the piece is a cell of the turned piece.
/// Gives its index there.
pub proof fn lemma_turned_holds(cells: Seq<Cell>, cw: bool, b: int, i: int) -> (j: int)
    requires
        cells.len() > 0,
        apart(cells),
        inked(cells),
        within(cells, b),
        0 <= b <= REACH,
        0 <= i < cells.len(),
    ensures
        0 <= j < turned(cells, cw).len(),
        turned(cells, cw)[j] == turn_of(cells, cw, cells[i]),
{
    let t = turned(cells, cw);
    let cell = cells[i];
    lemma_box(cells);
    lemma_turned_rows(cells, cw, width(cells));
    lemma_glyph_at_own(cells, i);
    let x = if cw {
        cell.c - min_col(cells)
    } else {
        max_col(cells) - cell.c
    };
    let y = if cw {
        max_row(cells) - cell.r
    } else {
        cell.r - min_row(cells)
    };
    assert(turned_glyph(cells, cw, x, y) == cell.ch);
    assert(turned_cell(cells, cw, x, y) == turn_of(cells, cw, cell));
    assert(t.contains(turned_cell(cells, cw, x, y)));
    choose|j: int| 0 <= j < t.len() && t[j] == turn_of(cells, cw, cell)
}

/// Each cell of the turned piece is the turned cell of a cell of the piece.
/// Gives the index of that cell.
pub proof fn lemma_turned_source(cells: Seq<Cell>, cw: bool, b: int, j: int) -> (i: int)
    requires
        cells.len() > 0,
        within(cells, b),
        0 <= b <= REACH,
        0 <= j < turned(cells, cw).len(),
    ensures
        0 <= i < cells.len(),
        turned(cells, cw)[j] == turn_of(cells, cw, cells[i]),
{
    let t = turned(cells, cw);
    lemma_box(cells);
    lemma_turned_rows(cells, cw, width(cells));
    let cell = t[j];
    let x = cell.r - turned_row_at(cells, 0);
    let y = cell.c - min_col(cells);
    assert(cell == turned_cell(cells, cw, x, y));
    let r = if cw {
        max_row(cells) - y
    } else {
        min_row(cells) + y
    };
    let c = if cw {
        min_col(cells) + x
    } else {
        max_col(cells) - x
    };
    assert(turned_glyph(cells, cw, x, y) == glyph_at(cells, r, c));
    lemma_glyph_at_found(cells, r, c);
    let i = choose|i: int|
        0 <= i < cells.len() && (#[trigger] cells[i]).r == r && cells[i].c == c && cells[i].ch
            == glyph_at(cells, r, c);
    assert(t[j] == turn_of(cells, cw, cells[i]));
    i
}

/// The cells of a turned piece come in reading order, so they stand apart;
/// none shows a blank; and they lie in the old bounding box turned about its
/// bottom left corner.
pub proof fn lemma_turned_shape(cells: Seq<Cell>, cw: bool, b: int)
    requires
        cells.len() > 0,
        within(cells, b),
        0 <= b <= REACH,
    ensures
        in_reading_order(turned(cells, cw)),
        apart(turned(cells, cw)),
        inked(turned(cells, cw)),
        within(turned(cells, cw), 3 * b + 1),
        forall|j: int|
            0 <= j < turned(cells, cw).len() ==> max_row(cells) - width(cells) + 1 <= (
            #[trigger] turned(cells, cw)[j]).r <= max_row(cells) && min_col(cells) <= turned(
                cells,
                cw,
            )[j].c <= min_col(cells) + height(cells) - 1,
{
    lemma_box(cells);
    lemma_turned_rows(cells, cw, width(cells));
    lemma_reading_order_apart(turned(cells, cw));
}

/// A turned piece has as many cells as the piece: the turn is one to one.
pub proof fn lemma_turned_len(cells: Seq<Cell>, cw: bool, b: int)
    requires
        cells.len() > 0,
        apart(cells),
        inked(cells),
        within(cells, b),
        0 <= b <= REACH,
    ensures
        turned(cells, cw).len() == cells.len(),
{
    let t = turned(cells, cw);
    let f = |cell: Cell| turn_of(cells, cw, cell);
    lemma_turned_shape(cells, cw, b);
    lemma_reading_order_apart(t);
    lemma_box(cells);
    assert(cells.no_duplicates());
    cells.unique_seq_to_set();
    t.unique_seq_to_set();
    vstd::seq_lib::seq_to_set_is_finite(cells);
    assert forall|a: Cell, c: Cell|
        cells.to_set().contains(a) && cells.to_set().contains(c) && #[trigger] f(a) == #[trigger] f(
            c,
        ) implies a == c by {
        let i = choose|i: int| 0 <= i < cells.len() && cells[i] == a;
        let k = choose|k: int| 0 <= k < cells.len() && cells[k] == c;
        assert(-b <= cells[i].r <= b && -b <= cells[i].c <= b);
        assert(-b <= cells[k].r <= b && -b <= cells[k].c <= b);
        assert(turn_of(cells, cw, cells[i]) == turn_of(cells, cw, cells[k]));
        assert(cells[i].r == cells[k].r && cells[i].c == cells[k].c);
        if i < k {
            assert(false);
        }
        if k < i {
            assert(false);
        }
    }
    assert(vstd::relations::injective_on(f, cells.to_set()));
    assert forall|cell: Cell| cells.to_set().map(f).contains(cell) == t.to_set().contains(cell) by {
        if t.to_set().contains(cell) {
            let j = choose|j: int| 0 <= j < t.len() && t[j] == cell;
            let i = lemma_turned_source(cells, cw, b, j);
            assert(cells.to_set().contains(cells[i]));
            assert(f(cells[i]) == cell);
        }
        if cells.to_set().map(f).contains(cell) {
            let a = choose|a: Cell| cells.to_set().contains(a) && f(a) == cell;
            let i = choose|i: int| 0 <= i < cells.len() && cells[i] == a;
            let j = lemma_turned_holds(cells, cw, b, i);
            assert(t[j] == cell);
        }
    }
    assert(cells.to_set().map(f) =~= t.to_set());
    vstd::set_lib::lemma_map_size(cells.to_set(), t.to_set(), f);
}

/// The bounding box of a turned piece is the old box turned about its bottom
/// left corner.
pub proof fn lemma_turned_box(cells: Seq<Cell>, cw: bool, b: int)
    requires
        cells.len() > 0,
        apart(cells),
        inked(cells),
        within(cells, b),
        0 <= b <= REACH,
    ensures
        turned(cells, cw).len() > 0,
        min_row(turned(cells, cw)) == max_row(cells) - width(cells) + 1,
        max_row(turned(cells, cw)) == max_row(cells),
        min_col(turned(cells, cw)) == min_col(cells),
        max_col(turned(cells, cw)) == min_col(cells) + height(cells) - 1,
{
    let t = turned(cells, cw);
    lemma_box(cells);
    lemma_turned_shape(cells, cw, b);
    let top = choose|i: int| 0 <= i < cells.len() && (#[trigger] cells[i]).r == min_row(cells);
    let bottom = choose|i: int| 0 <= i < cells.len() && (#[trigger] cells[i]).r == max_row(cells);
    let left = choose|i: int| 0 <= i < cells.len() && (#[trigger] cells[i]).c == min_col(cells);
    let right = choose|i: int| 0 <= i < cells.len() && (#[trigger] cells[i]).c == max_col(cells);
    let jt = lemma_turned_holds(cells, cw, b, top);
    let jb = lemma_turned_holds(cells, cw, b, bottom);
    let jl = lemma_turned_holds(cells, cw, b, left);
    let jr = lemma_turned_holds(cells, cw, b, right);
    let box_top = max_row(cells) - width(cells) + 1;
    let box_bottom = max_row(cells);
    let box_left = min_col(cells);
    let box_right = min_col(cells) + height(cells) - 1;
    if cw {
        assert(t[jl].r == box_top);
        assert(t[jr].r == box_bottom);
        assert(t[jb].c == box_left);
        assert(t[jt].c == box_right);
    } else {
        assert(t[jr].r == box_top);
        assert(t[jl].r == box_bottom);
        assert(t[jt].c == box_left);
        assert(t[jb].c == box_right);
    }
    lemma_box_is(t, box_top, box_bottom, box_left, box_right);
}

/// The largest coordinate, in size, of a piece of which the laws of two and of
/// four turns are stated.
pub const PIECE_REACH: i32 = 300_000;

/// The piece after two quarter turns the same way.
pub open spec fn turned_twice(cells: Seq<Cell>, cw: bool) -> Seq<Cell> {
    turned(turned(cells, cw), cw)
}

/// The piece after four quarter turns the same way.
pub open spec fn turned_four_times(cells: Seq<Cell>, cw: bool) -> Seq<Cell> {
    turned_twice(turned_twice(cells, cw), cw)
}

/// Two quarter turns the same way keep the bounding box, the number of cells
/// and the properties of a piece.
pub proof fn lemma_turned_twice(cells: Seq<Cell>, cw: bool, b: int)
    requires
        cells.len() > 0,
        apart(cells),
        inked(cells),
        within(cells, b),
        0 <= b <= PIECE_REACH,
    ensures
        turned_twice(cells, cw).len() == cells.len(),
        in_reading_order(turned_twice(cells, cw)),
        apart(turned_twice(cells, cw)),
        inked(turned_twice(cells, cw)),
        within(turned_twice(cells, cw), b),
        min_row(turned_twice(cells, cw)) == min_row(cells),
        max_row(turned_twice(cells, cw)) == max_row(cells),
        min_col(turned_twice(cells, cw)) == min_col(cells),
        max_col(turned_twice(cells, cw)) == max_col(cells),
{
    let once = turned(cells, cw);
    let twice = turned(once, cw);
    lemma_box(cells);
    lemma_turned_shape(cells, cw, b);
    lemma_turned_len(cells, cw, b);
    lemma_turned_box(cells, cw, b);
    lemma_turned_shape(once, cw, 3 * b + 1);
    lemma_turned_len(once, cw, 3 * b + 1);
    lemma_turned_box(once, cw, 3 * b + 1);
    lemma_box(twice);
}

/// Under two quarter turns the same way each cell comes to stand where a half
/// turn within the bounding box takes it. Gives the index of the cell in the
/// piece turned twice.
pub proof fn lemma_half_turn_holds(cells: Seq<Cell>, cw: bool, b: int, i: int) -> (j: int)
    requires
        cells.len() > 0,
        apart(cells),
        inked(cells),
        within(cells, b),
        0 <= b <= PIECE_REACH,
        0 <= i < cells.len(),
    ensures
        0 <= j < turned_twice(cells, cw).len(),
        turned_twice(cells, cw)[j] == half_turn_of(cells, cells[i]),
{
    let once = turned(cells, cw);
    lemma_box(cells);
    lemma_turned_shape(cells, cw, b);
    lemma_turned_box(cells, cw, b);
    let k = lemma_turned_holds(cells, cw, b, i);
    let j = lemma_turned_holds(once, cw, 3 * b + 1, k);
    assert(turn_of(once, cw, turn_of(cells, cw, cells[i])) == half_turn_of(cells, cells[i]));
    j
}

/// Each cell of the piece turned twice is the half turn of a cell of the
/// piece. Gives the index of that cell.
pub proof fn lemma_half_turn_source(cells: Seq<Cell>, cw: bool, b: int, j: int) -> (i: int)
    requires
        cells.len() > 0,
        apart(cells),
        inked(cells),
        within(cells, b),
        0 <= b <= PIECE_REACH,
        0 <= j < turned_twice(cells, cw).len(),
    ensures
        0 <= i < cells.len(),
        turned_twice(cells, cw)[j] == half_turn_of(cells, cells[i]),
{
    let once = turned(cells, cw);
    lemma_box(cells);
    lemma_turned_shape(cells, cw, b);
    lemma_turned_box(cells, cw, b);
    let k = lemma_turned_source(once, cw, 3 * b + 1, j);
    let i = lemma_turned_source(cells, cw, b, k);
    assert(turn_of(once, cw, turn_of(cells, cw, cells[i])) == half_turn_of(cells, cells[i]));
    i
}

/// Four quarter turns the same way bring a piece back: the piece turned four
/// times has the cells of the piece, each where it was, and no others.
pub proof fn lemma_four_turns(cells: Seq<Cell>, cw: bool)
    requires
        cells.len() > 0,
        apart(cells),
        inked(cells),
        within(cells, PIECE_REACH as int),
    ensures
        turned_four_times(cells, cw).len() == cells.len(),
        turned_four_times(cells, cw).to_set() == cells.to_set(),
        in_reading_order(turned_four_times(cells, cw)),
{
    let b = PIECE_REACH as int;
    let twice = turned_twice(cells, cw);
    let back = turned_twice(twice, cw);
    lemma_box(cells);
    lemma_turned_twice(cells, cw, b);
    lemma_turned_twice(twice, cw, b);
    assert forall|cell: Cell| back.to_set().contains(cell) == cells.to_set().contains(cell) by {
        if cells.to_set().contains(cell) {
            let i = choose|i: int| 0 <= i < cells.len() && cells[i] == cell;
            let k = lemma_half_turn_holds(cells, cw, b, i);
            let j = lemma_half_turn_holds(twice, cw, b, k);
            assert(half_turn_of(twice, half_turn_of(cells, cells[i])) == cells[i]);
            assert(back[j] == cell);
        }
        if back.to_set().contains(cell) {
            let j = choose|j: int| 0 <= j < back.len() && back[j] == cell;
            let k = lemma_half_turn_source(twice, cw, b, j);
            let i = lemma_half_turn_source(cells, cw, b, k);
            assert(half_turn_of(twice, half_turn_of(cells, cells[i])) == cells[i]);
            assert(cells[i] == cell);
        }
    }
    assert(back.to_set() =~= cells.to_set());
}

/// Cells on the field are within reach of the laws of this file.
pub proof fn lemma_on_field_within(cells: Seq<Cell>)
    requires
        on_field(cells),
    ensures
        within(cells, PIECE_REACH as int),
{
}

/// A quarter turn of a piece on the field whose cells stand apart and show no
/// blank keeps the number of cells: such a turn is taken just when the turned
/// cells fit.
pub proof fn lemma_turn_keeps_count(cells: Seq<Cell>, cw: bool)
    requires
        cells.len() > 0,
        on_field(cells),
        apart(cells),
        inked(cells),
    ensures
        turned(cells, cw).len() == cells.len(),
{
    lemma_on_field_within(cells);
    lemma_turned_len(cells, cw, PIECE_REACH as int);
}

/// Each of the seven standard pieces, where it enters the field, is back in
/// its place after four quarter turns the same way.
pub proof fn lemma_four_turns_of_new_piece(kind: BlockKind, cw: bool)
    ensures
        turned_four_times(spawn_layout(kind), cw).to_set() == spawn_layout(
            kind,
        ).to_set(),
        turned_four_times(spawn_layout(kind), cw).len() == spawn_layout(
            kind,
        ).len(),
{
    lemma_spawn_layout(kind);
    lemma_on_field_within(spawn_layout(kind));
    lemma_four_turns(spawn_layout(kind), cw);
}

} // verus!

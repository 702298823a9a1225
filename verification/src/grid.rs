//! The playing field of one player: a fixed matrix of display glyphs, the id of
//! the piece that owns each cell of the playable rectangle, and the score.

use crate::sums::{
    lemma_sum_over_add, lemma_sum_over_point, lemma_sum_over_same, lemma_sum_over_subset, sum_over,
};
use crate::text::{
    decimal, decimal_text, digit, digit_char, lemma_decimal_len, lemma_digits_len_monotonic,
};
use std::collections::HashMap;
use vstd::prelude::*;

verus! {

/// Number of columns of the field.
pub const COLS: usize = 11;

/// Number of display rows, header and footer included.
pub const ROWS_TOTAL: usize = 26;

/// First row of the playable rectangle.
pub const PLAY_TOP: usize = 4;

/// Last row of the playable rectangle.
pub const PLAY_BOTTOM: usize = 21;

/// The glyph of an empty cell.
pub const BLANK: char = ' ';

/// The owner id of a cell that belongs to no piece.
pub const UNOWNED: i32 = -1;

/// Whether `r` is a row of the playable rectangle.
pub open spec fn is_play_row(r: int) -> bool {
    PLAY_TOP as int <= r <= PLAY_BOTTOM as int
}

/// A row of `COLS` empty cells.
pub open spec fn blank_row() -> Seq<char> {
    Seq::new(COLS as nat, |c: int| BLANK)
}

/// A row of `COLS` cells that no piece owns.
pub open spec fn unowned_row() -> Seq<i32> {
    Seq::new(COLS as nat, |c: int| UNOWNED)
}

/// The first `COLS` characters of `s`, padded with blanks on the right.
pub open spec fn padded_row(s: Seq<char>) -> Seq<char> {
    Seq::new(COLS as nat, |c: int| if c < s.len() { s[c] } else { BLANK })
}

/// The mathematical value of a [`Grid`].
pub struct GridView {
    /// The display glyphs, row by row.
    pub glyphs: Seq<Seq<char>>,
    /// The owning piece id of each cell, row by row.
    pub owners: Seq<Seq<i32>>,
    /// The running score.
    pub score: int,
}

impl GridView {
    /// Both matrices have `ROWS_TOTAL` rows of `COLS` cells, and no cell outside
    /// the playable rectangle has an owner.
    pub open spec fn shaped(self) -> bool {
        &&& self.glyphs.len() == ROWS_TOTAL
        &&& self.owners.len() == ROWS_TOTAL
        &&& forall|r: int| 0 <= r < ROWS_TOTAL ==> (#[trigger] self.glyphs[r]).len() == COLS
        &&& forall|r: int| 0 <= r < ROWS_TOTAL ==> (#[trigger] self.owners[r]).len() == COLS
        &&& forall|r: int|
            0 <= r < ROWS_TOTAL && !is_play_row(r) ==> #[trigger] self.owners[r] == unowned_row()
    }

    /// Every empty cell of the playable rectangle is unowned.
    pub open spec fn blanks_unowned(self) -> bool {
        forall|r: int, c: int|
            is_play_row(r) && 0 <= c < COLS && self.glyphs[r][c] == BLANK ==> #[trigger] self.owners[r][c]
                == UNOWNED
    }

    /// In the playable rectangle a cell is empty exactly when no piece owns it.
    pub open spec fn owners_match(self) -> bool {
        forall|r: int, c: int|
            is_play_row(r) && 0 <= c < COLS ==> ((#[trigger] self.owners[r][c] == UNOWNED)
                <==> self.glyphs[r][c] == BLANK)
    }

    /// Whether row `r` holds no empty cell.
    pub open spec fn row_full(self, r: int) -> bool {
        forall|c: int| 0 <= c < COLS ==> #[trigger] self.glyphs[r][c] != BLANK
    }

    /// The grid with glyph `ch` at `(r, c)`; in the playable rectangle the cell's
    /// owner becomes `id`.
    pub open spec fn with_cell(self, r: int, c: int, ch: char, id: i32) -> GridView {
        GridView {
            glyphs: self.glyphs.update(r, self.glyphs[r].update(c, ch)),
            owners: if is_play_row(r) {
                self.owners.update(r, self.owners[r].update(c, id))
            } else {
                self.owners
            },
            score: self.score,
        }
    }

    /// The grid with glyph `ch` at `(r, c)`; writing a blank into the playable
    /// rectangle also releases the cell.
    pub open spec fn with_glyph(self, r: int, c: int, ch: char) -> GridView {
        GridView {
            glyphs: self.glyphs.update(r, self.glyphs[r].update(c, ch)),
            owners: if ch == BLANK && is_play_row(r) {
                self.owners.update(r, self.owners[r].update(c, UNOWNED))
            } else {
                self.owners
            },
            score: self.score,
        }
    }

    /// The grid with the cell at `(r, c)` emptied.
    pub open spec fn without_cell(self, r: int, c: int) -> GridView {
        self.with_cell(r, c, BLANK, UNOWNED)
    }

    /// The owner id that a lookup at `(r, c)` reports: cells off the field have
    /// none.
    pub open spec fn owner_at(self, r: int, c: int) -> i32 {
        if 0 <= r < ROWS_TOTAL && 0 <= c < COLS {
            self.owners[r][c]
        } else {
            UNOWNED
        }
    }

    /// The grid after `delta` was added to the score and the score field was
    /// drawn again.
    pub open spec fn with_score_added(self, delta: int) -> GridView {
        GridView {
            glyphs: self.glyphs.update(
                SCORE_ROW as int,
                score_row(self.glyphs[SCORE_ROW as int], self.score + delta),
            ),
            owners: self.owners,
            score: self.score + delta,
        }
    }

    /// The grid with `ch` in the level field.
    pub open spec fn with_level_glyph(self, ch: char) -> GridView {
        GridView {
            glyphs: self.glyphs.update(
                LEVEL_ROW as int,
                self.glyphs[LEVEL_ROW as int].update(COLS - 1, ch),
            ),
            owners: self.owners,
            score: self.score,
        }
    }

    /// The grid with the preview region emptied and `cells` drawn into it.
    pub open spec fn with_preview(self, cells: Seq<(i32, i32, char)>) -> GridView {
        GridView { glyphs: preview_glyphs(self.glyphs, cells), owners: self.owners, score: self.score }
    }

    /// The playable rows from `r` down to the bottom that are not full, from top
    /// to bottom.
    pub open spec fn kept_rows(self, r: int) -> Seq<int>
        decreases PLAY_BOTTOM + 1 - r,
    {
        if r > PLAY_BOTTOM {
            Seq::empty()
        } else if self.row_full(r) {
            self.kept_rows(r + 1)
        } else {
            seq![r] + self.kept_rows(r + 1)
        }
    }

    /// The number of full playable rows.
    pub open spec fn full_rows(self) -> int {
        PLAY_ROWS - self.kept_rows(PLAY_TOP as int).len()
    }

    /// The grid after its full rows were removed: the other playable rows move
    /// down in their order, and empty rows come in at the top.
    pub open spec fn compacted(self) -> GridView {
        let kept = self.kept_rows(PLAY_TOP as int);
        let first = PLAY_TOP + self.full_rows();
        GridView {
            glyphs: Seq::new(
                ROWS_TOTAL as nat,
                |r: int|
                    if !is_play_row(r) {
                        self.glyphs[r]
                    } else if r < first {
                        blank_row()
                    } else {
                        self.glyphs[kept[r - first]]
                    },
            ),
            owners: Seq::new(
                ROWS_TOTAL as nat,
                |r: int|
                    if !is_play_row(r) {
                        self.owners[r]
                    } else if r < first {
                        unowned_row()
                    } else {
                        self.owners[kept[r - first]]
                    },
            ),
            score: self.score,
        }
    }

    /// The number of cells of row `r`, in the columns before `c`, that piece `id`
    /// owns.
    pub open spec fn owned_in_row(self, r: int, id: i32, c: int) -> nat
        decreases c,
    {
        if c <= 0 {
            0
        } else {
            self.owned_in_row(r, id, c - 1) + if self.owners[r][c - 1] == id {
                1nat
            } else {
                0nat
            }
        }
    }

    /// The number of cells that piece `id` owns in the full rows from `r` down to
    /// the bottom.
    pub open spec fn lost_from(self, r: int, id: i32) -> nat
        decreases PLAY_BOTTOM + 1 - r,
    {
        if r > PLAY_BOTTOM {
            0
        } else {
            self.lost_from(r + 1, id) + if self.row_full(r) {
                self.owned_in_row(r, id, COLS as int)
            } else {
                0
            }
        }
    }

    /// The number of cells that piece `id` loses when the full rows go.
    pub open spec fn lost_cells(self, id: i32) -> nat {
        self.lost_from(PLAY_TOP as int, id)
    }

    /// The number of cells of row `r`, in the columns before `c`, whose owner
    /// id is not positive: cells that no tracked piece owns.
    pub open spec fn untracked_in_row(self, r: int, c: int) -> nat
        decreases c,
    {
        if c <= 0 {
            0
        } else {
            self.untracked_in_row(r, c - 1) + if self.owners[r][c - 1] <= 0 {
                1nat
            } else {
                0nat
            }
        }
    }

    /// The number of cells that no tracked piece owns in the full rows from `r`
    /// down to the bottom.
    pub open spec fn untracked_lost_from(self, r: int) -> nat
        decreases PLAY_BOTTOM + 1 - r,
    {
        if r > PLAY_BOTTOM {
            0
        } else {
            self.untracked_lost_from(r + 1) + if self.row_full(r) {
                self.untracked_in_row(r, COLS as int)
            } else {
                0
            }
        }
    }

    /// The number of full rows from `r` down to the bottom.
    pub open spec fn full_rows_from(self, r: int) -> int {
        PLAY_BOTTOM + 1 - r - self.kept_rows(r).len()
    }

    /// The number of cells that all tracked pieces together lose in the full
    /// rows from `r` down to the bottom: the sum over all positive ids.
    pub open spec fn lost_by_all_from(self, r: int) -> int {
        sum_over(Set::full(), |id: int| self.lost_from(r, id as i32) as int, 1, i32::MAX + 1)
    }

    /// The number of cells that all tracked pieces together lose when the full
    /// rows go.
    pub open spec fn lost_by_all(self) -> int {
        self.lost_by_all_from(PLAY_TOP as int)
    }
}

/// Number of rows of the playable rectangle.
pub const PLAY_ROWS: usize = 18;

/// The display row of the level field.
pub const LEVEL_ROW: usize = 1;

/// The display row of the score field.
pub const SCORE_ROW: usize = 2;

/// First column that drawing the score always empties.
pub const SCORE_COL: usize = 8;

/// First display row of the preview region.
pub const PREVIEW_TOP: usize = 24;

/// What is added to a preview cell's row to place it in the preview region.
pub const PREVIEW_SHIFT: i32 = 17;

/// The glyph that the level field shows for level `lvl`.
pub open spec fn level_glyph(lvl: i32) -> char {
    ((0x30 + (lvl as u8)) as u8) as char
}

/// A score row after `score` was drawn over `row`: the numeral sits at the right
/// edge, and what it does not cover of the last three columns is blank.
pub open spec fn score_row(row: Seq<char>, score: int) -> Seq<char> {
    let text = decimal(score);
    let start = COLS - text.len();
    Seq::new(
        COLS as nat,
        |c: int|
            if c >= start {
                text[c - start]
            } else if c >= SCORE_COL {
                BLANK
            } else {
                row[c]
            },
    )
}

/// The glyphs after the preview region was emptied and `cells` were drawn, each
/// `PREVIEW_SHIFT` rows below its own row; cells that fall off the field are
/// left out.
pub open spec fn preview_glyphs(glyphs: Seq<Seq<char>>, cells: Seq<(i32, i32, char)>) -> Seq<
    Seq<char>,
>
    decreases cells.len(),
{
    if cells.len() == 0 {
        glyphs.update(PREVIEW_TOP as int, blank_row()).update(PREVIEW_TOP + 1, blank_row())
    } else {
        let before = preview_glyphs(glyphs, cells.drop_last());
        let (r, c, ch) = cells.last();
        let rr = r + PREVIEW_SHIFT;
        if 0 <= rr < ROWS_TOTAL && 0 <= c < COLS {
            before.update(rr, before[rr].update(c as int, ch))
        } else {
            before
        }
    }
}

/// The loss tally `loss` after the cells of the full rows of `v`, from row
/// `from` down to the bottom, were counted in: each piece with a positive id
/// gains the number of cells it loses there.
pub open spec fn tallied(loss: Map<i32, i32>, v: GridView, from: int) -> Map<i32, i32> {
    Map::new(
        |id: i32| loss.contains_key(id) || (id > 0 && v.lost_from(from, id) > 0),
        |id: i32|
            ((if loss.contains_key(id) {
                loss[id] as int
            } else {
                0
            }) + (if id > 0 {
                v.lost_from(from, id) as int
            } else {
                0
            })) as i32,
    )
}

/// The loss tally `loss` after the cells of row `r` of `v`, in the columns
/// before `c`, were counted in.
pub open spec fn row_tallied(loss: Map<i32, i32>, v: GridView, r: int, c: int) -> Map<i32, i32> {
    Map::new(
        |id: i32| loss.contains_key(id) || (id > 0 && v.owned_in_row(r, id, c) > 0),
        |id: i32|
            ((if loss.contains_key(id) {
                loss[id] as int
            } else {
                0
            }) + (if id > 0 {
                v.owned_in_row(r, id, c) as int
            } else {
                0
            })) as i32,
    )
}

/// What holds of the rows that compaction keeps: they lie in the playable
/// rectangle from `r` on, none of them is full, they come in rising order, and
/// every row there that is not full is among them.
pub proof fn lemma_kept_rows(v: GridView, r: int)
    requires
        PLAY_TOP <= r <= PLAY_BOTTOM + 1,
    ensures
        v.kept_rows(r).len() <= PLAY_BOTTOM + 1 - r,
        forall|k: int|
            0 <= k < v.kept_rows(r).len() ==> r <= (#[trigger] v.kept_rows(r)[k]) <= PLAY_BOTTOM
                && !v.row_full(v.kept_rows(r)[k]),
        forall|j: int, k: int|
            0 <= j < k < v.kept_rows(r).len() ==> v.kept_rows(r)[j] < v.kept_rows(r)[k],
        forall|x: int| r <= x <= PLAY_BOTTOM && !v.row_full(x) ==> v.kept_rows(r).contains(x),
    decreases PLAY_BOTTOM + 1 - r,
{
    if r <= PLAY_BOTTOM {
        lemma_kept_rows(v, r + 1);
        let rest = v.kept_rows(r + 1);
        let all = v.kept_rows(r);
        if v.row_full(r) {
            assert(all == rest);
        } else {
            assert(all == seq![r] + rest);
            assert(all[0] == r);
            assert forall|k: int| 1 <= k < all.len() implies all[k] == rest[k - 1] by {}
            assert forall|x: int| r <= x <= PLAY_BOTTOM && !v.row_full(x) implies all.contains(
                x,
            ) by {
                if x == r {
                    assert(all[0] == x);
                } else {
                    assert(rest.contains(x));
                    let k = choose|k: int| 0 <= k < rest.len() && rest[k] == x;
                    assert(all[k + 1] == x);
                }
            }
        }
    }
}

/// Compaction keeps the field well shaped.
pub proof fn lemma_compacted_shaped(v: GridView)
    requires
        v.shaped(),
    ensures
        v.compacted().shaped(),
        0 <= v.full_rows() <= PLAY_ROWS,
{
    lemma_kept_rows(v, PLAY_TOP as int);
    let w = v.compacted();
    assert forall|r: int| 0 <= r < ROWS_TOTAL implies (#[trigger] w.glyphs[r]).len() == COLS by {}
    assert forall|r: int| 0 <= r < ROWS_TOTAL implies (#[trigger] w.owners[r]).len() == COLS by {}
}

/// Compaction never leaves an empty cell with an owner: where every empty cell
/// of the playable rectangle was unowned before, the same holds after.
pub proof fn lemma_compacted_blanks_unowned(v: GridView)
    requires
        v.shaped(),
        v.blanks_unowned(),
    ensures
        v.compacted().blanks_unowned(),
{
    lemma_kept_rows(v, PLAY_TOP as int);
    let w = v.compacted();
    let kept = v.kept_rows(PLAY_TOP as int);
    let first = PLAY_TOP + v.full_rows();
    assert forall|r: int, c: int|
        is_play_row(r) && 0 <= c < COLS && w.glyphs[r][c] == BLANK implies #[trigger] w.owners[r][c]
        == UNOWNED by {
        if r >= first {
            let src = kept[r - first];
            assert(is_play_row(src));
            assert(v.owners[src][c] == UNOWNED);
        }
    }
}

/// Compaction keeps owners and glyphs in step: where a cell of the playable
/// rectangle was empty exactly when it was unowned before, the same holds
/// after.
pub proof fn lemma_compacted_owners_match(v: GridView)
    requires
        v.shaped(),
        v.owners_match(),
    ensures
        v.compacted().owners_match(),
{
    lemma_kept_rows(v, PLAY_TOP as int);
    let w = v.compacted();
    let kept = v.kept_rows(PLAY_TOP as int);
    let first = PLAY_TOP + v.full_rows();
    assert forall|r: int, c: int| is_play_row(r) && 0 <= c < COLS implies ((
    #[trigger] w.owners[r][c] == UNOWNED) <==> w.glyphs[r][c] == BLANK) by {
        if r >= first {
            let src = kept[r - first];
            assert(is_play_row(src));
            assert((v.owners[src][c] == UNOWNED) <==> v.glyphs[src][c] == BLANK);
        }
    }
}

/// Compaction keeps the rows that are not full in their order: of two rows of
/// the result that came from the old field, the upper one came from the upper
/// row.
pub proof fn lemma_compacted_order(v: GridView, a: int, b: int)
    requires
        v.shaped(),
        PLAY_TOP + v.full_rows() <= a < b <= PLAY_BOTTOM,
    ensures
        ({
            let kept = v.kept_rows(PLAY_TOP as int);
            let first = PLAY_TOP + v.full_rows();
            &&& kept[a - first] < kept[b - first]
            &&& v.compacted().glyphs[a] == v.glyphs[kept[a - first]]
            &&& v.compacted().glyphs[b] == v.glyphs[kept[b - first]]
            &&& v.compacted().owners[a] == v.owners[kept[a - first]]
            &&& v.compacted().owners[b] == v.owners[kept[b - first]]
        }),
{
    lemma_kept_rows(v, PLAY_TOP as int);
}

/// After compaction no playable row is full.
pub proof fn lemma_compacted_no_full_row(v: GridView)
    requires
        v.shaped(),
    ensures
        forall|r: int| is_play_row(r) ==> !#[trigger] v.compacted().row_full(r),
        v.compacted().full_rows() == 0,
{
    lemma_kept_rows(v, PLAY_TOP as int);
    let w = v.compacted();
    let kept = v.kept_rows(PLAY_TOP as int);
    let first = PLAY_TOP + v.full_rows();
    assert forall|r: int| is_play_row(r) implies !#[trigger] w.row_full(r) by {
        if r < first {
            assert(w.glyphs[r][0] == BLANK);
        } else {
            let src = kept[r - first];
            assert(!v.row_full(src));
            let c = choose|c: int| 0 <= c < COLS && v.glyphs[src][c] == BLANK;
            assert(w.glyphs[r][c] == BLANK);
        }
    }
    lemma_no_full_row_keeps_all(w, PLAY_TOP as int);
}

/// Where no row from `r` down is full, compaction keeps them all.
proof fn lemma_no_full_row_keeps_all(v: GridView, r: int)
    requires
        PLAY_TOP <= r <= PLAY_BOTTOM + 1,
        forall|x: int| is_play_row(x) ==> !#[trigger] v.row_full(x),
    ensures
        v.kept_rows(r).len() == PLAY_BOTTOM + 1 - r,
    decreases PLAY_BOTTOM + 1 - r,
{
    if r <= PLAY_BOTTOM {
        lemma_no_full_row_keeps_all(v, r + 1);
        assert(is_play_row(r));
        assert(!v.row_full(r));
    }
}

/// The count of owned cells in a row grows with the columns counted, by at most
/// one a column.
pub proof fn lemma_owned_in_row_bounds(v: GridView, r: int, id: i32, a: int, b: int)
    requires
        0 <= a <= b,
    ensures
        v.owned_in_row(r, id, a) <= v.owned_in_row(r, id, b) <= v.owned_in_row(r, id, a) + (b - a),
    decreases b,
{
    if a < b {
        lemma_owned_in_row_bounds(v, r, id, a, b - 1);
    }
}

/// The count of lost cells grows as more rows are counted.
pub proof fn lemma_lost_from_bounds(v: GridView, id: i32, a: int, b: int)
    requires
        PLAY_TOP <= a <= b <= PLAY_BOTTOM + 1,
    ensures
        v.lost_from(b, id) <= v.lost_from(a, id) <= v.lost_from(b, id) + (b - a) * COLS,
    decreases b - a,
{
    if a < b {
        lemma_lost_from_bounds(v, id, a + 1, b);
        lemma_owned_in_row_bounds(v, a, id, 0, COLS as int);
    }
}

/// The glyphs of a freshly made grid.
pub open spec fn initial_glyphs() -> Seq<Seq<char>> {
    Seq::new(
        ROWS_TOTAL as nat,
        |r: int|
            if r == 0 {
                padded_row("Hi Score: 0"@)
            } else if r == 1 {
                padded_row("Level:    0"@)
            } else if r == 2 {
                padded_row("Score:    0"@)
            } else if r == 3 || r == 22 {
                padded_row("-----------"@)
            } else if r == 23 {
                padded_row("Next:      "@)
            } else {
                blank_row()
            },
    )
}

/// The value of a freshly made grid: header and footer drawn, the playable
/// rectangle empty and unowned, score 0.
pub open spec fn fresh_grid() -> GridView {
    GridView {
        glyphs: initial_glyphs(),
        owners: Seq::new(ROWS_TOTAL as nat, |r: int| unowned_row()),
        score: 0,
    }
}

/// The playing field of one player.
#[derive(Clone)]
pub struct Grid {
    cur_score: i32,
    matrix: Vec<Vec<char>>,
    block_id: Vec<Vec<i32>>,
}

impl View for Grid {
    type V = GridView;

    closed spec fn view(&self) -> GridView {
        GridView {
            glyphs: Seq::new(self.matrix@.len(), |r: int| self.matrix@[r]@),
            owners: Seq::new(self.block_id@.len(), |r: int| self.block_id@[r]@),
            score: self.cur_score as int,
        }
    }
}

/// Overwrites row `r` of `matrix` with the first `COLS` characters of `s`,
/// padded with blanks.
fn put_row(matrix: &mut Vec<Vec<char>>, r: usize, s: &str)
    requires
        r < old(matrix)@.len(),
        old(matrix)@[r as int]@.len() == COLS,
    ensures
        final(matrix)@.len() == old(matrix)@.len(),
        final(matrix)@[r as int]@ == padded_row(s@),
        forall|k: int| 0 <= k < old(matrix)@.len() && k != r ==> final(matrix)@[k] == old(matrix)@[k],
{
    let n = s.unicode_len();
    let mut c: usize = 0;
    while c < COLS
        invariant
            c <= COLS,
            n == s@.len(),
            r < matrix@.len(),
            matrix@.len() == old(matrix)@.len(),
            matrix@[r as int]@.len() == COLS,
            forall|k: int| 0 <= k < c ==> matrix@[r as int]@[k] == padded_row(s@)[k],
            forall|k: int| 0 <= k < matrix@.len() && k != r ==> matrix@[k] == old(matrix)@[k],
        decreases COLS - c,
    {
        let ch = if c < n {
            s.get_char(c)
        } else {
            BLANK
        };
        matrix[r][c] = ch;
        c += 1;
    }
    assert(matrix@[r as int]@ =~= padded_row(s@));
}

/// A row of `COLS` blanks.
fn new_blank_row() -> (row: Vec<char>)
    ensures
        row@ == blank_row(),
{
    let mut row: Vec<char> = Vec::new();
    let mut c: usize = 0;
    while c < COLS
        invariant
            c <= COLS,
            row@.len() == c,
            forall|k: int| 0 <= k < c ==> row@[k] == BLANK,
        decreases COLS - c,
    {
        row.push(BLANK);
        c += 1;
    }
    assert(row@ =~= blank_row());
    row
}

/// A row of `COLS` unowned ids.
fn new_unowned_row() -> (row: Vec<i32>)
    ensures
        row@ == unowned_row(),
{
    let mut row: Vec<i32> = Vec::new();
    let mut c: usize = 0;
    while c < COLS
        invariant
            c <= COLS,
            row@.len() == c,
            forall|k: int| 0 <= k < c ==> row@[k] == UNOWNED,
        decreases COLS - c,
    {
        row.push(UNOWNED);
        c += 1;
    }
    assert(row@ =~= unowned_row());
    row
}

impl Grid {
    /// The representation invariant: the value is well shaped.
    pub open spec fn wf(&self) -> bool {
        self@.shaped()
    }

    /// What well-formedness says of the two vectors that hold the value.
    proof fn lemma_rep(&self)
        requires
            self.wf(),
        ensures
            self.matrix@.len() == ROWS_TOTAL,
            self.block_id@.len() == ROWS_TOTAL,
            forall|r: int| 0 <= r < ROWS_TOTAL ==> (#[trigger] self.matrix@[r])@.len() == COLS,
            forall|r: int| 0 <= r < ROWS_TOTAL ==> (#[trigger] self.block_id@[r])@.len() == COLS,
            forall|r: int| 0 <= r < ROWS_TOTAL ==> (#[trigger] self.matrix@[r])@ == self@.glyphs[r],
            forall|r: int| 0 <= r < ROWS_TOTAL ==> (#[trigger] self.block_id@[r])@ == self@.owners[r],
    {
        assert forall|r: int| 0 <= r < ROWS_TOTAL implies (#[trigger] self.matrix@[r])@.len()
            == COLS by {
            assert(self@.glyphs[r].len() == COLS);
        }
        assert forall|r: int| 0 <= r < ROWS_TOTAL implies (#[trigger] self.block_id@[r])@.len()
            == COLS by {
            assert(self@.owners[r].len() == COLS);
        }
    }

    /// An empty field with its header and footer, and score 0.
    pub fn new() -> (g: Grid)
        ensures
            g.wf(),
            g@ == fresh_grid(),
    {
        let mut matrix: Vec<Vec<char>> = Vec::new();
        let mut block_id: Vec<Vec<i32>> = Vec::new();
        let mut r: usize = 0;
        while r < ROWS_TOTAL
            invariant
                r <= ROWS_TOTAL,
                matrix@.len() == r,
                block_id@.len() == r,
                forall|k: int| 0 <= k < r ==> (#[trigger] matrix@[k])@ == blank_row(),
                forall|k: int| 0 <= k < r ==> (#[trigger] block_id@[k])@ == unowned_row(),
            decreases ROWS_TOTAL - r,
        {
            matrix.push(new_blank_row());
            block_id.push(new_unowned_row());
            r += 1;
        }
        put_row(&mut matrix, 0, "Hi Score: 0");
        put_row(&mut matrix, 1, "Level:    0");
        put_row(&mut matrix, 2, "Score:    0");
        put_row(&mut matrix, 3, "-----------");
        put_row(&mut matrix, 22, "-----------");
        put_row(&mut matrix, 23, "Next:      ");
        let g = Grid { cur_score: 0, matrix, block_id };
        assert(g@.glyphs =~= initial_glyphs());
        assert(g@.owners =~= fresh_grid().owners);
        g
    }

    /// The number of display rows.
    pub fn rows_total(&self) -> (n: usize)
        requires
            self.wf(),
        ensures
            n == ROWS_TOTAL,
    {
        proof {
            self.lemma_rep();
        }
        self.matrix.len()
    }

    /// The glyph at `(r, c)`.
    pub fn get(&self, r: usize, c: usize) -> (ch: char)
        requires
            self.wf(),
            r < ROWS_TOTAL,
            c < COLS,
        ensures
            ch == self@.glyphs[r as int][c as int],
    {
        proof {
            self.lemma_rep();
        }
        self.matrix[r][c]
    }

    /// The id of the piece that owns `(r, c)`; `UNOWNED` for a free cell and for
    /// any position off the field.
    pub fn get_block_id(&self, r: usize, c: usize) -> (id: i32)
        requires
            self.wf(),
        ensures
            id == self@.owner_at(r as int, c as int),
    {
        proof {
            self.lemma_rep();
        }
        if r >= self.block_id.len() || c >= self.block_id[0].len() {
            return UNOWNED;
        }
        self.block_id[r][c]
    }

    /// Writes glyph `ch` at `(r, c)`. Writing a blank into the playable rectangle
    /// releases the cell; any other glyph leaves the owner as it is.
    pub fn set_matrix(&mut self, r: usize, c: usize, ch: char)
        requires
            old(self).wf(),
            r < ROWS_TOTAL,
            c < COLS,
        ensures
            final(self).wf(),
            final(self)@ == old(self)@.with_glyph(r as int, c as int, ch),
    {
        proof {
            self.lemma_rep();
        }
        self.matrix[r][c] = ch;
        if ch == BLANK && PLAY_TOP <= r && r <= PLAY_BOTTOM {
            self.block_id[r][c] = UNOWNED;
        }
        proof {
            let want = old(self)@.with_glyph(r as int, c as int, ch);
            assert(self@.glyphs =~~= want.glyphs);
            assert(self@.owners =~~= want.owners);
        }
    }

    /// Writes glyph `ch` at `(r, c)` and, in the playable rectangle, records `bid`
    /// as the cell's owner.
    pub fn set_cell(&mut self, r: usize, c: usize, ch: char, bid: i32)
        requires
            old(self).wf(),
            r < ROWS_TOTAL,
            c < COLS,
        ensures
            final(self).wf(),
            final(self)@ == old(self)@.with_cell(r as int, c as int, ch, bid),
    {
        proof {
            self.lemma_rep();
        }
        self.matrix[r][c] = ch;
        if PLAY_TOP <= r && r <= PLAY_BOTTOM {
            self.block_id[r][c] = bid;
        }
        proof {
            let want = old(self)@.with_cell(r as int, c as int, ch, bid);
            assert(self@.glyphs =~~= want.glyphs);
            assert(self@.owners =~~= want.owners);
        }
    }

    /// Empties the cell at `(r, c)`.
    pub fn clear_cell(&mut self, r: usize, c: usize)
        requires
            old(self).wf(),
            r < ROWS_TOTAL,
            c < COLS,
        ensures
            final(self).wf(),
            final(self)@ == old(self)@.without_cell(r as int, c as int),
    {
        proof {
            self.lemma_rep();
        }
        self.matrix[r][c] = BLANK;
        if PLAY_TOP <= r && r <= PLAY_BOTTOM {
            self.block_id[r][c] = UNOWNED;
        }
        proof {
            let want = old(self)@.without_cell(r as int, c as int);
            assert(self@.glyphs =~~= want.glyphs);
            assert(self@.owners =~~= want.owners);
        }
    }

    /// The display matrix, for rendering.
    pub fn matrix(&self) -> (m: &Vec<Vec<char>>)
        requires
            self.wf(),
        ensures
            m@.len() == ROWS_TOTAL,
            forall|r: int| 0 <= r < ROWS_TOTAL ==> (#[trigger] m@[r])@ == self@.glyphs[r],
    {
        proof {
            self.lemma_rep();
        }
        &self.matrix
    }

    /// The running score.
    pub fn cur_score(&self) -> (s: i32)
        ensures
            s == self@.score,
    {
        self.cur_score
    }
}

impl Grid {
    /// Adds `delta` to the score and draws the score field again. Additions
    /// accumulate; the numeral is right-aligned.
    pub fn add_score(&mut self, delta: i32)
        requires
            old(self).wf(),
            i32::MIN <= old(self)@.score + delta <= i32::MAX,
        ensures
            final(self).wf(),
            final(self)@ == old(self)@.with_score_added(delta as int),
    {
        proof {
            self.lemma_rep();
        }
        self.cur_score += delta;
        let mut i: usize = SCORE_COL;
        while i < COLS
            invariant
                SCORE_COL <= i <= COLS,
                self.cur_score == old(self).cur_score + delta,
                self.block_id == old(self).block_id,
                self.matrix@.len() == ROWS_TOTAL,
                forall|r: int| 0 <= r < ROWS_TOTAL ==> (#[trigger] self.matrix@[r])@.len() == COLS,
                forall|r: int|
                    0 <= r < ROWS_TOTAL && r != SCORE_ROW ==> self.matrix@[r] == old(self).matrix@[r],
                forall|c: int|
                    0 <= c < COLS ==> self.matrix@[SCORE_ROW as int]@[c] == if SCORE_COL <= c < i {
                        BLANK
                    } else {
                        old(self).matrix@[SCORE_ROW as int]@[c]
                    },
            decreases COLS - i,
        {
            self.matrix[SCORE_ROW][i] = BLANK;
            i += 1;
        }
        let s = decimal_text(self.cur_score);
        let start: usize = COLS - s.len();
        let mut k: usize = 0;
        while k < s.len()
            invariant
                k <= s@.len(),
                1 <= s@.len() <= COLS,
                start == COLS - s@.len(),
                self.cur_score == old(self).cur_score + delta,
                self.block_id == old(self).block_id,
                self.matrix@.len() == ROWS_TOTAL,
                forall|r: int| 0 <= r < ROWS_TOTAL ==> (#[trigger] self.matrix@[r])@.len() == COLS,
                forall|r: int|
                    0 <= r < ROWS_TOTAL && r != SCORE_ROW ==> self.matrix@[r] == old(self).matrix@[r],
                forall|c: int|
                    0 <= c < COLS ==> self.matrix@[SCORE_ROW as int]@[c] == if start <= c < start + k {
                        s@[c - start]
                    } else if SCORE_COL <= c {
                        BLANK
                    } else {
                        old(self).matrix@[SCORE_ROW as int]@[c]
                    },
            decreases s@.len() - k,
        {
            self.matrix[SCORE_ROW][start + k] = s[k];
            k += 1;
        }
        proof {
            let want = old(self)@.with_score_added(delta as int);
            assert(self@.glyphs =~~= want.glyphs);
            assert(self@.owners =~~= want.owners);
        }
    }

    /// Shows level `lvl` in the level field: the character that stands `lvl`
    /// places after `0`, where `lvl` is cut to eight bits first. For the levels
    /// 0 to 9 that is the digit of the level.
    pub fn set_level_digit(&mut self, lvl: i32)
        requires
            old(self).wf(),
            (lvl as u8) + 0x30 <= u8::MAX,
        ensures
            final(self).wf(),
            final(self)@ == old(self)@.with_level_glyph(level_glyph(lvl)),
            0 <= lvl <= 9 ==> level_glyph(lvl) == digit_char(lvl as int),
    {
        proof {
            self.lemma_rep();
            if 0 <= lvl <= 9 {
                assert(lvl as u8 == lvl);
            }
        }
        let low: u8 = #[verifier::truncate] (lvl as u8);
        let d: char = (0x30 + low) as char;
        self.matrix[LEVEL_ROW][COLS - 1] = d;
        proof {
            let want = old(self)@.with_level_glyph(level_glyph(lvl));
            assert(self@.glyphs =~~= want.glyphs);
            assert(self@.owners =~~= want.owners);
        }
    }

    /// Empties the preview region and draws the cells of the preview piece into
    /// it, each given as row, column and glyph.
    pub fn show_next(&mut self, preview_block_cells: &[(i32, i32, char)])
        requires
            old(self).wf(),
            forall|k: int|
                0 <= k < preview_block_cells@.len() ==> (#[trigger] preview_block_cells@[k]).0
                    + PREVIEW_SHIFT <= i32::MAX,
        ensures
            final(self).wf(),
            final(self)@ == old(self)@.with_preview(preview_block_cells@),
    {
        proof {
            self.lemma_rep();
        }
        let ghost cells = preview_block_cells@;
        self.matrix[PREVIEW_TOP] = new_blank_row();
        self.matrix[PREVIEW_TOP + 1] = new_blank_row();
        proof {
            assert(self@.glyphs =~~= preview_glyphs(old(self)@.glyphs, cells.take(0)));
        }
        let mut k: usize = 0;
        while k < preview_block_cells.len()
            invariant
                k <= cells.len(),
                cells == preview_block_cells@,
                forall|j: int| 0 <= j < cells.len() ==> (#[trigger] cells[j]).0 + PREVIEW_SHIFT <= i32::MAX,
                self.cur_score == old(self).cur_score,
                self.block_id == old(self).block_id,
                self.matrix@.len() == ROWS_TOTAL,
                forall|r: int| 0 <= r < ROWS_TOTAL ==> (#[trigger] self.matrix@[r])@.len() == COLS,
                self@.glyphs == preview_glyphs(old(self)@.glyphs, cells.take(k as int)),
            decreases cells.len() - k,
        {
            let (r, c, ch) = preview_block_cells[k];
            let rr: i32 = r + PREVIEW_SHIFT;
            let ghost before = self@.glyphs;
            if rr >= 0 && (rr as usize) < self.matrix.len() && c >= 0 && (c as usize) < COLS {
                self.matrix[rr as usize][c as usize] = ch;
            }
            proof {
                let upto = cells.take(k + 1);
                assert(upto.drop_last() =~= cells.take(k as int));
                assert(upto.last() == cells[k as int]);
                assert(self@.glyphs =~~= preview_glyphs(old(self)@.glyphs, upto));
            }
            k += 1;
        }
        proof {
            assert(cells.take(cells.len() as int) =~= cells);
            let want = old(self)@.with_preview(cells);
            assert(self@.owners =~~= want.owners);
        }
    }
}

impl Grid {
    /// Whether row `r` holds no empty cell.
    fn row_is_full(&self, r: usize) -> (b: bool)
        requires
            self.wf(),
            r < ROWS_TOTAL,
        ensures
            b == self@.row_full(r as int),
    {
        proof {
            self.lemma_rep();
        }
        let mut c: usize = 0;
        while c < COLS
            invariant
                c <= COLS,
                r < ROWS_TOTAL,
                self.matrix@.len() == ROWS_TOTAL,
                self.matrix@[r as int]@.len() == COLS,
                self.matrix@[r as int]@ == self@.glyphs[r as int],
                forall|k: int| 0 <= k < c ==> #[trigger] self@.glyphs[r as int][k] != BLANK,
            decreases COLS - c,
        {
            if self.matrix[r][c] == BLANK {
                assert(self@.glyphs[r as int][c as int] == BLANK);
                return false;
            }
            c += 1;
        }
        true
    }

    /// Copies playable row `src` over playable row `dst`, glyphs and owners.
    fn copy_row(&mut self, dst: usize, src: usize)
        requires
            old(self).wf(),
            is_play_row(dst as int),
            is_play_row(src as int),
        ensures
            final(self).wf(),
            final(self)@.glyphs == old(self)@.glyphs.update(dst as int, old(self)@.glyphs[src as int]),
            final(self)@.owners == old(self)@.owners.update(dst as int, old(self)@.owners[src as int]),
            final(self)@.score == old(self)@.score,
    {
        proof {
            self.lemma_rep();
        }
        if dst == src {
            proof {
                assert(self@.glyphs =~~= old(self)@.glyphs.update(
                    dst as int,
                    old(self)@.glyphs[src as int],
                ));
                assert(self@.owners =~~= old(self)@.owners.update(
                    dst as int,
                    old(self)@.owners[src as int],
                ));
            }
            return ;
        }
        let mut c: usize = 0;
        while c < COLS
            invariant
                c <= COLS,
                dst != src,
                is_play_row(dst as int),
                is_play_row(src as int),
                self.cur_score == old(self).cur_score,
                self.matrix@.len() == ROWS_TOTAL,
                self.block_id@.len() == ROWS_TOTAL,
                forall|r: int| 0 <= r < ROWS_TOTAL ==> (#[trigger] self.matrix@[r])@.len() == COLS,
                forall|r: int| 0 <= r < ROWS_TOTAL ==> (#[trigger] self.block_id@[r])@.len() == COLS,
                forall|r: int|
                    0 <= r < ROWS_TOTAL && r != dst ==> self.matrix@[r] == old(self).matrix@[r],
                forall|r: int|
                    0 <= r < ROWS_TOTAL && r != dst ==> self.block_id@[r] == old(self).block_id@[r],
                forall|k: int|
                    0 <= k < COLS ==> self.matrix@[dst as int]@[k] == if k < c {
                        old(self).matrix@[src as int]@[k]
                    } else {
                        old(self).matrix@[dst as int]@[k]
                    },
                forall|k: int|
                    0 <= k < COLS ==> self.block_id@[dst as int]@[k] == if k < c {
                        old(self).block_id@[src as int]@[k]
                    } else {
                        old(self).block_id@[dst as int]@[k]
                    },
            decreases COLS - c,
        {
            let ch = self.matrix[src][c];
            let id = self.block_id[src][c];
            self.matrix[dst][c] = ch;
            self.block_id[dst][c] = id;
            c += 1;
        }
        proof {
            assert(self@.glyphs =~~= old(self)@.glyphs.update(
                dst as int,
                old(self)@.glyphs[src as int],
            ));
            assert(self@.owners =~~= old(self)@.owners.update(
                dst as int,
                old(self)@.owners[src as int],
            ));
        }
    }

    /// Empties playable row `r`.
    fn wipe_row(&mut self, r: usize)
        requires
            old(self).wf(),
            is_play_row(r as int),
        ensures
            final(self).wf(),
            final(self)@.glyphs == old(self)@.glyphs.update(r as int, blank_row()),
            final(self)@.owners == old(self)@.owners.update(r as int, unowned_row()),
            final(self)@.score == old(self)@.score,
    {
        proof {
            self.lemma_rep();
        }
        let mut c: usize = 0;
        while c < COLS
            invariant
                c <= COLS,
                is_play_row(r as int),
                self.cur_score == old(self).cur_score,
                self.matrix@.len() == ROWS_TOTAL,
                self.block_id@.len() == ROWS_TOTAL,
                forall|k: int| 0 <= k < ROWS_TOTAL ==> (#[trigger] self.matrix@[k])@.len() == COLS,
                forall|k: int| 0 <= k < ROWS_TOTAL ==> (#[trigger] self.block_id@[k])@.len() == COLS,
                forall|k: int| 0 <= k < ROWS_TOTAL && k != r ==> self.matrix@[k] == old(self).matrix@[k],
                forall|k: int|
                    0 <= k < ROWS_TOTAL && k != r ==> self.block_id@[k] == old(self).block_id@[k],
                forall|k: int| 0 <= k < c ==> self.matrix@[r as int]@[k] == BLANK,
                forall|k: int| 0 <= k < c ==> self.block_id@[r as int]@[k] == UNOWNED,
            decreases COLS - c,
        {
            self.matrix[r][c] = BLANK;
            self.block_id[r][c] = UNOWNED;
            c += 1;
        }
        proof {
            assert(self@.glyphs =~~= old(self)@.glyphs.update(r as int, blank_row()));
            assert(self@.owners =~~= old(self)@.owners.update(r as int, unowned_row()));
        }
    }

    /// Counts the owned cells of row `r` into the loss tally.
    fn tally_row(&self, r: usize, block_loss: &mut HashMap<i32, i32>)
        requires
            self.wf(),
            r < ROWS_TOTAL,
            forall|id: i32|
                old(block_loss)@.contains_key(id) ==> old(block_loss)@[id] + self@.owned_in_row(
                    r as int,
                    id,
                    COLS as int,
                ) <= i32::MAX,
        ensures
            final(block_loss)@ == row_tallied(old(block_loss)@, self@, r as int, COLS as int),
    {
        broadcast use vstd::std_specs::hash::group_hash_axioms;

        proof {
            self.lemma_rep();
            assert(block_loss@ =~= row_tallied(old(block_loss)@, self@, r as int, 0));
        }
        let mut c: usize = 0;
        while c < COLS
            invariant
                c <= COLS,
                r < ROWS_TOTAL,
                self.wf(),
                self.block_id@.len() == ROWS_TOTAL,
                self.block_id@[r as int]@.len() == COLS,
                self.block_id@[r as int]@ == self@.owners[r as int],
                forall|id: i32|
                    old(block_loss)@.contains_key(id) ==> old(block_loss)@[id] + self@.owned_in_row(
                        r as int,
                        id,
                        COLS as int,
                    ) <= i32::MAX,
                block_loss@ == row_tallied(old(block_loss)@, self@, r as int, c as int),
            decreases COLS - c,
        {
            let bid = self.block_id[r][c];
            if bid > 0 {
                let cur: i32 = match block_loss.get(&bid) {
                    Some(v) => *v,
                    None => 0,
                };
                proof {
                    lemma_owned_in_row_bounds(self@, r as int, bid, 0, c as int);
                    lemma_owned_in_row_bounds(self@, r as int, bid, c as int + 1, COLS as int);
                }
                block_loss.insert(bid, cur + 1);
            }
            proof {
                assert(block_loss@ =~= row_tallied(old(block_loss)@, self@, r as int, c + 1));
            }
            c += 1;
        }
    }

    /// Removes the full rows of the playable rectangle. The rows that are not
    /// full move down and keep their order; empty rows come in at the top.
    /// Returns the number of rows removed, and counts into `block_loss`, for each
    /// piece with a positive id, the cells it owned in the removed rows.
    pub fn check_and_clear(&mut self, block_loss: &mut HashMap<i32, i32>) -> (n: i32)
        requires
            old(self).wf(),
            forall|id: i32|
                old(block_loss)@.contains_key(id) ==> old(block_loss)@[id] + old(self)@.lost_cells(id)
                    <= i32::MAX,
        ensures
            final(self).wf(),
            final(self)@ == old(self)@.compacted(),
            n == old(self)@.full_rows(),
            0 <= n <= PLAY_ROWS,
            final(block_loss)@ == tallied(old(block_loss)@, old(self)@, PLAY_TOP as int),
            old(self)@.blanks_unowned() ==> final(self)@.blanks_unowned(),
    {
        let ghost v0 = self@;
        let ghost loss0 = block_loss@;
        let mut rows_cleared: i32 = 0;
        let mut write_row: usize = PLAY_BOTTOM;
        let mut row: usize = PLAY_BOTTOM + 1;
        proof {
            assert(block_loss@ =~= tallied(loss0, v0, row as int));
        }
        while row > PLAY_TOP
            invariant
                PLAY_TOP <= row <= PLAY_BOTTOM + 1,
                v0.shaped(),
                self.wf(),
                self@.score == v0.score,
                write_row == PLAY_BOTTOM - v0.kept_rows(row as int).len(),
                rows_cleared == PLAY_BOTTOM + 1 - row - v0.kept_rows(row as int).len(),
                forall|r: int|
                    0 <= r < ROWS_TOTAL && (r <= write_row || r > PLAY_BOTTOM) ==> self@.glyphs[r]
                        == v0.glyphs[r] && self@.owners[r] == v0.owners[r],
                forall|k: int|
                    0 <= k < v0.kept_rows(row as int).len() ==> self@.glyphs[write_row + 1 + k]
                        == v0.glyphs[#[trigger] v0.kept_rows(row as int)[k]] && self@.owners[write_row
                        + 1 + k] == v0.owners[v0.kept_rows(row as int)[k]],
                forall|id: i32|
                    loss0.contains_key(id) ==> loss0[id] + v0.lost_cells(id) <= i32::MAX,
                block_loss@ == tallied(loss0, v0, row as int),
            decreases row,
        {
            proof {
                lemma_kept_rows(v0, row as int);
                lemma_kept_rows(v0, row as int - 1);
            }
            let ghost kept_before = v0.kept_rows(row as int);
            let ghost loss_before = block_loss@;
            row -= 1;
            let ghost kept_after = v0.kept_rows(row as int);
            assert(self@.glyphs[row as int] == v0.glyphs[row as int]);
            assert(self@.row_full(row as int) == v0.row_full(row as int));
            if !self.row_is_full(row) {
                let ghost before = self@;
                self.copy_row(write_row, row);
                proof {
                    assert(kept_after =~= seq![row as int] + kept_before);
                    assert forall|k: int| 0 <= k < kept_after.len() implies self@.glyphs[write_row
                        + k] == v0.glyphs[#[trigger] kept_after[k]] && self@.owners[write_row + k]
                        == v0.owners[kept_after[k]] by {
                        if k > 0 {
                            assert(kept_after[k] == kept_before[k - 1]);
                            assert(before.glyphs[write_row + 1 + (k - 1)]
                                == v0.glyphs[kept_before[k - 1]]);
                        }
                    }
                    assert(block_loss@ =~= tallied(loss0, v0, row as int));
                }
                write_row -= 1;
            } else {
                rows_cleared += 1;
                proof {
                    assert(kept_after == kept_before);
                    assert forall|id: i32| block_loss@.contains_key(id) implies block_loss@[id]
                        + self@.owned_in_row(row as int, id, COLS as int) <= i32::MAX by {
                        lemma_lost_from_bounds(v0, id, PLAY_TOP as int, row as int);
                        lemma_lost_from_bounds(v0, id, row as int + 1, PLAY_BOTTOM as int + 1);
                        lemma_owned_in_row_bounds(v0, row as int, id, 0, COLS as int);
                        lemma_owned_agree(self@, v0, row as int, id, COLS as int);
                    }
                }
                self.tally_row(row, block_loss);
                proof {
                    assert forall|id: i32|
                        self@.owned_in_row(row as int, id, COLS as int) == v0.owned_in_row(
                            row as int,
                            id,
                            COLS as int,
                        ) by {
                        lemma_owned_agree(self@, v0, row as int, id, COLS as int);
                    }
                    let want = tallied(loss0, v0, row as int);
                    assert forall|id: i32| block_loss@.contains_key(id) == want.contains_key(
                        id,
                    ) && (block_loss@.contains_key(id) ==> block_loss@[id] == want[id]) by {
                        lemma_lost_from_bounds(v0, id, row as int, PLAY_BOTTOM as int + 1);
                        lemma_lost_from_bounds(v0, id, PLAY_TOP as int, row as int);
                        assert(v0.lost_from(row as int, id) == v0.lost_from(row as int + 1, id)
                            + v0.owned_in_row(row as int, id, COLS as int));
                        assert(loss_before == tallied(loss0, v0, row as int + 1));
                    }
                    assert(block_loss@ =~= want);
                }
            }
        }
        let ghost kept = v0.kept_rows(PLAY_TOP as int);
        let ghost first = PLAY_TOP + v0.full_rows();
        proof {
            lemma_kept_rows(v0, PLAY_TOP as int);
            assert(first == write_row + 1);
        }
        let mut wipe: usize = write_row + 1;
        while wipe > PLAY_TOP
            invariant
                PLAY_TOP <= wipe <= write_row + 1,
                write_row <= PLAY_BOTTOM,
                self.wf(),
                self@.score == v0.score,
                forall|r: int|
                    0 <= r < ROWS_TOTAL && (r < wipe || r > PLAY_BOTTOM) ==> self@.glyphs[r]
                        == v0.glyphs[r] && self@.owners[r] == v0.owners[r],
                forall|r: int|
                    wipe <= r <= write_row ==> self@.glyphs[r] == blank_row() && self@.owners[r]
                        == unowned_row(),
                forall|k: int|
                    0 <= k < kept.len() ==> self@.glyphs[write_row + 1 + k] == v0.glyphs[#[trigger] kept[k]]
                        && self@.owners[write_row + 1 + k] == v0.owners[kept[k]],
                kept.len() == PLAY_BOTTOM - write_row,
            decreases wipe,
        {
            wipe -= 1;
            self.wipe_row(wipe);
        }
        proof {
            let want = v0.compacted();
            assert forall|r: int| 0 <= r < ROWS_TOTAL implies self@.glyphs[r] == want.glyphs[r]
                && self@.owners[r] == want.owners[r] by {
                if is_play_row(r) && r >= first {
                    assert(self@.glyphs[write_row + 1 + (r - first)] == v0.glyphs[kept[r - first]]);
                }
            }
            assert(self@.glyphs =~= want.glyphs);
            assert(self@.owners =~= want.owners);
            if v0.blanks_unowned() {
                lemma_compacted_blanks_unowned(v0);
            }
        }
        rows_cleared
    }
}

/// Drawing a score over a row on which a smaller score was drawn leaves no trace
/// of the smaller one.
pub proof fn lemma_score_row_again(row: Seq<char>, first: int, second: int)
    requires
        row.len() == COLS,
        0 <= first <= second <= i32::MAX,
    ensures
        score_row(score_row(row, first), second) == score_row(row, second),
{
    lemma_decimal_len(first);
    lemma_decimal_len(second);
    lemma_digits_len_monotonic(first as nat, second as nat);
    assert(score_row(score_row(row, first), second) =~= score_row(row, second));
}

/// Adding to the score twice shows the same as adding the sum once, where the
/// score was not negative and nothing negative is added.
pub proof fn lemma_score_added_twice(v: GridView, a: int, b: int)
    requires
        v.shaped(),
        0 <= v.score,
        0 <= a,
        0 <= b,
        v.score + a + b <= i32::MAX,
    ensures
        v.with_score_added(a).with_score_added(b) == v.with_score_added(a + b),
        v.with_score_added(a).shaped(),
{
    let row = v.glyphs[SCORE_ROW as int];
    lemma_score_row_again(row, v.score + a, v.score + a + b);
    let x = v.with_score_added(a).with_score_added(b);
    let y = v.with_score_added(a + b);
    assert(x.glyphs =~= y.glyphs);
    let w = v.with_score_added(a);
    assert forall|r: int| 0 <= r < ROWS_TOTAL implies (#[trigger] w.glyphs[r]).len() == COLS by {
        assert(v.glyphs[r].len() == COLS);
    }
}

/// In the columns before `c` of a row, the cells that the tracked pieces own
/// and the cells that none of them owns are `c` together.
pub proof fn lemma_row_attribution(v: GridView, r: int, c: int)
    requires
        0 <= c,
    ensures
        sum_over(Set::full(), |id: int| v.owned_in_row(r, id as i32, c) as int, 1, i32::MAX + 1)
            + v.untracked_in_row(r, c) == c,
    decreases c,
{
    let all = Set::<int>::full();
    let lo = 1int;
    let hi = i32::MAX + 1;
    let now = |id: int| v.owned_in_row(r, id as i32, c) as int;
    if c == 0 {
        assert forall|x: int| lo <= x < hi && all.contains(x) && x != 0 implies now(x) == 0 by {}
        lemma_sum_over_point(all, now, lo, hi, 0);
    } else {
        lemma_row_attribution(v, r, c - 1);
        let before = |id: int| v.owned_in_row(r, id as i32, c - 1) as int;
        let owner = v.owners[r][c - 1];
        let here = |id: int|
            if id == owner as int {
                1int
            } else {
                0int
            };
        assert forall|x: int| lo <= x < hi && all.contains(x) implies now(x) == before(x) + here(
            x,
        ) by {
            assert((x as i32 == owner) == (x == owner as int));
        }
        lemma_sum_over_add(all, before, here, now, lo, hi);
        lemma_sum_over_point(all, here, lo, hi, owner as int);
    }
}

/// In the full rows from `r` down, the cells that the tracked pieces lose and
/// the cells that none of them owns are all the cells of those rows.
pub proof fn lemma_loss_attribution_from(v: GridView, r: int)
    requires
        PLAY_TOP <= r <= PLAY_BOTTOM + 1,
    ensures
        v.lost_by_all_from(r) + v.untracked_lost_from(r) == v.full_rows_from(r) * COLS,
        0 <= v.full_rows_from(r) <= PLAY_BOTTOM + 1 - r,
    decreases PLAY_BOTTOM + 1 - r,
{
    let all = Set::<int>::full();
    let lo = 1int;
    let hi = i32::MAX + 1;
    let now = |id: int| v.lost_from(r, id as i32) as int;
    lemma_kept_rows(v, r);
    if r > PLAY_BOTTOM {
        assert forall|x: int| lo <= x < hi && all.contains(x) && x != 0 implies now(x) == 0 by {}
        lemma_sum_over_point(all, now, lo, hi, 0);
    } else {
        lemma_loss_attribution_from(v, r + 1);
        let below = |id: int| v.lost_from(r + 1, id as i32) as int;
        if v.row_full(r) {
            let row = |id: int| v.owned_in_row(r, id as i32, COLS as int) as int;
            lemma_sum_over_add(all, below, row, now, lo, hi);
            lemma_row_attribution(v, r, COLS as int);
            assert(v.kept_rows(r) == v.kept_rows(r + 1));
        } else {
            lemma_sum_over_same(all, now, all, below, lo, hi);
            assert(v.kept_rows(r) == seq![r] + v.kept_rows(r + 1));
        }
    }
}

/// Loss attribution: the cells that all tracked pieces together lose in one
/// clear are the cells of the rows cleared, less the cells there that no
/// tracked piece owned.
pub proof fn lemma_loss_attribution(v: GridView)
    ensures
        v.lost_by_all() == v.full_rows() * COLS - v.untracked_lost_from(PLAY_TOP as int),
        0 <= v.lost_by_all() <= v.full_rows() * COLS <= PLAY_ROWS * COLS,
{
    lemma_loss_attribution_from(v, PLAY_TOP as int);
    let all = Set::<int>::full();
    assert forall|x: int| 1 <= x < i32::MAX + 1 && all.contains(x) implies (|id: int|
        v.lost_from(PLAY_TOP as int, id as i32) as int)(x) >= 0 by {}
    lemma_sum_over_subset(
        all,
        all,
        |id: int| v.lost_from(PLAY_TOP as int, id as i32) as int,
        1,
        i32::MAX + 1,
    );
}

/// What a clear adds to the tally entry of piece `id`; an entry that is not
/// there counts as zero.
pub open spec fn tally_gain(loss: Map<i32, i32>, v: GridView, id: i32) -> int {
    let after = tallied(loss, v, PLAY_TOP as int);
    (if after.contains_key(id) {
        after[id] as int
    } else {
        0
    }) - (if loss.contains_key(id) {
        loss[id] as int
    } else {
        0
    })
}

/// What one clear adds to the loss tally: each tracked piece gains the cells
/// it loses, no other entry changes or comes in, and all gains together are
/// the cells of the rows cleared, less the cells there that no tracked piece
/// owned.
pub proof fn lemma_tally_gains(loss: Map<i32, i32>, v: GridView)
    requires
        forall|id: i32| loss.contains_key(id) ==> loss[id] + v.lost_cells(id) <= i32::MAX,
    ensures
        forall|id: i32| id > 0 ==> #[trigger] tally_gain(loss, v, id) == v.lost_cells(id),
        forall|id: i32| id <= 0 ==> #[trigger] tally_gain(loss, v, id) == 0,
        forall|id: i32|
            id <= 0 ==> (#[trigger] tallied(loss, v, PLAY_TOP as int).contains_key(id)
                <==> loss.contains_key(id)),
        sum_over(Set::full(), |id: int| tally_gain(loss, v, id as i32), 1, i32::MAX + 1)
            == v.full_rows() * COLS - v.untracked_lost_from(PLAY_TOP as int),
{
    assert forall|id: i32| id > 0 implies #[trigger] tally_gain(loss, v, id) == v.lost_cells(id) by {
        lemma_lost_from_bounds(v, id, PLAY_TOP as int, PLAY_BOTTOM as int + 1);
    }
    lemma_loss_attribution(v);
    let all = Set::<int>::full();
    lemma_sum_over_same(
        all,
        |id: int| tally_gain(loss, v, id as i32),
        all,
        |id: int| v.lost_from(PLAY_TOP as int, id as i32) as int,
        1,
        i32::MAX + 1,
    );
}

/// Two grids with the same owners in row `r` count the same owned cells there.
proof fn lemma_owned_agree(a: GridView, b: GridView, r: int, id: i32, c: int)
    requires
        a.owners[r] == b.owners[r],
    ensures
        a.owned_in_row(r, id, c) == b.owned_in_row(r, id, c),
    decreases c,
{
    if c > 0 {
        lemma_owned_agree(a, b, r, id, c - 1);
    }
}

} // verus!

//! Pieces: their kinds, their spawn layouts, and how a piece moves, drops and
//! turns on a grid.

use crate::grid::{Grid, GridView, BLANK, COLS, PLAY_BOTTOM, PLAY_TOP, ROWS_TOTAL, UNOWNED};
use vstd::prelude::*;

verus! {

/// The shape of a piece: one of the seven standard shapes, or the single-cell
/// bonus shape `Star`.
#[derive(Debug, Clone, Copy, PartialEq, Eq, Structural)]
pub enum BlockKind {
    T,
    S,
    Z,
    I,
    J,
    L,
    O,
    Star,
}

/// The kind that a character names, if any.
pub open spec fn kind_of_char(ch: char) -> Option<BlockKind> {
    if ch == 'T' {
        Some(BlockKind::T)
    } else if ch == 'S' {
        Some(BlockKind::S)
    } else if ch == 'Z' {
        Some(BlockKind::Z)
    } else if ch == 'I' {
        Some(BlockKind::I)
    } else if ch == 'J' {
        Some(BlockKind::J)
    } else if ch == 'L' {
        Some(BlockKind::L)
    } else if ch == 'O' {
        Some(BlockKind::O)
    } else if ch == '*' {
        Some(BlockKind::Star)
    } else {
        None
    }
}

/// The glyph that the cells of a piece of this kind show.
pub open spec fn glyph_of(kind: BlockKind) -> char {
    match kind {
        BlockKind::T => 'T',
        BlockKind::S => 'S',
        BlockKind::Z => 'Z',
        BlockKind::I => 'I',
        BlockKind::J => 'J',
        BlockKind::L => 'L',
        BlockKind::O => 'O',
        BlockKind::Star => '*',
    }
}

/// Every kind is the kind that its own glyph names.
pub proof fn lemma_kind_glyph_round_trip(kind: BlockKind)
    ensures
        kind_of_char(glyph_of(kind)) == Some(kind),
        glyph_of(kind) != BLANK,
{
}

impl BlockKind {
    /// Whether this is one of the seven standard shapes.
    pub open spec fn is_standard(self) -> bool {
        self != BlockKind::Star
    }

    /// The kind that `ch` names: one of `T S Z I J L O`, or `*` for the bonus
    /// shape.
    pub fn from_char(ch: char) -> (k: Option<Self>)
        ensures
            k == kind_of_char(ch),
    {
        if ch == 'T' {
            Some(BlockKind::T)
        } else if ch == 'S' {
            Some(BlockKind::S)
        } else if ch == 'Z' {
            Some(BlockKind::Z)
        } else if ch == 'I' {
            Some(BlockKind::I)
        } else if ch == 'J' {
            Some(BlockKind::J)
        } else if ch == 'L' {
            Some(BlockKind::L)
        } else if ch == 'O' {
            Some(BlockKind::O)
        } else if ch == '*' {
            Some(BlockKind::Star)
        } else {
            None
        }
    }

    /// The glyph of this kind.
    pub fn to_char(self) -> (ch: char)
        ensures
            ch == glyph_of(self),
    {
        match self {
            BlockKind::T => 'T',
            BlockKind::S => 'S',
            BlockKind::Z => 'Z',
            BlockKind::I => 'I',
            BlockKind::J => 'J',
            BlockKind::L => 'L',
            BlockKind::O => 'O',
            BlockKind::Star => '*',
        }
    }
}

/// One cell of a piece: its row and column on the grid, and its glyph.
#[derive(Debug, Clone, Copy, PartialEq, Eq, Structural)]
pub struct Cell {
    pub r: i32,
    pub c: i32,
    pub ch: char,
}

/// The id of a piece that is only shown, never tracked.
pub const PREVIEW_ID: i32 = 0;

/// A piece: its kind, its id, and its cells. A tracked piece has a positive id;
/// the preview piece has `PREVIEW_ID`.
#[derive(Debug, Clone)]
pub struct Block {
    pub kind: BlockKind,
    pub id: i32,
    pub cells: Vec<Cell>,
}

/// The mathematical value of a [`Block`].
pub struct BlockView {
    pub kind: BlockKind,
    pub id: i32,
    pub cells: Seq<Cell>,
}

impl View for Block {
    type V = BlockView;

    open spec fn view(&self) -> BlockView {
        BlockView { kind: self.kind, id: self.id, cells: self.cells@ }
    }
}

/// A new piece of the given kind and id, where it enters the field.
pub open spec fn fresh_block(kind: BlockKind, id: i32) -> BlockView {
    BlockView { kind, id, cells: spawn_layout(kind) }
}

/// The cell at `(r, c)` with the glyph of `kind`.
pub open spec fn cell_of(kind: BlockKind, r: int, c: int) -> Cell {
    Cell { r: r as i32, c: c as i32, ch: glyph_of(kind) }
}

/// The cells with which a piece of the given kind enters the field.
pub open spec fn spawn_layout(kind: BlockKind) -> Seq<Cell> {
    match kind {
        BlockKind::L => seq![
            cell_of(kind, 8, 0),
            cell_of(kind, 8, 1),
            cell_of(kind, 8, 2),
            cell_of(kind, 7, 2),
        ],
        BlockKind::I => seq![
            cell_of(kind, 7, 0),
            cell_of(kind, 7, 1),
            cell_of(kind, 7, 2),
            cell_of(kind, 7, 3),
        ],
        BlockKind::J => seq![
            cell_of(kind, 7, 0),
            cell_of(kind, 8, 0),
            cell_of(kind, 8, 1),
            cell_of(kind, 8, 2),
        ],
        BlockKind::Z => seq![
            cell_of(kind, 7, 0),
            cell_of(kind, 7, 1),
            cell_of(kind, 8, 1),
            cell_of(kind, 8, 2),
        ],
        BlockKind::S => seq![
            cell_of(kind, 8, 0),
            cell_of(kind, 8, 1),
            cell_of(kind, 7, 1),
            cell_of(kind, 7, 2),
        ],
        BlockKind::T => seq![
            cell_of(kind, 7, 0),
            cell_of(kind, 7, 1),
            cell_of(kind, 7, 2),
            cell_of(kind, 8, 1),
        ],
        BlockKind::O => seq![
            cell_of(kind, 7, 0),
            cell_of(kind, 7, 1),
            cell_of(kind, 8, 0),
            cell_of(kind, 8, 1),
        ],
        BlockKind::Star => seq![cell_of(kind, 7, 5)],
    }
}

/// Every cell lies on the field.
pub open spec fn on_field(cells: Seq<Cell>) -> bool {
    forall|i: int|
        0 <= i < cells.len() ==> 0 <= (#[trigger] cells[i]).r < ROWS_TOTAL && 0 <= cells[i].c < COLS
}

/// No two cells share a position.
pub open spec fn apart(cells: Seq<Cell>) -> bool {
    forall|i: int, j: int|
        0 <= i < j < cells.len() ==> !((#[trigger] cells[i]).r == (#[trigger] cells[j]).r && cells[i].c
            == cells[j].c)
}

/// No cell shows the glyph of an empty cell.
pub open spec fn inked(cells: Seq<Cell>) -> bool {
    forall|i: int| 0 <= i < cells.len() ==> (#[trigger] cells[i]).ch != BLANK
}

/// A standard piece enters with four cells, the bonus piece with one; the cells
/// lie on the field, no two in one place, and none shows a blank.
pub proof fn lemma_spawn_layout(kind: BlockKind)
    ensures
        spawn_layout(kind).len() == if kind.is_standard() {
            4nat
        } else {
            1nat
        },
        on_field(spawn_layout(kind)),
        apart(spawn_layout(kind)),
        inked(spawn_layout(kind)),
        forall|i: int|
            0 <= i < spawn_layout(kind).len() ==> (#[trigger] spawn_layout(kind)[i]).ch == glyph_of(
                kind,
            ),
{
}

/// The grid after the cells were written one after the other for piece `id`.
pub open spec fn put(v: GridView, cells: Seq<Cell>, id: i32) -> GridView
    decreases cells.len(),
{
    if cells.len() == 0 {
        v
    } else {
        put(v, cells.drop_last(), id).with_cell(
            cells.last().r as int,
            cells.last().c as int,
            cells.last().ch,
            id,
        )
    }
}

/// The grid after the cells were emptied one after the other.
pub open spec fn erased(v: GridView, cells: Seq<Cell>) -> GridView
    decreases cells.len(),
{
    if cells.len() == 0 {
        v
    } else {
        erased(v, cells.drop_last()).without_cell(cells.last().r as int, cells.last().c as int)
    }
}

/// Whether a new piece with these cells may enter: every cell lies on the field
/// and is empty. Rows above the playable rectangle count as on the field.
pub open spec fn may_spawn(v: GridView, cells: Seq<Cell>) -> bool {
    forall|i: int|
        0 <= i < cells.len() ==> {
            &&& 0 <= (#[trigger] cells[i]).r < ROWS_TOTAL
            &&& 0 <= cells[i].c < COLS
            &&& v.glyphs[cells[i].r as int][cells[i].c as int] == BLANK
        }
}

/// Whether piece `id` may take these cells: every cell lies in the playable
/// rectangle and is empty or already owned by `id`.
pub open spec fn fits(v: GridView, cells: Seq<Cell>, id: i32) -> bool {
    forall|i: int|
        0 <= i < cells.len() ==> {
            &&& PLAY_TOP <= (#[trigger] cells[i]).r <= PLAY_BOTTOM
            &&& 0 <= cells[i].c < COLS
            &&& (v.glyphs[cells[i].r as int][cells[i].c as int] == BLANK
                || v.owners[cells[i].r as int][cells[i].c as int] == id)
        }
}

/// The cells moved by `dr` rows and `dc` columns.
pub open spec fn shifted(cells: Seq<Cell>, dr: int, dc: int) -> Seq<Cell> {
    Seq::new(
        cells.len(),
        |i: int| Cell { r: (cells[i].r + dr) as i32, c: (cells[i].c + dc) as i32, ch: cells[i].ch },
    )
}

/// The outcome of trying to take the place `next` with a piece that stands at
/// `cells`: the piece is lifted off the grid; where `accept` holds and `next`
/// fits, it is set down at `next`, else it is set down again where it stood.
/// Gives the grid, the cells of the piece, and whether it moved.
pub open spec fn relocated(v: GridView, cells: Seq<Cell>, id: i32, next: Seq<Cell>, accept: bool) -> (
    GridView,
    Seq<Cell>,
    bool,
) {
    let bare = erased(v, cells);
    if accept && fits(bare, next, id) {
        (put(bare, next, id), next, true)
    } else {
        (put(bare, cells, id), cells, false)
    }
}

/// The outcome of one step by `dr` rows and `dc` columns.
pub open spec fn stepped(v: GridView, cells: Seq<Cell>, id: i32, dr: int, dc: int) -> (
    GridView,
    Seq<Cell>,
    bool,
) {
    relocated(v, cells, id, shifted(cells, dr, dc), true)
}

/// How many rows the first cell of a piece stands above the bottom row.
pub open spec fn room_below(cells: Seq<Cell>) -> nat {
    if cells.len() > 0 && cells[0].r <= PLAY_BOTTOM {
        (PLAY_BOTTOM - cells[0].r) as nat
    } else {
        0
    }
}

/// The outcome of a hard drop of a piece on the field: steps down are taken
/// until one fails. Gives the grid and the cells of the piece.
pub open spec fn dropped(v: GridView, cells: Seq<Cell>, id: i32) -> (GridView, Seq<Cell>)
    decreases room_below(cells),
{
    let after = stepped(v, cells, id, 1, 0);
    if after.2 && room_below(after.1) < room_below(cells) {
        dropped(after.0, after.1, id)
    } else {
        (after.0, after.1)
    }
}

/// Writing cells that lie on the field keeps the grid well shaped.
pub proof fn lemma_put_shaped(v: GridView, cells: Seq<Cell>, id: i32)
    requires
        v.shaped(),
        on_field(cells),
    ensures
        put(v, cells, id).shaped(),
        put(v, cells, id).score == v.score,
    decreases cells.len(),
{
    if cells.len() > 0 {
        lemma_put_shaped(v, cells.drop_last(), id);
        lemma_with_cell_shaped(
            put(v, cells.drop_last(), id),
            cells.last().r as int,
            cells.last().c as int,
            cells.last().ch,
            id,
        );
    }
}

/// Emptying cells that lie on the field keeps the grid well shaped.
pub proof fn lemma_erased_shaped(v: GridView, cells: Seq<Cell>)
    requires
        v.shaped(),
        on_field(cells),
    ensures
        erased(v, cells).shaped(),
        erased(v, cells).score == v.score,
    decreases cells.len(),
{
    if cells.len() > 0 {
        lemma_erased_shaped(v, cells.drop_last());
        lemma_with_cell_shaped(
            erased(v, cells.drop_last()),
            cells.last().r as int,
            cells.last().c as int,
            BLANK,
            UNOWNED,
        );
    }
}

/// Writing one cell on the field keeps the grid well shaped.
pub proof fn lemma_with_cell_shaped(v: GridView, r: int, c: int, ch: char, id: i32)
    requires
        v.shaped(),
        0 <= r < ROWS_TOTAL,
        0 <= c < COLS,
    ensures
        v.with_cell(r, c, ch, id).shaped(),
{
    let w = v.with_cell(r, c, ch, id);
    assert forall|k: int| 0 <= k < ROWS_TOTAL implies (#[trigger] w.glyphs[k]).len() == COLS by {
        assert(v.glyphs[k].len() == COLS);
    }
    assert forall|k: int| 0 <= k < ROWS_TOTAL implies (#[trigger] w.owners[k]).len() == COLS by {
        assert(v.owners[k].len() == COLS);
    }
}

/// Lifting a piece and setting it down keeps the grid well shaped and the score
/// as it was, and the piece on the field.
pub proof fn lemma_relocated_shaped(
    v: GridView,
    cells: Seq<Cell>,
    id: i32,
    next: Seq<Cell>,
    accept: bool,
)
    requires
        v.shaped(),
        on_field(cells),
    ensures
        relocated(v, cells, id, next, accept).0.shaped(),
        relocated(v, cells, id, next, accept).0.score == v.score,
        on_field(relocated(v, cells, id, next, accept).1),
{
    let bare = erased(v, cells);
    lemma_erased_shaped(v, cells);
    if accept && fits(bare, next, id) {
        lemma_fits_on_field(bare, next, id);
        lemma_put_shaped(bare, next, id);
    } else {
        lemma_put_shaped(bare, cells, id);
    }
}

/// A hard drop keeps the grid well shaped and the score as it was, and the
/// piece on the field with as many cells.
pub proof fn lemma_dropped_shaped(v: GridView, cells: Seq<Cell>, id: i32)
    requires
        v.shaped(),
        on_field(cells),
    ensures
        dropped(v, cells, id).0.shaped(),
        dropped(v, cells, id).0.score == v.score,
        on_field(dropped(v, cells, id).1),
        dropped(v, cells, id).1.len() == cells.len(),
    decreases room_below(cells),
{
    let after = stepped(v, cells, id, 1, 0);
    lemma_relocated_shaped(v, cells, id, shifted(cells, 1, 0), true);
    if after.2 && room_below(after.1) < room_below(cells) {
        lemma_dropped_shaped(after.0, after.1, id);
    }
}

/// Cells that fit lie in the playable rectangle, so on the field.
pub proof fn lemma_fits_on_field(v: GridView, cells: Seq<Cell>, id: i32)
    requires
        fits(v, cells, id),
    ensures
        on_field(cells),
{
}

/// The cells of a new piece of the given kind.
pub fn spawn_cells(kind: BlockKind) -> (cells: Vec<Cell>)
    ensures
        cells@ == spawn_layout(kind),
{
    let ch = kind.to_char();
    let cells = match kind {
        BlockKind::L => vec![
            Cell { r: 8, c: 0, ch },
            Cell { r: 8, c: 1, ch },
            Cell { r: 8, c: 2, ch },
            Cell { r: 7, c: 2, ch },
        ],
        BlockKind::I => vec![
            Cell { r: 7, c: 0, ch },
            Cell { r: 7, c: 1, ch },
            Cell { r: 7, c: 2, ch },
            Cell { r: 7, c: 3, ch },
        ],
        BlockKind::J => vec![
            Cell { r: 7, c: 0, ch },
            Cell { r: 8, c: 0, ch },
            Cell { r: 8, c: 1, ch },
            Cell { r: 8, c: 2, ch },
        ],
        BlockKind::Z => vec![
            Cell { r: 7, c: 0, ch },
            Cell { r: 7, c: 1, ch },
            Cell { r: 8, c: 1, ch },
            Cell { r: 8, c: 2, ch },
        ],
        BlockKind::S => vec![
            Cell { r: 8, c: 0, ch },
            Cell { r: 8, c: 1, ch },
            Cell { r: 7, c: 1, ch },
            Cell { r: 7, c: 2, ch },
        ],
        BlockKind::T => vec![
            Cell { r: 7, c: 0, ch },
            Cell { r: 7, c: 1, ch },
            Cell { r: 7, c: 2, ch },
            Cell { r: 8, c: 1, ch },
        ],
        BlockKind::O => vec![
            Cell { r: 7, c: 0, ch },
            Cell { r: 7, c: 1, ch },
            Cell { r: 8, c: 0, ch },
            Cell { r: 8, c: 1, ch },
        ],
        BlockKind::Star => vec![Cell { r: 7, c: 5, ch }],
    };
    assert(cells@ =~= spawn_layout(kind));
    cells
}

impl Block {
    /// A new piece of the given kind with the given id, at its spawn position.
    /// A standard piece has four cells, the bonus piece one.
    pub fn new(kind: BlockKind, id: i32) -> (b: Block)
        ensures
            b@ == fresh_block(kind, id),
            b.cells@.len() == if kind.is_standard() {
                4nat
            } else {
                1nat
            },
            on_field(b.cells@),
    {
        proof {
            lemma_spawn_layout(kind);
        }
        Block { kind, id, cells: spawn_cells(kind) }
    }

    /// Writes the cells of the piece into the grid, under the piece's id.
    pub fn write_to_grid(&self, g: &mut Grid)
        requires
            old(g).wf(),
            on_field(self.cells@),
        ensures
            final(g).wf(),
            final(g)@ == put(old(g)@, self.cells@, self.id),
    {
        let mut k: usize = 0;
        proof {
            assert(self.cells@.take(0) =~= Seq::<Cell>::empty());
        }
        while k < self.cells.len()
            invariant
                k <= self.cells@.len(),
                g.wf(),
                on_field(self.cells@),
                g@ == put(old(g)@, self.cells@.take(k as int), self.id),
            decreases self.cells@.len() - k,
        {
            let cell = self.cells[k];
            g.set_cell(cell.r as usize, cell.c as usize, cell.ch, self.id);
            proof {
                let upto = self.cells@.take(k + 1);
                assert(upto.drop_last() =~= self.cells@.take(k as int));
                assert(upto.last() == cell);
            }
            k += 1;
        }
        proof {
            assert(self.cells@.take(self.cells@.len() as int) =~= self.cells@);
        }
    }

    /// Empties the cells of the piece on the grid.
    pub fn clear_from_grid(&self, g: &mut Grid)
        requires
            old(g).wf(),
            on_field(self.cells@),
        ensures
            final(g).wf(),
            final(g)@ == erased(old(g)@, self.cells@),
    {
        let mut k: usize = 0;
        proof {
            assert(self.cells@.take(0) =~= Seq::<Cell>::empty());
        }
        while k < self.cells.len()
            invariant
                k <= self.cells@.len(),
                g.wf(),
                on_field(self.cells@),
                g@ == erased(old(g)@, self.cells@.take(k as int)),
            decreases self.cells@.len() - k,
        {
            let cell = self.cells[k];
            g.clear_cell(cell.r as usize, cell.c as usize);
            proof {
                let upto = self.cells@.take(k + 1);
                assert(upto.drop_last() =~= self.cells@.take(k as int));
                assert(upto.last() == cell);
            }
            k += 1;
        }
        proof {
            assert(self.cells@.take(self.cells@.len() as int) =~= self.cells@);
        }
    }

    /// Whether the piece may enter the grid where it stands: every cell on the
    /// field and empty.
    pub fn can_spawn(&self, g: &Grid) -> (ok: bool)
        requires
            g.wf(),
        ensures
            ok == may_spawn(g@, self.cells@),
    {
        let mut k: usize = 0;
        while k < self.cells.len()
            invariant
                k <= self.cells@.len(),
                g.wf(),
                may_spawn(g@, self.cells@.take(k as int)),
            decreases self.cells@.len() - k,
        {
            let cell = self.cells[k];
            if cell.c < 0 || cell.c >= COLS as i32 || cell.r < 0 || cell.r as usize >= g.rows_total()
                || g.get(cell.r as usize, cell.c as usize) != BLANK {
                assert(self.cells@[k as int] == cell);
                return false;
            }
            proof {
                let upto = self.cells@.take(k + 1);
                assert forall|i: int| 0 <= i < upto.len() implies {
                    &&& 0 <= (#[trigger] upto[i]).r < ROWS_TOTAL
                    &&& 0 <= upto[i].c < COLS
                    &&& g@.glyphs[upto[i].r as int][upto[i].c as int] == BLANK
                } by {
                    if i < k {
                        assert(upto[i] == self.cells@.take(k as int)[i]);
                    }
                }
            }
            k += 1;
        }
        proof {
            assert(self.cells@.take(self.cells@.len() as int) =~= self.cells@);
        }
        true
    }

    /// Whether piece `self_id` may take the cells `next`: every cell in the
    /// playable rectangle, and empty or already owned by that piece.
    pub fn can_place(next: &Vec<Cell>, g: &Grid, self_id: i32) -> (ok: bool)
        requires
            g.wf(),
        ensures
            ok == fits(g@, next@, self_id),
    {
        let mut k: usize = 0;
        while k < next.len()
            invariant
                k <= next@.len(),
                g.wf(),
                fits(g@, next@.take(k as int), self_id),
            decreases next@.len() - k,
        {
            let cell = next[k];
            if cell.c < 0 || cell.c >= COLS as i32 || cell.r < PLAY_TOP as i32 || cell.r
                > PLAY_BOTTOM as i32 {
                assert(next@[k as int] == cell);
                return false;
            }
            let ch = g.get(cell.r as usize, cell.c as usize);
            let bid = g.get_block_id(cell.r as usize, cell.c as usize);
            if ch != BLANK && bid != self_id {
                assert(next@[k as int] == cell);
                return false;
            }
            proof {
                let upto = next@.take(k + 1);
                assert forall|i: int| 0 <= i < upto.len() implies {
                    &&& PLAY_TOP <= (#[trigger] upto[i]).r <= PLAY_BOTTOM
                    &&& 0 <= upto[i].c < COLS
                    &&& (g@.glyphs[upto[i].r as int][upto[i].c as int] == BLANK
                        || g@.owners[upto[i].r as int][upto[i].c as int] == self_id)
                } by {
                    if i < k {
                        assert(upto[i] == next@.take(k as int)[i]);
                    }
                }
            }
            k += 1;
        }
        proof {
            assert(next@.take(next@.len() as int) =~= next@);
        }
        true
    }

    /// Lifts the piece off the grid and sets it down at `next` if `accept` holds
    /// and it fits there, else where it stood.
    fn relocate(&mut self, g: &mut Grid, next: Vec<Cell>, accept: bool) -> (ok: bool)
        requires
            old(g).wf(),
            on_field(old(self).cells@),
        ensures
            final(g).wf(),
            (final(g)@, final(self).cells@, ok) == relocated(
                old(g)@,
                old(self).cells@,
                old(self).id,
                next@,
                accept,
            ),
            final(self).kind == old(self).kind,
            final(self).id == old(self).id,
            on_field(final(self).cells@),
    {
        self.clear_from_grid(g);
        if !accept || !Self::can_place(&next, g, self.id) {
            self.write_to_grid(g);
            return false;
        }
        proof {
            lemma_fits_on_field(g@, next@, self.id);
        }
        self.cells = next;
        self.write_to_grid(g);
        true
    }

    /// The cells of the piece moved by `dr` rows and `dc` columns.
    fn shifted_cells(&self, dr: i32, dc: i32) -> (next: Vec<Cell>)
        requires
            on_field(self.cells@),
            -1 <= dr <= 1,
            -1 <= dc <= 1,
        ensures
            next@ == shifted(self.cells@, dr as int, dc as int),
    {
        let mut next: Vec<Cell> = Vec::new();
        let mut k: usize = 0;
        while k < self.cells.len()
            invariant
                k <= self.cells@.len(),
                on_field(self.cells@),
                -1 <= dr <= 1,
                -1 <= dc <= 1,
                next@.len() == k,
                forall|i: int|
                    0 <= i < k ==> next@[i] == shifted(self.cells@, dr as int, dc as int)[i],
            decreases self.cells@.len() - k,
        {
            let cell = self.cells[k];
            next.push(Cell { r: cell.r + dr, c: cell.c + dc, ch: cell.ch });
            k += 1;
        }
        assert(next@ =~= shifted(self.cells@, dr as int, dc as int));
        next
    }

    /// Moves the piece one row down if it fits there. The grid is written in
    /// either case; a piece that does not fit stays where it is.
    pub fn move_down(&mut self, g: &mut Grid) -> (ok: bool)
        requires
            old(g).wf(),
            on_field(old(self).cells@),
        ensures
            final(g).wf(),
            (final(g)@, final(self).cells@, ok) == stepped(
                old(g)@,
                old(self).cells@,
                old(self).id,
                1,
                0,
            ),
            final(self).kind == old(self).kind,
            final(self).id == old(self).id,
            on_field(final(self).cells@),
    {
        let next = self.shifted_cells(1, 0);
        self.relocate(g, next, true)
    }

    /// Moves the piece one column to the left if it fits there.
    pub fn move_left(&mut self, g: &mut Grid) -> (ok: bool)
        requires
            old(g).wf(),
            on_field(old(self).cells@),
        ensures
            final(g).wf(),
            (final(g)@, final(self).cells@, ok) == stepped(
                old(g)@,
                old(self).cells@,
                old(self).id,
                0,
                -1,
            ),
            final(self).kind == old(self).kind,
            final(self).id == old(self).id,
            on_field(final(self).cells@),
    {
        let next = self.shifted_cells(0, -1);
        self.relocate(g, next, true)
    }

    /// Moves the piece one column to the right if it fits there.
    pub fn move_right(&mut self, g: &mut Grid) -> (ok: bool)
        requires
            old(g).wf(),
            on_field(old(self).cells@),
        ensures
            final(g).wf(),
            (final(g)@, final(self).cells@, ok) == stepped(
                old(g)@,
                old(self).cells@,
                old(self).id,
                0,
                1,
            ),
            final(self).kind == old(self).kind,
            final(self).id == old(self).id,
            on_field(final(self).cells@),
    {
        let next = self.shifted_cells(0, 1);
        self.relocate(g, next, true)
    }

    /// Hard drop: moves the piece down until it can go no further.
    pub fn drop(&mut self, g: &mut Grid)
        requires
            old(g).wf(),
            on_field(old(self).cells@),
            old(self).cells@.len() > 0,
        ensures
            final(g).wf(),
            (final(g)@, final(self).cells@) == dropped(old(g)@, old(self).cells@, old(self).id),
            final(self).kind == old(self).kind,
            final(self).id == old(self).id,
            on_field(final(self).cells@),
            final(self).cells@.len() == old(self).cells@.len(),
    {
        loop
            invariant_except_break
                dropped(g@, self.cells@, self.id) == dropped(
                    old(g)@,
                    old(self).cells@,
                    old(self).id,
                ),
            invariant
                g.wf(),
                on_field(self.cells@),
                self.cells@.len() == old(self).cells@.len(),
                self.cells@.len() > 0,
                self.kind == old(self).kind,
                self.id == old(self).id,
            ensures
                g.wf(),
                on_field(self.cells@),
                self.cells@.len() == old(self).cells@.len(),
                self.kind == old(self).kind,
                self.id == old(self).id,
                (g@, self.cells@) == dropped(old(g)@, old(self).cells@, old(self).id),
            decreases room_below(self.cells@),
        {
            let ghost before = self.cells@;
            let ghost grid_before = g@;
            let ok = self.move_down(g);
            proof {
                lemma_step_down_room(grid_before, before, self.id);
            }
            if !ok {
                break ;
            }
        }
    }
}

/// A step down that succeeds leaves less room below the piece.
pub proof fn lemma_step_down_room(v: GridView, cells: Seq<Cell>, id: i32)
    requires
        cells.len() > 0,
        on_field(cells),
    ensures
        stepped(v, cells, id, 1, 0).2 ==> room_below(stepped(v, cells, id, 1, 0).1) < room_below(
            cells,
        ),
        stepped(v, cells, id, 1, 0).1.len() == cells.len(),
{
    let next = shifted(cells, 1, 0);
    if stepped(v, cells, id, 1, 0).2 {
        assert(cells[0].r + 1 == next[0].r);
        assert(next[0].r <= PLAY_BOTTOM);
    }
}

/// The topmost row that any of the cells stands in.
pub open spec fn min_row(cells: Seq<Cell>) -> int
    decreases cells.len(),
{
    if cells.len() == 0 {
        i32::MAX as int
    } else if cells.last().r < min_row(cells.drop_last()) {
        cells.last().r as int
    } else {
        min_row(cells.drop_last())
    }
}

/// The lowest row that any of the cells stands in.
pub open spec fn max_row(cells: Seq<Cell>) -> int
    decreases cells.len(),
{
    if cells.len() == 0 {
        i32::MIN as int
    } else if cells.last().r > max_row(cells.drop_last()) {
        cells.last().r as int
    } else {
        max_row(cells.drop_last())
    }
}

/// The leftmost column that any of the cells stands in.
pub open spec fn min_col(cells: Seq<Cell>) -> int
    decreases cells.len(),
{
    if cells.len() == 0 {
        i32::MAX as int
    } else if cells.last().c < min_col(cells.drop_last()) {
        cells.last().c as int
    } else {
        min_col(cells.drop_last())
    }
}

/// The rightmost column that any of the cells stands in.
pub open spec fn max_col(cells: Seq<Cell>) -> int
    decreases cells.len(),
{
    if cells.len() == 0 {
        i32::MIN as int
    } else if cells.last().c > max_col(cells.drop_last()) {
        cells.last().c as int
    } else {
        max_col(cells.drop_last())
    }
}

/// The number of rows of the bounding box of the cells.
pub open spec fn height(cells: Seq<Cell>) -> int {
    max_row(cells) - min_row(cells) + 1
}

/// The number of columns of the bounding box of the cells.
pub open spec fn width(cells: Seq<Cell>) -> int {
    max_col(cells) - min_col(cells) + 1
}

/// The glyph that the cells show at `(r, c)`: that of the last cell there, a
/// blank where there is none.
pub open spec fn glyph_at(cells: Seq<Cell>, r: int, c: int) -> char
    decreases cells.len(),
{
    if cells.len() == 0 {
        BLANK
    } else if cells.last().r == r && cells.last().c == c {
        cells.last().ch
    } else {
        glyph_at(cells.drop_last(), r, c)
    }
}

/// The glyph in row `x`, column `y` of the bounding box after a quarter turn.
/// The box then has `width` rows and `height` columns. Clockwise, its row `x`
/// is column `x` of the old box read from the bottom up; counter-clockwise, its
/// row `x` is column `x` from the right of the old box, read from the top down.
pub open spec fn turned_glyph(cells: Seq<Cell>, cw: bool, x: int, y: int) -> char {
    if cw {
        glyph_at(cells, max_row(cells) - y, min_col(cells) + x)
    } else {
        glyph_at(cells, min_row(cells) + y, max_col(cells) - x)
    }
}

/// The cell in row `x`, column `y` of the turned box, placed on the grid: the
/// bottom left corner of the box stays where it was.
pub open spec fn turned_cell(cells: Seq<Cell>, cw: bool, x: int, y: int) -> Cell {
    Cell {
        r: (max_row(cells) - (width(cells) - 1 - x)) as i32,
        c: (min_col(cells) + y) as i32,
        ch: turned_glyph(cells, cw, x, y),
    }
}

/// The cells of row `x` of the turned box in the columns before `upto`, from
/// left to right.
pub open spec fn turned_row(cells: Seq<Cell>, cw: bool, x: int, upto: int) -> Seq<Cell>
    decreases upto,
{
    if upto <= 0 {
        Seq::empty()
    } else if turned_glyph(cells, cw, x, upto - 1) != BLANK {
        turned_row(cells, cw, x, upto - 1).push(turned_cell(cells, cw, x, upto - 1))
    } else {
        turned_row(cells, cw, x, upto - 1)
    }
}

/// The cells of the rows before `upto` of the turned box, row by row.
pub open spec fn turned_rows(cells: Seq<Cell>, cw: bool, upto: int) -> Seq<Cell>
    decreases upto,
{
    if upto <= 0 {
        Seq::empty()
    } else {
        turned_rows(cells, cw, upto - 1) + turned_row(cells, cw, upto - 1, height(cells))
    }
}

/// The cells of the piece after a quarter turn, clockwise or counter-clockwise,
/// about the bottom left corner of its bounding box, in reading order.
pub open spec fn turned(cells: Seq<Cell>, cw: bool) -> Seq<Cell> {
    turned_rows(cells, cw, width(cells))
}

/// The outcome of a quarter turn: it is taken where it keeps the number of
/// cells and the turned cells fit.
pub open spec fn rotated(v: GridView, cells: Seq<Cell>, id: i32, cw: bool) -> (
    GridView,
    Seq<Cell>,
    bool,
) {
    relocated(v, cells, id, turned(cells, cw), turned(cells, cw).len() == cells.len())
}

/// Every cell lies in the bounding box, and the box is no larger than the
/// field that holds the cells.
pub proof fn lemma_bounding_box(cells: Seq<Cell>)
    requires
        cells.len() > 0,
        on_field(cells),
    ensures
        0 <= min_row(cells) <= max_row(cells) < ROWS_TOTAL,
        0 <= min_col(cells) <= max_col(cells) < COLS,
        forall|i: int|
            0 <= i < cells.len() ==> min_row(cells) <= (#[trigger] cells[i]).r <= max_row(cells)
                && min_col(cells) <= cells[i].c <= max_col(cells),
    decreases cells.len(),
{
    let front = cells.drop_last();
    if front.len() > 0 {
        lemma_bounding_box(front);
        assert forall|i: int| 0 <= i < cells.len() implies min_row(cells) <= (#[trigger] cells[i]).r
            <= max_row(cells) && min_col(cells) <= cells[i].c <= max_col(cells) by {
            if i < front.len() {
                assert(cells[i] == front[i]);
            }
        }
    } else {
        assert(min_row(front) == i32::MAX);
        assert(max_row(front) == i32::MIN);
        assert(min_col(front) == i32::MAX);
        assert(max_col(front) == i32::MIN);
    }
}

/// The bounding box of the cells, as top row, bottom row, left column, right
/// column.
fn bounding_box(cells: &Vec<Cell>) -> (b: (i32, i32, i32, i32))
    ensures
        b.0 == min_row(cells@),
        b.1 == max_row(cells@),
        b.2 == min_col(cells@),
        b.3 == max_col(cells@),
{
    let mut min_r: i32 = i32::MAX;
    let mut max_r: i32 = i32::MIN;
    let mut min_c: i32 = i32::MAX;
    let mut max_c: i32 = i32::MIN;
    let mut k: usize = 0;
    proof {
        assert(cells@.take(0) =~= Seq::<Cell>::empty());
    }
    while k < cells.len()
        invariant
            k <= cells@.len(),
            min_r == min_row(cells@.take(k as int)),
            max_r == max_row(cells@.take(k as int)),
            min_c == min_col(cells@.take(k as int)),
            max_c == max_col(cells@.take(k as int)),
        decreases cells@.len() - k,
    {
        let e = cells[k];
        proof {
            let upto = cells@.take(k + 1);
            assert(upto.drop_last() =~= cells@.take(k as int));
            assert(upto.last() == e);
        }
        if e.r < min_r {
            min_r = e.r;
        }
        if e.r > max_r {
            max_r = e.r;
        }
        if e.c < min_c {
            min_c = e.c;
        }
        if e.c > max_c {
            max_c = e.c;
        }
        k += 1;
    }
    proof {
        assert(cells@.take(cells@.len() as int) =~= cells@);
    }
    (min_r, max_r, min_c, max_c)
}

/// A matrix of `rows` rows of `cols` blanks.
fn blank_matrix(rows: usize, cols: usize) -> (m: Vec<Vec<char>>)
    ensures
        m@.len() == rows,
        forall|r: int| 0 <= r < rows ==> (#[trigger] m@[r])@.len() == cols,
        forall|r: int, c: int| 0 <= r < rows && 0 <= c < cols ==> (#[trigger] m@[r]@[c]) == BLANK,
{
    let mut m: Vec<Vec<char>> = Vec::new();
    let mut r: usize = 0;
    while r < rows
        invariant
            r <= rows,
            m@.len() == r,
            forall|k: int| 0 <= k < r ==> (#[trigger] m@[k])@.len() == cols,
            forall|k: int, c: int| 0 <= k < r && 0 <= c < cols ==> (#[trigger] m@[k]@[c]) == BLANK,
        decreases rows - r,
    {
        let mut row: Vec<char> = Vec::new();
        let mut c: usize = 0;
        while c < cols
            invariant
                c <= cols,
                row@.len() == c,
                forall|j: int| 0 <= j < c ==> row@[j] == BLANK,
            decreases cols - c,
        {
            row.push(BLANK);
            c += 1;
        }
        m.push(row);
        r += 1;
    }
    m
}

/// The bounding box of the cells as a dense matrix of glyphs, blank where no
/// cell stands.
fn occupancy(cells: &Vec<Cell>, min_r: i32, min_c: i32, h: usize, w: usize) -> (local: Vec<Vec<char>>)
    requires
        cells@.len() > 0,
        on_field(cells@),
        min_r == min_row(cells@),
        min_c == min_col(cells@),
        h == height(cells@),
        w == width(cells@),
    ensures
        local@.len() == h,
        forall|r: int| 0 <= r < h ==> (#[trigger] local@[r])@.len() == w,
        forall|r: int, c: int|
            0 <= r < h && 0 <= c < w ==> (#[trigger] local@[r]@[c]) == glyph_at(
                cells@,
                min_r + r,
                min_c + c,
            ),
{
    let mut local = blank_matrix(h, w);
    let mut k: usize = 0;
    proof {
        lemma_bounding_box(cells@);
        assert(cells@.take(0) =~= Seq::<Cell>::empty());
    }
    while k < cells.len()
        invariant
            k <= cells@.len(),
            on_field(cells@),
            0 <= min_r,
            0 <= min_c,
            forall|i: int|
                0 <= i < cells@.len() ==> min_r <= (#[trigger] cells@[i]).r < min_r + h && min_c
                    <= cells@[i].c < min_c + w,
            local@.len() == h,
            forall|r: int| 0 <= r < h ==> (#[trigger] local@[r])@.len() == w,
            forall|r: int, c: int|
                0 <= r < h && 0 <= c < w ==> (#[trigger] local@[r]@[c]) == glyph_at(
                    cells@.take(k as int),
                    min_r + r,
                    min_c + c,
                ),
        decreases cells@.len() - k,
    {
        let e = cells[k];
        let lr: usize = (e.r - min_r) as usize;
        let lc: usize = (e.c - min_c) as usize;
        proof {
            let upto = cells@.take(k + 1);
            assert(upto.drop_last() =~= cells@.take(k as int));
            assert(upto.last() == e);
        }
        local[lr][lc] = e.ch;
        k += 1;
    }
    proof {
        assert(cells@.take(cells@.len() as int) =~= cells@);
    }
    local
}

/// The matrix `local`, of `h` rows and `w` columns, after a quarter turn: a
/// matrix of `w` rows and `h` columns.
fn quarter_turn(local: &Vec<Vec<char>>, h: usize, w: usize, cw: bool) -> (rot: Vec<Vec<char>>)
    requires
        local@.len() == h,
        forall|r: int| 0 <= r < h ==> (#[trigger] local@[r])@.len() == w,
    ensures
        rot@.len() == w,
        forall|x: int| 0 <= x < w ==> (#[trigger] rot@[x])@.len() == h,
        forall|x: int, y: int|
            0 <= x < w && 0 <= y < h ==> (#[trigger] rot@[x]@[y]) == if cw {
                local@[h - 1 - y]@[x]
            } else {
                local@[y]@[w - 1 - x]
            },
{
    let mut rot: Vec<Vec<char>> = Vec::new();
    let mut x: usize = 0;
    while x < w
        invariant
            x <= w,
            local@.len() == h,
            forall|r: int| 0 <= r < h ==> (#[trigger] local@[r])@.len() == w,
            rot@.len() == x,
            forall|i: int| 0 <= i < x ==> (#[trigger] rot@[i])@.len() == h,
            forall|i: int, y: int|
                0 <= i < x && 0 <= y < h ==> (#[trigger] rot@[i]@[y]) == if cw {
                    local@[h - 1 - y]@[i]
                } else {
                    local@[y]@[w - 1 - i]
                },
        decreases w - x,
    {
        let mut row: Vec<char> = Vec::new();
        let mut y: usize = 0;
        while y < h
            invariant
                y <= h,
                x < w,
                local@.len() == h,
                forall|r: int| 0 <= r < h ==> (#[trigger] local@[r])@.len() == w,
                row@.len() == y,
                forall|j: int|
                    0 <= j < y ==> (#[trigger] row@[j]) == if cw {
                        local@[h - 1 - j]@[x as int]
                    } else {
                        local@[j]@[w - 1 - x]
                    },
            decreases h - y,
        {
            let ch = if cw {
                local[h - 1 - y][x]
            } else {
                local[y][w - 1 - x]
            };
            row.push(ch);
            y += 1;
        }
        rot.push(row);
        x += 1;
    }
    rot
}

impl Block {
    /// Turns the piece a quarter turn clockwise about the bottom left corner of
    /// its bounding box, if the turned piece has as many cells and fits.
    pub fn rotate_cw(&mut self, g: &mut Grid) -> (ok: bool)
        requires
            old(g).wf(),
            on_field(old(self).cells@),
            old(self).cells@.len() > 0,
        ensures
            final(g).wf(),
            (final(g)@, final(self).cells@, ok) == rotated(
                old(g)@,
                old(self).cells@,
                old(self).id,
                true,
            ),
            final(self).kind == old(self).kind,
            final(self).id == old(self).id,
            on_field(final(self).cells@),
            final(self).cells@.len() == old(self).cells@.len(),
    {
        self.rotate(g, true)
    }

    /// Turns the piece a quarter turn counter-clockwise about the bottom left
    /// corner of its bounding box, if the turned piece has as many cells and
    /// fits.
    pub fn rotate_ccw(&mut self, g: &mut Grid) -> (ok: bool)
        requires
            old(g).wf(),
            on_field(old(self).cells@),
            old(self).cells@.len() > 0,
        ensures
            final(g).wf(),
            (final(g)@, final(self).cells@, ok) == rotated(
                old(g)@,
                old(self).cells@,
                old(self).id,
                false,
            ),
            final(self).kind == old(self).kind,
            final(self).id == old(self).id,
            on_field(final(self).cells@),
            final(self).cells@.len() == old(self).cells@.len(),
    {
        self.rotate(g, false)
    }

    /// Turns the piece a quarter turn. The occupancy of the bounding box is
    /// turned as a matrix and set back on the grid with its bottom left corner
    /// where that of the old box was.
    pub fn rotate(&mut self, g: &mut Grid, cw: bool) -> (ok: bool)
        requires
            old(g).wf(),
            on_field(old(self).cells@),
            old(self).cells@.len() > 0,
        ensures
            final(g).wf(),
            (final(g)@, final(self).cells@, ok) == rotated(
                old(g)@,
                old(self).cells@,
                old(self).id,
                cw,
            ),
            final(self).kind == old(self).kind,
            final(self).id == old(self).id,
            on_field(final(self).cells@),
            final(self).cells@.len() == old(self).cells@.len(),
    {
        let ghost cells = self.cells@;
        proof {
            lemma_bounding_box(cells);
        }
        let (min_r, max_r, min_c, max_c) = bounding_box(&self.cells);
        let h: usize = (max_r - min_r + 1) as usize;
        let w: usize = (max_c - min_c + 1) as usize;
        let local = occupancy(&self.cells, min_r, min_c, h, w);
        let rot = quarter_turn(&local, h, w, cw);
        assert forall|x: int, y: int| 0 <= x < w && 0 <= y < h implies (#[trigger] rot@[x]@[y])
            == turned_glyph(cells, cw, x, y) by {
            if cw {
                assert(rot@[x]@[y] == local@[h - 1 - y]@[x]);
            } else {
                assert(rot@[x]@[y] == local@[y]@[w - 1 - x]);
            }
        }
        let base_r = max_r;
        let base_c = min_c;
        let mut new_cells: Vec<Cell> = Vec::new();
        let mut r: usize = 0;
        while r < w
            invariant
                r <= w,
                w == width(cells),
                h == height(cells),
                1 <= w <= COLS,
                1 <= h <= ROWS_TOTAL,
                base_r == max_row(cells),
                base_c == min_col(cells),
                0 <= base_r < ROWS_TOTAL,
                0 <= base_c < COLS,
                rot@.len() == w,
                forall|x: int| 0 <= x < w ==> (#[trigger] rot@[x])@.len() == h,
                forall|x: int, y: int|
                    0 <= x < w && 0 <= y < h ==> (#[trigger] rot@[x]@[y]) == turned_glyph(
                        cells,
                        cw,
                        x,
                        y,
                    ),
                new_cells@ == turned_rows(cells, cw, r as int),
            decreases w - r,
        {
            let ghost done = new_cells@;
            let mut c: usize = 0;
            while c < h
                invariant
                    c <= h,
                    r < w,
                    w == width(cells),
                    h == height(cells),
                    1 <= w <= COLS,
                    1 <= h <= ROWS_TOTAL,
                    base_r == max_row(cells),
                    base_c == min_col(cells),
                    0 <= base_r < ROWS_TOTAL,
                    0 <= base_c < COLS,
                    rot@.len() == w,
                    rot@[r as int]@.len() == h,
                    forall|y: int|
                        0 <= y < h ==> (#[trigger] rot@[r as int]@[y]) == turned_glyph(
                            cells,
                            cw,
                            r as int,
                            y,
                        ),
                    new_cells@ == done + turned_row(cells, cw, r as int, c as int),
                decreases h - c,
            {
                let ch = rot[r][c];
                if ch != BLANK {
                    let nr: i32 = base_r - ((w - 1 - r) as i32);
                    let nc: i32 = base_c + (c as i32);
                    new_cells.push(Cell { r: nr, c: nc, ch });
                }
                proof {
                    assert(new_cells@ =~= done + turned_row(cells, cw, r as int, c + 1));
                }
                c += 1;
            }
            r += 1;
        }
        let accept = new_cells.len() == self.cells.len();
        self.relocate(g, new_cells, accept)
    }
}

/// Whether the cells could go one row down on the grid as it stands: each
/// would stay in the playable rectangle and come to a cell that is empty or
/// owned by piece `id`.
pub open spec fn can_sink(v: GridView, cells: Seq<Cell>, id: i32) -> bool {
    forall|i: int|
        0 <= i < cells.len() ==> (#[trigger] cells[i]).r + 1 <= PLAY_BOTTOM && (v.glyphs[cells[i].r
            + 1][cells[i].c as int] == BLANK || v.owner_at(cells[i].r + 1, cells[i].c as int) == id)
}

/// Where the piece would come to rest if it were dropped on the grid as it
/// stands, the grid unchanged.
pub open spec fn resting_place(v: GridView, cells: Seq<Cell>, id: i32) -> Seq<Cell>
    decreases room_below(cells),
{
    if can_sink(v, cells, id) && room_below(shifted(cells, 1, 0)) < room_below(cells) {
        resting_place(v, shifted(cells, 1, 0), id)
    } else {
        cells
    }
}

/// The rows and columns of the cells.
pub open spec fn positions(cells: Seq<Cell>) -> Seq<(i32, i32)> {
    Seq::new(cells.len(), |i: int| (cells[i].r, cells[i].c))
}

impl Block {
    /// Whether the cells could go one row down on the grid as it stands.
    fn may_sink(cells: &Vec<Cell>, g: &Grid, id: i32) -> (ok: bool)
        requires
            g.wf(),
            on_field(cells@),
        ensures
            ok == can_sink(g@, cells@, id),
    {
        let mut k: usize = 0;
        while k < cells.len()
            invariant
                k <= cells@.len(),
                g.wf(),
                on_field(cells@),
                can_sink(g@, cells@.take(k as int), id),
            decreases cells@.len() - k,
        {
            let cell = cells[k];
            let nr = cell.r + 1;
            if nr > PLAY_BOTTOM as i32 {
                assert(cells@[k as int] == cell);
                return false;
            }
            let ch = g.get(nr as usize, cell.c as usize);
            let bid = g.get_block_id(nr as usize, cell.c as usize);
            if ch != BLANK && bid != id {
                assert(cells@[k as int] == cell);
                return false;
            }
            proof {
                let upto = cells@.take(k + 1);
                assert forall|i: int| 0 <= i < upto.len() implies (#[trigger] upto[i]).r + 1
                    <= PLAY_BOTTOM && (g@.glyphs[upto[i].r + 1][upto[i].c as int] == BLANK
                    || g@.owner_at(upto[i].r + 1, upto[i].c as int) == id) by {
                    if i < k {
                        assert(upto[i] == cells@.take(k as int)[i]);
                    }
                }
            }
            k += 1;
        }
        proof {
            assert(cells@.take(cells@.len() as int) =~= cells@);
        }
        true
    }

    /// The positions at which the piece would come to rest if it were dropped,
    /// found without moving the piece: it goes down while every cell below is
    /// empty or its own.
    pub fn phantom_positions(&self, g: &Grid) -> (landing: Vec<(i32, i32)>)
        requires
            g.wf(),
            on_field(self.cells@),
            self.cells@.len() > 0,
        ensures
            landing@ == positions(resting_place(g@, self.cells@, self.id)),
    {
        let mut cells: Vec<Cell> = self.shifted_cells(0, 0);
        assert(cells@ =~= self.cells@);
        loop
            invariant_except_break
                resting_place(g@, cells@, self.id) == resting_place(g@, self.cells@, self.id),
            invariant
                g.wf(),
                on_field(cells@),
                cells@.len() > 0,
            ensures
                cells@ == resting_place(g@, self.cells@, self.id),
            decreases room_below(cells@),
        {
            if !Self::may_sink(&cells, g, self.id) {
                break ;
            }
            let ghost before = cells@;
            let mut next: Vec<Cell> = Vec::new();
            let mut k: usize = 0;
            while k < cells.len()
                invariant
                    k <= cells@.len(),
                    can_sink(g@, cells@, self.id),
                    on_field(cells@),
                    next@.len() == k,
                    forall|i: int| 0 <= i < k ==> next@[i] == shifted(cells@, 1, 0)[i],
                decreases cells@.len() - k,
            {
                let cell = cells[k];
                next.push(Cell { r: cell.r + 1, c: cell.c, ch: cell.ch });
                k += 1;
            }
            assert(next@ =~= shifted(cells@, 1, 0));
            cells = next;
            proof {
                assert(before[0].r + 1 == cells@[0].r);
                assert forall|i: int| 0 <= i < cells@.len() implies 0 <= (#[trigger] cells@[i]).r
                    < ROWS_TOTAL && 0 <= cells@[i].c < COLS by {
                    assert(cells@[i].r == before[i].r + 1);
                }
            }
        }
        let mut landing: Vec<(i32, i32)> = Vec::new();
        let mut k: usize = 0;
        while k < cells.len()
            invariant
                k <= cells@.len(),
                landing@.len() == k,
                forall|i: int| 0 <= i < k ==> landing@[i] == positions(cells@)[i],
            decreases cells@.len() - k,
        {
            landing.push((cells[k].r, cells[k].c));
            k += 1;
        }
        assert(landing@ =~= positions(cells@));
        landing
    }
}

} // verus!

//! The bookkeeping of owners: in play, a cell of the playable rectangle is
//! empty exactly when no piece owns it. Every step of a match keeps it so.

use crate::block::{
    dropped, erased, fits, fresh_block, inked, lemma_dropped_shaped, lemma_erased_shaped,
    lemma_fits_on_field, lemma_put_shaped, lemma_relocated_shaped, lemma_spawn_layout, may_spawn,
    on_field, put, relocated, room_below, rotated, shifted, spawn_layout, stepped, turned, BlockKind,
    Cell,
};
use crate::game::{forced_kind, is_opening, moved_by, opponent_of, Action, GameView};
use crate::grid::{
    blank_row, fresh_grid, is_play_row, lemma_compacted_owners_match, lemma_compacted_shaped,
    lemma_lost_from_bounds, lemma_score_added_twice, preview_glyphs, GridView, BLANK, COLS,
    PLAY_BOTTOM, PLAY_TOP, ROWS_TOTAL, UNOWNED,
};
use crate::player::{
    bonus_total, lemma_landing_fits, lemma_moves_keep_ready, lemma_settle_gain_bound,
    lemma_spawn_rows, preview_cells, struck, PlayerView,
};
use crate::text::digit_char;
use crate::turns::{lemma_on_field_within, lemma_turned_shape, PIECE_REACH};
use vstd::prelude::*;

verus! {

/// Writing a glyph with an owner, or a blank without one, keeps owners and
/// glyphs in step.
pub proof fn lemma_with_cell_match(v: GridView, r: int, c: int, ch: char, id: i32)
    requires
        v.shaped(),
        v.owners_match(),
        0 <= r < ROWS_TOTAL,
        0 <= c < COLS,
        (ch == BLANK) <==> (id == UNOWNED),
    ensures
        v.with_cell(r, c, ch, id).owners_match(),
{
    let w = v.with_cell(r, c, ch, id);
    assert forall|x: int, y: int| is_play_row(x) && 0 <= y < COLS implies ((
    #[trigger] w.owners[x][y] == UNOWNED) <==> w.glyphs[x][y] == BLANK) by {
        assert((v.owners[x][y] == UNOWNED) <==> v.glyphs[x][y] == BLANK);
        assert(v.glyphs[x].len() == COLS && v.owners[x].len() == COLS);
    }
}

/// Writing the cells of a piece keeps owners and glyphs in step.
pub proof fn lemma_put_match(v: GridView, cells: Seq<Cell>, id: i32)
    requires
        v.shaped(),
        v.owners_match(),
        on_field(cells),
        inked(cells),
        id != UNOWNED,
    ensures
        put(v, cells, id).owners_match(),
    decreases cells.len(),
{
    if cells.len() > 0 {
        let front = cells.drop_last();
        assert forall|i: int| 0 <= i < front.len() implies (#[trigger] front[i]).ch != BLANK by {
            assert(front[i] == cells[i]);
        }
        lemma_put_match(v, front, id);
        lemma_put_shaped(v, front, id);
        lemma_with_cell_match(
            put(v, front, id),
            cells.last().r as int,
            cells.last().c as int,
            cells.last().ch,
            id,
        );
    }
}

/// Emptying cells keeps owners and glyphs in step.
pub proof fn lemma_erased_match(v: GridView, cells: Seq<Cell>)
    requires
        v.shaped(),
        v.owners_match(),
        on_field(cells),
    ensures
        erased(v, cells).owners_match(),
    decreases cells.len(),
{
    if cells.len() > 0 {
        let front = cells.drop_last();
        lemma_erased_match(v, front);
        lemma_erased_shaped(v, front);
        lemma_with_cell_match(
            erased(v, front),
            cells.last().r as int,
            cells.last().c as int,
            BLANK,
            UNOWNED,
        );
    }
}

/// Lifting a piece and setting it down keeps owners and glyphs in step, and
/// the piece free of blanks.
pub proof fn lemma_relocated_match(
    v: GridView,
    cells: Seq<Cell>,
    id: i32,
    next: Seq<Cell>,
    accept: bool,
)
    requires
        v.shaped(),
        v.owners_match(),
        on_field(cells),
        inked(cells),
        inked(next),
        id != UNOWNED,
    ensures
        relocated(v, cells, id, next, accept).0.owners_match(),
        inked(relocated(v, cells, id, next, accept).1),
{
    let bare = erased(v, cells);
    lemma_erased_shaped(v, cells);
    lemma_erased_match(v, cells);
    if accept && fits(bare, next, id) {
        lemma_fits_on_field(bare, next, id);
        lemma_put_match(bare, next, id);
    } else {
        lemma_put_match(bare, cells, id);
    }
}

/// A piece that is moved shows the glyphs it showed.
pub proof fn lemma_shifted_inked(cells: Seq<Cell>, dr: int, dc: int)
    requires
        inked(cells),
    ensures
        inked(shifted(cells, dr, dc)),
{
}

/// A hard drop keeps owners and glyphs in step, and the piece free of blanks.
pub proof fn lemma_dropped_match(v: GridView, cells: Seq<Cell>, id: i32)
    requires
        v.shaped(),
        v.owners_match(),
        on_field(cells),
        inked(cells),
        id != UNOWNED,
    ensures
        dropped(v, cells, id).0.owners_match(),
        inked(dropped(v, cells, id).1),
    decreases room_below(cells),
{
    let after = stepped(v, cells, id, 1, 0);
    lemma_shifted_inked(cells, 1, 0);
    lemma_relocated_shaped(v, cells, id, shifted(cells, 1, 0), true);
    lemma_relocated_match(v, cells, id, shifted(cells, 1, 0), true);
    if after.2 && room_below(after.1) < room_below(cells) {
        lemma_dropped_match(after.0, after.1, id);
    }
}

/// A quarter turn keeps owners and glyphs in step, and the piece free of
/// blanks.
pub proof fn lemma_rotated_match(v: GridView, cells: Seq<Cell>, id: i32, cw: bool)
    requires
        v.shaped(),
        v.owners_match(),
        cells.len() > 0,
        on_field(cells),
        inked(cells),
        id != UNOWNED,
    ensures
        rotated(v, cells, id, cw).0.owners_match(),
        inked(rotated(v, cells, id, cw).1),
{
    lemma_on_field_within(cells);
    lemma_turned_shape(cells, cw, PIECE_REACH as int);
    lemma_relocated_match(
        v,
        cells,
        id,
        turned(cells, cw),
        turned(cells, cw).len() == cells.len(),
    );
}

/// Drawing the preview of a kind leaves the playable rectangle as it is, and
/// every row as long as it was.
pub proof fn lemma_preview_spares_play_rows(glyphs: Seq<Seq<char>>, kind: BlockKind, n: int)
    requires
        glyphs.len() == ROWS_TOTAL,
        forall|r: int| 0 <= r < ROWS_TOTAL ==> (#[trigger] glyphs[r]).len() == COLS,
        0 <= n <= preview_cells(kind).len(),
    ensures
        preview_glyphs(glyphs, preview_cells(kind).take(n)).len() == ROWS_TOTAL,
        forall|r: int|
            is_play_row(r) ==> #[trigger] preview_glyphs(glyphs, preview_cells(kind).take(n))[r]
                == glyphs[r],
        forall|r: int|
            0 <= r < ROWS_TOTAL ==> (#[trigger] preview_glyphs(
                glyphs,
                preview_cells(kind).take(n),
            )[r]).len() == COLS,
    decreases n,
{
    let cells = preview_cells(kind).take(n);
    if n > 0 {
        lemma_preview_spares_play_rows(glyphs, kind, n - 1);
        lemma_spawn_rows(kind);
        assert(cells.drop_last() =~= preview_cells(kind).take(n - 1));
        assert(cells.last() == preview_cells(kind)[n - 1]);
        assert(cells.last().0 == spawn_layout(kind)[n - 1].r);
    }
}

impl PlayerView {
    /// Owners and glyphs are in step on the grid, the falling piece shows no
    /// blank and has an owner's id, and so will every piece to come.
    pub open spec fn tidy(self) -> bool {
        &&& self.grid.owners_match()
        &&& inked(self.cur.cells)
        &&& self.cur.id != UNOWNED
        &&& self.next_block_id >= 1
    }
}

/// Drawing the preview anew keeps a state tidy.
pub proof fn lemma_preview_tidy(p: PlayerView)
    requires
        p.wf(),
        p.tidy(),
    ensures
        p.with_preview_refreshed().tidy(),
        p.with_preview_refreshed().wf(),
{
    let cells = preview_cells(p.next_kind);
    lemma_preview_spares_play_rows(p.grid.glyphs, p.next_kind, cells.len() as int);
    assert(cells.take(cells.len() as int) =~= cells);
    let w = p.with_preview_refreshed().grid;
    assert forall|x: int, y: int| is_play_row(x) && 0 <= y < COLS implies ((
    #[trigger] w.owners[x][y] == UNOWNED) <==> w.glyphs[x][y] == BLANK) by {
        assert((p.grid.owners[x][y] == UNOWNED) <==> p.grid.glyphs[x][y] == BLANK);
    }
}

/// A step, a turn and a drop of the falling piece keep a state tidy.
pub proof fn lemma_moves_tidy(p: PlayerView, dr: int, dc: int, cw: bool)
    requires
        p.wf(),
        p.tidy(),
    ensures
        p.stepped_by(dr, dc).0.tidy(),
        p.stepped_by(dr, dc).0.wf(),
        p.rotated_by(cw).0.tidy(),
        p.rotated_by(cw).0.wf(),
        p.hard_dropped().tidy(),
        p.hard_dropped().wf(),
{
    lemma_shifted_inked(p.cur.cells, dr, dc);
    lemma_relocated_match(p.grid, p.cur.cells, p.cur.id, shifted(p.cur.cells, dr, dc), true);
    lemma_relocated_shaped(p.grid, p.cur.cells, p.cur.id, shifted(p.cur.cells, dr, dc), true);
    lemma_rotated_match(p.grid, p.cur.cells, p.cur.id, cw);
    lemma_relocated_shaped(
        p.grid,
        p.cur.cells,
        p.cur.id,
        turned(p.cur.cells, cw),
        turned(p.cur.cells, cw).len() == p.cur.cells.len(),
    );
    lemma_dropped_match(p.grid, p.cur.cells, p.cur.id);
    lemma_dropped_shaped(p.grid, p.cur.cells, p.cur.id);
}

/// Sinking keeps a state tidy.
pub proof fn lemma_sunk_tidy(p: PlayerView, steps: int)
    requires
        p.wf(),
        p.tidy(),
    ensures
        p.sunk(steps).0.tidy(),
        p.sunk(steps).0.wf(),
    decreases steps,
{
    if steps > 0 {
        lemma_moves_tidy(p, 1, 0, true);
        if p.stepped_by(1, 0).1 {
            lemma_sunk_tidy(p.stepped_by(1, 0).0, steps - 1);
        }
    }
}

/// Settling a clear keeps a state tidy and consistent.
pub proof fn lemma_settled_tidy(p: PlayerView, hi: int)
    requires
        p.wf(),
        p.tidy(),
        p.settle_fits(),
    ensures
        p.settled(hi).0.tidy(),
        p.settled(hi).0.wf(),
        p.settled(hi).0.next_block_id == p.next_block_id,
        p.settled(hi).0.level == p.level,
        p.settled(hi).0.cur == p.cur,
{
    lemma_compacted_shaped(p.grid);
    lemma_compacted_owners_match(p.grid);
    lemma_settle_gain_bound(p);
    let n = p.grid.full_rows();
    let compact = p.grid.compacted();
    let scored = if n > 0 {
        compact.with_score_added(p.clear_gain())
    } else {
        compact
    };
    if n > 0 {
        lemma_score_added_twice(compact, p.clear_gain(), 0);
    }
    let total = bonus_total(p.registry, p.clear_loss(), p.cur.id);
    if total > 0 {
        lemma_score_added_twice(scored, total, 0);
    }
    let after = p.settled(hi).0;
    assert(after.grid.owners == compact.owners);
    assert forall|x: int, y: int| is_play_row(x) && 0 <= y < COLS implies ((
    #[trigger] after.grid.owners[x][y] == UNOWNED) <==> after.grid.glyphs[x][y] == BLANK) by {
        assert((compact.owners[x][y] == UNOWNED) <==> compact.glyphs[x][y] == BLANK);
    }
    assert forall|id: i32| after.registry.contains_key(id) implies 0 <= (
    #[trigger] after.registry[id]).origin_level <= 4 && after.registry[id].cells_remaining >= 0 by {
        assert(p.registry.contains_key(id));
        assert(0 <= p.registry[id].origin_level <= 4);
        if struck(p.registry, p.clear_loss(), p.cur.id, id) {
            lemma_lost_from_bounds(
                p.grid,
                id,
                PLAY_TOP as int,
                PLAY_BOTTOM as int + 1,
            );
        }
    }
}

/// Resolving a landing keeps a state tidy: whatever kind comes next, the state
/// after the landing is tidy and consistent.
pub proof fn lemma_landed_tidy(p: PlayerView, hi: int, drawn: BlockKind)
    requires
        p.wf(),
        p.tidy(),
        p.landing_fits(),
    ensures
        p.landed(hi, drawn).0.tidy(),
        p.landed(hi, drawn).0.wf(),
{
    lemma_settled_tidy(p, hi);
    lemma_settled_tidy(p, 0);
    let (b, hi_b) = p.locked(hi);
    assert(b.grid == p.locked(0).0.grid && b.registry == p.locked(0).0.registry && b.level
        == p.locked(0).0.level);
    assert(b.tidy() && b.wf());
    let (e, hi_e) = p.resolved(hi);
    if b.level.bonus_due() && b.bonus_can_enter() {
        let c = b.with_bonus_dropped();
        let star = spawn_layout(BlockKind::Star);
        let id = b.next_block_id;
        lemma_spawn_layout(BlockKind::Star);
        lemma_put_shaped(b.grid, star, id);
        lemma_put_match(b.grid, star, id);
        lemma_dropped_shaped(put(b.grid, star, id), star, id);
        lemma_dropped_match(put(b.grid, star, id), star, id);
        assert(c == p.locked(0).0.with_bonus_dropped());
        assert(c.wf());
        assert(c.tidy());
        lemma_settled_tidy(c, hi_b);
    }
    assert(e.tidy() && e.wf());
    let kind = e.next_kind;
    lemma_spawn_layout(kind);
    let id = e.next_block_id;
    if may_spawn(e.grid, spawn_layout(kind)) {
        lemma_put_shaped(e.grid, spawn_layout(kind), id);
        lemma_put_match(e.grid, spawn_layout(kind), id);
        let piece = fresh_block(kind, id);
        let entered = PlayerView {
            cur: piece,
            grid: put(e.grid, piece.cells, id),
            next_block_id: (id + 1) as i32,
            ..e
        }.registered(id, e.level.number as i32, piece.cells.len() as usize);
        let advanced = PlayerView { level: entered.level.advanced(), next_kind: drawn, ..entered };
        assert(advanced.wf());
        assert(advanced.tidy());
        lemma_preview_tidy(advanced);
    }
}

/// Replacing the falling piece keeps a state tidy and consistent.
pub proof fn lemma_force_replaced_tidy(p: PlayerView, kind: BlockKind)
    requires
        p.wf(),
        p.tidy(),
        p.next_block_id < i32::MAX,
    ensures
        p.force_replaced(kind).tidy(),
        p.force_replaced(kind).wf(),
{
    lemma_erased_shaped(p.grid, p.cur.cells);
    lemma_erased_match(p.grid, p.cur.cells);
    lemma_spawn_layout(kind);
    let bare = p.with_current_removed();
    if p.can_force(kind) {
        lemma_put_shaped(bare.grid, spawn_layout(kind), p.next_block_id);
        lemma_put_match(bare.grid, spawn_layout(kind), p.next_block_id);
    }
}

/// A move keeps a ready state tidy and consistent: whatever kind comes next if
/// the piece lands, the state after the move is tidy.
pub proof fn lemma_moved_tidy(p: PlayerView, action: Action, hi: int, drawn: BlockKind)
    requires
        p.ready(),
        p.tidy(),
    ensures
        moved_by(p, action, hi, drawn).0.tidy(),
        moved_by(p, action, hi, drawn).0.wf(),
{
    match action {
        Action::Left => lemma_shift_tidy(p, false, hi, drawn),
        Action::Right => lemma_shift_tidy(p, true, hi, drawn),
        Action::Down => {
            lemma_moves_tidy(p, 1, 0, true);
            lemma_moves_keep_ready(p, 1, 0, true);
            let (q, ok) = p.stepped_by(1, 0);
            lemma_land_tidy(q, hi, drawn);
            lemma_sunk_tidy(q, 1);
            lemma_sunk_ready(q, 1);
            lemma_land_tidy(q.sunk(1).0, hi, drawn);
        },
        Action::RotateCw => lemma_turn_tidy(p, true, hi, drawn),
        Action::RotateCcw => lemma_turn_tidy(p, false, hi, drawn),
        Action::Drop => {
            lemma_moves_tidy(p, 0, 0, true);
            lemma_moves_keep_ready(p, 0, 0, true);
            lemma_land_tidy(p.hard_dropped(), hi, drawn);
        },
    }
}

/// Sinking keeps a ready state ready.
proof fn lemma_sunk_ready(p: PlayerView, steps: int)
    requires
        p.ready(),
    ensures
        p.sunk(steps).0.ready(),
    decreases steps,
{
    if steps > 0 {
        lemma_moves_keep_ready(p, 1, 0, true);
        if p.stepped_by(1, 0).1 {
            lemma_sunk_ready(p.stepped_by(1, 0).0, steps - 1);
        }
    }
}

/// The landing of a ready and tidy state leaves a tidy state.
proof fn lemma_land_tidy(p: PlayerView, hi: int, drawn: BlockKind)
    requires
        p.ready(),
        p.tidy(),
    ensures
        p.landed_step(hi, drawn).0.tidy(),
        p.landed_step(hi, drawn).0.wf(),
{
    lemma_landing_fits(p);
    lemma_landed_tidy(p, hi, drawn);
}

/// A sideways move keeps a ready state tidy.
proof fn lemma_shift_tidy(p: PlayerView, right: bool, hi: int, drawn: BlockKind)
    requires
        p.ready(),
        p.tidy(),
    ensures
        p.after_shift(right, hi, drawn).0.tidy(),
        p.after_shift(right, hi, drawn).0.wf(),
{
    let dc = if right {
        1int
    } else {
        -1int
    };
    lemma_moves_tidy(p, 0, dc, true);
    lemma_moves_keep_ready(p, 0, dc, true);
    let (q, moved) = p.stepped_by(0, dc);
    lemma_sunk_tidy(q, q.extra_steps());
    lemma_sunk_ready(q, q.extra_steps());
    lemma_land_tidy(q.sunk(q.extra_steps()).0, hi, drawn);
}

/// A turn keeps a ready state tidy.
proof fn lemma_turn_tidy(p: PlayerView, cw: bool, hi: int, drawn: BlockKind)
    requires
        p.ready(),
        p.tidy(),
    ensures
        p.after_turn(cw, hi, drawn).0.tidy(),
        p.after_turn(cw, hi, drawn).0.wf(),
{
    lemma_moves_tidy(p, 0, 0, cw);
    lemma_moves_keep_ready(p, 0, 0, cw);
    let (q, turned) = p.rotated_by(cw);
    let steps = if p.level.heavy {
        1int
    } else {
        0int
    };
    lemma_sunk_tidy(q, steps);
    lemma_sunk_ready(q, steps);
    lemma_land_tidy(q.sunk(steps).0, hi, drawn);
}

/// The state with which a player starts is tidy.
pub proof fn lemma_opening_tidy(p: PlayerView, start_level: i32)
    requires
        is_opening(p, start_level),
    ensures
        p.tidy(),
{
    let first = p.cur.kind;
    let base = fresh_grid().with_level_glyph(digit_char(p.level.number));
    lemma_spawn_layout(first);
    assert(base.shaped()) by {
        assert forall|r: int| 0 <= r < ROWS_TOTAL implies (#[trigger] base.glyphs[r]).len()
            == COLS by {}
    }
    assert(base.owners_match()) by {
        assert forall|x: int, y: int| is_play_row(x) && 0 <= y < COLS implies ((
        #[trigger] base.owners[x][y] == UNOWNED) <==> base.glyphs[x][y] == BLANK) by {
            assert(base.glyphs[x] == blank_row());
        }
    }
    lemma_put_shaped(base, spawn_layout(first), 1);
    lemma_put_match(base, spawn_layout(first), 1);
    let placed = put(base, spawn_layout(first), 1);
    let cells = preview_cells(p.next_kind);
    lemma_preview_spares_play_rows(placed.glyphs, p.next_kind, cells.len() as int);
    assert(cells.take(cells.len() as int) =~= cells);
    assert forall|x: int, y: int| is_play_row(x) && 0 <= y < COLS implies ((
    #[trigger] p.grid.owners[x][y] == UNOWNED) <==> p.grid.glyphs[x][y] == BLANK) by {
        assert((placed.owners[x][y] == UNOWNED) <==> placed.glyphs[x][y] == BLANK);
    }
}

impl GameView {
    /// Both players are in a tidy state.
    pub open spec fn tidy(self) -> bool {
        self.p1.tidy() && self.p2.tidy()
    }
}

/// A move in a match keeps the match tidy.
pub proof fn lemma_action_tidy(g: GameView, idx: i32, action: Action, drawn: BlockKind)
    requires
        g.wf(),
        g.tidy(),
        g.running ==> g.player(idx).ready(),
    ensures
        g.after_action(idx, action, drawn).0.tidy(),
{
    if g.running {
        lemma_moved_tidy(g.player(idx), action, g.system_hi as int, drawn);
    }
}

/// The resolution of a landing keeps the match tidy.
pub proof fn lemma_landing_tidy(g: GameView, idx: i32, drawn: BlockKind)
    requires
        g.wf(),
        g.tidy(),
        g.running ==> g.player(idx).landing_fits(),
    ensures
        g.after_landing(idx, drawn).tidy(),
{
    if g.running {
        lemma_landed_tidy(g.player(idx), g.system_hi as int, drawn);
    }
}

/// A special action keeps the match tidy.
pub proof fn lemma_special_action_tidy(
    g: GameView,
    acting: i32,
    action: Seq<char>,
    param: Option<Seq<char>>,
)
    requires
        g.wf(),
        g.tidy(),
        action == "force"@ ==> g.player(opponent_of(acting)).next_block_id < i32::MAX,
    ensures
        g.after_special_action(acting, action, param).tidy(),
{
    let victim = g.player(opponent_of(acting));
    if action == "force"@ {
        match forced_kind(param) {
            Ok(kind) => {
                lemma_force_replaced_tidy(victim, kind);
            },
            Err(_) => {},
        }
    }
}

/// A change of level keeps the match tidy.
pub proof fn lemma_level_tidy(g: GameView, idx: i32, new_level: i32)
    requires
        g.wf(),
        g.tidy(),
    ensures
        g.with_level(idx, new_level).tidy(),
{
    let p = g.player(idx);
    let w = g.with_level(idx, new_level).player(idx).grid;
    assert forall|x: int, y: int| is_play_row(x) && 0 <= y < COLS implies ((
    #[trigger] w.owners[x][y] == UNOWNED) <==> w.glyphs[x][y] == BLANK) by {
        assert((p.grid.owners[x][y] == UNOWNED) <==> p.grid.glyphs[x][y] == BLANK);
    }
}

} // verus!

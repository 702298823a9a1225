//! The state of one player: grid, level policy, falling piece, preview,
//! effects, and the registry that follows each locked piece until its cells are
//! gone.

use crate::block::{
    dropped, erased, fresh_block, lemma_dropped_shaped, lemma_erased_shaped, lemma_put_shaped,
    lemma_relocated_shaped, lemma_spawn_layout, may_spawn, on_field, put, rotated, shifted,
    spawn_layout, stepped, turned, Block, BlockKind, BlockView, Cell, PREVIEW_ID,
};
use crate::effects::{all_lapsed, lemma_swept_is_empty, swept, Effect};
use crate::grid::{
    blank_row, fresh_grid, lemma_compacted_shaped, lemma_loss_attribution, lemma_lost_from_bounds,
    lemma_score_added_twice, tallied, Grid, GridView, COLS, PLAY_BOTTOM, PLAY_TOP, ROWS_TOTAL,
};
use crate::level::{
    clamped_level, generate_level, initial_level, initial_level_error, script_view, Level,
    LevelError, LevelView,
};
use crate::sums::{
    lemma_sum_over_insert, lemma_sum_over_le, lemma_sum_over_none, lemma_sum_over_same,
    lemma_sum_over_scale, lemma_sum_over_split, lemma_sum_over_subset, sum_over,
};
use crate::text::digit_char;
use rand::rngs::StdRng;
use std::collections::HashMap;
use vstd::prelude::*;
use vstd::std_specs::hash::{axiom_spec_hash_map_iter, spec_hash_map_iter};
use vstd::std_specs::iter::IteratorSpec;

verus! {

/// What the registry knows of a locked piece: the level it was placed on, and
/// how many of its cells are still on the grid.
#[derive(Debug, Clone, Copy, PartialEq, Eq, Structural)]
pub struct BlockInfo {
    pub origin_level: i32,
    pub cells_remaining: i32,
}

/// Why a player could not be set up, or a piece not be forced in.
#[derive(Debug, Clone, Copy, PartialEq, Eq, Structural)]
pub enum GameError {
    /// The level policy could not be made.
    Script(LevelError),
    /// The first piece cannot enter the grid.
    InitialSpawn,
    /// The forced piece cannot enter the grid.
    ForcedSpawn,
}

/// The state of one player.
pub struct PlayerState {
    pub grid: Grid,
    pub level: Level,
    /// The falling piece.
    pub cur: Block,
    /// The kind of the piece that falls next.
    pub next_kind: BlockKind,
    /// The piece that the preview shows; it has the preview id.
    pub next_preview: Block,
    /// The text of the player's sequence script; none where it could not be
    /// read.
    pub script: Option<String>,
    pub start_level: i32,
    pub effects: Vec<Effect>,
    /// The number of rows that the last lock cleared.
    pub last_cleared: i32,
    /// For each locked piece that still has cells on the grid, what is known of
    /// it.
    pub registry: HashMap<i32, BlockInfo>,
    /// The id that the next new piece gets.
    pub next_block_id: i32,
}

/// The mathematical value of a [`PlayerState`].
pub struct PlayerView {
    pub grid: GridView,
    pub level: LevelView,
    pub cur: BlockView,
    pub next_kind: BlockKind,
    pub next_preview: BlockView,
    pub script: Option<Seq<char>>,
    pub start_level: i32,
    pub effects: Seq<Effect>,
    pub last_cleared: i32,
    pub registry: Map<i32, BlockInfo>,
    pub next_block_id: i32,
}

impl View for PlayerState {
    type V = PlayerView;

    open spec fn view(&self) -> PlayerView {
        PlayerView {
            grid: self.grid@,
            level: self.level@,
            cur: self.cur@,
            next_kind: self.next_kind,
            next_preview: self.next_preview@,
            script: match self.script {
                Some(text) => Some(text@),
                None => None,
            },
            start_level: self.start_level,
            effects: self.effects@,
            last_cleared: self.last_cleared,
            registry: self.registry@,
            next_block_id: self.next_block_id,
        }
    }
}

/// The cells of the preview of a kind, as row, column and glyph.
pub open spec fn preview_cells(kind: BlockKind) -> Seq<(i32, i32, char)> {
    Seq::new(
        spawn_layout(kind).len(),
        |i: int| (spawn_layout(kind)[i].r, spawn_layout(kind)[i].c, spawn_layout(kind)[i].ch),
    )
}

/// The points that a player gets when the last cell of a piece is cleared: the
/// square of the level that the piece was placed on, plus one.
pub open spec fn completion_bonus(info: BlockInfo) -> int {
    (info.origin_level + 1) * (info.origin_level + 1)
}

/// Whether the loss tally strikes the registered piece `id`. The falling piece
/// `cur` is never struck.
pub open spec fn struck(reg: Map<i32, BlockInfo>, loss: Map<i32, i32>, cur: i32, id: i32) -> bool {
    loss.contains_key(id) && id != cur && reg.contains_key(id)
}

/// Whether the loss tally takes the last cells of the registered piece `id`.
pub open spec fn used_up(reg: Map<i32, BlockInfo>, loss: Map<i32, i32>, cur: i32, id: i32) -> bool {
    struck(reg, loss, cur, id) && reg[id].cells_remaining - loss[id] <= 0
}

/// The ids of the pieces that the loss tally uses up.
pub open spec fn used_up_ids(reg: Map<i32, BlockInfo>, loss: Map<i32, i32>, cur: i32) -> Set<int> {
    Set::new(|x: int| i32::MIN <= x <= i32::MAX && used_up(reg, loss, cur, x as i32))
}

/// The sum of the completion bonuses of the pieces that the loss tally uses up.
pub open spec fn bonus_total(reg: Map<i32, BlockInfo>, loss: Map<i32, i32>, cur: i32) -> int {
    sum_over(
        used_up_ids(reg, loss, cur),
        |x: int| completion_bonus(reg[x as i32]),
        i32::MIN as int,
        i32::MAX + 1,
    )
}

/// The registry after the loss tally was applied: a piece that is struck has
/// its count lowered, and leaves the registry when nothing is left of it.
pub open spec fn registry_after(reg: Map<i32, BlockInfo>, loss: Map<i32, i32>, cur: i32) -> Map<
    i32,
    BlockInfo,
> {
    Map::new(
        |id: i32| reg.contains_key(id) && !used_up(reg, loss, cur, id),
        |id: i32|
            if struck(reg, loss, cur, id) {
                BlockInfo {
                    origin_level: reg[id].origin_level,
                    cells_remaining: (reg[id].cells_remaining - loss[id]) as i32,
                }
            } else {
                reg[id]
            },
    )
}

/// How many of the effects are heavy.
pub open spec fn heavy_count(effects: Seq<Effect>) -> nat
    decreases effects.len(),
{
    if effects.len() == 0 {
        0
    } else {
        heavy_count(effects.drop_last()) + if effects.last() is Heavy {
            1nat
        } else {
            0nat
        }
    }
}

/// Whether one of the effects is a blind effect.
pub open spec fn any_blind(effects: Seq<Effect>) -> bool {
    exists|i: int| 0 <= i < effects.len() && #[trigger] effects[i] is Blind
}

impl PlayerView {
    /// The state is consistent: grid and level are, the falling piece has cells
    /// and they lie on the field, the score is not negative, and every
    /// registered piece was placed on one of the levels 0 to 4 and has a count
    /// that is not negative.
    pub open spec fn wf(self) -> bool {
        &&& self.grid.shaped()
        &&& self.grid.score >= 0
        &&& self.level.wf()
        &&& 0 <= self.level.number <= 4
        &&& on_field(self.cur.cells)
        &&& self.cur.cells.len() > 0
        &&& forall|id: i32|
            self.registry.contains_key(id) ==> 0 <= (#[trigger] self.registry[id]).origin_level <= 4
                && self.registry[id].cells_remaining >= 0
    }

    /// The state after a lock ended the effects on the player.
    pub open spec fn with_effects_swept(self) -> PlayerView {
        PlayerView { effects: swept(self.effects), ..self }
    }

    /// The state after piece `id` was entered in the registry; an id that is not
    /// positive is not entered.
    pub open spec fn registered(self, id: i32, origin_level: i32, cells: usize) -> PlayerView {
        if id <= 0 {
            self
        } else {
            PlayerView {
                registry: self.registry.insert(
                    id,
                    BlockInfo { origin_level, cells_remaining: cells as i32 },
                ),
                ..self
            }
        }
    }

    /// The state, and the high score, after the loss tally was applied: the
    /// registry is brought up to date, the bonuses of the pieces used up are
    /// added to the score, and the high score follows the score.
    pub open spec fn after_loss(self, loss: Map<i32, i32>, hi: int) -> (PlayerView, int) {
        let total = bonus_total(self.registry, loss, self.cur.id);
        let grid = if total > 0 {
            self.grid.with_score_added(total)
        } else {
            self.grid
        };
        (
            PlayerView {
                grid,
                registry: registry_after(self.registry, loss, self.cur.id),
                ..self
            },
            if total > 0 && grid.score > hi {
                grid.score
            } else {
                hi
            },
        )
    }

    /// The state with the preview made anew from the next kind and drawn.
    pub open spec fn with_preview_refreshed(self) -> PlayerView {
        PlayerView {
            next_preview: fresh_block(self.next_kind, PREVIEW_ID),
            grid: self.grid.with_preview(preview_cells(self.next_kind)),
            ..self
        }
    }

    /// The state after the falling piece was taken off the grid and out of the
    /// registry, and a new id was used up for its replacement.
    pub open spec fn with_current_removed(self) -> PlayerView {
        PlayerView {
            grid: erased(self.grid, self.cur.cells),
            registry: self.registry.remove(self.cur.id),
            next_block_id: (self.next_block_id + 1) as i32,
            ..self
        }
    }

    /// Whether a piece of the given kind can replace the falling piece: it can
    /// enter once the falling piece is off the grid.
    pub open spec fn can_force(self, kind: BlockKind) -> bool {
        may_spawn(erased(self.grid, self.cur.cells), spawn_layout(kind))
    }

    /// The state after the falling piece was replaced by a new piece of the
    /// given kind. Where the new piece cannot enter, the old one is gone all
    /// the same.
    pub open spec fn force_replaced(self, kind: BlockKind) -> PlayerView {
        let bare = self.with_current_removed();
        if self.can_force(kind) {
            let piece = fresh_block(kind, self.next_block_id);
            PlayerView {
                cur: piece,
                grid: put(bare.grid, piece.cells, piece.id),
                ..bare
            }.registered(piece.id, self.level.number as i32, piece.cells.len() as usize)
        } else {
            bare
        }
    }

    /// The points that the clear of the full rows earns: the square of the
    /// number of rows plus the level; nothing where no row is full.
    pub open spec fn clear_gain(self) -> int {
        let n = self.grid.full_rows();
        if n > 0 {
            (n + self.level.number) * (n + self.level.number)
        } else {
            0
        }
    }

    /// The loss tally of the clear of the full rows.
    pub open spec fn clear_loss(self) -> Map<i32, i32> {
        tallied(Map::empty(), self.grid, PLAY_TOP as int)
    }

    /// Whether the score that the clear of the full rows leads to is a machine
    /// integer.
    pub open spec fn settle_fits(self) -> bool {
        self.grid.score + self.clear_gain() + bonus_total(
            self.registry,
            self.clear_loss(),
            self.cur.id,
        ) <= i32::MAX
    }

    /// The state, and the high score, after the full rows were cleared, the
    /// clear was scored and the losses were applied.
    pub open spec fn settled(self, hi: int) -> (PlayerView, int) {
        let n = self.grid.full_rows();
        let compact = self.grid.compacted();
        let grid = if n > 0 {
            compact.with_score_added(self.clear_gain())
        } else {
            compact
        };
        let hi_scored = if n > 0 && grid.score > hi {
            grid.score
        } else {
            hi
        };
        PlayerView { grid, ..self }.after_loss(self.clear_loss(), hi_scored)
    }

    /// The state, and the high score, after the lock of the falling piece was
    /// settled and the policy was told of the rows cleared and of the
    /// placement.
    pub open spec fn locked(self, hi: int) -> (PlayerView, int) {
        let n = self.grid.full_rows();
        let (after, hi_after) = self.settled(hi);
        (
            PlayerView {
                last_cleared: n as i32,
                level: after.level.after_clear(n).after_placement(),
                ..after
            },
            hi_after,
        )
    }

    /// Whether the bonus piece can enter.
    pub open spec fn bonus_can_enter(self) -> bool {
        may_spawn(self.grid, spawn_layout(BlockKind::Star))
    }

    /// The state after the bonus piece entered under a new id, was registered
    /// and dropped.
    pub open spec fn with_bonus_dropped(self) -> PlayerView {
        let id = self.next_block_id;
        let star = spawn_layout(BlockKind::Star);
        let entered = PlayerView { next_block_id: (id + 1) as i32, ..self }.registered(
            id,
            self.level.number as i32,
            star.len() as usize,
        );
        PlayerView { grid: dropped(put(entered.grid, star, id), star, id).0, ..entered }
    }

    /// The state, and the high score, after the lock was settled and, where the
    /// policy asks for a bonus piece, that piece was dropped and the rows that
    /// it completed were settled too. A bonus piece that cannot enter only uses
    /// up an id.
    pub open spec fn resolved(self, hi: int) -> (PlayerView, int) {
        let (b, hi_b) = self.locked(hi);
        if !b.level.bonus_due() {
            (b, hi_b)
        } else if !b.bonus_can_enter() {
            (PlayerView { next_block_id: (b.next_block_id + 1) as i32, ..b }, hi_b)
        } else {
            let c = b.with_bonus_dropped();
            let extra = c.grid.full_rows();
            let (d, hi_d) = c.settled(hi_b);
            (PlayerView { level: d.level.after_clear(extra), ..d }, hi_d)
        }
    }

    /// Whether a landing can be resolved within machine integers: the scores
    /// fit, the policy's counter can go up by one, and two more ids are free.
    pub open spec fn landing_fits(self) -> bool {
        &&& self.settle_fits()
        &&& self.level.since_clear < i32::MAX
        &&& self.next_block_id <= i32::MAX - 2
        &&& ({
            let b = self.locked(0).0;
            b.level.bonus_due() && b.bonus_can_enter() ==> b.with_bonus_dropped().settle_fits()
        })
    }

    /// The state, the high score, and whether the next piece entered, after a
    /// landing was resolved. The next piece enters under a new id; the policy
    /// is then advanced and gives `drawn` as the kind after it, which the
    /// preview shows. Where the next piece cannot enter, only the id is used
    /// up.
    pub open spec fn landed(self, hi: int, drawn: BlockKind) -> (PlayerView, int, bool) {
        let (e, hi_e) = self.resolved(hi);
        let id = e.next_block_id;
        let waiting = PlayerView { next_block_id: (id + 1) as i32, ..e };
        if may_spawn(e.grid, spawn_layout(e.next_kind)) {
            let piece = fresh_block(e.next_kind, id);
            let entered = PlayerView {
                cur: piece,
                grid: put(e.grid, piece.cells, id),
                ..waiting
            }.registered(id, e.level.number as i32, piece.cells.len() as usize);
            (
                PlayerView {
                    level: entered.level.advanced(),
                    next_kind: drawn,
                    ..entered
                }.with_preview_refreshed(),
                hi_e,
                true,
            )
        } else {
            (waiting, hi_e, false)
        }
    }

    /// The state with which a player starts, given the policy after the first
    /// two kinds were asked of it, and those kinds.
    pub open spec fn opening(
        level: LevelView,
        first: BlockKind,
        next: BlockKind,
        start_level: i32,
        script: Option<Seq<char>>,
    ) -> PlayerView {
        PlayerView {
            grid: put(
                fresh_grid().with_level_glyph(digit_char(level.number)),
                spawn_layout(first),
                1,
            ).with_preview(preview_cells(next)),
            level,
            cur: fresh_block(first, 1),
            next_kind: next,
            next_preview: fresh_block(next, PREVIEW_ID),
            script,
            start_level,
            effects: Seq::empty(),
            last_cleared: 0,
            registry: Map::<i32, BlockInfo>::empty().insert(
                1,
                BlockInfo {
                    origin_level: level.number as i32,
                    cells_remaining: spawn_layout(first).len() as i32,
                },
            ),
            next_block_id: 2,
        }
    }
}


/// The entries of a loss tally, each key once, in the order in which the map
/// hands them out.
fn entries_of(loss: &HashMap<i32, i32>) -> (entries: Vec<(i32, i32)>)
    ensures
        forall|i: int|
            0 <= i < entries@.len() ==> loss@.contains_key((#[trigger] entries@[i]).0)
                && loss@[entries@[i].0] == entries@[i].1,
        forall|i: int, j: int|
            0 <= i < j < entries@.len() ==> (#[trigger] entries@[i]).0 != (#[trigger] entries@[j]).0,
        forall|k: i32|
            loss@.contains_key(k) ==> exists|i: int|
                0 <= i < entries@.len() && (#[trigger] entries@[i]).0 == k,
{
    broadcast use vstd::std_specs::hash::group_hash_axioms;

    let mut entries: Vec<(i32, i32)> = Vec::new();
    for kv in it: loss.iter()
        invariant
            it.seq() == spec_hash_map_iter(loss).remaining(),
            it.seq().no_duplicates(),
            entries@.len() == it.index(),
            forall|i: int|
                0 <= i < entries@.len() ==> (#[trigger] entries@[i]) == (*it.seq()[i].0, *it.seq()[i].1),
    {
        entries.push((*kv.0, *kv.1));
    }
    proof {
        let v = spec_hash_map_iter(loss).remaining();
        axiom_spec_hash_map_iter(loss);
        assert forall|i: int| 0 <= i < entries@.len() implies loss@.contains_key(
            (#[trigger] entries@[i]).0,
        ) && loss@[entries@[i].0] == entries@[i].1 by {
            assert(loss@.contains_key(*v[i].0));
        }
        assert forall|i: int, j: int| 0 <= i < j < entries@.len() implies (#[trigger] entries@[i]).0
            != (#[trigger] entries@[j]).0 by {
            if entries@[i].0 == entries@[j].0 {
                assert(loss@.contains_key(*v[i].0));
                assert(loss@.contains_key(*v[j].0));
                assert(v[i] == v[j]);
            }
        }
        assert forall|k: i32| loss@.contains_key(k) implies exists|i: int|
            0 <= i < entries@.len() && (#[trigger] entries@[i]).0 == k by {
            assert(v.contains((&k, &loss@[k])));
            let i = choose|i: int| 0 <= i < v.len() && v[i] == (&k, &loss@[k]);
            assert(entries@[i].0 == k);
        }
    }
    entries
}

/// The tally that the first `n` entries make.
pub open spec fn tally_prefix(entries: Seq<(i32, i32)>, n: int) -> Map<i32, i32>
    decreases n,
{
    if n <= 0 {
        Map::empty()
    } else {
        tally_prefix(entries, n - 1).insert(entries[n - 1].0, entries[n - 1].1)
    }
}

/// The tally of a prefix of entries with distinct keys holds just those
/// entries.
proof fn lemma_tally_prefix(entries: Seq<(i32, i32)>, n: int)
    requires
        0 <= n <= entries.len(),
        forall|i: int, j: int|
            0 <= i < j < entries.len() ==> (#[trigger] entries[i]).0 != (#[trigger] entries[j]).0,
    ensures
        forall|j: int|
            0 <= j < n ==> tally_prefix(entries, n).contains_key((#[trigger] entries[j]).0)
                && tally_prefix(entries, n)[entries[j].0] == entries[j].1,
        forall|k: i32|
            tally_prefix(entries, n).contains_key(k) ==> exists|j: int|
                0 <= j < n && (#[trigger] entries[j]).0 == k,
    decreases n,
{
    if n > 0 {
        lemma_tally_prefix(entries, n - 1);
        let before = tally_prefix(entries, n - 1);
        let now = tally_prefix(entries, n);
        assert forall|k: i32| now.contains_key(k) implies exists|j: int|
            0 <= j < n && (#[trigger] entries[j]).0 == k by {
            if k == entries[n - 1].0 {
                assert(entries[n - 1].0 == k);
            } else {
                assert(before.contains_key(k));
                let j = choose|j: int| 0 <= j < n - 1 && (#[trigger] entries[j]).0 == k;
                assert(entries[j].0 == k);
            }
        }
    }
}

/// The bonus of a piece placed on one of the levels 0 to 4 lies between 1 and
/// 25.
pub proof fn lemma_bonus_bounds(info: BlockInfo)
    requires
        0 <= info.origin_level <= 4,
    ensures
        1 <= completion_bonus(info) <= 25,
{
    assert(1 <= (info.origin_level + 1) * (info.origin_level + 1) <= 25) by (nonlinear_arith)
        requires
            0 <= info.origin_level <= 4,
    ;
}

/// One more entry in the loss tally adds the bonus of its piece to the total
/// if it uses the piece up, and nothing else.
proof fn lemma_bonus_total_step(
    reg: Map<i32, BlockInfo>,
    seen: Map<i32, i32>,
    cur: i32,
    k: i32,
    lost: i32,
)
    requires
        !seen.contains_key(k),
    ensures
        bonus_total(reg, seen.insert(k, lost), cur) == bonus_total(reg, seen, cur) + if used_up(
            reg,
            seen.insert(k, lost),
            cur,
            k,
        ) {
            completion_bonus(reg[k])
        } else {
            0
        },
{
    let f = |x: int| completion_bonus(reg[x as i32]);
    let before = used_up_ids(reg, seen, cur);
    let after = used_up_ids(reg, seen.insert(k, lost), cur);
    let lo = i32::MIN as int;
    let hi = i32::MAX + 1;
    assert(!before.contains(k as int));
    if used_up(reg, seen.insert(k, lost), cur, k) {
        lemma_sum_over_insert(before, f, lo, hi, k as int);
        assert forall|x: int| lo <= x < hi implies after.contains(x) == before.insert(
            k as int,
        ).contains(x) by {
            if x != k {
                assert(x as i32 != k);
            }
        }
        lemma_sum_over_same(after, f, before.insert(k as int), f, lo, hi);
    } else {
        assert forall|x: int| lo <= x < hi implies after.contains(x) == before.contains(x) by {
            if x != k {
                assert(x as i32 != k);
            }
        }
        lemma_sum_over_same(after, f, before, f, lo, hi);
    }
}

/// The bonus total of a part of the tally is not negative and no more than
/// that of the whole tally.
proof fn lemma_bonus_total_part(
    reg: Map<i32, BlockInfo>,
    part: Map<i32, i32>,
    whole: Map<i32, i32>,
    cur: i32,
)
    requires
        forall|k: i32| part.contains_key(k) ==> whole.contains_key(k) && whole[k] == part[k],
        forall|id: i32| reg.contains_key(id) ==> 0 <= (#[trigger] reg[id]).origin_level <= 4,
    ensures
        0 <= bonus_total(reg, part, cur) <= bonus_total(reg, whole, cur),
{
    let f = |x: int| completion_bonus(reg[x as i32]);
    let lo = i32::MIN as int;
    let hi = i32::MAX + 1;
    assert forall|x: int|
        lo <= x < hi && used_up_ids(reg, whole, cur).contains(x) implies f(x) >= 0 by {
        lemma_bonus_bounds(reg[x as i32]);
    }
    lemma_sum_over_subset(used_up_ids(reg, part, cur), used_up_ids(reg, whole, cur), f, lo, hi);
}

/// The view of an optional script.
fn script_text(script: &Option<String>) -> (text: Option<&str>)
    ensures
        script_view(text) == match script {
            Some(s) => Some(s@),
            None => None,
        },
{
    match script {
        Some(s) => Some(s.as_str()),
        None => None,
    }
}

/// Where the policy replays a script, a landing has one outcome: the kind that
/// comes after the next piece is the one the policy offers, and with it the
/// whole state is determined.
pub proof fn lemma_landing_determined(p: PlayerView, hi: int, a: BlockKind, b: BlockKind)
    requires
        p.landed(hi, a).2 ==> p.landed(hi, a).0.level.replaying() && p.landed(hi, a).0.level.offers(a)
            && p.landed(hi, b).0.level.offers(b),
    ensures
        p.landed(hi, a) == p.landed(hi, b),
{
}

/// A forced replacement earns nothing: the score stays as it is, whatever the
/// replaced piece had lost before, and the replaced piece leaves the registry.
pub proof fn lemma_forced_piece_earns_nothing(p: PlayerView, kind: BlockKind)
    requires
        p.wf(),
        p.cur.id != p.next_block_id,
    ensures
        p.force_replaced(kind).grid.score == p.grid.score,
        !p.force_replaced(kind).registry.contains_key(p.cur.id),
{
    lemma_erased_shaped(p.grid, p.cur.cells);
    lemma_spawn_layout(kind);
    lemma_put_shaped(erased(p.grid, p.cur.cells), spawn_layout(kind), p.next_block_id);
}

/// A piece enters in rows 7 and 8 and in the first six columns.
pub proof fn lemma_spawn_rows(kind: BlockKind)
    ensures
        forall|i: int|
            0 <= i < spawn_layout(kind).len() ==> 7 <= (#[trigger] spawn_layout(kind)[i]).r <= 8 && 0
                <= spawn_layout(kind)[i].c <= 5,
{
}

impl PlayerState {
    /// The state is consistent.
    pub open spec fn wf(&self) -> bool {
        self@.wf()
    }

    /// Sets a player up on the given level: an empty grid that shows the level,
    /// the first piece on it and in the registry, and the preview of the next.
    /// The policy is asked twice, for the first kind where it stands and for
    /// the next after advancing. The start level is brought into the range 0
    /// to 4 first. Level 0 needs a script that could be read and names a
    /// standard kind; it leaves the generator as it is, and so does a call
    /// that fails.
    pub fn new(start_level: i32, script: Option<String>, rng: &mut StdRng) -> (made: Result<
        PlayerState,
        GameError,
    >)
        ensures
            match made {
                Ok(p) => {
                    let start = initial_level(start_level as int, p@.script);
                    &&& p.wf()
                    &&& p@.script == match script {
                        Some(s) => Some(s@),
                        None => None,
                    }
                    &&& initial_level_error(start_level as int, p@.script) is None
                    &&& start.offers(p@.cur.kind)
                    &&& start.advanced().offers(p@.next_kind)
                    &&& p@ == PlayerView::opening(
                        start.advanced(),
                        p@.cur.kind,
                        p@.next_kind,
                        start_level,
                        p@.script,
                    )
                },
                Err(e) => {
                    let sv = match script {
                        Some(s) => Some(s@),
                        None => None,
                    };
                    initial_level_error(start_level as int, sv) is Some && e == GameError::Script(
                        initial_level_error(start_level as int, sv)->0,
                    )
                },
            },
            made is Err || clamped_level(start_level) == 0 ==> *final(rng) == *old(rng),
    {
        let mut grid = Grid::new();
        let mut level = match generate_level(start_level, script_text(&script)) {
            Ok(l) => l,
            Err(e) => {
                return Err(GameError::Script(e));
            },
        };
        grid.set_level_digit(level.number());

        let cur_kind = level.peek_kind(rng);
        let next_kind = level.advance_kind(rng);

        let mut next_block_id: i32 = 1;
        let cur_id = next_block_id;
        next_block_id += 1;

        let cur = Block::new(cur_kind, cur_id);
        proof {
            lemma_spawn_rows(cur_kind);
            lemma_spawn_rows(next_kind);
            lemma_spawn_layout(cur_kind);
            assert(grid@.glyphs[7] == blank_row());
            assert(grid@.glyphs[8] == blank_row());
            assert(may_spawn(grid@, cur.cells@));
        }
        if !cur.can_spawn(&grid) {
            return Err(GameError::InitialSpawn);
        }
        let next_preview = Block::new(next_kind, PREVIEW_ID);
        let mut p = PlayerState {
            grid,
            level,
            cur,
            next_kind,
            next_preview,
            script,
            start_level,
            effects: Vec::new(),
            last_cleared: 0,
            registry: HashMap::new(),
            next_block_id,
        };
        let number = p.level.number();
        let count = p.cur.cells.len();
        let id = p.cur.id;
        p.register_block(id, number, count);
        p.cur.write_to_grid(&mut p.grid);
        p.refresh_preview();
        proof {
            let want = PlayerView::opening(
                p@.level,
                p@.cur.kind,
                p@.next_kind,
                start_level,
                p@.script,
            );
            assert(p@.registry =~= want.registry);
            assert(p@.effects =~= want.effects);
            assert(p@.grid.score == 0) by {
                lemma_put_shaped(
                    fresh_grid().with_level_glyph(digit_char(p@.level.number)),
                    spawn_layout(cur_kind),
                    1,
                );
            }
        }
        Ok(p)
    }

    /// Whether a blind effect is on the player.
    pub fn has_blind(&self) -> (b: bool)
        ensures
            b == any_blind(self.effects@),
    {
        let mut k: usize = 0;
        while k < self.effects.len()
            invariant
                k <= self.effects@.len(),
                forall|i: int| 0 <= i < k ==> !(#[trigger] self.effects@[i] is Blind),
            decreases self.effects@.len() - k,
        {
            if self.effects[k].is_blind() {
                return true;
            }
            k += 1;
        }
        false
    }

    /// The number of forced steps down that the effects on the player add to
    /// each sideways move: two for each heavy effect.
    pub fn extra_heavy_after_horizontal(&self) -> (n: i32)
        requires
            2 * heavy_count(self.effects@) <= i32::MAX,
        ensures
            n == 2 * heavy_count(self.effects@),
    {
        let mut count: i32 = 0;
        let mut k: usize = 0;
        proof {
            assert(self.effects@.take(0) =~= Seq::<Effect>::empty());
        }
        while k < self.effects.len()
            invariant
                k <= self.effects@.len(),
                count == heavy_count(self.effects@.take(k as int)),
                2 * heavy_count(self.effects@) <= i32::MAX,
                heavy_count(self.effects@.take(k as int)) <= heavy_count(self.effects@),
            decreases self.effects@.len() - k,
        {
            proof {
                let upto = self.effects@.take(k + 1);
                assert(upto.drop_last() =~= self.effects@.take(k as int));
                assert(upto.last() == self.effects@[k as int]);
                lemma_heavy_count_prefix(self.effects@, k + 1);
            }
            if self.effects[k].adds_heavy_on_horizontal() {
                count += 1;
            }
            k += 1;
        }
        proof {
            assert(self.effects@.take(self.effects@.len() as int) =~= self.effects@);
        }
        count * 2
    }

    /// The player locked a piece: every effect on the player is marked expired,
    /// and the expired ones are removed. None is left.
    pub fn on_drop_effects(&mut self)
        ensures
            final(self)@ == old(self)@.with_effects_swept(),
            final(self)@.effects == Seq::<Effect>::empty(),
            old(self).wf() ==> final(self).wf(),
    {
        let mut k: usize = 0;
        while k < self.effects.len()
            invariant
                k <= self.effects@.len(),
                self.effects@.len() == old(self).effects@.len(),
                forall|i: int| 0 <= i < k ==> (#[trigger] self.effects@[i]) == old(self).effects@[i].lapsed(),
                forall|i: int|
                    k <= i < self.effects@.len() ==> (#[trigger] self.effects@[i]) == old(
                        self,
                    ).effects@[i],
                *self == (PlayerState { effects: self.effects, ..*old(self) }),
            decreases self.effects@.len() - k,
        {
            let mut e = self.effects[k];
            e.on_drop();
            self.effects[k] = e;
            k += 1;
        }
        assert(self.effects@ =~= all_lapsed(old(self).effects@));
        let mut kept: Vec<Effect> = Vec::new();
        let mut j: usize = 0;
        while j < self.effects.len()
            invariant
                j <= self.effects@.len(),
                self.effects@ == all_lapsed(old(self).effects@),
                kept@.len() == 0,
                *self == (PlayerState { effects: self.effects, ..*old(self) }),
            decreases self.effects@.len() - j,
        {
            let e = self.effects[j];
            if !e.is_expired() {
                kept.push(e);
            }
            j += 1;
        }
        self.effects = kept;
        proof {
            lemma_swept_is_empty(old(self).effects@);
            assert(self.effects@ =~= Seq::<Effect>::empty());
        }
    }

    /// Enters piece `block_id` in the registry with its level and its number of
    /// cells. An id that is not positive is not entered.
    pub fn register_block(&mut self, block_id: i32, origin_level: i32, cells: usize)
        ensures
            final(self)@ == old(self)@.registered(block_id, origin_level, cells),
    {
        broadcast use vstd::std_specs::hash::group_hash_axioms;

        if block_id <= 0 {
            return ;
        }
        self.registry.insert(
            block_id,
            BlockInfo { origin_level, cells_remaining: #[verifier::truncate] (cells as i32) },
        );
    }

    /// Makes the preview anew from the next kind and draws it.
    pub fn refresh_preview(&mut self)
        requires
            old(self).grid.wf(),
        ensures
            final(self)@ == old(self)@.with_preview_refreshed(),
            final(self).grid.wf(),
    {
        self.next_preview = Block::new(self.next_kind, PREVIEW_ID);
        let mut preview: Vec<(i32, i32, char)> = Vec::new();
        let mut k: usize = 0;
        while k < self.next_preview.cells.len()
            invariant
                k <= self.next_preview.cells@.len(),
                self.next_preview@ == fresh_block(self.next_kind, PREVIEW_ID),
                preview@.len() == k,
                forall|i: int| 0 <= i < k ==> (#[trigger] preview@[i]) == preview_cells(self.next_kind)[i],
                *self == (PlayerState { next_preview: self.next_preview, ..*old(self) }),
            decreases self.next_preview.cells@.len() - k,
        {
            let cell = self.next_preview.cells[k];
            preview.push((cell.r, cell.c, cell.ch));
            k += 1;
        }
        proof {
            assert(preview@ =~= preview_cells(self.next_kind));
            lemma_spawn_rows(self.next_kind);
        }
        self.grid.show_next(preview.as_slice());
    }

    /// Replaces the falling piece by a new piece of the given kind. The old
    /// piece leaves the grid and the registry, and earns nothing. Where the new
    /// piece cannot enter, the call fails and the old one is gone all the same.
    pub fn force_replace_current(&mut self, kind: BlockKind) -> (done: Result<(), GameError>)
        requires
            old(self).wf(),
            old(self).next_block_id < i32::MAX,
        ensures
            final(self).wf(),
            final(self)@ == old(self)@.force_replaced(kind),
            done is Ok <==> old(self)@.can_force(kind),
            done is Err ==> done == Err::<(), GameError>(GameError::ForcedSpawn),
    {
        broadcast use vstd::std_specs::hash::group_hash_axioms;

        let old_id = self.cur.id;
        self.cur.clear_from_grid(&mut self.grid);
        self.registry.remove(&old_id);
        let new_id = self.next_block_id;
        self.next_block_id += 1;
        proof {
            lemma_erased_shaped(old(self)@.grid, old(self)@.cur.cells);
            assert(self@ == old(self)@.with_current_removed());
        }
        let new_block = Block::new(kind, new_id);
        if !new_block.can_spawn(&self.grid) {
            return Err(GameError::ForcedSpawn);
        }
        self.cur = new_block;
        let number = self.level.number();
        let count = self.cur.cells.len();
        self.register_block(new_id, number, count);
        self.cur.write_to_grid(&mut self.grid);
        proof {
            lemma_spawn_layout(kind);
            lemma_put_shaped(erased(old(self)@.grid, old(self)@.cur.cells), spawn_layout(kind), new_id);
        }
        Ok(())
    }

    /// Applies the loss tally of a clear to the registry. A piece that the
    /// tally strikes has its count lowered by the cells it lost; the falling
    /// piece is never struck. A piece with nothing left leaves the registry,
    /// and the square of its level plus one is added to the score, which the
    /// high score then follows.
    pub fn apply_block_loss(&mut self, loss: &HashMap<i32, i32>, system_hi: &mut i32)
        requires
            old(self).wf(),
            forall|id: i32|
                #[trigger] struck(old(self)@.registry, loss@, old(self)@.cur.id, id) ==> old(
                    self,
                )@.registry[id].cells_remaining - loss@[id] <= i32::MAX,
            old(self)@.grid.score + bonus_total(old(self)@.registry, loss@, old(self)@.cur.id)
                <= i32::MAX,
        ensures
            final(self).wf(),
            (final(self)@, *final(system_hi) as int) == old(self)@.after_loss(
                loss@,
                *old(system_hi) as int,
            ),
    {
        broadcast use vstd::std_specs::hash::group_hash_axioms;

        let entries = entries_of(loss);
        let ghost reg0 = self.registry@;
        let ghost grid0 = self.grid@;
        let ghost hi0 = *system_hi as int;
        let ghost cur = self.cur.id;
        let mut k: usize = 0;
        proof {
            lemma_sum_over_none(
                used_up_ids(reg0, tally_prefix(entries@, 0), cur),
                |x: int| completion_bonus(reg0[x as i32]),
                i32::MIN as int,
                i32::MAX + 1,
            );
            assert(self.registry@ =~= registry_after(reg0, tally_prefix(entries@, 0), cur));
            assert forall|id: i32| reg0.contains_key(id) implies 0 <= (#[trigger] reg0[id]).origin_level
                <= 4 && reg0[id].cells_remaining >= 0 by {
                assert(self@.registry.contains_key(id));
            }
            lemma_bonus_total_part(reg0, tally_prefix(entries@, 0), loss@, cur);
        }
        while k < entries.len()
            invariant
                k <= entries@.len(),
                old(self).wf(),
                reg0 == old(self).registry@,
                grid0 == old(self).grid@,
                cur == old(self).cur.id,
                forall|id: i32|
                    reg0.contains_key(id) ==> 0 <= (#[trigger] reg0[id]).origin_level <= 4
                        && reg0[id].cells_remaining >= 0,
                forall|i: int|
                    0 <= i < entries@.len() ==> loss@.contains_key((#[trigger] entries@[i]).0)
                        && loss@[entries@[i].0] == entries@[i].1,
                forall|i: int, j: int|
                    0 <= i < j < entries@.len() ==> (#[trigger] entries@[i]).0 != (
                    #[trigger] entries@[j]).0,
                forall|id: i32|
                    #[trigger] struck(reg0, loss@, cur, id) ==> reg0[id].cells_remaining - loss@[id]
                        <= i32::MAX,
                grid0.score + bonus_total(reg0, loss@, cur) <= i32::MAX,
                *self == (PlayerState { grid: self.grid, registry: self.registry, ..*old(self) }),
                self.grid.wf(),
                self.registry@ == registry_after(reg0, tally_prefix(entries@, k as int), cur),
                ({
                    let total = bonus_total(reg0, tally_prefix(entries@, k as int), cur);
                    &&& 0 <= total <= bonus_total(reg0, loss@, cur)
                    &&& self.grid@ == if total > 0 {
                        grid0.with_score_added(total)
                    } else {
                        grid0
                    }
                    &&& *system_hi == if total > 0 && grid0.score + total > hi0 {
                        grid0.score + total
                    } else {
                        hi0
                    }
                }),
            decreases entries@.len() - k,
        {
            let (bid, lost) = entries[k];
            let ghost seen = tally_prefix(entries@, k as int);
            let ghost seen_now = tally_prefix(entries@, k + 1);
            let ghost total = bonus_total(reg0, seen, cur);
            proof {
                lemma_tally_prefix(entries@, k as int);
                lemma_tally_prefix(entries@, k + 1);
                assert(seen_now == seen.insert(bid, lost));
                if seen.contains_key(bid) {
                    let j = choose|j: int| 0 <= j < k && (#[trigger] entries@[j]).0 == bid;
                    assert(entries@[j].0 != entries@[k as int].0);
                }
                lemma_bonus_total_step(reg0, seen, cur, bid, lost);
                assert forall|x: i32| seen_now.contains_key(x) implies loss@.contains_key(x)
                    && loss@[x] == seen_now[x] by {
                    let j = choose|j: int| 0 <= j < k + 1 && (#[trigger] entries@[j]).0 == x;
                    assert(loss@.contains_key(entries@[j].0));
                }
                lemma_bonus_total_part(reg0, seen_now, loss@, cur);
                assert(!struck(reg0, seen, cur, bid));
            }
            if bid != self.cur.id {
                let found: Option<BlockInfo> = match self.registry.get(&bid) {
                    Some(info) => Some(*info),
                    None => None,
                };
                match found {
                    Some(info) => {
                        assert(info == reg0[bid]);
                        assert(struck(reg0, loss@, cur, bid));
                        assert(loss@[entries@[k as int].0] == lost);
                        let remaining = info.cells_remaining - lost;
                        let lvl = info.origin_level;
                        if remaining <= 0 {
                            proof {
                                lemma_bonus_bounds(info);
                                if total > 0 {
                                    lemma_score_added_twice(grid0, total, completion_bonus(info));
                                }
                            }
                            let bonus = (lvl + 1) * (lvl + 1);
                            self.grid.add_score(bonus);
                            if self.grid.cur_score() > *system_hi {
                                *system_hi = self.grid.cur_score();
                            }
                            self.registry.remove(&bid);
                        } else {
                            self.registry.insert(
                                bid,
                                BlockInfo { origin_level: lvl, cells_remaining: remaining },
                            );
                        }
                    },
                    None => {},
                }
            }
            proof {
                assert(self.registry@ =~= registry_after(reg0, seen_now, cur));
            }
            k += 1;
        }
        proof {
            let seen = tally_prefix(entries@, entries@.len() as int);
            lemma_tally_prefix(entries@, entries@.len() as int);
            assert forall|x: i32| loss@.contains_key(x) implies seen.contains_key(x) && seen[x]
                == loss@[x] by {
                let j = choose|j: int| 0 <= j < entries@.len() && (#[trigger] entries@[j]).0 == x;
                assert(seen.contains_key(entries@[j].0));
            }
            assert forall|x: i32| seen.contains_key(x) implies loss@.contains_key(x) by {
                let j = choose|j: int| 0 <= j < entries@.len() && (#[trigger] entries@[j]).0 == x;
                assert(loss@.contains_key(entries@[j].0));
            }
            assert(seen =~= loss@);
            let total = bonus_total(reg0, loss@, cur);
            assert forall|id: i32| self.registry@.contains_key(id) implies 0 <= (
            #[trigger] self.registry@[id]).origin_level <= 4 && self.registry@[id].cells_remaining
                >= 0 by {
                assert(reg0.contains_key(id));
                assert(0 <= reg0[id].origin_level <= 4);
            }
        }
    }
}

impl PlayerState {
    /// Clears the full rows, scores the clear, and applies the losses to the
    /// registry. A clear of `n` rows on level `l` earns `(n + l)` squared.
    /// Returns the number of rows cleared.
    pub fn settle(&mut self, system_hi: &mut i32) -> (cleared: i32)
        requires
            old(self).wf(),
            old(self)@.settle_fits(),
        ensures
            final(self).wf(),
            cleared == old(self)@.grid.full_rows(),
            (final(self)@, *final(system_hi) as int) == old(self)@.settled(*old(system_hi) as int),
    {
        let ghost start = self@;
        let mut block_loss: HashMap<i32, i32> = HashMap::new();
        let cleared = self.grid.check_and_clear(&mut block_loss);
        proof {
            lemma_compacted_shaped(start.grid);
            assert(block_loss@ == start.clear_loss());
            lemma_bonus_total_part(
                start.registry,
                Map::<i32, i32>::empty(),
                start.clear_loss(),
                start.cur.id,
            );
        }
        if cleared > 0 {
            let lvl = self.level.number();
            assert(0 <= (cleared + lvl) * (cleared + lvl) <= 484) by (nonlinear_arith)
                requires
                    0 <= cleared <= 18,
                    0 <= lvl <= 4,
            ;
            let delta = (cleared + lvl) * (cleared + lvl);
            self.grid.add_score(delta);
            if self.grid.cur_score() > *system_hi {
                *system_hi = self.grid.cur_score();
            }
            proof {
                lemma_score_added_twice(start.grid.compacted(), delta as int, 0);
            }
        }
        proof {
            assert forall|id: i32| #[trigger]
                struck(self@.registry, block_loss@, self@.cur.id, id) implies self@.registry[id].cells_remaining
                - block_loss@[id] <= i32::MAX by {
                lemma_lost_from_bounds(start.grid, id, PLAY_TOP as int, PLAY_BOTTOM as int + 1);
            }
            assert(self@.registry == start.registry);
        }
        self.apply_block_loss(&block_loss, system_hi);
        cleared
    }

    /// Sets the level of the player; `lvl` is one of 0 to 4. The policy starts
    /// anew, without any loaded sequence, and the grid shows the new level.
    /// Level 0 needs the script; where that fails nothing changes.
    pub fn set_level(&mut self, lvl: i32) -> (done: Result<(), GameError>)
        requires
            old(self).wf(),
            0 <= lvl <= 4,
        ensures
            final(self).wf(),
            match done {
                Ok(_) => initial_level_error(lvl as int, old(self)@.script) is None && final(self)@ == (
                PlayerView {
                    level: initial_level(lvl as int, old(self)@.script),
                    grid: old(self)@.grid.with_level_glyph(
                        digit_char(initial_level(lvl as int, old(self)@.script).number),
                    ),
                    ..old(self)@
                }),
                Err(e) => final(self)@ == old(self)@ && initial_level_error(
                    lvl as int,
                    old(self)@.script,
                ) is Some && e == GameError::Script(
                    initial_level_error(lvl as int, old(self)@.script)->0,
                ),
            },
    {
        match generate_level(lvl, script_text(&self.script)) {
            Ok(level) => {
                self.level = level;
                self.grid.set_level_digit(self.level.number());
                Ok(())
            },
            Err(e) => Err(GameError::Script(e)),
        }
    }

    /// Resolves the landing of the falling piece. The lock is settled and the
    /// policy is told of it. Where the policy then asks for a bonus piece, a
    /// single-cell piece enters under a new id, is dropped, and the rows that it
    /// completes are settled too. Then the next piece enters under a new id,
    /// the policy is advanced for the kind after it, and the preview is drawn.
    /// Returns whether the next piece could enter; where it could not, the
    /// player has lost and no kind is asked of the policy. The generator is
    /// left as it is then, and where the policy replays.
    pub fn land(&mut self, system_hi: &mut i32, rng: &mut StdRng) -> (spawned: bool)
        requires
            old(self).wf(),
            old(self)@.landing_fits(),
        ensures
            final(self).wf(),
            (final(self)@, *final(system_hi) as int, spawned) == old(self)@.landed(
                *old(system_hi) as int,
                final(self)@.next_kind,
            ),
            spawned ==> final(self)@.level.offers(final(self)@.next_kind),
            !spawned || old(self)@.level.replaying() ==> *final(rng) == *old(rng),
    {
        let ghost start = self@;
        let ghost hi0 = *system_hi as int;
        let cleared = self.settle(system_hi);
        self.last_cleared = cleared;
        self.level.notify_rows_cleared(cleared);
        self.level.notify_block_placed();
        proof {
            assert(self@ == start.locked(hi0).0);
            assert(start.locked(0).0 == PlayerView { grid: start.locked(0).0.grid, ..self@ });
            assert(start.settled(0).0.registry == start.settled(hi0).0.registry);
            assert(start.settled(0).0.grid == start.settled(hi0).0.grid);
            assert(self@ == start.locked(0).0);
        }
        if self.level.should_drop_star() {
            let star_id = self.next_block_id;
            self.next_block_id += 1;
            let mut star = Block::new(BlockKind::Star, star_id);
            if star.can_spawn(&self.grid) {
                let ghost before = start.locked(hi0).0;
                let number = self.level.number();
                let count = star.cells.len();
                self.register_block(star_id, number, count);
                star.write_to_grid(&mut self.grid);
                proof {
                    lemma_spawn_layout(BlockKind::Star);
                    lemma_put_shaped(before.grid, spawn_layout(BlockKind::Star), star_id);
                    lemma_dropped_shaped(
                        put(before.grid, spawn_layout(BlockKind::Star), star_id),
                        spawn_layout(BlockKind::Star),
                        star_id,
                    );
                }
                star.drop(&mut self.grid);
                proof {
                    assert(self@ == before.with_bonus_dropped());
                }
                let extra = self.settle(system_hi);
                self.level.notify_rows_cleared(extra);
            }
        }
        proof {
            assert(self@ == start.resolved(hi0).0);
        }
        let new_id = self.next_block_id;
        self.next_block_id += 1;
        let new_cur = Block::new(self.next_kind, new_id);
        if !new_cur.can_spawn(&self.grid) {
            return false;
        }
        self.cur = new_cur;
        let number = self.level.number();
        let count = self.cur.cells.len();
        self.register_block(new_id, number, count);
        self.cur.write_to_grid(&mut self.grid);
        proof {
            lemma_spawn_layout(self.cur.kind);
            lemma_put_shaped(start.resolved(hi0).0.grid, spawn_layout(self.cur.kind), new_id);
        }
        let nk = self.level.advance_kind(rng);
        self.next_kind = nk;
        self.refresh_preview();
        true
    }
}

/// The most that one settling of a clear can add to the score: the gain of a
/// clear of all rows on level 4, and the bonus of a piece of level 4 for every
/// cell of the playable rectangle.
pub const SETTLE_MAX_GAIN: i32 = 5434;

/// A score up to which a landing can always be resolved within machine
/// integers.
pub const SAFE_SCORE: i32 = i32::MAX - 2 * SETTLE_MAX_GAIN;

/// What the settling of a clear can add to the score at most.
pub proof fn lemma_settle_gain_bound(p: PlayerView)
    requires
        0 <= p.level.number <= 4,
        forall|id: i32|
            p.registry.contains_key(id) ==> 0 <= (#[trigger] p.registry[id]).origin_level <= 4,
    ensures
        0 <= p.clear_gain() <= 484,
        0 <= bonus_total(p.registry, p.clear_loss(), p.cur.id) <= 4950,
        0 <= p.clear_gain() + bonus_total(p.registry, p.clear_loss(), p.cur.id) <= SETTLE_MAX_GAIN,
{
    let v = p.grid;
    let n = v.full_rows();
    let lvl = p.level.number;
    lemma_loss_attribution(v);
    assert(0 <= n <= 18) by (nonlinear_arith)
        requires
            0 <= n * 11 <= 198,
    ;
    if n > 0 {
        assert(0 <= (n + lvl) * (n + lvl) <= 484) by (nonlinear_arith)
            requires
                0 <= n <= 18,
                0 <= lvl <= 4,
        ;
    }
    let reg = p.registry;
    let loss = p.clear_loss();
    let used = used_up_ids(reg, loss, p.cur.id);
    let bonus = |x: int| completion_bonus(reg[x as i32]);
    let all = Set::<int>::full();
    let lost = |id: int| v.lost_from(PLAY_TOP as int, id as i32) as int;
    let weighed = |id: int| 25 * (v.lost_from(PLAY_TOP as int, id as i32) as int);
    let lo = i32::MIN as int;
    let hi = i32::MAX + 1;
    lemma_sum_over_split(used, bonus, lo, 1, hi);
    lemma_sum_over_none(used, bonus, lo, 1);
    assert forall|x: int| 1 <= x < hi && used.contains(x) implies all.contains(x) && bonus(x)
        <= weighed(x) by {
        lemma_bonus_bounds(reg[x as i32]);
        assert(loss.contains_key(x as i32));
        assert(v.lost_from(PLAY_TOP as int, x as i32) > 0);
    }
    lemma_sum_over_le(used, bonus, all, weighed, 1, hi);
    lemma_sum_over_scale(all, lost, weighed, 25, 1, hi);
    assert forall|x: int| 1 <= x < hi && used.contains(x) implies bonus(x) >= 0 by {
        lemma_bonus_bounds(reg[x as i32]);
    }
    lemma_sum_over_subset(used, used, bonus, 1, hi);
}

/// A landing can be resolved within machine integers where the score is no
/// more than `SAFE_SCORE`, the policy's counter can go up by one, and two more
/// ids are free.
pub proof fn lemma_landing_fits(p: PlayerView)
    requires
        p.wf(),
        p.grid.score <= SAFE_SCORE,
        p.level.since_clear < i32::MAX,
        p.next_block_id <= i32::MAX - 2,
    ensures
        p.landing_fits(),
{
    lemma_settle_gain_bound(p);
    let b = p.locked(0).0;
    if b.level.bonus_due() && b.bonus_can_enter() {
        let c = b.with_bonus_dropped();
        let star = spawn_layout(BlockKind::Star);
        let id = b.next_block_id;
        lemma_compacted_shaped(p.grid);
        let n = p.grid.full_rows();
        if n > 0 {
            lemma_score_added_twice(p.grid.compacted(), p.clear_gain(), 0);
        }
        let total = bonus_total(p.registry, p.clear_loss(), p.cur.id);
        let scored = if n > 0 {
            p.grid.compacted().with_score_added(p.clear_gain())
        } else {
            p.grid.compacted()
        };
        if total > 0 {
            lemma_score_added_twice(scored, total, 0);
        }
        assert(b.grid.shaped());
        lemma_spawn_layout(BlockKind::Star);
        lemma_put_shaped(b.grid, star, id);
        lemma_dropped_shaped(put(b.grid, star, id), star, id);
        assert(c.grid.score == b.grid.score);
        assert forall|k: i32| c.registry.contains_key(k) implies 0 <= (
        #[trigger] c.registry[k]).origin_level <= 4 by {
            if b.registry.contains_key(k) {
                assert(p.registry.contains_key(k));
                assert(0 <= p.registry[k].origin_level <= 4);
            }
        }
        lemma_settle_gain_bound(c);
    }
}

/// What a move of the falling piece came to.
#[derive(Debug, Clone, Copy, PartialEq, Eq, Structural)]
pub enum Step {
    /// The piece stayed where it was.
    Stayed,
    /// The piece moved and still falls.
    Moved,
    /// The piece landed, and the next piece entered.
    Landed,
    /// The piece landed, and the next piece could not enter: the player has
    /// lost.
    Lost,
}

impl PlayerView {
    /// The state with the falling piece at the given cells on the given grid.
    pub open spec fn with_piece_at(self, grid: GridView, cells: Seq<Cell>) -> PlayerView {
        PlayerView { grid, cur: BlockView { cells, ..self.cur }, ..self }
    }

    /// The state after the falling piece tried a step, and whether it took it.
    pub open spec fn stepped_by(self, dr: int, dc: int) -> (PlayerView, bool) {
        let after = stepped(self.grid, self.cur.cells, self.cur.id, dr, dc);
        (self.with_piece_at(after.0, after.1), after.2)
    }

    /// The state after the falling piece tried a quarter turn, and whether it
    /// took it.
    pub open spec fn rotated_by(self, cw: bool) -> (PlayerView, bool) {
        let after = rotated(self.grid, self.cur.cells, self.cur.id, cw);
        (self.with_piece_at(after.0, after.1), after.2)
    }

    /// The state after the falling piece was dropped.
    pub open spec fn hard_dropped(self) -> PlayerView {
        let after = dropped(self.grid, self.cur.cells, self.cur.id);
        self.with_piece_at(after.0, after.1)
    }

    /// The state after the falling piece was made to sink by up to `steps`
    /// rows, and whether it hit the ground on the way.
    pub open spec fn sunk(self, steps: int) -> (PlayerView, bool)
        decreases steps,
    {
        if steps <= 0 {
            (self, false)
        } else {
            let (p, ok) = self.stepped_by(1, 0);
            if ok {
                p.sunk(steps - 1)
            } else {
                (p, true)
            }
        }
    }

    /// The rows by which a piece sinks after each sideways move: one on a heavy
    /// level, and two for each heavy effect on the player.
    pub open spec fn extra_steps(self) -> int {
        (if self.level.heavy {
            1int
        } else {
            0int
        }) + 2 * heavy_count(self.effects)
    }

    /// The state is consistent and a landing can be resolved in it whatever
    /// the piece does before: the score is no more than `SAFE_SCORE`, the
    /// policy's counter can go up by one, two more ids are free, and the
    /// heavy effects can be counted.
    pub open spec fn ready(self) -> bool {
        &&& self.wf()
        &&& self.grid.score <= SAFE_SCORE
        &&& self.level.since_clear < i32::MAX
        &&& self.next_block_id <= i32::MAX - 2
        &&& 2 * heavy_count(self.effects) < i32::MAX
    }

    /// The state, the high score and the outcome after the landing of the
    /// falling piece was resolved as part of a move.
    pub open spec fn landed_step(self, hi: int, drawn: BlockKind) -> (PlayerView, int, Step) {
        let (p, hi_after, spawned) = self.landed(hi, drawn);
        (
            p,
            hi_after,
            if spawned {
                Step::Landed
            } else {
                Step::Lost
            },
        )
    }

    /// The state, the high score and the outcome after a sideways move. A piece
    /// that moved sinks by the extra steps of the player, and lands where it
    /// hits the ground on the way.
    pub open spec fn after_shift(self, right: bool, hi: int, drawn: BlockKind) -> (
        PlayerView,
        int,
        Step,
    ) {
        let (p, moved) = self.stepped_by(
            0,
            if right {
                1
            } else {
                -1
            },
        );
        if !moved {
            (p, hi, Step::Stayed)
        } else {
            let (q, hit) = p.sunk(p.extra_steps());
            if hit {
                q.landed_step(hi, drawn)
            } else {
                (q, hi, Step::Moved)
            }
        }
    }

    /// The state, the high score and the outcome after a move down. On a heavy
    /// level the piece goes down two rows, and lands where it cannot; on
    /// another level it goes down one row, or stays.
    pub open spec fn after_descent(self, hi: int, drawn: BlockKind) -> (PlayerView, int, Step) {
        let (p, ok) = self.stepped_by(1, 0);
        if !self.level.heavy {
            (
                p,
                hi,
                if ok {
                    Step::Moved
                } else {
                    Step::Stayed
                },
            )
        } else if !ok {
            p.landed_step(hi, drawn)
        } else {
            let (q, hit) = p.sunk(1);
            if hit {
                q.landed_step(hi, drawn)
            } else {
                (q, hi, Step::Moved)
            }
        }
    }

    /// The state, the high score and the outcome after a quarter turn. On a
    /// heavy level the piece then sinks by one row, and lands where it cannot.
    pub open spec fn after_turn(self, cw: bool, hi: int, drawn: BlockKind) -> (PlayerView, int, Step) {
        let (p, turned) = self.rotated_by(cw);
        let (q, hit) = p.sunk(
            if self.level.heavy {
                1
            } else {
                0
            },
        );
        if hit {
            q.landed_step(hi, drawn)
        } else {
            (
                q,
                hi,
                if turned || self.level.heavy {
                    Step::Moved
                } else {
                    Step::Stayed
                },
            )
        }
    }

    /// The state, the high score and the outcome after a hard drop: the piece
    /// is dropped and lands.
    pub open spec fn after_hard_drop(self, hi: int, drawn: BlockKind) -> (PlayerView, int, Step) {
        self.hard_dropped().landed_step(hi, drawn)
    }
}

/// A step or a turn of the falling piece keeps a ready state ready.
pub proof fn lemma_moves_keep_ready(p: PlayerView, dr: int, dc: int, cw: bool)
    requires
        p.ready(),
    ensures
        p.stepped_by(dr, dc).0.ready(),
        p.rotated_by(cw).0.ready(),
        p.hard_dropped().ready(),
{
    lemma_relocated_shaped(p.grid, p.cur.cells, p.cur.id, shifted(p.cur.cells, dr, dc), true);
    lemma_relocated_shaped(
        p.grid,
        p.cur.cells,
        p.cur.id,
        turned(p.cur.cells, cw),
        turned(p.cur.cells, cw).len() == p.cur.cells.len(),
    );
    lemma_dropped_shaped(p.grid, p.cur.cells, p.cur.id);
}

impl PlayerState {
    /// Whether every piece of the registry was placed on one of the levels 0
    /// to 4 and has a count that is not negative.
    fn registry_in_range(&self) -> (ok: bool)
        ensures
            ok == forall|id: i32|
                self@.registry.contains_key(id) ==> 0 <= (#[trigger] self@.registry[id]).origin_level
                    <= 4 && self@.registry[id].cells_remaining >= 0,
    {
        broadcast use vstd::std_specs::hash::group_hash_axioms;

        let ghost all = spec_hash_map_iter(&self.registry).remaining();
        proof {
            axiom_spec_hash_map_iter(&self.registry);
        }
        for kv in it: self.registry.iter()
            invariant
                it.seq() == all,
                all == spec_hash_map_iter(&self.registry).remaining(),
                forall|i: int|
                    0 <= i < it.index() ==> 0 <= (#[trigger] all[i]).1.origin_level <= 4
                        && all[i].1.cells_remaining >= 0,
        {
            if kv.1.origin_level < 0 || kv.1.origin_level > 4 || kv.1.cells_remaining < 0 {
                proof {
                    let i = it.index();
                    assert(kv == all[i]);
                    assert(self.registry@.contains_key(*all[i].0));
                    assert(self.registry@[*all[i].0] == *all[i].1);
                    assert(self@.registry.contains_key(*all[i].0));
                    assert(self@.registry[*all[i].0] == *kv.1);
                }
                return false;
            }
        }
        proof {
            assert forall|id: i32| self@.registry.contains_key(id) implies 0 <= (
            #[trigger] self@.registry[id]).origin_level <= 4 && self@.registry[id].cells_remaining
                >= 0 by {
                assert(all.contains((&id, &self.registry@[id])));
                let i = choose|i: int| 0 <= i < all.len() && all[i] == (&id, &self.registry@[id]);
                assert(0 <= all[i].1.origin_level <= 4);
            }
        }
        true
    }

    /// Whether the falling piece has a cell at least and all its cells lie on
    /// the field.
    fn piece_on_field(&self) -> (ok: bool)
        ensures
            ok == (self.cur.cells@.len() > 0 && on_field(self.cur.cells@)),
    {
        if self.cur.cells.len() == 0 {
            return false;
        }
        let mut k: usize = 0;
        while k < self.cur.cells.len()
            invariant
                k <= self.cur.cells@.len(),
                forall|i: int|
                    0 <= i < k ==> 0 <= (#[trigger] self.cur.cells@[i]).r < ROWS_TOTAL
                        && 0 <= self.cur.cells@[i].c < COLS,
            decreases self.cur.cells@.len() - k,
        {
            let cell = self.cur.cells[k];
            if cell.r < 0 || cell.r >= ROWS_TOTAL as i32 || cell.c < 0 || cell.c
                >= COLS as i32 {
                return false;
            }
            k += 1;
        }
        true
    }

    /// Whether there are few enough heavy effects on the player for their
    /// steps to be counted.
    fn effects_countable(&self) -> (ok: bool)
        ensures
            ok == (2 * heavy_count(self.effects@) < i32::MAX),
    {
        let mut count: usize = 0;
        let mut k: usize = 0;
        proof {
            assert(self.effects@.take(0) =~= Seq::<Effect>::empty());
        }
        while k < self.effects.len()
            invariant
                k <= self.effects@.len(),
                count == heavy_count(self.effects@.take(k as int)),
                count <= k,
            decreases self.effects@.len() - k,
        {
            proof {
                let upto = self.effects@.take(k + 1);
                assert(upto.drop_last() =~= self.effects@.take(k as int));
                assert(upto.last() == self.effects@[k as int]);
            }
            if self.effects[k].adds_heavy_on_horizontal() {
                count += 1;
            }
            k += 1;
        }
        proof {
            assert(self.effects@.take(self.effects@.len() as int) =~= self.effects@);
        }
        count <= 1073741823
    }

    /// Whether the state is consistent. The grid and the policy, which only
    /// this library makes, are taken to be consistent in themselves.
    pub fn is_sound(&self) -> (ok: bool)
        requires
            self.grid.wf(),
            self.level@.wf(),
        ensures
            ok == self@.wf(),
    {
        let score = self.grid.cur_score();
        let number = self.level.number();
        let piece = self.piece_on_field();
        let registry = self.registry_in_range();
        let ok = 0 <= score && 0 <= number && number <= 4 && piece && registry;
        proof {
            let p = self@;
            assert(p.grid.shaped());
            assert(p.level.wf());
            assert(piece == (p.cur.cells.len() > 0 && on_field(p.cur.cells)));
            assert(ok == p.wf());
        }
        ok
    }

    /// Whether the state is ready for a move: consistent, and with room in
    /// score, ids and counters for a landing.
    pub fn is_ready(&self) -> (ok: bool)
        requires
            self.grid.wf(),
            self.level@.wf(),
        ensures
            ok == self@.ready(),
    {
        let sound = self.is_sound();
        let counted = self.level.placed_since_clear();
        let effects = self.effects_countable();
        sound && self.grid.cur_score() <= SAFE_SCORE && counted < i32::MAX && self.next_block_id
            <= i32::MAX - 2 && effects
    }

    /// Makes the falling piece sink by up to `steps` rows. Returns whether it
    /// hit the ground on the way.
    pub fn sink(&mut self, steps: i32) -> (hit: bool)
        requires
            old(self)@.ready(),
        ensures
            final(self)@.ready(),
            (final(self)@, hit) == old(self)@.sunk(steps as int),
            final(self)@.level == old(self)@.level,
    {
        let mut done: i32 = 0;
        while done < steps
            invariant
                self@.ready(),
                self@.level == old(self)@.level,
                done >= 0,
                self@.sunk(steps - done) == old(self)@.sunk(steps as int),
            decreases steps - done,
        {
            proof {
                lemma_moves_keep_ready(self@, 1, 0, true);
            }
            let ok = self.cur.move_down(&mut self.grid);
            if !ok {
                return true;
            }
            done += 1;
        }
        false
    }

    /// Resolves the landing of the falling piece as part of a move.
    fn land_step(&mut self, system_hi: &mut i32, rng: &mut StdRng) -> (step: Step)
        requires
            old(self)@.ready(),
        ensures
            final(self).wf(),
            (final(self)@, *final(system_hi) as int, step) == old(self)@.landed_step(
                *old(system_hi) as int,
                final(self)@.next_kind,
            ),
            step == Step::Landed ==> final(self)@.level.offers(final(self)@.next_kind),
            step != Step::Landed || old(self)@.level.replaying() ==> *final(rng) == *old(rng),
    {
        proof {
            lemma_landing_fits(self@);
        }
        if self.land(system_hi, rng) {
            Step::Landed
        } else {
            Step::Lost
        }
    }

    /// Moves the falling piece one column to the side. A piece that moved
    /// sinks by one row on a heavy level and by two rows for each heavy effect
    /// on the player; where it hits the ground on the way, its landing is
    /// resolved.
    pub fn shift(&mut self, right: bool, system_hi: &mut i32, rng: &mut StdRng) -> (step: Step)
        requires
            old(self)@.ready(),
        ensures
            final(self).wf(),
            (final(self)@, *final(system_hi) as int, step) == old(self)@.after_shift(
                right,
                *old(system_hi) as int,
                final(self)@.next_kind,
            ),
            step == Step::Landed ==> final(self)@.level.offers(final(self)@.next_kind),
            step != Step::Landed || old(self)@.level.replaying() ==> *final(rng) == *old(rng),
    {
        proof {
            lemma_moves_keep_ready(self@, 0, 1, true);
            lemma_moves_keep_ready(self@, 0, -1, true);
        }
        let moved = if right {
            self.cur.move_right(&mut self.grid)
        } else {
            self.cur.move_left(&mut self.grid)
        };
        if !moved {
            return Step::Stayed;
        }
        let by_level: i32 = if self.level.is_heavy() {
            1
        } else {
            0
        };
        let extra = by_level + self.extra_heavy_after_horizontal();
        if self.sink(extra) {
            self.land_step(system_hi, rng)
        } else {
            Step::Moved
        }
    }

    /// Moves the falling piece down. On a heavy level it goes down two rows,
    /// and where it cannot, its landing is resolved. On another level it goes
    /// down one row, or stays.
    pub fn descend(&mut self, system_hi: &mut i32, rng: &mut StdRng) -> (step: Step)
        requires
            old(self)@.ready(),
        ensures
            final(self).wf(),
            (final(self)@, *final(system_hi) as int, step) == old(self)@.after_descent(
                *old(system_hi) as int,
                final(self)@.next_kind,
            ),
            step == Step::Landed ==> final(self)@.level.offers(final(self)@.next_kind),
            step != Step::Landed || old(self)@.level.replaying() ==> *final(rng) == *old(rng),
    {
        proof {
            lemma_moves_keep_ready(self@, 1, 0, true);
        }
        let heavy = self.level.is_heavy();
        let ok = self.cur.move_down(&mut self.grid);
        if !heavy {
            return if ok {
                Step::Moved
            } else {
                Step::Stayed
            };
        }
        if !ok {
            return self.land_step(system_hi, rng);
        }
        if self.sink(1) {
            self.land_step(system_hi, rng)
        } else {
            Step::Moved
        }
    }

    /// Turns the falling piece a quarter turn. On a heavy level it then sinks
    /// by one row, and where it cannot, its landing is resolved.
    pub fn turn(&mut self, cw: bool, system_hi: &mut i32, rng: &mut StdRng) -> (step: Step)
        requires
            old(self)@.ready(),
        ensures
            final(self).wf(),
            (final(self)@, *final(system_hi) as int, step) == old(self)@.after_turn(
                cw,
                *old(system_hi) as int,
                final(self)@.next_kind,
            ),
            step == Step::Landed ==> final(self)@.level.offers(final(self)@.next_kind),
            step != Step::Landed || old(self)@.level.replaying() ==> *final(rng) == *old(rng),
    {
        proof {
            lemma_moves_keep_ready(self@, 0, 0, cw);
        }
        let heavy = self.level.is_heavy();
        let turned = self.cur.rotate(&mut self.grid, cw);
        let steps: i32 = if heavy {
            1
        } else {
            0
        };
        if self.sink(steps) {
            self.land_step(system_hi, rng)
        } else if turned || heavy {
            Step::Moved
        } else {
            Step::Stayed
        }
    }

    /// Drops the falling piece and resolves its landing.
    pub fn hard_drop(&mut self, system_hi: &mut i32, rng: &mut StdRng) -> (step: Step)
        requires
            old(self)@.ready(),
        ensures
            final(self).wf(),
            (final(self)@, *final(system_hi) as int, step) == old(self)@.after_hard_drop(
                *old(system_hi) as int,
                final(self)@.next_kind,
            ),
            step == Step::Landed ==> final(self)@.level.offers(final(self)@.next_kind),
            step != Step::Landed || old(self)@.level.replaying() ==> *final(rng) == *old(rng),
    {
        proof {
            lemma_moves_keep_ready(self@, 0, 0, true);
        }
        self.cur.drop(&mut self.grid);
        self.land_step(system_hi, rng)
    }
}

/// A prefix of the effects holds no more heavy effects than the whole.
proof fn lemma_heavy_count_prefix(effects: Seq<Effect>, n: int)
    requires
        0 <= n <= effects.len(),
    ensures
        heavy_count(effects.take(n)) <= heavy_count(effects),
    decreases effects.len() - n,
{
    if n < effects.len() {
        lemma_heavy_count_prefix(effects, n + 1);
        let upto = effects.take(n + 1);
        assert(upto.drop_last() =~= effects.take(n));
    } else {
        assert(effects.take(n) =~= effects);
    }
}

} // verus!

//! A match of two players: whose turn it is, whether the match still runs, the
//! high score that both share, and the generator from which all pieces are
//! drawn.

use crate::block::{kind_of_char, BlockKind};
use crate::effects::Effect;
use crate::level::{
    clamp_level, clamped_level, initial_level, initial_level_error, script_view,
};
use crate::ownership::{
    lemma_action_tidy, lemma_landing_tidy, lemma_level_tidy, lemma_opening_tidy,
    lemma_special_action_tidy,
};
use crate::player::{lemma_landing_determined, GameError, PlayerState, PlayerView, Step};
use crate::text::{chars_of, digit_char, same_text};
use rand::rngs::StdRng;
use rand::SeedableRng;
use vstd::prelude::*;

verus! {

/// The seed of a match that is started without one.
pub const DEFAULT_SEED: u64 = 12345;

/// A match.
pub struct Game {
    /// The generator that both players draw from, in the order of their calls.
    pub rng: StdRng,
    /// The highest score that either player has reached.
    pub system_hi: i32,
    pub p1: PlayerState,
    pub p2: PlayerState,
    /// The player whose turn it is: 1 or 2.
    pub current_player: i32,
    /// Whether the match still runs; it ends when a piece cannot enter.
    pub running: bool,
    pub start_level: i32,
    /// The text of the first player's sequence script; none where it could not
    /// be read.
    pub script1: Option<String>,
    /// The text of the second player's sequence script.
    pub script2: Option<String>,
}

/// The mathematical value of a [`Game`]; the generator is no part of it.
pub struct GameView {
    pub system_hi: i32,
    pub p1: PlayerView,
    pub p2: PlayerView,
    pub current_player: i32,
    pub running: bool,
    pub start_level: i32,
    pub script1: Option<Seq<char>>,
    pub script2: Option<Seq<char>>,
}

/// The view of a stored script.
pub open spec fn stored_script(script: Option<String>) -> Option<Seq<char>> {
    match script {
        Some(text) => Some(text@),
        None => None,
    }
}

impl View for Game {
    type V = GameView;

    open spec fn view(&self) -> GameView {
        GameView {
            system_hi: self.system_hi,
            p1: self.p1@,
            p2: self.p2@,
            current_player: self.current_player,
            running: self.running,
            start_level: self.start_level,
            script1: stored_script(self.script1),
            script2: stored_script(self.script2),
        }
    }
}

/// Why a match could not be started: the player that could not be set up, and
/// why not.
#[derive(Debug, Clone, Copy, PartialEq, Eq, Structural)]
pub struct StartError {
    pub player: i32,
    pub error: GameError,
}

/// Why a match on the given level cannot be started with the given scripts, if
/// it cannot: the first player whose policy cannot be made.
pub open spec fn start_error(
    start_level: i32,
    script1: Option<Seq<char>>,
    script2: Option<Seq<char>>,
) -> Option<StartError> {
    let first = initial_level_error(start_level as int, script1);
    let second = initial_level_error(start_level as int, script2);
    if first is Some {
        Some(StartError { player: 1, error: GameError::Script(first->0) })
    } else if second is Some {
        Some(StartError { player: 2, error: GameError::Script(second->0) })
    } else {
        None
    }
}

/// What a special action came to.
#[derive(Debug, Clone, Copy, PartialEq, Eq, Structural)]
pub enum ActionReport {
    /// The action was applied to the opponent.
    Applied,
    /// The forced piece could not enter: the opponent has lost.
    GameOver,
    /// `force` was given no kind.
    MissingKind,
    /// `force` was given an empty kind.
    EmptyKind,
    /// `force` was given more than one character.
    LongKind,
    /// `force` was given the bonus kind.
    BonusKind,
    /// `force` was given a character that names no kind.
    UnknownKind,
    /// The action has no known name.
    UnknownAction,
}

/// The other player: 2 for player 1, and 1 for any other.
pub open spec fn opponent_of(player: i32) -> i32 {
    if player == 1 {
        2
    } else {
        1
    }
}

/// The kind that the parameter of `force` names, or the report of what is
/// wrong with it.
pub open spec fn forced_kind(param: Option<Seq<char>>) -> Result<BlockKind, ActionReport> {
    match param {
        None => Err(ActionReport::MissingKind),
        Some(p) => {
            if p.len() == 0 {
                Err(ActionReport::EmptyKind)
            } else if p.len() > 1 {
                Err(ActionReport::LongKind)
            } else {
                match kind_of_char(p[0]) {
                    None => Err(ActionReport::UnknownKind),
                    Some(kind) => if kind.is_standard() {
                        Ok(kind)
                    } else {
                        Err(ActionReport::BonusKind)
                    },
                }
            }
        },
    }
}

/// The state of the player after the special action struck it, and the report.
pub open spec fn struck_by(victim: PlayerView, action: Seq<char>, param: Option<Seq<char>>) -> (
    PlayerView,
    ActionReport,
) {
    if action == "blind"@ {
        (
            PlayerView {
                effects: victim.effects.push(Effect::Blind { expired: false }),
                ..victim
            },
            ActionReport::Applied,
        )
    } else if action == "heavy"@ {
        (
            PlayerView {
                effects: victim.effects.push(Effect::Heavy { expired: false }),
                ..victim
            },
            ActionReport::Applied,
        )
    } else if action == "force"@ {
        match forced_kind(param) {
            Err(report) => (victim, report),
            Ok(kind) => (
                victim.force_replaced(kind),
                if victim.can_force(kind) {
                    ActionReport::Applied
                } else {
                    ActionReport::GameOver
                },
            ),
        }
    } else {
        (victim, ActionReport::UnknownAction)
    }
}

/// A move of the falling piece that a player can ask for.
#[derive(Debug, Clone, Copy, PartialEq, Eq, Structural)]
pub enum Action {
    Left,
    Right,
    Down,
    RotateCw,
    RotateCcw,
    Drop,
}

/// The state of a player, the high score and the outcome after the player
/// made a move.
pub open spec fn moved_by(p: PlayerView, action: Action, hi: int, drawn: BlockKind) -> (
    PlayerView,
    int,
    Step,
) {
    match action {
        Action::Left => p.after_shift(false, hi, drawn),
        Action::Right => p.after_shift(true, hi, drawn),
        Action::Down => p.after_descent(hi, drawn),
        Action::RotateCw => p.after_turn(true, hi, drawn),
        Action::RotateCcw => p.after_turn(false, hi, drawn),
        Action::Drop => p.after_hard_drop(hi, drawn),
    }
}

impl GameView {
    /// The state of the given player: the first for 1, the second for any other
    /// number.
    pub open spec fn player(self, idx: i32) -> PlayerView {
        if idx == 1 {
            self.p1
        } else {
            self.p2
        }
    }

    /// The match with the state of the given player replaced.
    pub open spec fn with_player(self, idx: i32, p: PlayerView) -> GameView {
        if idx == 1 {
            GameView { p1: p, ..self }
        } else {
            GameView { p2: p, ..self }
        }
    }

    /// Both players are in a consistent state.
    pub open spec fn wf(self) -> bool {
        self.p1.wf() && self.p2.wf()
    }

    /// The match after the landing of the given player's piece was resolved;
    /// `drawn` is the kind that the policy then gave for the preview. A match
    /// that is over stays as it is; a match in which the next piece cannot
    /// enter is over.
    pub open spec fn after_landing(self, idx: i32, drawn: BlockKind) -> GameView {
        if !self.running {
            self
        } else {
            let (p, hi, spawned) = self.player(idx).landed(self.system_hi as int, drawn);
            GameView { system_hi: hi as i32, running: spawned, ..self.with_player(idx, p) }
        }
    }

    /// The match, and the outcome, after the given player made a move; `drawn`
    /// is the kind that the policy gave for the preview if the piece landed.
    /// In a match that is over nothing moves. A move after which the next
    /// piece cannot enter ends the match.
    pub open spec fn after_action(self, idx: i32, action: Action, drawn: BlockKind) -> (
        GameView,
        Step,
    ) {
        if !self.running {
            (self, Step::Stayed)
        } else {
            let (p, hi, step) = moved_by(self.player(idx), action, self.system_hi as int, drawn);
            (
                GameView {
                    system_hi: hi as i32,
                    running: step != Step::Lost,
                    ..self.with_player(idx, p)
                },
                step,
            )
        }
    }

    /// The match after the acting player applied a special action to the
    /// opponent. A forced piece that cannot enter ends the match.
    pub open spec fn after_special_action(
        self,
        acting: i32,
        action: Seq<char>,
        param: Option<Seq<char>>,
    ) -> GameView {
        let victim = opponent_of(acting);
        let (p, report) = struck_by(self.player(victim), action, param);
        GameView {
            running: self.running && report != ActionReport::GameOver,
            ..self.with_player(victim, p)
        }
    }

    /// The match after the level of the given player was set; the number is
    /// brought into the range 0 to 4 first. The policy starts anew, and the
    /// grid shows the new level.
    pub open spec fn with_level(self, idx: i32, new_level: i32) -> GameView {
        let lvl = clamped_level(new_level);
        let p = self.player(idx);
        self.with_player(
            idx,
            PlayerView {
                level: initial_level(lvl as int, p.script),
                grid: p.grid.with_level_glyph(digit_char(initial_level(lvl as int, p.script).number)),
                ..p
            },
        )
    }

    /// The match after the acting player's turn ended: the effects on that
    /// player are swept, and the turn passes to the opponent unless a special
    /// action is due. In a match that is over no turn ends.
    pub open spec fn after_turn(self, acting: i32) -> GameView {
        let swept = self.with_player(acting, self.player(acting).with_effects_swept());
        if !self.running {
            self
        } else if self.action_due(acting) {
            swept
        } else {
            GameView { current_player: opponent_of(acting), ..swept }
        }
    }

    /// Whether the acting player owes a special action: the match runs and the
    /// player's last lock cleared two rows or more.
    pub open spec fn action_due(self, acting: i32) -> bool {
        self.running && self.player(acting).last_cleared >= 2
    }
}

/// Whether `p` is a state with which a player can start on the given level:
/// the starting policy offered the kind of the first piece, the policy
/// advanced once offered the next kind, and everything else follows from
/// those.
pub open spec fn is_opening(p: PlayerView, start_level: i32) -> bool {
    let start = initial_level(start_level as int, p.script);
    &&& initial_level_error(start_level as int, p.script) is None
    &&& start.offers(p.cur.kind)
    &&& start.advanced().offers(p.next_kind)
    &&& p == PlayerView::opening(start.advanced(), p.cur.kind, p.next_kind, start_level, p.script)
}

/// Whether `g` is a match as it starts on the given level: player 1 to move,
/// no high score yet, and each player in an opening state with its script.
pub open spec fn is_start(g: GameView, start_level: i32) -> bool {
    &&& g.system_hi == 0
    &&& g.current_player == 1
    &&& g.running
    &&& g.start_level == start_level
    &&& g.p1.script == g.script1
    &&& g.p2.script == g.script2
    &&& is_opening(g.p1, start_level)
    &&& is_opening(g.p2, start_level)
}

/// Where the starting policy replays a script, a match has one start: two
/// matches started on the same level with the same scripts are the same.
pub proof fn lemma_start_determined(a: GameView, b: GameView, start_level: i32)
    requires
        is_start(a, start_level),
        is_start(b, start_level),
        a.script1 == b.script1,
        a.script2 == b.script2,
        clamped_level(start_level) == 0,
    ensures
        a == b,
{
    lemma_opening_determined(a.p1, b.p1, start_level);
    lemma_opening_determined(a.p2, b.p2, start_level);
}

/// Where the policy of the player replays a script, the resolution of a
/// landing has one outcome in the match.
pub proof fn lemma_match_landing_determined(g: GameView, idx: i32, a: BlockKind, b: BlockKind)
    requires
        g.after_landing(idx, a).running ==> {
            &&& g.after_landing(idx, a).player(idx).level.replaying()
            &&& g.after_landing(idx, a).player(idx).level.offers(a)
            &&& g.after_landing(idx, b).player(idx).level.offers(b)
        },
    ensures
        g.after_landing(idx, a) == g.after_landing(idx, b),
{
    if g.running {
        lemma_landing_determined(g.player(idx), g.system_hi as int, a, b);
    }
}

/// Where the starting policy replays a script, there is one state to start
/// with: two players set up on the same level with the same script are in the
/// same state.
pub proof fn lemma_opening_determined(a: PlayerView, b: PlayerView, start_level: i32)
    requires
        is_opening(a, start_level),
        is_opening(b, start_level),
        a.script == b.script,
        initial_level(start_level as int, a.script).replaying(),
    ensures
        a == b,
{
}

/// A generator made from the seed with `SeedableRng::seed_from_u64` of `rand`.
/// Nothing is stated of it.
#[verifier::external_body]
fn seeded_rng(seed: u64) -> (rng: StdRng) {
    StdRng::seed_from_u64(seed)
}

/// A copy of a stored script.
fn copy_script(script: &Option<String>) -> (copy: Option<String>)
    ensures
        stored_script(copy) == stored_script(*script),
{
    match script {
        Some(text) => Some(text.clone()),
        None => None,
    }
}

impl Game {
    /// Both players are in a consistent state.
    pub open spec fn wf(&self) -> bool {
        self@.wf()
    }

    /// Starts a match: both players are set up on the start level, the first
    /// before the second, each with its script; player 1 is to move. Without a
    /// seed the generator starts from `DEFAULT_SEED`. The start level is
    /// brought into the range 0 to 4 first. On level 0 each script must have
    /// been read and must name a standard kind; the first script that fails
    /// gives the error.
    pub fn new(
        seed: Option<u64>,
        start_level: i32,
        script1: Option<String>,
        script2: Option<String>,
    ) -> (made: Result<Game, StartError>)
        ensures
            match made {
                Ok(g) => {
                    &&& g.wf()
                    &&& g@.system_hi == 0
                    &&& g@.current_player == 1
                    &&& g@.running
                    &&& g@.start_level == start_level
                    &&& g@.script1 == stored_script(script1)
                    &&& g@.script2 == stored_script(script2)
                    &&& g@.p1.script == g@.script1
                    &&& g@.p2.script == g@.script2
                    &&& is_opening(g@.p1, start_level)
                    &&& is_opening(g@.p2, start_level)
                    &&& is_start(g@, start_level)
                    &&& g@.tidy()
                    &&& start_error(start_level, stored_script(script1), stored_script(script2))
                        is None
                },
                Err(e) => start_error(start_level, stored_script(script1), stored_script(script2))
                    == Some(e),
            },
    {
        let mut rng = match seed {
            Some(s) => seeded_rng(s),
            None => seeded_rng(DEFAULT_SEED),
        };
        let p1 = match PlayerState::new(start_level, copy_script(&script1), &mut rng) {
            Ok(p) => p,
            Err(e) => {
                return Err(StartError { player: 1, error: e });
            },
        };
        let p2 = match PlayerState::new(start_level, copy_script(&script2), &mut rng) {
            Ok(p) => p,
            Err(e) => {
                return Err(StartError { player: 2, error: e });
            },
        };
        proof {
            lemma_opening_tidy(p1@, start_level);
            lemma_opening_tidy(p2@, start_level);
        }
        Ok(
            Game {
                rng,
                system_hi: 0,
                p1,
                p2,
                current_player: 1,
                running: true,
                start_level,
                script1,
                script2,
            },
        )
    }

    /// Starts the match anew with the level and scripts it was started with;
    /// the generator goes on where it stands. The players are set up one after
    /// the other: where the second cannot be, the first is new all the same,
    /// and turn and running flag stay as they were.
    pub fn restart(&mut self) -> (done: Result<(), StartError>)
        ensures
            final(self)@.system_hi == old(self)@.system_hi,
            final(self)@.start_level == old(self)@.start_level,
            final(self)@.script1 == old(self)@.script1,
            final(self)@.script2 == old(self)@.script2,
            done is Err || clamped_level(old(self)@.start_level) == 0 ==> final(self).rng == old(self).rng,
            match done {
                Ok(_) => {
                    &&& final(self).wf()
                    &&& final(self)@.current_player == 1
                    &&& final(self)@.running
                    &&& final(self)@.p1.script == old(self)@.script1
                    &&& final(self)@.p2.script == old(self)@.script2
                    &&& is_opening(final(self)@.p1, old(self)@.start_level)
                    &&& is_opening(final(self)@.p2, old(self)@.start_level)
                    &&& final(self)@.tidy()
                    &&& start_error(old(self)@.start_level, old(self)@.script1, old(self)@.script2)
                        is None
                },
                Err(e) => {
                    &&& start_error(old(self)@.start_level, old(self)@.script1, old(self)@.script2)
                        == Some(e)
                    &&& final(self)@.current_player == old(self)@.current_player
                    &&& final(self)@.running == old(self)@.running
                    &&& final(self)@.p2 == old(self)@.p2
                    &&& if e.player == 1 {
                        final(self)@.p1 == old(self)@.p1
                    } else {
                        final(self)@.p1.script == old(self)@.script1 && is_opening(
                            final(self)@.p1,
                            old(self)@.start_level,
                        )
                    }
                },
            },
    {
        match PlayerState::new(self.start_level, copy_script(&self.script1), &mut self.rng) {
            Ok(p) => {
                self.p1 = p;
            },
            Err(e) => {
                return Err(StartError { player: 1, error: e });
            },
        }
        match PlayerState::new(self.start_level, copy_script(&self.script2), &mut self.rng) {
            Ok(p) => {
                self.p2 = p;
            },
            Err(e) => {
                return Err(StartError { player: 2, error: e });
            },
        }
        self.current_player = 1;
        self.running = true;
        proof {
            lemma_opening_tidy(self.p1@, self.start_level);
            lemma_opening_tidy(self.p2@, self.start_level);
        }
        Ok(())
    }

    /// The acting player applies a special action to the opponent: `blind` and
    /// `heavy` put an effect on the opponent, `force` replaces the opponent's
    /// falling piece by one of the kind that `param` names. A forced piece that
    /// cannot enter ends the match. An action that is not known, and a `force`
    /// without a standard kind, change nothing; the report says which it was.
    pub fn apply_special_action(&mut self, acting_player: i32, action: &str, param: Option<&str>) -> (report:
        ActionReport)
        requires
            old(self).wf(),
            action@ == "force"@ ==> old(self)@.player(opponent_of(acting_player)).next_block_id
                < i32::MAX,
        ensures
            final(self).wf(),
            final(self)@ == old(self)@.after_special_action(
                acting_player,
                action@,
                script_view(param),
            ),
            report == struck_by(
                old(self)@.player(opponent_of(acting_player)),
                action@,
                script_view(param),
            ).1,
            old(self)@.tidy() ==> final(self)@.tidy(),
            final(self).rng == old(self).rng,
    {
        proof {
            if self@.tidy() {
                lemma_special_action_tidy(self@, acting_player, action@, script_view(param));
            }
        }
        let first_acts = acting_player == 1;
        if same_text(action, "blind") {
            if first_acts {
                self.p2.effects.push(Effect::blind());
            } else {
                self.p1.effects.push(Effect::blind());
            }
            ActionReport::Applied
        } else if same_text(action, "heavy") {
            if first_acts {
                self.p2.effects.push(Effect::heavy());
            } else {
                self.p1.effects.push(Effect::heavy());
            }
            ActionReport::Applied
        } else if same_text(action, "force") {
            let text = match param {
                Some(p) => p,
                None => {
                    return ActionReport::MissingKind;
                },
            };
            let chars = chars_of(text);
            if chars.len() == 0 {
                return ActionReport::EmptyKind;
            }
            if chars.len() > 1 {
                return ActionReport::LongKind;
            }
            match BlockKind::from_char(chars[0]) {
                Some(kind) => {
                    if kind == BlockKind::Star {
                        return ActionReport::BonusKind;
                    }
                    let forced = if first_acts {
                        self.p2.force_replace_current(kind)
                    } else {
                        self.p1.force_replace_current(kind)
                    };
                    match forced {
                        Ok(_) => ActionReport::Applied,
                        Err(_) => {
                            self.running = false;
                            ActionReport::GameOver
                        },
                    }
                },
                None => ActionReport::UnknownKind,
            }
        } else {
            ActionReport::UnknownAction
        }
    }

    /// Resolves the landing of the given player's piece; to be called once for
    /// each lock. Full rows are cleared and scored, losses are applied to the
    /// registry, the policy is told, a bonus piece is dropped where one is due,
    /// and the next piece enters. Where it cannot enter the match is over, and
    /// the generator is left as it is. Nothing happens in a match that is over.
    pub fn handle_landing(&mut self, player_idx: i32)
        requires
            old(self).wf(),
            old(self)@.running ==> old(self)@.player(player_idx).landing_fits(),
        ensures
            final(self).wf(),
            final(self)@ == old(self)@.after_landing(
                player_idx,
                final(self)@.player(player_idx).next_kind,
            ),
            old(self)@.running && final(self)@.running ==> final(self)@.player(
                player_idx,
            ).level.offers(final(self)@.player(player_idx).next_kind),
            old(self)@.tidy() ==> final(self)@.tidy(),
            !final(self)@.running || old(self)@.player(player_idx).level.replaying() ==> final(self).rng == old(self).rng,
    {
        if !self.running {
            return ;
        }
        let spawned = if player_idx == 1 {
            self.p1.land(&mut self.system_hi, &mut self.rng)
        } else {
            self.p2.land(&mut self.system_hi, &mut self.rng)
        };
        if !spawned {
            self.running = false;
        }
        proof {
            if old(self)@.tidy() {
                lemma_landing_tidy(old(self)@, player_idx, self@.player(player_idx).next_kind);
            }
        }
    }

    /// Sets the level of the given player; the number is brought into the range
    /// 0 to 4 first. The policy starts anew, without any loaded sequence, and
    /// the grid shows the new level. Level 0 needs the player's script; where
    /// that fails nothing changes.
    pub fn set_level(&mut self, player_idx: i32, new_level: i32) -> (done: Result<(), GameError>)
        requires
            old(self).wf(),
        ensures
            final(self).wf(),
            match done {
                Ok(_) => initial_level_error(
                    clamped_level(new_level) as int,
                    old(self)@.player(player_idx).script,
                ) is None && final(self)@ == old(self)@.with_level(player_idx, new_level),
                Err(e) => final(self)@ == old(self)@ && initial_level_error(
                    clamped_level(new_level) as int,
                    old(self)@.player(player_idx).script,
                ) is Some && e == GameError::Script(
                    initial_level_error(
                        clamped_level(new_level) as int,
                        old(self)@.player(player_idx).script,
                    )->0,
                ),
            },
            old(self)@.tidy() ==> final(self)@.tidy(),
            final(self).rng == old(self).rng,
    {
        let lvl = clamp_level(new_level);
        proof {
            if self@.tidy() {
                lemma_level_tidy(self@, player_idx, new_level);
            }
        }
        if player_idx == 1 {
            self.p1.set_level(lvl)
        } else {
            self.p2.set_level(lvl)
        }
    }

    /// The given player makes a move with the falling piece. Sideways moves,
    /// turns and moves down make the piece sink as the level and the effects on
    /// the player ask; a piece that hits the ground on the way lands, and a
    /// dropped piece always does. The landing is resolved as `handle_landing`
    /// does it; a move without a landing leaves the generator as it is. In a
    /// match that is over nothing moves.
    pub fn act(&mut self, player_idx: i32, action: Action) -> (step: Step)
        requires
            old(self).wf(),
            old(self)@.running ==> old(self)@.player(player_idx).ready(),
        ensures
            final(self).wf(),
            (final(self)@, step) == old(self)@.after_action(
                player_idx,
                action,
                final(self)@.player(player_idx).next_kind,
            ),
            step == Step::Landed ==> final(self)@.player(player_idx).level.offers(
                final(self)@.player(player_idx).next_kind,
            ),
            step != Step::Landed || old(self)@.player(player_idx).level.replaying() ==> final(self).rng == old(self).rng,
            old(self)@.tidy() ==> final(self)@.tidy(),
    {
        if !self.running {
            return Step::Stayed;
        }
        let step = if player_idx == 1 {
            match action {
                Action::Left => self.p1.shift(false, &mut self.system_hi, &mut self.rng),
                Action::Right => self.p1.shift(true, &mut self.system_hi, &mut self.rng),
                Action::Down => self.p1.descend(&mut self.system_hi, &mut self.rng),
                Action::RotateCw => self.p1.turn(true, &mut self.system_hi, &mut self.rng),
                Action::RotateCcw => self.p1.turn(false, &mut self.system_hi, &mut self.rng),
                Action::Drop => self.p1.hard_drop(&mut self.system_hi, &mut self.rng),
            }
        } else {
            match action {
                Action::Left => self.p2.shift(false, &mut self.system_hi, &mut self.rng),
                Action::Right => self.p2.shift(true, &mut self.system_hi, &mut self.rng),
                Action::Down => self.p2.descend(&mut self.system_hi, &mut self.rng),
                Action::RotateCw => self.p2.turn(true, &mut self.system_hi, &mut self.rng),
                Action::RotateCcw => self.p2.turn(false, &mut self.system_hi, &mut self.rng),
                Action::Drop => self.p2.hard_drop(&mut self.system_hi, &mut self.rng),
            }
        };
        if step == Step::Lost {
            self.running = false;
        }
        proof {
            if old(self)@.tidy() {
                lemma_action_tidy(
                    old(self)@,
                    player_idx,
                    action,
                    self@.player(player_idx).next_kind,
                );
            }
        }
        step
    }

    /// Passes the turn to the opponent of the acting player, unless the match
    /// is over.
    pub fn pass_turn(&mut self, acting_player: i32)
        ensures
            final(self)@ == (GameView {
                current_player: if old(self)@.running {
                    opponent_of(acting_player)
                } else {
                    old(self)@.current_player
                },
                ..old(self)@
            }),
            final(self).rng == old(self).rng,
    {
        if self.running {
            self.current_player = if acting_player == 1 {
                2
            } else {
                1
            };
        }
    }

    /// Whether the given player is ready for a move.
    pub fn is_ready(&self, player_idx: i32) -> (ok: bool)
        requires
            self@.player(player_idx).grid.shaped(),
            self@.player(player_idx).level.wf(),
        ensures
            ok == self@.player(player_idx).ready(),
    {
        if player_idx == 1 {
            self.p1.is_ready()
        } else {
            self.p2.is_ready()
        }
    }

    /// Whether both players are in a consistent state.
    pub fn is_sound(&self) -> (ok: bool)
        requires
            self@.p1.grid.shaped(),
            self@.p1.level.wf(),
            self@.p2.grid.shaped(),
            self@.p2.level.wf(),
        ensures
            ok == self.wf(),
    {
        self.p1.is_sound() && self.p2.is_sound()
    }

    /// Ends the turn of the acting player after a landing: the effects on that
    /// player are swept. Where the player's lock cleared two rows or more, a
    /// special action is due and the turn stays; else the turn passes to the
    /// opponent. Returns whether a special action is due. In a match that is
    /// over nothing happens.
    pub fn end_turn(&mut self, acting_player: i32) -> (due: bool)
        ensures
            due == old(self)@.action_due(acting_player),
            final(self)@ == old(self)@.after_turn(acting_player),
            old(self).wf() ==> final(self).wf(),
            old(self)@.tidy() ==> final(self)@.tidy(),
            final(self).rng == old(self).rng,
    {
        if !self.running {
            return false;
        }
        let cleared = if acting_player == 1 {
            self.p1.on_drop_effects();
            self.p1.last_cleared
        } else {
            self.p2.on_drop_effects();
            self.p2.last_cleared
        };
        if cleared >= 2 {
            return true;
        }
        self.current_player = if acting_player == 1 {
            2
        } else {
            1
        };
        false
    }
}

} // verus!

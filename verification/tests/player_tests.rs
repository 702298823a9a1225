use rand::rngs::StdRng;
use rand::SeedableRng;
use std::collections::HashMap;
use tetris::block::BlockKind;
use tetris::effects::Effect;
use tetris::grid::COLS;
use tetris::level::LevelError;
use tetris::player::{BlockInfo, GameError, PlayerState, Step};

fn rng() -> StdRng {
    StdRng::seed_from_u64(1)
}

fn player(level: i32, script: &str) -> PlayerState {
    PlayerState::new(level, Some(script.to_string()), &mut rng()).unwrap()
}

fn row_text(p: &PlayerState, r: usize) -> String {
    (0..COLS).map(|c| p.grid.get(r, c)).collect()
}

#[test]
fn a_new_player_has_the_first_piece_on_the_grid_and_the_next_in_the_preview() {
    let p = player(0, "T O");
    assert_eq!(p.cur.kind, BlockKind::T);
    assert_eq!(p.cur.id, 1);
    assert_eq!(p.next_kind, BlockKind::O);
    assert_eq!(p.next_preview.kind, BlockKind::O);
    assert_eq!(p.next_preview.id, 0);
    assert_eq!(p.next_block_id, 2);
    assert_eq!(p.last_cleared, 0);
    assert_eq!(p.start_level, 0);
    assert!(p.effects.is_empty());
    assert_eq!(row_text(&p, 1), "Level:    0");
    assert_eq!(row_text(&p, 7), "TTT        ");
    assert_eq!(row_text(&p, 8), " T         ");
    assert_eq!(row_text(&p, 24), "OO         ");
    assert_eq!(row_text(&p, 25), "OO         ");
    assert_eq!(p.grid.get_block_id(7, 0), 1);
    assert_eq!(p.grid.cur_score(), 0);
    assert_eq!(p.registry.len(), 1);
    assert_eq!(p.registry[&1], BlockInfo { origin_level: 0, cells_remaining: 4 });
}

#[test]
fn a_new_player_shows_its_level() {
    for level in 1..=4 {
        let p = PlayerState::new(level, None, &mut rng()).unwrap();
        assert_eq!(p.level.number(), level);
        assert_eq!(p.grid.get(1, 10), char::from(b'0' + level as u8));
        assert_eq!(p.registry[&1].origin_level, level);
        assert_ne!(p.cur.kind, BlockKind::Star);
        assert_ne!(p.next_kind, BlockKind::Star);
    }
}

#[test]
fn level_zero_cannot_start_without_a_script() {
    assert!(matches!(
        PlayerState::new(0, None, &mut rng()),
        Err(GameError::Script(LevelError::Unreadable))
    ));
    assert!(matches!(
        PlayerState::new(0, Some("no kinds here".to_string()), &mut rng()),
        Err(GameError::Script(LevelError::EmptySequence))
    ));
    assert!(matches!(
        PlayerState::new(-9, None, &mut rng()),
        Err(GameError::Script(LevelError::Unreadable))
    ));
}

#[test]
fn a_start_level_above_four_starts_on_level_four() {
    let p = PlayerState::new(9, None, &mut rng()).unwrap();
    assert_eq!(p.level.number(), 4);
    assert!(p.level.is_heavy());
    assert_eq!(p.start_level, 9);
    assert_eq!(row_text(&p, 1), "Level:    4");
    assert_eq!(p.registry[&1].origin_level, 4);
    assert_ne!(p.cur.kind, BlockKind::Star);
}

#[test]
fn a_single_kind_script_gives_that_kind_twice() {
    let p = player(0, "S");
    assert_eq!(p.cur.kind, BlockKind::S);
    assert_eq!(p.next_kind, BlockKind::S);
}

#[test]
fn effects_are_counted() {
    let mut p = player(0, "T");
    assert!(!p.has_blind());
    assert_eq!(p.extra_heavy_after_horizontal(), 0);
    p.effects.push(Effect::heavy());
    assert!(!p.has_blind());
    assert_eq!(p.extra_heavy_after_horizontal(), 2);
    p.effects.push(Effect::blind());
    p.effects.push(Effect::heavy());
    assert!(p.has_blind());
    assert_eq!(p.extra_heavy_after_horizontal(), 4);
}

#[test]
fn a_lock_ends_every_effect_and_a_second_sweep_changes_nothing() {
    let mut p = player(0, "T");
    p.effects.push(Effect::heavy());
    p.effects.push(Effect::blind());
    p.effects.push(Effect::Blind { expired: true });
    p.on_drop_effects();
    assert!(p.effects.is_empty());
    assert!(!p.has_blind());
    assert_eq!(p.extra_heavy_after_horizontal(), 0);
    p.on_drop_effects();
    assert!(p.effects.is_empty());
}

#[test]
fn a_sweep_of_no_effects_leaves_none() {
    let mut p = player(0, "T");
    p.on_drop_effects();
    assert!(p.effects.is_empty());
    p.on_drop_effects();
    assert!(p.effects.is_empty());
}

#[test]
fn only_positive_ids_are_registered() {
    let mut p = player(0, "T");
    p.register_block(0, 2, 4);
    p.register_block(-3, 2, 4);
    assert_eq!(p.registry.len(), 1);
    p.register_block(17, 3, 1);
    assert_eq!(p.registry[&17], BlockInfo { origin_level: 3, cells_remaining: 1 });
    p.register_block(17, 1, 4);
    assert_eq!(p.registry[&17], BlockInfo { origin_level: 1, cells_remaining: 4 });
    assert_eq!(p.registry.len(), 2);
}

#[test]
fn a_loss_lowers_the_count_and_the_last_cell_earns_the_bonus() {
    let mut p = player(0, "T");
    p.register_block(10, 0, 4);
    p.register_block(11, 3, 4);
    p.register_block(12, 4, 2);
    p.register_block(13, 1, 4);
    let mut hi = 0;
    let mut loss = HashMap::new();
    loss.insert(10, 1);
    loss.insert(11, 4);
    loss.insert(12, 5);
    loss.insert(99, 3);
    p.apply_block_loss(&loss, &mut hi);
    assert_eq!(p.registry[&10], BlockInfo { origin_level: 0, cells_remaining: 3 });
    assert!(!p.registry.contains_key(&11));
    assert!(!p.registry.contains_key(&12));
    assert!(!p.registry.contains_key(&99));
    assert_eq!(p.registry[&13], BlockInfo { origin_level: 1, cells_remaining: 4 });
    // (3 + 1)^2 + (4 + 1)^2
    assert_eq!(p.grid.cur_score(), 16 + 25);
    assert_eq!(hi, 41);
    assert_eq!(row_text(&p, 2), "Score:   41");
}

#[test]
fn the_falling_piece_loses_nothing() {
    let mut p = player(0, "T");
    let mut hi = 5;
    let mut loss = HashMap::new();
    loss.insert(p.cur.id, 4);
    p.apply_block_loss(&loss, &mut hi);
    assert_eq!(p.registry[&1], BlockInfo { origin_level: 0, cells_remaining: 4 });
    assert_eq!(p.grid.cur_score(), 0);
    assert_eq!(hi, 5);
}

#[test]
fn the_high_score_only_follows_a_higher_score() {
    let mut p = player(0, "T");
    p.register_block(10, 0, 1);
    let mut hi = 100;
    let mut loss = HashMap::new();
    loss.insert(10, 1);
    p.apply_block_loss(&loss, &mut hi);
    assert_eq!(p.grid.cur_score(), 1);
    assert_eq!(hi, 100);
}

#[test]
fn the_preview_follows_the_next_kind() {
    let mut p = player(0, "T O");
    p.next_kind = BlockKind::I;
    p.refresh_preview();
    assert_eq!(p.next_preview.kind, BlockKind::I);
    assert_eq!(p.next_preview.id, 0);
    assert_eq!(row_text(&p, 24), "IIII       ");
    assert_eq!(row_text(&p, 25), "           ");
}

#[test]
fn a_forced_piece_replaces_the_falling_one_without_any_bonus() {
    let mut p = player(0, "T");
    // the falling piece has lost cells before
    p.registry.insert(1, BlockInfo { origin_level: 0, cells_remaining: 2 });
    p.grid.add_score(7);
    assert_eq!(p.force_replace_current(BlockKind::O), Ok(()));
    assert!(!p.registry.contains_key(&1));
    assert_eq!(p.grid.cur_score(), 7);
    assert_eq!(p.cur.kind, BlockKind::O);
    assert_eq!(p.cur.id, 2);
    assert_eq!(p.next_block_id, 3);
    assert_eq!(p.registry[&2], BlockInfo { origin_level: 0, cells_remaining: 4 });
    assert_eq!(row_text(&p, 7), "OO         ");
    assert_eq!(row_text(&p, 8), "OO         ");
    assert_eq!(p.grid.get_block_id(7, 2), -1);
    assert_eq!(p.grid.get_block_id(7, 0), 2);
}

#[test]
fn a_forced_piece_that_cannot_enter_fails_and_the_old_piece_is_gone() {
    let mut p = player(0, "T");
    p.cur.drop(&mut p.grid);
    p.grid.set_cell(7, 3, 'X', 50);
    assert_eq!(p.force_replace_current(BlockKind::I), Err(GameError::ForcedSpawn));
    assert!(!p.registry.contains_key(&1));
    assert_eq!(p.next_block_id, 3);
    assert_eq!(p.grid.cur_score(), 0);
    assert_eq!(row_text(&p, 20), "           ");
    assert_eq!(row_text(&p, 21), "           ");
    assert_eq!(p.cur.id, 1);
}

#[test]
fn settling_clears_scores_and_pays_the_bonus() {
    let mut p = player(0, "T");
    p.register_block(20, 2, 11);
    for c in 0..COLS {
        p.grid.set_cell(21, c, 'X', 20);
    }
    let mut hi = 0;
    assert_eq!(p.settle(&mut hi), 1);
    // (1 + 0)^2 for the row, (2 + 1)^2 for the piece
    assert_eq!(p.grid.cur_score(), 1 + 9);
    assert_eq!(hi, 10);
    assert!(!p.registry.contains_key(&20));
    assert_eq!(row_text(&p, 21), "           ");
}

#[test]
fn a_sideways_move_at_a_wall_stays() {
    let mut p = player(0, "O");
    let mut hi = 0;
    assert_eq!(p.shift(false, &mut hi, &mut rng()), Step::Stayed);
    assert_eq!(p.shift(true, &mut hi, &mut rng()), Step::Moved);
    assert_eq!(row_text(&p, 7), " OO        ");
}

#[test]
fn a_heavy_effect_makes_the_piece_sink_two_rows_after_a_sideways_move() {
    let mut p = player(0, "O");
    p.effects.push(Effect::heavy());
    let mut hi = 0;
    assert_eq!(p.shift(true, &mut hi, &mut rng()), Step::Moved);
    assert_eq!(row_text(&p, 9), " OO        ");
    assert_eq!(row_text(&p, 10), " OO        ");
    assert_eq!(row_text(&p, 7), "           ");
    assert_eq!(p.sink(3), false);
    assert_eq!(row_text(&p, 12), " OO        ");
    assert_eq!(p.sink(100), true);
    assert_eq!(row_text(&p, 21), " OO        ");
}

#[test]
fn a_move_down_on_a_light_level_never_lands() {
    let mut p = player(0, "O");
    let mut hi = 0;
    for _ in 0..13 {
        assert_eq!(p.descend(&mut hi, &mut rng()), Step::Moved);
    }
    assert_eq!(p.descend(&mut hi, &mut rng()), Step::Stayed);
    assert_eq!(p.cur.id, 1);
    assert_eq!(row_text(&p, 21), "OO         ");
}

#[test]
fn a_move_down_on_a_heavy_level_goes_two_rows_and_lands_at_the_ground() {
    let mut p = PlayerState::new(3, None, &mut rng()).unwrap();
    p.force_replace_current(BlockKind::O).unwrap();
    let mut hi = 0;
    let mut r = rng();
    // rows 7..8 to rows 19..20 in six moves, then one row and the ground
    for _ in 0..6 {
        assert_eq!(p.descend(&mut hi, &mut r), Step::Moved);
    }
    assert_eq!(row_text(&p, 20), "OO         ");
    assert_eq!(p.descend(&mut hi, &mut r), Step::Landed);
    assert_eq!(row_text(&p, 21), "OO         ");
    assert_eq!(p.cur.id, 3);
}

#[test]
fn a_turn_on_a_heavy_level_sinks_the_piece() {
    let mut p = PlayerState::new(3, None, &mut rng()).unwrap();
    p.force_replace_current(BlockKind::O).unwrap();
    let mut hi = 0;
    assert_eq!(p.turn(true, &mut hi, &mut rng()), Step::Moved);
    assert_eq!(row_text(&p, 8), "OO         ");
    assert_eq!(row_text(&p, 9), "OO         ");
}

#[test]
fn a_hard_drop_lands_and_the_next_piece_enters() {
    let mut p = player(0, "T O");
    let mut hi = 0;
    assert_eq!(p.hard_drop(&mut hi, &mut rng()), Step::Landed);
    assert_eq!(row_text(&p, 20), "TTT        ");
    assert_eq!(row_text(&p, 21), " T         ");
    assert_eq!(p.cur.kind, BlockKind::O);
    assert_eq!(p.cur.id, 2);
    assert_eq!(p.next_kind, BlockKind::T);
    assert_eq!(row_text(&p, 7), "OO         ");
    assert_eq!(row_text(&p, 24), "TTT        ");
    assert_eq!(p.registry.len(), 2);
    assert_eq!(p.last_cleared, 0);
}

#[test]
fn a_full_stack_loses_the_match() {
    let mut p = player(0, "O");
    let mut hi = 0;
    let mut steps = Vec::new();
    for _ in 0..8 {
        steps.push(p.hard_drop(&mut hi, &mut rng()));
    }
    // seven pieces of two rows fill rows 8 to 21; the stack then reaches row 8
    assert_eq!(steps[..6], [Step::Landed; 6]);
    assert_eq!(steps[6], Step::Lost);
}

#[test]
fn setting_the_level_starts_the_policy_anew() {
    let mut p = player(0, "T");
    assert_eq!(p.set_level(4), Ok(()));
    assert_eq!(p.level.number(), 4);
    assert!(p.level.is_heavy());
    assert_eq!(row_text(&p, 1), "Level:    4");
    assert_eq!(p.set_level(0), Ok(()));
    assert_eq!(p.level.number(), 0);
    let mut q = PlayerState::new(2, None, &mut rng()).unwrap();
    assert_eq!(q.set_level(0), Err(GameError::Script(LevelError::Unreadable)));
    assert_eq!(q.level.number(), 2);
    assert_eq!(row_text(&q, 1), "Level:    2");
}

#[test]
fn a_new_player_on_level_zero_leaves_the_generator_untouched() {
    let mut r = StdRng::seed_from_u64(21);
    let before = r.clone();
    let p = PlayerState::new(0, Some("T O".to_string()), &mut r).unwrap();
    assert_eq!(p.cur.kind, BlockKind::T);
    assert_eq!(p.next_kind, BlockKind::O);
    assert_eq!(r, before);
    assert!(PlayerState::new(0, None, &mut r).is_err());
    assert!(PlayerState::new(-4, Some("x".to_string()), &mut r).is_err());
    assert_eq!(r, before);
    PlayerState::new(2, None, &mut r).unwrap();
    assert_ne!(r, before);
}

#[test]
fn a_landing_with_a_replaying_policy_draws_nothing() {
    let mut p = player(0, "T O");
    let mut r = StdRng::seed_from_u64(3);
    let before = r.clone();
    let mut hi = 0;
    assert_eq!(p.hard_drop(&mut hi, &mut r), Step::Landed);
    assert_eq!(p.shift(true, &mut hi, &mut r), Step::Moved);
    assert_eq!(p.turn(true, &mut hi, &mut r), Step::Moved);
    assert_eq!(p.descend(&mut hi, &mut r), Step::Moved);
    assert_eq!(r, before);
}

#[test]
fn a_move_without_a_landing_draws_nothing() {
    let mut p = PlayerState::new(1, None, &mut rng()).unwrap();
    let mut r = StdRng::seed_from_u64(3);
    let before = r.clone();
    let mut hi = 0;
    p.shift(true, &mut hi, &mut r);
    p.descend(&mut hi, &mut r);
    p.turn(false, &mut hi, &mut r);
    assert_eq!(p.sink(2), false);
    assert_eq!(r, before);
    assert_eq!(p.hard_drop(&mut hi, &mut r), Step::Landed);
    assert_ne!(r, before);
}

#[test]
fn no_kind_is_drawn_when_the_next_piece_cannot_enter() {
    let mut p = PlayerState::new(2, None, &mut rng()).unwrap();
    for c in 0..4 {
        p.grid.set_cell(9, c, 'X', 700);
    }
    p.force_replace_current(BlockKind::O).unwrap();
    p.next_kind = BlockKind::O;
    let mut r = StdRng::seed_from_u64(3);
    let before = r.clone();
    let mut hi = 0;
    let kind = p.next_kind;
    let id = p.cur.id;
    assert_eq!(p.hard_drop(&mut hi, &mut r), Step::Lost);
    assert_eq!(r, before);
    assert_eq!(p.next_kind, kind);
    assert_eq!(p.cur.id, id);
    assert!(!p.registry.contains_key(&(id + 1)));
}

use rand::distributions::{Distribution, WeightedIndex};
use rand::rngs::StdRng;
use rand::SeedableRng;
use tetris::block::BlockKind;
use tetris::effects::Effect;
use tetris::game::{Action, ActionReport, Game, StartError};
use tetris::grid::{COLS, PLAY_BOTTOM, PLAY_TOP};
use tetris::level::{kind_of_index, LevelError};
use tetris::player::{BlockInfo, GameError, PlayerState, Step};
use tetris::render_text::two_boards;

fn script(s: &str) -> Option<String> {
    Some(s.to_string())
}

fn row_text(p: &PlayerState, r: usize) -> String {
    (0..COLS).map(|c| p.grid.get(r, c)).collect()
}

fn count_glyph(p: &PlayerState, glyph: char) -> usize {
    let mut n = 0;
    for r in PLAY_TOP..=PLAY_BOTTOM {
        for c in 0..COLS {
            if p.grid.get(r, c) == glyph {
                n += 1;
            }
        }
    }
    n
}

fn snapshot(g: &Game) -> (Vec<Vec<char>>, Vec<Vec<char>>, i32, i32, bool, i32) {
    (
        g.p1.grid.matrix().clone(),
        g.p2.grid.matrix().clone(),
        g.p1.grid.cur_score(),
        g.p2.grid.cur_score(),
        g.running,
        g.system_hi,
    )
}

#[test]
fn a_new_match_starts_with_player_one() {
    let g = Game::new(Some(3), 0, script("T O"), script("I J")).unwrap();
    assert_eq!(g.current_player, 1);
    assert!(g.running);
    assert_eq!(g.system_hi, 0);
    assert_eq!(g.start_level, 0);
    assert_eq!(g.p1.cur.kind, BlockKind::T);
    assert_eq!(g.p1.next_kind, BlockKind::O);
    assert_eq!(g.p2.cur.kind, BlockKind::I);
    assert_eq!(g.p2.next_kind, BlockKind::J);
    assert_eq!(g.script1, script("T O"));
    assert_eq!(g.script2, script("I J"));
}

#[test]
fn a_match_on_level_zero_needs_both_scripts() {
    let unreadable = GameError::Script(LevelError::Unreadable);
    let empty = GameError::Script(LevelError::EmptySequence);
    assert_eq!(
        Game::new(None, 0, None, script("T")).err(),
        Some(StartError { player: 1, error: unreadable })
    );
    assert_eq!(
        Game::new(None, 0, script("T"), script("")).err(),
        Some(StartError { player: 2, error: empty })
    );
    assert_eq!(
        Game::new(None, 0, script("?"), None).err(),
        Some(StartError { player: 1, error: empty })
    );
    assert_eq!(
        Game::new(None, -7, script("T"), None).err(),
        Some(StartError { player: 2, error: unreadable })
    );
    assert!(Game::new(None, 1, None, None).is_ok());
}

#[test]
fn the_same_seed_gives_the_same_match() {
    let actions = [
        Action::Right,
        Action::RotateCw,
        Action::Down,
        Action::Drop,
        Action::Left,
        Action::RotateCcw,
        Action::Right,
        Action::Right,
        Action::Drop,
        Action::Down,
        Action::Drop,
        Action::Right,
        Action::Drop,
    ];
    for level in 1..=4 {
        let mut a = Game::new(Some(2024), level, None, None).unwrap();
        let mut b = Game::new(Some(2024), level, None, None).unwrap();
        assert_eq!(snapshot(&a), snapshot(&b));
        for round in 0..6 {
            for action in actions {
                let player = 1 + (round % 2);
                let sa = a.act(player, action);
                let sb = b.act(player, action);
                assert_eq!(sa, sb);
                assert_eq!(a.p1.cur.kind, b.p1.cur.kind);
                assert_eq!(a.p2.cur.kind, b.p2.cur.kind);
                assert_eq!(a.p1.next_kind, b.p1.next_kind);
                assert_eq!(a.p2.next_kind, b.p2.next_kind);
                assert_eq!(snapshot(&a), snapshot(&b));
            }
        }
    }
}

#[test]
fn a_match_without_a_seed_starts_from_the_default_seed() {
    let a = Game::new(None, 2, None, None).unwrap();
    let b = Game::new(Some(12345), 2, None, None).unwrap();
    assert_eq!(a.p1.cur.kind, b.p1.cur.kind);
    assert_eq!(a.p1.next_kind, b.p1.next_kind);
    assert_eq!(a.p2.cur.kind, b.p2.cur.kind);
    assert_eq!(a.p2.next_kind, b.p2.next_kind);
}

#[test]
fn the_players_draw_one_after_the_other_from_one_generator() {
    let g = Game::new(Some(77), 1, None, None).unwrap();
    let mut r = StdRng::seed_from_u64(77);
    let first = PlayerState::new(1, None, &mut r).unwrap();
    let second = PlayerState::new(1, None, &mut r).unwrap();
    assert_eq!(g.p1.cur.kind, first.cur.kind);
    assert_eq!(g.p1.next_kind, first.next_kind);
    assert_eq!(g.p2.cur.kind, second.cur.kind);
    assert_eq!(g.p2.next_kind, second.next_kind);
}

#[test]
fn eleven_long_pieces_side_by_side_clear_four_rows() {
    let mut g = Game::new(None, 0, script("I I I I"), script("I I I I")).unwrap();
    for col in 0..11 {
        assert_eq!(g.p1.cur.kind, BlockKind::I);
        assert_eq!(g.act(1, Action::RotateCw), Step::Moved);
        for _ in 0..col {
            assert_eq!(g.act(1, Action::Right), Step::Moved);
        }
        if col < 10 {
            assert_eq!(g.act(1, Action::Drop), Step::Landed);
            assert_eq!(g.p1.last_cleared, 0);
            assert_eq!(g.p1.grid.cur_score(), 0);
        }
    }
    assert_eq!(g.act(1, Action::Drop), Step::Landed);
    assert_eq!(g.p1.last_cleared, 4);
    // (4 + 0)^2 for the rows, and (0 + 1)^2 for each of the ten pieces used up;
    // the piece that landed last is not struck
    assert_eq!(g.p1.grid.cur_score(), 16 + 10);
    assert_eq!(g.system_hi, 26);
    assert_eq!(row_text(&g.p1, 2), "Score:   26");
    for r in 9..=21 {
        assert_eq!(row_text(&g.p1, r), "           ");
    }
    assert_eq!(g.p1.registry.len(), 2);
    assert_eq!(g.p1.registry[&11], BlockInfo { origin_level: 0, cells_remaining: 4 });
    assert_eq!(g.p1.registry[&12], BlockInfo { origin_level: 0, cells_remaining: 4 });
    assert_eq!(g.p1.cur.kind, BlockKind::I);
    assert_eq!(g.p1.next_kind, BlockKind::I);
    assert_eq!(g.p2.grid.cur_score(), 0);
}

#[test]
fn a_long_piece_that_completes_one_row_earns_one_point_and_the_bonuses() {
    let mut g = Game::new(None, 0, script("I I I I"), script("I I I I")).unwrap();
    for c in 8..11 {
        g.p1.grid.set_cell(21, c, 'X', 500);
    }
    assert_eq!(g.act(1, Action::Drop), Step::Landed);
    assert_eq!(g.p1.grid.cur_score(), 0);
    for _ in 0..4 {
        assert_eq!(g.act(1, Action::Right), Step::Moved);
    }
    assert_eq!(g.act(1, Action::Drop), Step::Landed);
    assert_eq!(g.p1.last_cleared, 1);
    // (1 + 0)^2 for the row and (0 + 1)^2 for the first piece
    assert_eq!(g.p1.grid.cur_score(), 2);
    assert_eq!(g.system_hi, 2);
    assert!(!g.p1.registry.contains_key(&1));
    assert_eq!(g.p1.registry[&2].cells_remaining, 4);
    assert_eq!(row_text(&g.p1, 21), "           ");
}

#[test]
fn handle_landing_resolves_a_lock_step_by_step() {
    let mut g = Game::new(None, 0, script("O T"), script("O")).unwrap();
    for c in 2..11 {
        g.p2.grid.set_cell(21, c, 'X', 40);
        g.p2.grid.set_cell(20, c, 'X', 41);
    }
    g.p2.register_block(40, 1, 9);
    g.p2.register_block(41, 2, 10);
    g.p2.cur.drop(&mut g.p2.grid);
    g.handle_landing(2);
    assert!(g.running);
    assert_eq!(g.p2.last_cleared, 2);
    // (2 + 0)^2 for the rows, (1 + 1)^2 for piece 40; piece 41 keeps a cell
    assert_eq!(g.p2.grid.cur_score(), 4 + 4);
    assert_eq!(g.system_hi, 8);
    assert!(!g.p2.registry.contains_key(&40));
    assert_eq!(g.p2.registry[&41], BlockInfo { origin_level: 2, cells_remaining: 1 });
    assert_eq!(g.p2.cur.id, 2);
    assert_eq!(g.p2.next_block_id, 3);
    assert_eq!(row_text(&g.p2, 7), "OO         ");
    assert_eq!(g.current_player, 1);
    assert_eq!(g.p1.grid.cur_score(), 0);
}

#[test]
fn nothing_lands_in_a_match_that_is_over() {
    let mut g = Game::new(None, 0, script("O"), script("O")).unwrap();
    g.running = false;
    let before = snapshot(&g);
    g.handle_landing(1);
    assert_eq!(g.act(1, Action::Drop), Step::Stayed);
    assert_eq!(g.act(2, Action::Left), Step::Stayed);
    assert_eq!(snapshot(&g), before);
    assert_eq!(g.p1.cur.id, 1);
}

#[test]
fn a_piece_that_cannot_enter_ends_the_match() {
    let mut g = Game::new(None, 0, script("O"), script("O")).unwrap();
    let mut last = Step::Stayed;
    for _ in 0..7 {
        last = g.act(2, Action::Drop);
    }
    assert_eq!(last, Step::Lost);
    assert!(!g.running);
}

#[test]
fn two_rows_earn_a_special_action_before_the_turn_passes() {
    let mut g = Game::new(Some(1), 1, None, None).unwrap();
    g.p1.force_replace_current(BlockKind::O).unwrap();
    for c in 2..11 {
        g.p1.grid.set_cell(20, c, 'X', 900);
        g.p1.grid.set_cell(21, c, 'X', 900);
    }
    assert_eq!(g.act(1, Action::Drop), Step::Landed);
    assert_eq!(g.p1.last_cleared, 2);
    // (2 + 1)^2
    assert_eq!(g.p1.grid.cur_score(), 9);
    assert!(g.end_turn(1));
    assert_eq!(g.current_player, 1);
    assert_eq!(g.apply_special_action(1, "blind", None), ActionReport::Applied);
    assert!(g.p2.has_blind());
    assert!(!g.p1.has_blind());

    let lines = two_boards(&g.p1.grid, &g.p2.grid, g.p1.has_blind(), g.p2.has_blind(), g.system_hi);
    let mut masked = 0;
    for (k, line) in lines.iter().enumerate() {
        for (c, ch) in line.iter().enumerate() {
            if *ch == '?' {
                masked += 1;
                let row = k - 2;
                assert!((9..=18).contains(&row));
                assert!((16 + 2..=16 + 8).contains(&c));
            }
        }
    }
    assert_eq!(masked, 70);

    g.current_player = 2;
    assert_eq!(g.act(2, Action::Drop), Step::Landed);
    assert!(!g.end_turn(2));
    assert!(!g.p2.has_blind());
    assert_eq!(g.current_player, 1);
    let lines = two_boards(&g.p1.grid, &g.p2.grid, g.p1.has_blind(), g.p2.has_blind(), g.system_hi);
    assert!(lines.iter().all(|line| !line.contains(&'?')));
}

#[test]
fn one_row_earns_no_special_action() {
    let mut g = Game::new(None, 0, script("I"), script("I")).unwrap();
    for c in 4..11 {
        g.p1.grid.set_cell(21, c, 'X', 900);
    }
    assert_eq!(g.act(1, Action::Drop), Step::Landed);
    assert_eq!(g.p1.last_cleared, 1);
    assert!(!g.end_turn(1));
    assert_eq!(g.current_player, 2);
    assert_eq!(g.act(2, Action::Drop), Step::Landed);
    assert!(!g.end_turn(2));
    assert_eq!(g.current_player, 1);
}

#[test]
fn a_heavy_action_weighs_on_the_opponent_until_its_next_lock() {
    let mut g = Game::new(None, 0, script("O"), script("O")).unwrap();
    assert_eq!(g.apply_special_action(2, "heavy", None), ActionReport::Applied);
    assert_eq!(g.p1.extra_heavy_after_horizontal(), 2);
    assert_eq!(g.p2.extra_heavy_after_horizontal(), 0);
    assert_eq!(g.act(1, Action::Right), Step::Moved);
    assert_eq!(row_text(&g.p1, 9), " OO        ");
    assert_eq!(g.act(1, Action::Drop), Step::Landed);
    assert!(!g.end_turn(1));
    assert_eq!(g.p1.extra_heavy_after_horizontal(), 0);
    assert_eq!(g.act(1, Action::Right), Step::Moved);
    assert_eq!(row_text(&g.p1, 7), " OO        ");
}

#[test]
fn a_forced_piece_replaces_the_piece_of_the_opponent() {
    let mut g = Game::new(None, 0, script("O"), script("O")).unwrap();
    assert_eq!(g.apply_special_action(1, "force", Some("I")), ActionReport::Applied);
    assert_eq!(g.p2.cur.kind, BlockKind::I);
    assert_eq!(g.p2.cur.id, 2);
    assert_eq!(row_text(&g.p2, 7), "IIII       ");
    assert_eq!(row_text(&g.p2, 8), "           ");
    assert_eq!(g.p1.cur.kind, BlockKind::O);
    assert!(g.running);
    assert_eq!(g.p2.grid.cur_score(), 0);
}

#[test]
fn a_forced_piece_that_cannot_enter_ends_the_match() {
    let mut g = Game::new(None, 0, script("O"), script("O")).unwrap();
    g.p1.grid.set_cell(7, 3, 'X', 900);
    assert_eq!(g.apply_special_action(2, "force", Some("I")), ActionReport::GameOver);
    assert!(!g.running);
    assert_eq!(g.current_player, 1);
}

#[test]
fn a_force_without_a_standard_kind_changes_nothing() {
    let mut g = Game::new(None, 0, script("O"), script("O")).unwrap();
    let before = snapshot(&g);
    assert_eq!(g.apply_special_action(1, "force", None), ActionReport::MissingKind);
    assert_eq!(g.apply_special_action(1, "force", Some("")), ActionReport::EmptyKind);
    assert_eq!(g.apply_special_action(1, "force", Some("IJ")), ActionReport::LongKind);
    assert_eq!(g.apply_special_action(1, "force", Some("*")), ActionReport::BonusKind);
    assert_eq!(g.apply_special_action(1, "force", Some("i")), ActionReport::UnknownKind);
    assert_eq!(g.apply_special_action(1, "Force", Some("I")), ActionReport::UnknownAction);
    assert_eq!(g.apply_special_action(1, "", None), ActionReport::UnknownAction);
    assert_eq!(g.apply_special_action(1, "blinds", None), ActionReport::UnknownAction);
    assert_eq!(snapshot(&g), before);
    assert_eq!(g.p2.cur.id, 1);
    assert!(g.p2.effects.is_empty());
    assert!(g.p1.effects.is_empty());
}

#[test]
fn the_fifth_placement_without_a_clear_drops_a_bonus_piece() {
    let mut g = Game::new(Some(5), 4, None, None).unwrap();
    g.p1.level.load_sequence(Some("O")).unwrap();
    g.p1.level.set_random(false).unwrap();
    g.p1.force_replace_current(BlockKind::O).unwrap();
    g.p1.next_kind = BlockKind::O;
    let columns = [0, 2, 4, 6, 8];
    for placement in 1..=10 {
        let col = columns[(placement - 1) % 5];
        for _ in 0..col {
            assert_eq!(g.act(1, Action::Right), Step::Moved);
        }
        assert_eq!(g.act(1, Action::Drop), Step::Landed);
        assert_eq!(g.p1.last_cleared, 0);
        assert_eq!(g.p1.cur.kind, BlockKind::O);
        assert_eq!(row_text(&g.p1, 7), "OO         ");
        let stars = count_glyph(&g.p1, '*');
        assert_eq!(stars, placement / 5, "after placement {}", placement);
    }
    // the first bonus piece fell on the piece in columns 4 and 5
    assert_eq!(g.p1.grid.get(19, 5), '*');
    assert_eq!(row_text(&g.p1, 21), "OOOOOOOOOO ");
    assert_eq!(row_text(&g.p1, 20), "OOOOOOOOOO ");
    assert_eq!(g.p1.grid.cur_score(), 0);
    // ten pieces, two bonus pieces, the forced first piece and the falling one
    assert_eq!(g.p1.cur.id, 14);
}

#[test]
fn players_know_whether_they_are_ready() {
    let mut g = Game::new(None, 0, script("O"), script("O")).unwrap();
    assert!(g.is_sound());
    assert!(g.is_ready(1) && g.is_ready(2));
    g.p1.grid.add_score(2147483647 - 10868);
    assert!(g.is_ready(1));
    g.p1.grid.add_score(1);
    assert!(!g.is_ready(1));
    assert!(g.is_sound());
    g.p2.next_block_id = 2147483646;
    assert!(!g.is_ready(2));
    g.p2.next_block_id = 2147483645;
    assert!(g.is_ready(2));
    g.p2.cur.cells[0].c = 11;
    assert!(!g.is_ready(2));
    assert!(!g.is_sound());
    g.p2.cur.cells[0].c = 0;
    g.p2.registry.insert(5, BlockInfo { origin_level: 5, cells_remaining: 1 });
    assert!(!g.is_sound());
    g.p2.registry.insert(5, BlockInfo { origin_level: 4, cells_remaining: -1 });
    assert!(!g.is_sound());
    g.p2.registry.insert(5, BlockInfo { origin_level: 4, cells_remaining: 0 });
    assert!(g.is_sound());
    g.p2.cur.cells.clear();
    assert!(!g.is_sound());
}

#[test]
fn the_turn_passes_only_in_a_running_match() {
    let mut g = Game::new(None, 0, script("O"), script("O")).unwrap();
    g.pass_turn(1);
    assert_eq!(g.current_player, 2);
    g.pass_turn(2);
    assert_eq!(g.current_player, 1);
    g.running = false;
    g.pass_turn(1);
    assert_eq!(g.current_player, 1);
}

#[test]
fn levels_are_set_within_zero_and_four() {
    let mut g = Game::new(None, 1, None, script("T")).unwrap();
    assert_eq!(g.set_level(1, 9), Ok(()));
    assert_eq!(g.p1.level.number(), 4);
    assert_eq!(row_text(&g.p1, 1), "Level:    4");
    assert_eq!(g.set_level(1, 2), Ok(()));
    assert_eq!(g.p1.level.number(), 2);
    assert_eq!(g.set_level(1, -3), Err(GameError::Script(LevelError::Unreadable)));
    assert_eq!(g.p1.level.number(), 2);
    assert_eq!(row_text(&g.p1, 1), "Level:    2");
    assert_eq!(g.set_level(2, -3), Ok(()));
    assert_eq!(g.p2.level.number(), 0);
    assert_eq!(row_text(&g.p2, 1), "Level:    0");
    assert_eq!(g.p2.level.number(), 0);
}

#[test]
fn setting_the_level_forgets_a_loaded_sequence() {
    let mut g = Game::new(None, 3, None, None).unwrap();
    g.p1.level.load_sequence(Some("O")).unwrap();
    g.p1.level.set_random(false).unwrap();
    g.set_level(1, 3).unwrap();
    // the policy is in random mode again, with no sequence: switching random
    // mode off alone still draws
    g.p1.level.set_random(false).unwrap();
    let mut r = StdRng::seed_from_u64(11);
    let mut other = false;
    for _ in 0..100 {
        if g.p1.level.advance_kind(&mut r) != BlockKind::O {
            other = true;
        }
    }
    assert!(other);
}

#[test]
fn a_restart_sets_both_players_up_again() {
    let mut g = Game::new(Some(4), 0, script("T O"), script("I")).unwrap();
    g.act(1, Action::Drop);
    g.act(2, Action::Drop);
    g.current_player = 2;
    g.running = false;
    g.system_hi = 33;
    assert_eq!(g.restart(), Ok(()));
    assert!(g.running);
    assert_eq!(g.current_player, 1);
    assert_eq!(g.system_hi, 33);
    assert_eq!(g.p1.cur.kind, BlockKind::T);
    assert_eq!(g.p1.cur.id, 1);
    assert_eq!(g.p1.next_kind, BlockKind::O);
    assert_eq!(g.p2.cur.kind, BlockKind::I);
    assert_eq!(row_text(&g.p1, 21), "           ");
    assert_eq!(row_text(&g.p2, 21), "           ");
    assert_eq!(g.p1.registry.len(), 1);
}

#[test]
fn a_restart_goes_on_with_the_generator() {
    let mut a = Game::new(Some(8), 2, None, None).unwrap();
    let mut b = Game::new(Some(8), 2, None, None).unwrap();
    a.restart().unwrap();
    b.restart().unwrap();
    assert_eq!(a.p1.cur.kind, b.p1.cur.kind);
    assert_eq!(a.p2.next_kind, b.p2.next_kind);
    for _ in 0..5 {
        assert_eq!(a.act(1, Action::Drop), b.act(1, Action::Drop));
        assert_eq!(a.p1.next_kind, b.p1.next_kind);
    }
}

#[test]
fn a_restart_that_fails_on_the_second_script_renews_only_the_first_player() {
    let mut g = Game::new(None, 0, script("T"), script("I")).unwrap();
    g.act(1, Action::Drop);
    g.act(2, Action::Drop);
    g.script2 = None;
    g.current_player = 2;
    assert_eq!(
        g.restart(),
        Err(StartError { player: 2, error: GameError::Script(LevelError::Unreadable) })
    );
    assert_eq!(g.current_player, 2);
    assert_eq!(row_text(&g.p1, 21), "           ");
    assert_eq!(row_text(&g.p2, 21), "IIII       ");
    assert_eq!(g.p1.cur.id, 1);
    assert_eq!(g.p2.cur.id, 2);
}

#[test]
fn the_first_four_draws_are_for_the_first_player_and_then_the_second() {
    for (level, weights) in [(1, [2usize, 1, 1, 2, 2, 2, 2]), (2, [1; 7]), (3, [1, 2, 2, 1, 1, 1, 1])] {
        let g = Game::new(Some(77), level, None, None).unwrap();
        let mut r = StdRng::seed_from_u64(77);
        let dist = WeightedIndex::new(weights).unwrap();
        let drawn: Vec<BlockKind> = (0..4).map(|_| kind_of_index(dist.sample(&mut r))).collect();
        assert_eq!(g.p1.cur.kind, drawn[0]);
        assert_eq!(g.p1.next_kind, drawn[1]);
        assert_eq!(g.p2.cur.kind, drawn[2]);
        assert_eq!(g.p2.next_kind, drawn[3]);
    }
}

#[test]
fn each_landing_draws_once() {
    let mut g = Game::new(Some(5), 2, None, None).unwrap();
    let mut r = StdRng::seed_from_u64(5);
    let dist = WeightedIndex::new([1usize; 7]).unwrap();
    for _ in 0..4 {
        dist.sample(&mut r);
    }
    for round in 0..4 {
        let player = 1 + round % 2;
        assert_eq!(g.act(player, Action::Drop), Step::Landed);
        let next = if player == 1 { g.p1.next_kind } else { g.p2.next_kind };
        assert_eq!(next, kind_of_index(dist.sample(&mut r)));
    }
}

#[test]
fn owners_and_glyphs_stay_in_step_through_a_match() {
    let actions = [
        Action::Right,
        Action::RotateCw,
        Action::Down,
        Action::Right,
        Action::Drop,
        Action::Left,
        Action::RotateCcw,
        Action::Drop,
    ];
    for level in 1..=4 {
        let mut g = Game::new(Some(31), level, None, None).unwrap();
        for round in 0..12 {
            for action in actions {
                let player = 1 + round % 2;
                g.act(player, action);
                for p in [&g.p1, &g.p2] {
                    for r in PLAY_TOP..=PLAY_BOTTOM {
                        for c in 0..COLS {
                            assert_eq!(p.grid.get(r, c) == ' ', p.grid.get_block_id(r, c) == -1);
                        }
                    }
                }
            }
        }
    }
}

#[test]
fn no_turn_ends_in_a_match_that_is_over() {
    let mut g = Game::new(None, 0, script("O"), script("O")).unwrap();
    g.apply_special_action(2, "blind", None);
    g.p1.last_cleared = 3;
    g.running = false;
    assert!(!g.end_turn(1));
    assert_eq!(g.current_player, 1);
    assert!(g.p1.has_blind());
}

#[test]
fn a_match_that_ends_on_a_landing_draws_nothing() {
    let mut g = Game::new(Some(9), 2, None, None).unwrap();
    for c in 0..4 {
        g.p1.grid.set_cell(9, c, 'X', 700);
    }
    g.p1.force_replace_current(BlockKind::O).unwrap();
    g.p1.next_kind = BlockKind::O;
    let before = g.rng.clone();
    let other = g.p2.grid.matrix().clone();
    g.p1.cur.drop(&mut g.p1.grid);
    g.handle_landing(1);
    assert!(!g.running);
    assert_eq!(g.rng, before);
    assert_eq!(g.current_player, 1);
    assert_eq!(g.p1.next_kind, BlockKind::O);
    assert_eq!(g.p2.grid.matrix(), &other);
    g.handle_landing(1);
    assert_eq!(g.rng, before);
}

#[test]
fn what_draws_nothing_leaves_the_generator() {
    let mut g = Game::new(Some(9), 3, None, script("T")).unwrap();
    let before = g.rng.clone();
    g.apply_special_action(1, "blind", None);
    g.apply_special_action(2, "heavy", None);
    g.apply_special_action(1, "force", Some("I"));
    g.set_level(2, 0).unwrap();
    g.set_level(1, 4).unwrap();
    g.end_turn(1);
    g.pass_turn(2);
    assert_eq!(g.act(1, Action::Right), Step::Moved);
    assert_eq!(g.rng, before);
    // player 2 replays its script on level 0
    assert_eq!(g.act(2, Action::Drop), Step::Landed);
    assert_eq!(g.rng, before);
    assert_eq!(g.act(1, Action::Drop), Step::Landed);
    assert_ne!(g.rng, before);
}

#[test]
fn a_restart_on_level_zero_leaves_the_generator() {
    let mut g = Game::new(Some(9), 0, script("T"), script("O")).unwrap();
    let before = g.rng.clone();
    g.restart().unwrap();
    assert_eq!(g.rng, before);
    g.script1 = None;
    assert!(g.restart().is_err());
    assert_eq!(g.rng, before);
}

#[test]
fn blind_needs_no_free_id_and_changes_only_the_effects_of_the_opponent() {
    let mut g = Game::new(None, 0, script("O"), script("O")).unwrap();
    g.p2.next_block_id = i32::MAX;
    let before = snapshot(&g);
    assert_eq!(g.apply_special_action(1, "blind", Some("I")), ActionReport::Applied);
    assert_eq!(g.p2.effects, vec![Effect::Blind { expired: false }]);
    assert!(g.p1.effects.is_empty());
    assert_eq!(snapshot(&g), before);
    assert_eq!(g.p2.next_block_id, i32::MAX);
    assert_eq!(g.current_player, 1);
    assert_eq!(g.p2.cur.id, 1);
    assert_eq!(g.p2.registry.len(), 1);
}

#[test]
fn a_match_on_a_level_above_four_is_played_on_level_four() {
    let mut g = Game::new(None, 9, None, None).unwrap();
    assert_eq!(g.start_level, 9);
    for p in [&g.p1, &g.p2] {
        assert_eq!(p.level.number(), 4);
        assert!(p.level.is_heavy());
        assert_eq!(row_text(p, 1), "Level:    4");
    }
    g.restart().unwrap();
    assert_eq!(g.p1.level.number(), 4);
    assert_eq!(g.p2.level.number(), 4);
}

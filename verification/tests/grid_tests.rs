use std::collections::HashMap;
use tetris::grid::{Grid, COLS, PLAY_BOTTOM, PLAY_TOP, ROWS_TOTAL};

fn row_text(g: &Grid, r: usize) -> String {
    (0..COLS).map(|c| g.get(r, c)).collect()
}

fn fill_row(g: &mut Grid, r: usize, ch: char, id: i32) {
    for c in 0..COLS {
        g.set_cell(r, c, ch, id);
    }
}

#[test]
fn new_grid_shows_header_and_footer() {
    let g = Grid::new();
    assert_eq!(g.rows_total(), ROWS_TOTAL);
    assert_eq!(g.rows_total(), 26);
    assert_eq!(row_text(&g, 0), "Hi Score: 0");
    assert_eq!(row_text(&g, 1), "Level:    0");
    assert_eq!(row_text(&g, 2), "Score:    0");
    assert_eq!(row_text(&g, 3), "-----------");
    assert_eq!(row_text(&g, 22), "-----------");
    assert_eq!(row_text(&g, 23), "Next:      ");
    assert_eq!(row_text(&g, 24), "           ");
    assert_eq!(row_text(&g, 25), "           ");
    for r in PLAY_TOP..=PLAY_BOTTOM {
        assert_eq!(row_text(&g, r), "           ");
    }
    assert_eq!(g.cur_score(), 0);
}

#[test]
fn new_grid_has_no_owners() {
    let g = Grid::new();
    for r in 0..ROWS_TOTAL {
        for c in 0..COLS {
            assert_eq!(g.get_block_id(r, c), -1);
        }
    }
}

#[test]
fn owner_lookup_off_the_field_is_unowned() {
    let mut g = Grid::new();
    g.set_cell(10, 3, 'T', 7);
    assert_eq!(g.get_block_id(10, 3), 7);
    assert_eq!(g.get_block_id(26, 3), -1);
    assert_eq!(g.get_block_id(10, 11), -1);
    assert_eq!(g.get_block_id(1000, 1000), -1);
}

#[test]
fn set_cell_tracks_owner_only_in_the_playable_rectangle() {
    let mut g = Grid::new();
    g.set_cell(4, 0, 'L', 3);
    g.set_cell(21, 10, 'J', 4);
    g.set_cell(3, 0, 'x', 5);
    g.set_cell(22, 0, 'y', 6);
    assert_eq!(g.get(4, 0), 'L');
    assert_eq!(g.get_block_id(4, 0), 3);
    assert_eq!(g.get(21, 10), 'J');
    assert_eq!(g.get_block_id(21, 10), 4);
    assert_eq!(g.get(3, 0), 'x');
    assert_eq!(g.get_block_id(3, 0), -1);
    assert_eq!(g.get(22, 0), 'y');
    assert_eq!(g.get_block_id(22, 0), -1);
}

#[test]
fn set_matrix_releases_the_cell_only_for_a_blank() {
    let mut g = Grid::new();
    g.set_cell(10, 2, 'S', 9);
    g.set_matrix(10, 2, 'Z');
    assert_eq!(g.get(10, 2), 'Z');
    assert_eq!(g.get_block_id(10, 2), 9);
    g.set_matrix(10, 2, ' ');
    assert_eq!(g.get(10, 2), ' ');
    assert_eq!(g.get_block_id(10, 2), -1);
}

#[test]
fn clear_cell_empties_and_releases() {
    let mut g = Grid::new();
    g.set_cell(12, 5, 'O', 2);
    g.clear_cell(12, 5);
    assert_eq!(g.get(12, 5), ' ');
    assert_eq!(g.get_block_id(12, 5), -1);
}

#[test]
fn matrix_is_the_display() {
    let mut g = Grid::new();
    g.set_cell(5, 1, 'I', 1);
    let m = g.matrix();
    assert_eq!(m.len(), 26);
    assert_eq!(m[5].len(), 11);
    assert_eq!(m[5][1], 'I');
    assert_eq!(m[3][0], '-');
}

#[test]
fn add_score_accumulates_and_is_right_aligned() {
    let mut g = Grid::new();
    g.add_score(5);
    assert_eq!(g.cur_score(), 5);
    assert_eq!(row_text(&g, 2), "Score:    5");
    g.add_score(7);
    assert_eq!(g.cur_score(), 12);
    assert_eq!(row_text(&g, 2), "Score:   12");
    g.add_score(988);
    assert_eq!(g.cur_score(), 1000);
    assert_eq!(row_text(&g, 2), "Score: 1000");
    g.add_score(0);
    assert_eq!(g.cur_score(), 1000);
    assert_eq!(row_text(&g, 2), "Score: 1000");
}

#[test]
fn add_score_writes_long_numbers_over_the_label() {
    let mut g = Grid::new();
    g.add_score(123456);
    assert_eq!(row_text(&g, 2), "Score123456");
    g.add_score(2147483647 - 123456);
    assert_eq!(row_text(&g, 2), "S2147483647");
}

#[test]
fn add_score_of_a_negative_total_shows_the_sign() {
    let mut g = Grid::new();
    g.add_score(-42);
    assert_eq!(g.cur_score(), -42);
    assert_eq!(row_text(&g, 2), "Score:  -42");
}

#[test]
fn add_score_leaves_the_rest_of_the_grid() {
    let mut g = Grid::new();
    g.set_cell(9, 9, 'T', 3);
    g.add_score(10);
    assert_eq!(g.get(9, 9), 'T');
    assert_eq!(g.get_block_id(9, 9), 3);
    assert_eq!(row_text(&g, 1), "Level:    0");
}

#[test]
fn level_digit_is_shown_in_the_last_column() {
    let mut g = Grid::new();
    g.set_level_digit(4);
    assert_eq!(row_text(&g, 1), "Level:    4");
    g.set_level_digit(0);
    assert_eq!(row_text(&g, 1), "Level:    0");
    g.set_level_digit(9);
    assert_eq!(row_text(&g, 1), "Level:    9");
}

#[test]
fn show_next_draws_the_preview_seventeen_rows_down() {
    let mut g = Grid::new();
    g.show_next(&[(7, 0, 'T'), (7, 1, 'T'), (7, 2, 'T'), (8, 1, 'T')]);
    assert_eq!(row_text(&g, 24), "TTT        ");
    assert_eq!(row_text(&g, 25), " T         ");
    g.show_next(&[(7, 5, '*')]);
    assert_eq!(row_text(&g, 24), "     *     ");
    assert_eq!(row_text(&g, 25), "           ");
}

#[test]
fn show_next_leaves_out_cells_off_the_field() {
    let mut g = Grid::new();
    g.show_next(&[(9, 0, 'X'), (7, 11, 'Y'), (-18, 0, 'Z'), (7, -1, 'W'), (8, 10, 'Q')]);
    assert_eq!(row_text(&g, 24), "           ");
    assert_eq!(row_text(&g, 25), "          Q");
}

#[test]
fn show_next_touches_no_owner() {
    let mut g = Grid::new();
    g.show_next(&[(-10, 3, 'X')]);
    assert_eq!(g.get(7, 3), 'X');
    assert_eq!(g.get_block_id(7, 3), -1);
}

#[test]
fn clearing_an_empty_grid_clears_nothing() {
    let mut g = Grid::new();
    let mut loss: HashMap<i32, i32> = HashMap::new();
    assert_eq!(g.check_and_clear(&mut loss), 0);
    assert!(loss.is_empty());
    for r in PLAY_TOP..=PLAY_BOTTOM {
        assert_eq!(row_text(&g, r), "           ");
    }
}

#[test]
fn clear_keeps_the_order_of_the_rows_that_stay() {
    let mut g = Grid::new();
    // rows 17..21: partial a, full, partial b, full, partial c
    g.set_cell(17, 0, 'a', 1);
    fill_row(&mut g, 18, 'F', 2);
    g.set_cell(19, 1, 'b', 3);
    g.set_cell(19, 2, 'b', 3);
    fill_row(&mut g, 20, 'G', 4);
    g.set_cell(21, 10, 'c', 5);
    let mut loss: HashMap<i32, i32> = HashMap::new();
    let cleared = g.check_and_clear(&mut loss);
    assert_eq!(cleared, 2);
    assert_eq!(row_text(&g, 21), "          c");
    assert_eq!(row_text(&g, 20), " bb        ");
    assert_eq!(row_text(&g, 19), "a          ");
    assert_eq!(row_text(&g, 18), "           ");
    assert_eq!(row_text(&g, 17), "           ");
    assert_eq!(g.get_block_id(21, 10), 5);
    assert_eq!(g.get_block_id(20, 1), 3);
    assert_eq!(g.get_block_id(20, 2), 3);
    assert_eq!(g.get_block_id(19, 0), 1);
    assert_eq!(g.get_block_id(18, 0), -1);
    assert_eq!(g.get_block_id(17, 0), -1);
    assert_eq!(loss.len(), 2);
    assert_eq!(loss[&2], 11);
    assert_eq!(loss[&4], 11);
}

#[test]
fn clear_leaves_every_blank_cell_unowned() {
    let mut g = Grid::new();
    for r in 15..=21 {
        for c in 0..COLS {
            if r % 2 == 0 || c < 6 {
                g.set_cell(r, c, 'X', (r * 100 + c) as i32);
            }
        }
    }
    let mut loss: HashMap<i32, i32> = HashMap::new();
    let cleared = g.check_and_clear(&mut loss);
    assert_eq!(cleared, 3);
    for r in PLAY_TOP..=PLAY_BOTTOM {
        for c in 0..COLS {
            if g.get(r, c) == ' ' {
                assert_eq!(g.get_block_id(r, c), -1);
            }
        }
    }
    // no playable row is full any more
    for r in PLAY_TOP..=PLAY_BOTTOM {
        assert!((0..COLS).any(|c| g.get(r, c) == ' '));
    }
}

#[test]
fn cells_lost_add_up_to_the_cells_of_the_cleared_rows() {
    let mut g = Grid::new();
    // a full row owned by three pieces, one preview id and one unowned cell
    for c in 0..4 {
        g.set_cell(21, c, 'A', 10);
    }
    for c in 4..7 {
        g.set_cell(21, c, 'B', 11);
    }
    for c in 7..9 {
        g.set_cell(21, c, 'C', 12);
    }
    g.set_cell(21, 9, 'D', 0);
    g.set_cell(21, 10, 'E', -1);
    // a second full row of one piece
    fill_row(&mut g, 20, 'F', 10);
    // a row that is not full
    g.set_cell(19, 0, 'G', 13);
    let mut loss: HashMap<i32, i32> = HashMap::new();
    let cleared = g.check_and_clear(&mut loss);
    assert_eq!(cleared, 2);
    assert_eq!(loss.len(), 3);
    assert_eq!(loss[&10], 15);
    assert_eq!(loss[&11], 3);
    assert_eq!(loss[&12], 2);
    let lost: i32 = loss.values().sum();
    let untracked = 2;
    assert_eq!(lost, cleared * (COLS as i32) - untracked);
}

#[test]
fn clear_adds_to_a_tally_that_is_not_empty() {
    let mut g = Grid::new();
    fill_row(&mut g, 21, 'A', 5);
    let mut loss: HashMap<i32, i32> = HashMap::new();
    loss.insert(5, 100);
    loss.insert(6, 1);
    assert_eq!(g.check_and_clear(&mut loss), 1);
    assert_eq!(loss[&5], 111);
    assert_eq!(loss[&6], 1);
    assert_eq!(loss.len(), 2);
}

#[test]
fn clear_of_a_full_field_empties_it() {
    let mut g = Grid::new();
    for r in PLAY_TOP..=PLAY_BOTTOM {
        fill_row(&mut g, r, 'X', 1);
    }
    let mut loss: HashMap<i32, i32> = HashMap::new();
    assert_eq!(g.check_and_clear(&mut loss), 18);
    assert_eq!(loss[&1], 198);
    for r in PLAY_TOP..=PLAY_BOTTOM {
        assert_eq!(row_text(&g, r), "           ");
    }
    assert_eq!(row_text(&g, 3), "-----------");
    assert_eq!(row_text(&g, 22), "-----------");
}

#[test]
fn clear_does_not_touch_the_score() {
    let mut g = Grid::new();
    g.add_score(33);
    fill_row(&mut g, 21, 'X', 1);
    let mut loss: HashMap<i32, i32> = HashMap::new();
    g.check_and_clear(&mut loss);
    assert_eq!(g.cur_score(), 33);
    assert_eq!(row_text(&g, 2), "Score:   33");
}

#[test]
fn a_level_past_nine_shows_the_character_that_many_places_after_zero() {
    let mut g = Grid::new();
    g.set_level_digit(10);
    assert_eq!(g.get(1, 10), ':');
    g.set_level_digit(17);
    assert_eq!(g.get(1, 10), 'A');
    g.set_level_digit(257);
    assert_eq!(g.get(1, 10), '1');
    g.set_level_digit(207);
    assert_eq!(g.get(1, 10), '\u{ff}');
    g.set_level_digit(-256);
    assert_eq!(g.get(1, 10), '0');
}

use tetris::block::{spawn_cells, Block, BlockKind, Cell};
use tetris::grid::{Grid, COLS, PLAY_BOTTOM, PLAY_TOP};

const STANDARD: [BlockKind; 7] = [
    BlockKind::T,
    BlockKind::S,
    BlockKind::Z,
    BlockKind::I,
    BlockKind::J,
    BlockKind::L,
    BlockKind::O,
];

fn places(b: &Block) -> Vec<(i32, i32)> {
    let mut v: Vec<(i32, i32)> = b.cells.iter().map(|c| (c.r, c.c)).collect();
    v.sort();
    v
}

fn on_grid(g: &Grid, id: i32) -> Vec<(i32, i32)> {
    let mut v = Vec::new();
    for r in PLAY_TOP..=PLAY_BOTTOM {
        for c in 0..COLS {
            if g.get_block_id(r, c) == id {
                v.push((r as i32, c as i32));
            }
        }
    }
    v
}

fn placed(kind: BlockKind, id: i32, g: &mut Grid) -> Block {
    let b = Block::new(kind, id);
    assert!(b.can_spawn(g));
    b.write_to_grid(g);
    b
}

#[test]
fn kinds_and_glyphs_go_both_ways() {
    let glyphs = ['T', 'S', 'Z', 'I', 'J', 'L', 'O'];
    for (kind, glyph) in STANDARD.iter().zip(glyphs) {
        assert_eq!(kind.to_char(), glyph);
        assert_eq!(BlockKind::from_char(glyph), Some(*kind));
    }
    assert_eq!(BlockKind::Star.to_char(), '*');
    assert_eq!(BlockKind::from_char('*'), Some(BlockKind::Star));
    assert_eq!(BlockKind::from_char('t'), None);
    assert_eq!(BlockKind::from_char(' '), None);
    assert_eq!(BlockKind::from_char('X'), None);
}

#[test]
fn standard_pieces_enter_with_four_cells_and_the_bonus_piece_with_one() {
    for kind in STANDARD {
        let b = Block::new(kind, 1);
        assert_eq!(b.cells.len(), 4);
        assert!(b.cells.iter().all(|c| c.ch == kind.to_char()));
        assert_eq!(b.kind, kind);
        assert_eq!(b.id, 1);
    }
    let star = Block::new(BlockKind::Star, 9);
    assert_eq!(star.cells.len(), 1);
    assert_eq!(star.cells[0], Cell { r: 7, c: 5, ch: '*' });
    assert_eq!(star.id, 9);
}

#[test]
fn spawn_layouts_are_the_known_ones() {
    let at = |kind| -> Vec<(i32, i32)> { spawn_cells(kind).iter().map(|c| (c.r, c.c)).collect() };
    assert_eq!(at(BlockKind::L), vec![(8, 0), (8, 1), (8, 2), (7, 2)]);
    assert_eq!(at(BlockKind::I), vec![(7, 0), (7, 1), (7, 2), (7, 3)]);
    assert_eq!(at(BlockKind::J), vec![(7, 0), (8, 0), (8, 1), (8, 2)]);
    assert_eq!(at(BlockKind::Z), vec![(7, 0), (7, 1), (8, 1), (8, 2)]);
    assert_eq!(at(BlockKind::S), vec![(8, 0), (8, 1), (7, 1), (7, 2)]);
    assert_eq!(at(BlockKind::T), vec![(7, 0), (7, 1), (7, 2), (8, 1)]);
    assert_eq!(at(BlockKind::O), vec![(7, 0), (7, 1), (8, 0), (8, 1)]);
    assert_eq!(at(BlockKind::Star), vec![(7, 5)]);
}

#[test]
fn a_piece_can_enter_an_empty_grid_but_not_an_occupied_place() {
    let mut g = Grid::new();
    let b = Block::new(BlockKind::T, 1);
    assert!(b.can_spawn(&g));
    g.set_cell(8, 1, 'X', 5);
    assert!(!b.can_spawn(&g));
    let o = Block::new(BlockKind::O, 2);
    assert!(!o.can_spawn(&g));
    let star = Block::new(BlockKind::Star, 3);
    assert!(star.can_spawn(&g));
}

#[test]
fn a_piece_with_a_cell_off_the_field_cannot_enter() {
    let g = Grid::new();
    let mut b = Block::new(BlockKind::I, 1);
    b.cells[3].c = 11;
    assert!(!b.can_spawn(&g));
    b.cells[3].c = -1;
    assert!(!b.can_spawn(&g));
    b.cells[3] = Cell { r: 26, c: 0, ch: 'I' };
    assert!(!b.can_spawn(&g));
    b.cells[3] = Cell { r: -1, c: 0, ch: 'I' };
    assert!(!b.can_spawn(&g));
    // rows above the playable rectangle count as on the field
    b.cells[3] = Cell { r: 24, c: 0, ch: 'I' };
    assert!(b.can_spawn(&g));
}

#[test]
fn can_place_asks_for_the_playable_rectangle_and_free_or_own_cells() {
    let mut g = Grid::new();
    g.set_cell(10, 0, 'X', 5);
    let own = vec![Cell { r: 10, c: 0, ch: 'T' }];
    assert!(Block::can_place(&own, &g, 5));
    assert!(!Block::can_place(&own, &g, 6));
    assert!(Block::can_place(&vec![Cell { r: 4, c: 10, ch: 'T' }], &g, 1));
    assert!(Block::can_place(&vec![Cell { r: 21, c: 0, ch: 'T' }], &g, 1));
    assert!(!Block::can_place(&vec![Cell { r: 3, c: 0, ch: 'T' }], &g, 1));
    assert!(!Block::can_place(&vec![Cell { r: 22, c: 0, ch: 'T' }], &g, 1));
    assert!(!Block::can_place(&vec![Cell { r: 10, c: 11, ch: 'T' }], &g, 1));
    assert!(!Block::can_place(&vec![Cell { r: 10, c: -1, ch: 'T' }], &g, 1));
    assert!(Block::can_place(&Vec::new(), &g, 1));
}

#[test]
fn write_and_clear_change_the_grid_under_the_id_of_the_piece() {
    let mut g = Grid::new();
    let b = placed(BlockKind::Z, 4, &mut g);
    assert_eq!(on_grid(&g, 4), vec![(7, 0), (7, 1), (8, 1), (8, 2)]);
    assert_eq!(g.get(7, 0), 'Z');
    b.clear_from_grid(&mut g);
    assert_eq!(on_grid(&g, 4), Vec::<(i32, i32)>::new());
    assert_eq!(g.get(7, 0), ' ');
}

#[test]
fn moves_shift_the_piece_by_one_cell() {
    let mut g = Grid::new();
    let mut b = placed(BlockKind::T, 1, &mut g);
    assert!(b.move_right(&mut g));
    assert_eq!(places(&b), vec![(7, 1), (7, 2), (7, 3), (8, 2)]);
    assert!(b.move_down(&mut g));
    assert_eq!(places(&b), vec![(8, 1), (8, 2), (8, 3), (9, 2)]);
    assert!(b.move_left(&mut g));
    assert_eq!(places(&b), vec![(8, 0), (8, 1), (8, 2), (9, 1)]);
    assert_eq!(on_grid(&g, 1), places(&b));
}

#[test]
fn a_blocked_move_is_not_taken_and_leaves_the_piece_written() {
    let mut g = Grid::new();
    let mut b = placed(BlockKind::O, 1, &mut g);
    assert!(!b.move_left(&mut g));
    assert_eq!(places(&b), vec![(7, 0), (7, 1), (8, 0), (8, 1)]);
    assert_eq!(on_grid(&g, 1), places(&b));
    g.set_cell(8, 2, 'X', 9);
    assert!(!b.move_right(&mut g));
    g.set_cell(9, 0, 'X', 9);
    assert!(!b.move_down(&mut g));
    assert_eq!(on_grid(&g, 1), vec![(7, 0), (7, 1), (8, 0), (8, 1)]);
    assert_eq!(g.get(7, 0), 'O');
}

#[test]
fn the_right_wall_stops_a_piece() {
    let mut g = Grid::new();
    let mut b = placed(BlockKind::I, 1, &mut g);
    let mut steps = 0;
    while b.move_right(&mut g) {
        steps += 1;
    }
    assert_eq!(steps, 7);
    assert_eq!(places(&b), vec![(7, 7), (7, 8), (7, 9), (7, 10)]);
}

#[test]
fn a_drop_goes_to_the_lowest_place() {
    let mut g = Grid::new();
    let mut b = placed(BlockKind::L, 1, &mut g);
    b.drop(&mut g);
    assert_eq!(places(&b), vec![(20, 2), (21, 0), (21, 1), (21, 2)]);
    assert_eq!(on_grid(&g, 1), places(&b));
    let mut o = placed(BlockKind::O, 2, &mut g);
    o.drop(&mut g);
    assert_eq!(places(&o), vec![(19, 0), (19, 1), (20, 0), (20, 1)]);
    assert!(!o.move_down(&mut g));
}

#[test]
fn phantom_positions_are_where_a_drop_would_end() {
    let mut g = Grid::new();
    g.set_cell(21, 1, 'X', 9);
    let b = placed(BlockKind::T, 1, &mut g);
    let mut phantom = b.phantom_positions(&g);
    phantom.sort();
    assert_eq!(phantom, vec![(19, 0), (19, 1), (19, 2), (20, 1)]);
    assert_eq!(places(&b), vec![(7, 0), (7, 1), (7, 2), (8, 1)]);
    let mut dropped = Block::new(BlockKind::T, 1);
    dropped.drop(&mut g);
    assert_eq!(places(&dropped), phantom);
}

#[test]
fn a_clockwise_turn_keeps_the_bottom_left_corner_of_the_box() {
    let mut g = Grid::new();
    let mut b = placed(BlockKind::T, 1, &mut g);
    assert!(b.rotate_cw(&mut g));
    // TTT over .T. becomes a column with its nose to the left
    assert_eq!(b.cells, vec![
        Cell { r: 6, c: 1, ch: 'T' },
        Cell { r: 7, c: 0, ch: 'T' },
        Cell { r: 7, c: 1, ch: 'T' },
        Cell { r: 8, c: 1, ch: 'T' },
    ]);
    assert_eq!(on_grid(&g, 1), places(&b));
}

#[test]
fn a_counter_clockwise_turn_keeps_the_bottom_left_corner_of_the_box() {
    let mut g = Grid::new();
    let mut b = placed(BlockKind::T, 1, &mut g);
    assert!(b.rotate_ccw(&mut g));
    assert_eq!(b.cells, vec![
        Cell { r: 6, c: 0, ch: 'T' },
        Cell { r: 7, c: 0, ch: 'T' },
        Cell { r: 7, c: 1, ch: 'T' },
        Cell { r: 8, c: 0, ch: 'T' },
    ]);
    assert_eq!(on_grid(&g, 1), places(&b));
}

#[test]
fn the_long_piece_turns_about_its_left_end() {
    let mut g = Grid::new();
    let mut b = placed(BlockKind::I, 1, &mut g);
    assert!(b.rotate_cw(&mut g));
    assert_eq!(places(&b), vec![(4, 0), (5, 0), (6, 0), (7, 0)]);
    assert!(b.rotate_cw(&mut g));
    assert_eq!(places(&b), vec![(7, 0), (7, 1), (7, 2), (7, 3)]);
}

#[test]
fn four_turns_one_way_bring_every_standard_piece_back() {
    for kind in STANDARD {
        for cw in [true, false] {
            let mut g = Grid::new();
            let mut b = placed(kind, 1, &mut g);
            // away from the walls, so that every turn fits
            for _ in 0..3 {
                assert!(b.move_right(&mut g));
                assert!(b.move_down(&mut g));
            }
            let start = places(&b);
            for _ in 0..4 {
                let turned = if cw { b.rotate_cw(&mut g) } else { b.rotate_ccw(&mut g) };
                assert!(turned);
                assert_eq!(b.cells.len(), 4);
            }
            assert_eq!(places(&b), start);
            assert_eq!(on_grid(&g, 1), start);
        }
    }
}

#[test]
fn a_turn_one_way_undoes_a_turn_the_other_way() {
    for kind in STANDARD {
        let mut g = Grid::new();
        let mut b = placed(kind, 1, &mut g);
        for _ in 0..3 {
            b.move_right(&mut g);
            b.move_down(&mut g);
        }
        let start = places(&b);
        assert!(b.rotate_cw(&mut g));
        assert!(b.rotate_cw(&mut g));
        assert!(b.rotate_ccw(&mut g));
        assert!(b.rotate_ccw(&mut g));
        assert_eq!(places(&b), start);
    }
}

#[test]
fn a_turn_that_does_not_fit_is_refused_and_nothing_is_lost() {
    let mut g = Grid::new();
    let mut b = placed(BlockKind::I, 1, &mut g);
    g.set_cell(5, 0, 'X', 9);
    assert!(!b.rotate_cw(&mut g));
    assert_eq!(places(&b), vec![(7, 0), (7, 1), (7, 2), (7, 3)]);
    assert_eq!(on_grid(&g, 1), places(&b));
    assert_eq!(g.get(5, 0), 'X');
    assert_eq!(g.get_block_id(5, 0), 9);
}

#[test]
fn a_turn_above_the_playable_rectangle_is_refused() {
    let mut g = Grid::new();
    let mut b = Block::new(BlockKind::I, 1);
    for cell in b.cells.iter_mut() {
        cell.r = 5;
    }
    b.write_to_grid(&mut g);
    // the column would reach row 2
    assert!(!b.rotate_cw(&mut g));
    assert_eq!(places(&b), vec![(5, 0), (5, 1), (5, 2), (5, 3)]);
}

#[test]
fn a_turn_that_would_change_the_number_of_cells_is_refused() {
    let mut g = Grid::new();
    let mut b = Block::new(BlockKind::O, 1);
    for _ in 0..4 {
        for cell in b.cells.iter_mut() {
            cell.r += 1;
        }
    }
    // two cells in one place: the turned piece would have three cells
    b.cells[3] = b.cells[2];
    b.write_to_grid(&mut g);
    let before = b.cells.clone();
    assert!(!b.rotate_cw(&mut g));
    assert_eq!(b.cells, before);
    assert!(!b.rotate(&mut g, false));
    assert_eq!(b.cells, before);
}

#[test]
fn the_bonus_piece_turns_in_place() {
    let mut g = Grid::new();
    let mut b = placed(BlockKind::Star, 1, &mut g);
    assert!(b.rotate_cw(&mut g));
    assert_eq!(places(&b), vec![(7, 5)]);
    assert!(b.rotate_ccw(&mut g));
    assert_eq!(places(&b), vec![(7, 5)]);
}

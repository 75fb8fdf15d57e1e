use std::collections::VecDeque;

use tetris::ai::{board_score, dead_space_count, diff_in_height, erase_line_count, eval, field_height_max};
use tetris::block::block_kind::{I, NONE, O, T};
use tetris::block::{block_shape, BlockKind, BlockShape};
use tetris::game::{Field, Game, Position, FIELD_WIDTH};
use tetris::play::{
    ai_step, apply_command, auto_play_step, auto_step, can_lock, gravity_interval_ms, gravity_step, lock,
    Command, Outcome,
};

fn empty_field() -> Field {
    Game::new().field
}

fn fill_row(field: &mut Field, y: usize, color: usize) {
    for x in 2..FIELD_WIDTH - 2 {
        field[y][x] = color;
    }
}

fn known_game(block: BlockShape) -> Game {
    let mut game = Game::new();
    game.block = block;
    game.pos = Position::init();
    game.next = [BlockKind::O, BlockKind::T, BlockKind::S]
        .iter()
        .map(|k| block_shape(*k))
        .collect::<VecDeque<_>>();
    game.next_buf = [BlockKind::Z, BlockKind::J]
        .iter()
        .map(|k| block_shape(*k))
        .collect::<VecDeque<_>>();
    game
}

#[test]
fn single_overhang_is_one_hole() {
    let mut field = empty_field();
    field[18][6] = T;
    assert_eq!(dead_space_count(&field), 1);
}

#[test]
fn holes_count_every_empty_cell_below() {
    let mut field = empty_field();
    field[15][3] = T;
    field[19][3] = T;
    field[17][9] = O;
    // column 3: rows 16..18; column 9: rows 18..19
    assert_eq!(dead_space_count(&field), 5);
    assert_eq!(dead_space_count(&empty_field()), 0);
}

#[test]
fn cell_on_top_rows_covers_its_column() {
    let mut field = empty_field();
    field[1][4] = T;
    // rows 2..=19 of column 4 lie under it
    assert_eq!(dead_space_count(&field), 18);
    let mut field = empty_field();
    field[0][9] = T;
    assert_eq!(dead_space_count(&field), 19);
}

#[test]
fn height_max_of_boards() {
    let mut field = empty_field();
    assert_eq!(field_height_max(&field), 0);
    field[19][12] = T;
    assert_eq!(field_height_max(&field), 1);
    field[12][2] = T;
    assert_eq!(field_height_max(&field), 8);
    field[0][7] = T;
    assert_eq!(field_height_max(&field), 20);
}

#[test]
fn bumpiness_sums_neighbour_differences() {
    let mut field = empty_field();
    assert_eq!(diff_in_height(&field), 0);
    // column 4 at height 1, column 7 at height 4
    field[19][4] = T;
    field[16][7] = T;
    assert_eq!(diff_in_height(&field), 1 + 1 + 4 + 4);
    let mut single = empty_field();
    single[19][2] = T;
    assert_eq!(diff_in_height(&single), 1);
}

#[test]
fn full_rows_are_counted() {
    let mut field = empty_field();
    assert_eq!(erase_line_count(&field), 0);
    fill_row(&mut field, 19, O);
    fill_row(&mut field, 15, O);
    field[14][3] = T;
    assert_eq!(erase_line_count(&field), 2);
}

#[test]
fn score_of_empty_and_filled_boards() {
    let mut field = empty_field();
    assert_eq!(board_score(&field), 2220);
    fill_row(&mut field, 19, O);
    // one full row at height 1: 500 - 1 - 0 - 0 + 2220
    assert_eq!(board_score(&field), 2719);
    field[16][5] = T;
    // height 4, bumpiness 3 + 3, holes 2
    assert_eq!(board_score(&field), 500 - 4 - 6 - 20 + 2220);
}

#[test]
fn search_drops_i_into_the_well() {
    let mut game = known_game(block_shape(BlockKind::I));
    game.holded = true;
    for y in 10..20 {
        fill_row(&mut game.field, y, O);
        game.field[y][7] = NONE;
    }
    let best = eval(&game);
    for y in 16..20 {
        assert_eq!(best.field[y][7], I, "row {y}");
    }
    assert_eq!(erase_line_count(&best.field), 4);
    assert!(diff_in_height(&best.field) < diff_in_height(&game.field));
    // the search works on copies
    assert_eq!(game.field[19][7], NONE);
    assert_eq!((game.pos.x, game.pos.y), (5, 0));
}

#[test]
fn search_on_empty_board_lays_i_flat() {
    let mut game = known_game(block_shape(BlockKind::I));
    game.holded = true;
    let best = eval(&game);
    // flat on the floor against the left wall: height 1, bumpiness 1
    assert_eq!(field_height_max(&best.field), 1);
    assert_eq!(diff_in_height(&best.field), 1);
    assert_eq!(best.pos.y, 17);
    assert_eq!(best.pos.x, 1 + 1);
    assert_eq!(best.block, block_shape(BlockKind::I));
    assert_eq!(best.score, game.score);
}

#[test]
fn gravity_intervals() {
    assert_eq!(gravity_interval_ms(0), 1000);
    assert_eq!(gravity_interval_ms(9), 1000);
    assert_eq!(gravity_interval_ms(10), 900);
    assert_eq!(gravity_interval_ms(95), 100);
    assert_eq!(gravity_interval_ms(100), 100);
    assert_eq!(gravity_interval_ms(100_000), 100);
}

#[test]
fn gravity_moves_down_then_locks() {
    let mut game = known_game(block_shape(BlockKind::O));
    assert_eq!(gravity_step(&mut game), Outcome::Running);
    assert_eq!(game.pos.y, 1);
    game.pos = Position { x: 5, y: 18 };
    assert_eq!(gravity_step(&mut game), Outcome::Running);
    assert_eq!(game.field[19][6], O);
    assert_eq!(game.block, block_shape(BlockKind::O));
    assert_eq!((game.pos.x, game.pos.y), (5, 0));
    assert_eq!(game.next.len(), 3);
}

#[test]
fn commands_move_turn_hold_and_drop() {
    let mut game = known_game(block_shape(BlockKind::I));
    assert_eq!(apply_command(&mut game, Command::Left), Outcome::Running);
    assert_eq!(game.pos.x, 4);
    assert_eq!(apply_command(&mut game, Command::Right), Outcome::Running);
    assert_eq!(apply_command(&mut game, Command::Right), Outcome::Running);
    assert_eq!(game.pos.x, 6);
    assert_eq!(apply_command(&mut game, Command::Down), Outcome::Running);
    assert_eq!(game.pos.y, 1);
    apply_command(&mut game, Command::RotateRight);
    assert_eq!(game.block[0][1], I);
    apply_command(&mut game, Command::RotateLeft);
    assert_eq!(game.block, block_shape(BlockKind::I));
    apply_command(&mut game, Command::Hold);
    assert_eq!(game.hold, Some(block_shape(BlockKind::I)));
    assert_eq!(apply_command(&mut game, Command::Drop), Outcome::Running);
    assert_eq!(game.field[19][6], O);
    assert!(!game.holded);
}

#[test]
fn left_stops_at_column_zero() {
    let mut game = known_game(i_vertical_at_zero());
    game.pos = Position { x: 0, y: 4 };
    apply_command(&mut game, Command::Left);
    assert_eq!(game.pos.x, 0);
}

fn i_vertical_at_zero() -> BlockShape {
    [[0, 0, 0, I], [0, 0, 0, I], [0, 0, 0, I], [0, 0, 0, I]]
}

#[test]
fn lock_clears_a_row_that_was_already_full() {
    let mut game = known_game(block_shape(BlockKind::O));
    fill_row(&mut game.field, 19, T);
    game.pos = Position { x: 5, y: 16 };
    assert!(can_lock(&game));
    assert_eq!(lock(&mut game), Outcome::Running);
    assert_eq!((game.score, game.line), (1, 1));
    assert_eq!(game.field[19][2], NONE);
    assert_eq!(game.field[19][6], O);
    assert_eq!(game.field[18][7], O);
    assert_eq!(game.block, block_shape(BlockKind::O));
}

#[test]
fn lock_beyond_four_rows_cannot_be_scored() {
    let mut game = known_game(block_shape(BlockKind::O));
    for y in 15..20 {
        fill_row(&mut game.field, y, T);
    }
    assert!(!can_lock(&game));
    let before = game.field;
    assert_eq!(lock(&mut game), Outcome::GameOver);
    assert_eq!(game.field, before);
}

#[test]
fn auto_step_places_as_told() {
    let mut game = known_game(block_shape(BlockKind::I));
    assert_eq!(auto_step(&mut game, false, 1, -4), Outcome::Running);
    // vertical I in mask column 1 from x = 1: board column 2
    for y in 16..20 {
        assert_eq!(game.field[y][2], I);
    }
    let mut game = known_game(block_shape(BlockKind::I));
    assert_eq!(auto_step(&mut game, true, 0, 0), Outcome::Running);
    assert_eq!(game.hold, Some(block_shape(BlockKind::I)));
    assert_eq!(game.field[19][6], O);
}

#[test]
fn random_auto_steps_keep_the_queue() {
    let mut game = Game::new();
    for _ in 0..10 {
        if auto_play_step(&mut game) == Outcome::GameOver {
            break;
        }
        assert_eq!(game.next.len(), 3);
    }
}

#[test]
fn ai_step_commits_the_well_placement() {
    let mut game = known_game(block_shape(BlockKind::I));
    game.holded = true;
    for y in 10..20 {
        fill_row(&mut game.field, y, O);
        game.field[y][7] = NONE;
    }
    assert_eq!(ai_step(&mut game), Outcome::Running);
    assert_eq!((game.score, game.line), (125, 4));
    // the six rows left above the cleared ones moved down by four
    for y in 14..20 {
        assert_eq!(game.field[y][7], NONE);
        assert_eq!(game.field[y][2], O);
    }
    assert_eq!(game.field[13][2], NONE);
    assert_eq!(game.block, block_shape(BlockKind::O));
    assert!(!game.holded);
}

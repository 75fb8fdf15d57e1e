use std::collections::VecDeque;

use tetris::block::block_kind::{GHOST, I, NONE, O, T, WALL};
use tetris::block::{block_shape, gen_block_7, BlockKind, BlockShape};
use tetris::game::{
    display_field, erace_line, fix_block, get_ghost_pos, hard_drop, hold, is_collision, landing,
    move_block, rotate_left, rotate_right, score_for_lines, spawn_block, Field, Game, Position,
    FIELD_HEIGHT, FIELD_WIDTH, NEXT_LENGTH,
};

const ALL_KINDS: [BlockKind; 7] = [
    BlockKind::I,
    BlockKind::O,
    BlockKind::S,
    BlockKind::Z,
    BlockKind::J,
    BlockKind::L,
    BlockKind::T,
];

fn i_vertical() -> BlockShape {
    [[0, I, 0, 0], [0, I, 0, 0], [0, I, 0, 0], [0, I, 0, 0]]
}

fn empty_field() -> Field {
    Game::new().field
}

fn queue(shapes: &[BlockShape]) -> VecDeque<BlockShape> {
    shapes.iter().copied().collect()
}

/// A game on an empty board whose queue and bag are known.
fn known_game(block: BlockShape) -> Game {
    let mut game = Game::new();
    game.block = block;
    game.pos = Position::init();
    game.next = queue(&[
        block_shape(BlockKind::O),
        block_shape(BlockKind::T),
        block_shape(BlockKind::S),
    ]);
    game.next_buf = queue(&[block_shape(BlockKind::Z), block_shape(BlockKind::J)]);
    game
}

fn kind_of(shape: &BlockShape) -> Option<BlockKind> {
    ALL_KINDS.iter().copied().find(|k| block_shape(*k) == *shape)
}

fn fill_row(field: &mut Field, y: usize, color: usize) {
    for x in 2..FIELD_WIDTH - 2 {
        field[y][x] = color;
    }
}

#[test]
fn position_init_is_spawn() {
    let p = Position::init();
    assert_eq!((p.x, p.y), (5, 0));
}

#[test]
fn new_game_board_and_queues() {
    let game = Game::new();
    for y in 0..FIELD_HEIGHT {
        for x in 0..FIELD_WIDTH {
            let wall = (y < 20 && (x == 1 || x == 13)) || (y == 20 && (1..=13).contains(&x));
            assert_eq!(game.field[y][x], if wall { WALL } else { NONE }, "cell {y} {x}");
        }
    }
    assert_eq!(game.next.len(), NEXT_LENGTH);
    assert_eq!(game.next_buf.len(), 3);
    assert!(game.hold.is_none());
    assert!(!game.holded);
    assert_eq!((game.score, game.line), (0, 0));
    assert_eq!((game.pos.x, game.pos.y), (5, 0));
    // the active piece, the queue and the bag are one bag dealt in order
    let mut kinds: Vec<BlockKind> = vec![kind_of(&game.block).unwrap()];
    kinds.extend(game.next.iter().map(|s| kind_of(s).unwrap()));
    kinds.extend(game.next_buf.iter().map(|s| kind_of(s).unwrap()));
    for k in ALL_KINDS {
        assert_eq!(kinds.iter().filter(|x| **x == k).count(), 1);
    }
}

#[test]
fn bag_holds_each_kind_once() {
    let bag = gen_block_7();
    assert_eq!(bag.len(), 7);
    for k in ALL_KINDS {
        assert_eq!(bag.iter().filter(|s| **s == block_shape(k)).count(), 1);
    }
}

#[test]
fn bag_order_is_shuffled() {
    let catalog: Vec<BlockShape> = ALL_KINDS.iter().map(|k| block_shape(*k)).collect();
    let shuffled = (0..30).any(|_| gen_block_7() != catalog);
    assert!(shuffled);
}

#[test]
fn seven_draws_from_empty_bag_give_every_kind() {
    let mut game = known_game(block_shape(BlockKind::I));
    game.next_buf.clear();
    let mut drawn = Vec::new();
    for _ in 0..7 {
        spawn_block(&mut game).unwrap();
        drawn.push(*game.next.back().unwrap());
        assert_eq!(game.next.len(), NEXT_LENGTH);
    }
    assert!(game.next_buf.is_empty());
    for k in ALL_KINDS {
        assert_eq!(drawn.iter().filter(|s| **s == block_shape(k)).count(), 1);
    }
}

#[test]
fn spawn_takes_queue_head_and_bag_head() {
    let mut game = known_game(block_shape(BlockKind::I));
    game.pos = Position { x: 3, y: 7 };
    assert_eq!(spawn_block(&mut game), Ok(()));
    assert_eq!(game.block, block_shape(BlockKind::O));
    assert_eq!((game.pos.x, game.pos.y), (5, 0));
    let next: Vec<BlockShape> = game.next.iter().copied().collect();
    assert_eq!(
        next,
        vec![block_shape(BlockKind::T), block_shape(BlockKind::S), block_shape(BlockKind::Z)]
    );
    assert_eq!(game.next_buf.len(), 1);
}

#[test]
fn spawn_into_occupied_cells_is_game_over() {
    let mut game = known_game(block_shape(BlockKind::I));
    for y in 0..4 {
        fill_row(&mut game.field, y, T);
    }
    assert_eq!(spawn_block(&mut game), Err(()));
}

#[test]
fn collision_with_wall_floor_and_cells() {
    let field = empty_field();
    let i = block_shape(BlockKind::I);
    assert!(!is_collision(&field, &Position::init(), &i));
    // the horizontal I in mask row 2 reaches the left wall at column 1
    assert!(is_collision(&field, &Position { x: 1, y: 0 }, &i));
    assert!(!is_collision(&field, &Position { x: 2, y: 0 }, &i));
    // mask row 2 on the floor row
    assert!(is_collision(&field, &Position { x: 4, y: 18 }, &i));
    assert!(!is_collision(&field, &Position { x: 4, y: 17 }, &i));
    let mut f2 = field;
    f2[2][6] = O;
    assert!(is_collision(&f2, &Position { x: 5, y: 0 }, &i));
}

#[test]
fn collision_ignores_cells_off_the_board() {
    let field = empty_field();
    // every set cell lies beyond the last row or column
    assert!(!is_collision(&field, &Position { x: 5, y: 30 }, &i_vertical()));
    assert!(!is_collision(&field, &Position { x: 40, y: 3 }, &i_vertical()));
}

#[test]
fn collision_same_placement_same_answer() {
    let mut field = empty_field();
    field[3][7] = T;
    let p = Position { x: 6, y: 0 };
    let shifted = Position { x: p.x + 0, y: p.y + 0 };
    assert!(is_collision(&field, &p, &i_vertical()));
    assert!(is_collision(&field, &shifted, &i_vertical()));
}

#[test]
fn move_block_commits_only_free_positions() {
    let mut game = known_game(block_shape(BlockKind::I));
    move_block(&mut game, Position { x: 3, y: 4 });
    assert_eq!((game.pos.x, game.pos.y), (3, 4));
    move_block(&mut game, Position { x: 0, y: 4 });
    assert_eq!((game.pos.x, game.pos.y), (3, 4));
}

#[test]
fn hard_drop_lands_on_floor_and_on_cells() {
    let mut game = known_game(block_shape(BlockKind::I));
    hard_drop(&mut game);
    assert_eq!((game.pos.x, game.pos.y), (5, 17));
    let mut game = known_game(block_shape(BlockKind::I));
    game.field[10][7] = T;
    hard_drop(&mut game);
    assert_eq!((game.pos.x, game.pos.y), (5, 7));
}

#[test]
fn ghost_position_matches_hard_drop() {
    let game = known_game(block_shape(BlockKind::T));
    let g = get_ghost_pos(&game.field, &game.pos, &game.block);
    let mut dropped = known_game(block_shape(BlockKind::T));
    hard_drop(&mut dropped);
    assert_eq!((g.x, g.y), (dropped.pos.x, dropped.pos.y));
    assert_eq!(g.y, 17);
}

#[test]
fn fix_block_changes_only_the_footprint() {
    let mut game = known_game(block_shape(BlockKind::T));
    game.pos = Position { x: 4, y: 10 };
    let before = game.field;
    fix_block(&mut game);
    for y in 0..FIELD_HEIGHT {
        for x in 0..FIELD_WIDTH {
            let under = y >= 10 && y < 14 && x >= 4 && x < 8 && game.block[y - 10][x - 4] != NONE;
            if under {
                assert_eq!(game.field[y][x], T);
            } else {
                assert_eq!(game.field[y][x], before[y][x]);
            }
        }
    }
    assert_eq!(game.field[11][5], T);
    assert_eq!(game.field[12][4], T);
    assert_eq!(game.field[11][4], NONE);
}

#[test]
fn erace_line_clears_one_row_and_shifts() {
    let mut field = empty_field();
    fill_row(&mut field, 19, O);
    field[18][3] = T;
    field[17][4] = I;
    let count = erace_line(&mut field);
    assert_eq!(count, 1);
    assert_eq!(field[19][3], T);
    assert_eq!(field[18][4], I);
    assert_eq!(field[19][2], NONE);
    assert_eq!(field[18][3], NONE);
    assert_eq!(field[20][5], WALL);
}

#[test]
fn erace_line_clears_separate_rows() {
    let mut field = empty_field();
    fill_row(&mut field, 19, O);
    fill_row(&mut field, 17, O);
    field[18][6] = T;
    field[16][2] = I;
    let count = erace_line(&mut field);
    assert_eq!(count, 2);
    assert_eq!(field[19][6], T);
    assert_eq!(field[18][2], I);
    for y in 0..20 {
        assert!((2..13).any(|x| field[y][x] == NONE), "row {y} full");
    }
}

#[test]
fn erace_line_on_board_without_full_rows() {
    let mut field = empty_field();
    field[19][2] = T;
    let before = field;
    assert_eq!(erace_line(&mut field), 0);
    assert_eq!(field, before);
}

#[test]
fn erace_line_brings_in_an_empty_top_row() {
    let mut field = empty_field();
    fill_row(&mut field, 19, O);
    field[0][4] = T;
    field[1][6] = I;
    assert_eq!(erace_line(&mut field), 1);
    assert_eq!(field[1][4], T);
    assert_eq!(field[2][6], I);
    assert_eq!(field[0], empty_field()[0]);
}

#[test]
fn erace_line_clears_the_top_row() {
    let mut field = empty_field();
    fill_row(&mut field, 0, O);
    fill_row(&mut field, 1, O);
    field[2][3] = T;
    assert_eq!(erace_line(&mut field), 2);
    assert_eq!(field[0], empty_field()[0]);
    assert_eq!(field[1], empty_field()[1]);
    assert_eq!(field[2][3], T);
}

#[test]
fn score_table_values() {
    let expected = [0, 1, 5, 25, 125];
    for (n, s) in expected.iter().enumerate() {
        assert_eq!(score_for_lines(n), *s);
    }
}

#[test]
fn single_gap_filled_by_i_scores_one() {
    let mut game = known_game(i_vertical());
    fill_row(&mut game.field, 19, O);
    game.field[19][8] = NONE;
    game.pos = Position { x: 7, y: 0 };
    hard_drop(&mut game);
    assert_eq!(game.pos.y, 16);
    assert_eq!(landing(&mut game), Ok(()));
    assert_eq!(game.score, 1);
    assert_eq!(game.line, 1);
    // the three cells of the I above the cleared row moved down by one
    assert_eq!(game.field[19][8], I);
    assert_eq!(game.field[17][8], I);
    assert_eq!(game.field[16][8], NONE);
    assert_eq!(game.field[19][2], NONE);
}

#[test]
fn four_rows_at_once_score_125() {
    let mut game = known_game(i_vertical());
    for y in 16..20 {
        fill_row(&mut game.field, y, O);
        game.field[y][8] = NONE;
    }
    game.pos = Position { x: 7, y: 0 };
    hard_drop(&mut game);
    assert_eq!(landing(&mut game), Ok(()));
    assert_eq!((game.score, game.line), (125, 4));
    for y in 0..20 {
        for x in 2..13 {
            assert_eq!(game.field[y][x], NONE);
        }
    }
}

#[test]
fn landing_spawns_next_and_resets_hold() {
    let mut game = known_game(block_shape(BlockKind::I));
    game.holded = true;
    hard_drop(&mut game);
    assert_eq!(landing(&mut game), Ok(()));
    assert!(!game.holded);
    assert_eq!(game.block, block_shape(BlockKind::O));
    assert_eq!(game.field[19][5], I);
    assert_eq!((game.score, game.line), (0, 0));
}

#[test]
fn landing_reports_game_over() {
    let mut game = known_game(block_shape(BlockKind::I));
    for y in 2..20 {
        fill_row(&mut game.field, y, T);
        game.field[y][12] = NONE;
    }
    game.pos = Position { x: 5, y: 0 };
    assert_eq!(landing(&mut game), Err(()));
    // the locked piece stays on the board
    assert_eq!(game.field[2][12], NONE);
    assert_eq!(game.field[2][5], I);
}

#[test]
fn hold_stores_then_swaps() {
    let mut game = known_game(block_shape(BlockKind::I));
    hold(&mut game);
    assert_eq!(game.hold, Some(block_shape(BlockKind::I)));
    assert_eq!(game.block, block_shape(BlockKind::O));
    assert!(game.holded);
    game.holded = false;
    game.pos = Position { x: 2, y: 9 };
    hold(&mut game);
    assert_eq!(game.hold, Some(block_shape(BlockKind::O)));
    assert_eq!(game.block, block_shape(BlockKind::I));
    assert_eq!((game.pos.x, game.pos.y), (5, 0));
}

#[test]
fn second_hold_changes_nothing() {
    let mut game = known_game(block_shape(BlockKind::I));
    hold(&mut game);
    let after_first = game.snapshot();
    hold(&mut game);
    assert_eq!(game.block, after_first.block);
    assert_eq!(game.hold, after_first.hold);
    assert_eq!(game.next, after_first.next);
    assert_eq!(game.next_buf, after_first.next_buf);
    assert_eq!((game.pos.x, game.pos.y), (after_first.pos.x, after_first.pos.y));
    assert!(game.holded);
}

#[test]
fn rotate_right_turns_the_mask() {
    let mut game = known_game(block_shape(BlockKind::I));
    rotate_right(&mut game);
    assert_eq!(game.block, i_vertical());
    assert_eq!((game.pos.x, game.pos.y), (5, 0));
}

#[test]
fn rotate_left_turns_the_mask() {
    let mut game = known_game(block_shape(BlockKind::T));
    rotate_left(&mut game);
    assert_eq!(game.block, [[0, 0, 0, 0], [0, 0, T, 0], [0, T, T, 0], [0, 0, T, 0]]);
}

#[test]
fn four_turns_restore_every_kind() {
    for k in ALL_KINDS {
        let mut right = known_game(block_shape(k));
        let mut left = known_game(block_shape(k));
        for _ in 0..4 {
            rotate_right(&mut right);
            rotate_left(&mut left);
        }
        assert_eq!(right.block, block_shape(k));
        assert_eq!(left.block, block_shape(k));
        assert_eq!((right.pos.x, right.pos.y), (5, 0));
        assert_eq!((left.pos.x, left.pos.y), (5, 0));
    }
}

#[test]
fn rotation_kicks_away_from_the_wall() {
    // a vertical I in mask column 1 against the left wall: turning it back to
    // horizontal would overlap the wall, so the first free kick (right 1) is taken
    let mut game = known_game(i_vertical());
    game.pos = Position { x: 1, y: 5 };
    assert!(!is_collision(&game.field, &game.pos, &game.block));
    rotate_right(&mut game);
    assert_eq!(game.block, [[0, 0, 0, 0], [I, I, I, I], [0, 0, 0, 0], [0, 0, 0, 0]]);
    assert_eq!((game.pos.x, game.pos.y), (2, 5));
}

#[test]
fn rotation_refused_when_no_kick_fits() {
    let mut game = known_game(i_vertical());
    game.pos = Position { x: 4, y: 5 };
    for y in 0..20 {
        for x in 2..13 {
            if x != 5 {
                game.field[y][x] = O;
            }
        }
    }
    rotate_right(&mut game);
    assert_eq!(game.block, i_vertical());
    assert_eq!((game.pos.x, game.pos.y), (4, 5));
}

#[test]
fn display_shows_piece_and_landing_preview() {
    let game = known_game(block_shape(BlockKind::O));
    let f = display_field(&game);
    assert_eq!(f[1][6], O);
    assert_eq!(f[2][7], O);
    assert_eq!(f[18][6], GHOST);
    assert_eq!(f[19][7], GHOST);
    assert_eq!(f[10][6], NONE);
    assert_eq!(game.field[19][7], NONE);
}

#[test]
fn block_kind_round_trip() {
    for (i, k) in ALL_KINDS.iter().enumerate() {
        assert_eq!(BlockKind::from_index(i), *k);
    }
    let k = BlockKind::random();
    assert!(ALL_KINDS.contains(&k));
}

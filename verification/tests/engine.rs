//! Scenario tests for the board, the movement resolver and the scene state
//! machine: spawn safety, committing and clearing rows, collision no-ops,
//! dropping to the floor, scoring, and the game-over transition.

use rustetris::block::{Block, BlockState, BlockType};
use rustetris::board::Board;
use rustetris::drawable::Drawable;
use rustetris::game::{block_movement, screen_check, Command, Game, GameScene};

const SHAPES: [BlockType; 7] = [
    BlockType::I,
    BlockType::J,
    BlockType::L,
    BlockType::O,
    BlockType::S,
    BlockType::Z,
    BlockType::T,
];

/// Read the whole grid through the drawable capability.
fn snapshot(board: &Board) -> Vec<Vec<i8>> {
    let mut rows = Vec::new();
    for y in 0..27 {
        let mut row = Vec::new();
        for x in 0..16 {
            row.push(board.get_data(y, x));
        }
        rows.push(row);
    }
    rows
}

/// The matrix of a piece, read through the drawable capability.
fn matrix(b: &Block) -> Vec<Vec<i8>> {
    let mut rows = Vec::new();
    for i in 0..4 {
        let mut row = Vec::new();
        for j in 0..4 {
            row.push(b.get_data(i, j));
        }
        rows.push(row);
    }
    rows
}

#[test]
fn fresh_grid_layout() {
    let mut board = Board::new();
    board.init();
    let (w, h) = board.get_size();
    assert_eq!((w, h), (16, 27));
    for y in 0..27 {
        for x in 0..16 {
            let want = if y >= 25 || x < 3 || x >= 13 { -1 } else { -2 };
            assert_eq!(board.get_data(y, x), want, "cell ({}, {})", y, x);
        }
    }
}

#[test]
fn rotation_cycle_returns_piece() {
    for &t in SHAPES.iter() {
        for r in 0..4u8 {
            let mut b = Block::new_with(t, r, 3);
            let before = b;
            let before_matrix = matrix(&b);
            for _ in 0..4 {
                b.rotate();
            }
            assert_eq!(b, before);
            assert_eq!(matrix(&b), before_matrix);
        }
    }
}

#[test]
fn rotation_advances_matrix() {
    // one step of rotation must actually change a non-symmetric shape
    let mut b = Block::new_with(BlockType::J, 0, 2);
    let before_matrix = matrix(&b);
    b.rotate();
    assert_eq!(b.rotation, 1);
    assert_ne!(matrix(&b), before_matrix);
}

#[test]
fn spawn_always_clear() {
    for &t in SHAPES.iter() {
        for r in 0..4u8 {
            let mut board = Board::new();
            board.init();
            let b = Block::new_with(t, r, 4);
            assert_eq!(board.check_with_block(&b), Ok(0), "shape {:?} rotation {}", t, r);
        }
    }
}

#[test]
fn random_spawn_in_range() {
    for _ in 0..50 {
        let b = Block::new();
        assert_eq!(b.x, 6);
        assert!(b.rotation < 4);
        assert!((1..=5).contains(&b.color));
        assert!((-5..=-1).contains(&b.y));
        assert!(matches!(b.state, BlockState::DROPPING));
    }
}

#[test]
fn set_writes_piece_cells_only() {
    let mut board = Board::new();
    board.init();
    let before = snapshot(&board);
    let mut p = Block::new_with(BlockType::S, 1, 2);
    p.x = 5;
    p.y = 20;
    assert_eq!(board.set_with_block(&p, 4), Ok(0));
    // S at rotation 1 occupies (0,0), (1,0), (1,1), (2,1)
    let painted = [(20, 5), (21, 5), (21, 6), (22, 6)];
    for y in 0..27 {
        for x in 0..16 {
            let want = if painted.contains(&(y, x)) { 4 } else { before[y][x] };
            assert_eq!(board.get_data(y, x), want, "cell ({}, {})", y, x);
        }
    }
}

#[test]
fn completion_on_clean_grid_is_zero() {
    let mut board = Board::new();
    board.init();
    assert_eq!(board.check_completion(), 0);
    let mut p = Block::new_with(BlockType::T, 0, 3);
    p.x = 6;
    p.y = 10;
    board.set_with_block(&p, 3).unwrap();
    assert_eq!(board.check_completion(), 0);
}

#[test]
fn completion_removes_two_full_rows() {
    let mut board = Board::new();
    board.init();
    // five O pieces fill rows 23 and 24 across all ten playable columns
    for x in [2, 4, 6, 8, 10] {
        let mut p = Block::new_with(BlockType::O, 0, 1);
        p.x = x;
        p.y = 23;
        board.set_with_block(&p, 1).unwrap();
    }
    assert_eq!(board.check_completion(), 2);
    // the grid keeps its full height: floor intact, all rows readable
    for y in 0..27 {
        for x in 0..16 {
            let want = if y >= 25 || x < 3 || x >= 13 { -1 } else { -2 };
            assert_eq!(board.get_data(y, x), want, "cell ({}, {})", y, x);
        }
    }
}

#[test]
fn completion_of_one_row_clears_all_color() {
    let mut board = Board::new();
    board.init();
    // three horizontal I commits fill row 23 (columns 3..=12), overlapping
    for x in [3, 7, 9] {
        let mut p = Block::new_with(BlockType::I, 1, 5);
        p.x = x;
        p.y = 21;
        board.set_with_block(&p, 5).unwrap();
    }
    assert_eq!(board.check_completion(), 1);
    for y in 0..27 {
        for x in 0..16 {
            assert!(board.get_data(y, x) <= 0, "color left at ({}, {})", y, x);
        }
    }
}

#[test]
fn invalid_cell_is_reported() {
    let mut board = Board::new();
    board.init();
    let mut p = Block::new_with(BlockType::O, 0, 1);
    p.x = 5;
    p.y = 20;
    // a commit with a value outside the board's vocabulary poisons the cells
    board.set_with_block(&p, 7).unwrap();
    assert_eq!(board.check_with_block(&p), Err(7));
}

#[test]
fn blocked_strafe_is_a_no_op() {
    let mut board = Board::new();
    board.init();
    // horizontal I occupies columns x..=x+3; at x = 3 it hugs the left wall
    let mut p = Block::new_with(BlockType::I, 1, 2);
    p.x = 3;
    p.y = 10;
    let before = p;
    block_movement(Command::MoveToLeft, &mut board, &mut p);
    assert_eq!(p, before);
    block_movement(Command::MoveToRight, &mut board, &mut p);
    assert_eq!(p.x, 4);
}

#[test]
fn blocked_rotation_is_a_no_op() {
    let mut board = Board::new();
    board.init();
    // horizontal I one row above the floor: turning it upright must collide
    let mut p = Block::new_with(BlockType::I, 1, 2);
    p.x = 5;
    p.y = 22;
    let before = p;
    block_movement(Command::Rotate, &mut board, &mut p);
    assert_eq!(p, before);
    assert_eq!(p.rotation, 1);
}

#[test]
fn o_piece_locks_on_the_floor() {
    let mut board = Board::new();
    board.init();
    let mut p = Block::new_with(BlockType::O, 0, 3);
    assert_eq!(p.y, -1);
    let mut moves: u32 = 0;
    while matches!(p.state, BlockState::DROPPING) {
        // the current position stays valid and never reads an invalid cell
        assert_eq!(board.check_with_block(&p), Ok(0));
        block_movement(Command::MoveDown, &mut board, &mut p);
        moves += 1;
        assert!(moves <= 30, "piece never locked");
    }
    assert_eq!(p.y, 23);
    assert_eq!(moves, 25);
    // the board is untouched until the piece is committed
    for y in 0..27 {
        for x in 0..16 {
            let want = if y >= 25 || x < 3 || x >= 13 { -1 } else { -2 };
            assert_eq!(board.get_data(y, x), want);
        }
    }
}

#[test]
fn hard_drop_rests_on_the_floor() {
    let mut board = Board::new();
    board.init();
    let mut p = Block::new_with(BlockType::O, 0, 3);
    block_movement(Command::Drop, &mut board, &mut p);
    assert!(matches!(p.state, BlockState::STACKED));
    assert_eq!(p.y, 23);
    // dropping onto a locked piece rests right above it
    board.set_with_block(&p, 3).unwrap();
    let mut q = Block::new_with(BlockType::O, 0, 2);
    block_movement(Command::Drop, &mut board, &mut q);
    assert!(matches!(q.state, BlockState::STACKED));
    assert_eq!(q.y, 21);
}

#[test]
fn intro_waits_for_start() {
    let mut g = Game::new();
    assert_eq!(g.scene, GameScene::INTRO);
    assert!(!g.handle_command(Command::MoveDown));
    assert_eq!(g.scene, GameScene::INTRO);
    assert!(!g.handle_command(Command::Go));
    assert_eq!(g.scene, GameScene::GAME);
    assert_eq!(g.score, 0);
    assert_eq!(g.get_speed_factor(), 1000);
}

#[test]
fn quit_token_terminates_everywhere() {
    let mut g = Game::new();
    assert!(g.handle_command(Command::Break));
    g.handle_command(Command::Go);
    assert!(g.handle_command(Command::Break));
    assert_eq!(g.scene, GameScene::GAME);
}

#[test]
fn lock_promotes_next_piece_and_speeds_up() {
    let mut g = Game::new();
    g.handle_command(Command::Go);
    let mut upcoming = Block::new_with(BlockType::T, 0, 2);
    upcoming.x = 4;
    g.next_block = upcoming;
    // an O one step above the floor locks on the next downward move
    let mut p = Block::new_with(BlockType::O, 0, 1);
    p.x = 5;
    p.y = 23;
    g.dropping_block = p;
    assert!(!g.handle_command(Command::MoveDown));
    assert_eq!(g.scene, GameScene::GAME);
    assert_eq!(g.dropping_block, upcoming);
    assert_eq!(g.get_speed_factor(), 993);
    // the locked piece's cells are on the board now
    assert_eq!(g.board.get_data(23, 6), 1);
    assert_eq!(g.board.get_data(24, 7), 1);
}

#[test]
fn completed_row_scores_hundred() {
    let mut g = Game::new();
    g.handle_command(Command::Go);
    // fill row 23 except columns 11 and 12
    for x in [3, 5, 7] {
        let mut p = Block::new_with(BlockType::I, 1, 4);
        p.x = x;
        p.y = 21;
        g.board.set_with_block(&p, 4).unwrap();
    }
    // drop an O into the last two columns; its lock completes row 23 only
    let mut p = Block::new_with(BlockType::O, 0, 2);
    p.x = 10;
    p.y = 23;
    g.dropping_block = p;
    assert!(!g.handle_command(Command::MoveDown));
    assert_eq!(g.score, 100);
    // row 24 keeps the O's lower half, shifted down is not: it stays put
    assert_eq!(g.board.get_data(24, 11), 2);
    assert_eq!(g.board.get_data(23, 11), -2);
}

#[test]
fn spawn_collision_ends_the_game() {
    let mut g = Game::new();
    g.handle_command(Command::Go);
    // fill the four top playable rows with locked colors
    for y in [0, 2] {
        for x in [2, 4, 6, 8, 10] {
            let mut p = Block::new_with(BlockType::O, 0, 1);
            p.x = x;
            p.y = y;
            g.board.set_with_block(&p, 1).unwrap();
        }
    }
    // fix the upcoming piece so the promoted spawn must collide
    g.next_block = Block::new_with(BlockType::O, 0, 5);
    // a piece right above the floor locks on the next downward move
    let mut p = Block::new_with(BlockType::O, 0, 2);
    p.x = 5;
    p.y = 23;
    g.dropping_block = p;
    // the board's own verdict on the upcoming spawn position is Blocked
    assert_eq!(g.board.check_with_block(&Block::new_with(BlockType::O, 0, 5)), Ok(1));
    assert!(!g.handle_command(Command::MoveDown));
    assert_eq!(g.scene, GameScene::END);
}

#[test]
fn game_over_restart_resets_everything() {
    let mut g = Game::new();
    g.handle_command(Command::Go);
    g.score = 500;
    g.set_speed_factor(300);
    g.scene = GameScene::END;
    assert!(!g.handle_command(Command::MoveToLeft));
    assert_eq!(g.scene, GameScene::END);
    assert!(!g.handle_command(Command::Go));
    assert_eq!(g.scene, GameScene::GAME);
    assert_eq!(g.score, 0);
    assert_eq!(g.get_speed_factor(), 1000);
    for y in 0..27 {
        for x in 0..16 {
            let want = if y >= 25 || x < 3 || x >= 13 { -1 } else { -2 };
            assert_eq!(g.board.get_data(y, x), want);
        }
    }
}

#[test]
fn screen_check_enforces_minimum_size() {
    assert_eq!(screen_check(80, 30), Ok(0));
    assert_eq!(screen_check(200, 50), Ok(0));
    assert_eq!(screen_check(79, 30), Err(1));
    assert_eq!(screen_check(80, 29), Err(1));
}

use tetris_core::{Board, Shape, TileType};

fn piece_cells(b: &Board) -> [usize; 4] {
    b.falling().indexes
}

fn columns(cells: &[usize; 4], width: usize) -> Vec<usize> {
    cells.iter().map(|i| i % width).collect()
}

#[test]
fn new_board_is_empty_but_for_the_piece() {
    let b = Board::with_piece(10, 20, Shape::I);
    assert_eq!(b.width(), 10);
    assert_eq!(b.height(), 20);
    assert_eq!(b.score(), 0);
    assert_eq!(b.tiles_len(), 200);
    let tiles = b.tiles();
    assert_eq!(tiles.len(), 200);
    for (i, t) in tiles.iter().enumerate() {
        if [5, 15, 25, 35].contains(&i) {
            assert_eq!(*t, TileType::Turquoise);
        } else {
            assert_eq!(*t, TileType::Empty);
        }
    }
}

#[test]
fn random_board_and_steps_keep_the_piece_on_the_grid() {
    let mut b = Board::new(10, 20);
    for _ in 0..200 {
        b.move_left();
        b.rotate();
        b.step();
        for i in piece_cells(&b).iter() {
            assert!(*i < b.tiles_len());
        }
    }
    b.reset();
    assert_eq!(b.score(), 0);
    let tiles = b.tiles();
    assert_eq!(tiles.iter().filter(|t| **t != TileType::Empty).count(), 4);
}

#[test]
fn step_moves_the_piece_one_row_down() {
    let mut b = Board::with_piece(10, 20, Shape::I);
    assert!(!b.step_with(Shape::O));
    assert_eq!(piece_cells(&b), [15, 25, 35, 45]);
    assert_eq!(b.falling().center, 25);
}

#[test]
fn move_right_and_left_shift_one_column() {
    let mut b = Board::with_piece(10, 20, Shape::O);
    b.move_right();
    b.step_with(Shape::O);
    assert_eq!(piece_cells(&b), [16, 17, 26, 27]);
    b.move_rigth();
    b.step_with(Shape::O);
    assert_eq!(piece_cells(&b), [27, 28, 37, 38]);
    b.move_left();
    b.step_with(Shape::O);
    assert_eq!(piece_cells(&b), [36, 37, 46, 47]);
}

#[test]
fn later_intent_replaces_earlier_one() {
    let mut b = Board::with_piece(10, 20, Shape::O);
    b.move_left();
    b.move_right();
    b.step_with(Shape::O);
    assert_eq!(piece_cells(&b), [16, 17, 26, 27]);
}

#[test]
fn rotation_in_open_space() {
    let mut b = Board::with_piece(10, 20, Shape::I);
    b.rotate();
    b.step_with(Shape::O);
    assert_eq!(piece_cells(&b), [26, 25, 24, 23]);
    assert_eq!(b.falling().center, 25);
}

#[test]
fn update_phases_separately() {
    let mut b = Board::with_piece(10, 20, Shape::I);
    b.rotate();
    b.move_left();
    b.update_rotate_stride();
    assert_eq!(piece_cells(&b), [15, 14, 13, 12]);
    b.update_fall();
    assert_eq!(piece_cells(&b), [25, 24, 23, 22]);
}

#[test]
fn wall_blocks_the_move_but_not_the_fall() {
    let mut b = Board::with_piece(10, 20, Shape::I);
    for _ in 0..5 {
        b.move_left();
        b.step_with(Shape::O);
    }
    assert_eq!(piece_cells(&b), [50, 60, 70, 80]);
    b.move_left();
    b.step_with(Shape::O);
    assert_eq!(piece_cells(&b), [60, 70, 80, 90]);
    assert_eq!(columns(&piece_cells(&b), 10), vec![0, 0, 0, 0]);
}

#[test]
fn wall_blocks_the_rotation() {
    let mut b = Board::with_piece(10, 20, Shape::I);
    for _ in 0..5 {
        b.move_left();
        b.step_with(Shape::O);
    }
    b.rotate();
    b.step_with(Shape::O);
    assert_eq!(piece_cells(&b), [60, 70, 80, 90]);
}

#[test]
fn locked_terrain_blocks_the_move() {
    let mut b = Board::with_piece(10, 20, Shape::O);
    assert!(b.set_tile(17, TileType::Red));
    b.move_right();
    b.step_with(Shape::O);
    assert_eq!(piece_cells(&b), [15, 16, 25, 26]);
}

#[test]
fn set_tile_refuses_piece_cells_and_outside() {
    let mut b = Board::with_piece(10, 20, Shape::O);
    assert!(!b.set_tile(5, TileType::Red));
    assert!(!b.set_tile(200, TileType::Red));
    assert!(b.set_tile(199, TileType::Red));
    assert_eq!(b.tiles()[199], TileType::Red);
}

#[test]
fn piece_locks_on_the_floor_and_a_new_one_spawns() {
    let mut b = Board::with_piece(10, 20, Shape::I);
    for _ in 0..16 {
        assert!(!b.step_with(Shape::T));
    }
    assert_eq!(piece_cells(&b), [165, 175, 185, 195]);
    assert!(!b.step_with(Shape::T));
    assert_eq!(piece_cells(&b), [5, 14, 15, 16]);
    assert_eq!(b.falling().center, 15);
    assert_eq!(b.falling().tile_type, TileType::Purple);
    let tiles = b.tiles();
    for i in [165, 175, 185, 195] {
        assert_eq!(tiles[i], TileType::Turquoise);
    }
    assert_eq!(b.score(), 0);
}

#[test]
fn completed_row_scores_ten_and_drops_the_rows_above() {
    let mut b = Board::with_piece(10, 20, Shape::O);
    for c in [0, 1, 2, 3, 4, 7, 8, 9] {
        assert!(b.set_tile(190 + c, TileType::Red));
    }
    for _ in 0..18 {
        assert!(!b.step_with(Shape::T));
    }
    assert_eq!(piece_cells(&b), [185, 186, 195, 196]);
    assert!(!b.step_with(Shape::T));
    assert_eq!(b.score(), 10);
    let tiles = b.tiles();
    for c in 0..10 {
        let want = if c == 5 || c == 6 { TileType::Yellow } else { TileType::Empty };
        assert_eq!(tiles[190 + c], want);
        assert_eq!(tiles[180 + c], TileType::Empty);
    }
}

#[test]
fn spawn_collision_restarts_the_game() {
    let mut b = Board::with_piece(10, 20, Shape::I);
    for r in 4..20 {
        for c in 1..10 {
            assert!(b.set_tile(r * 10 + c, TileType::Blue));
        }
    }
    assert!(b.step_with(Shape::I));
    let fresh = Board::with_piece(10, 20, Shape::I);
    assert_eq!(b.tiles(), fresh.tiles());
    assert_eq!(b.score(), 0);
    assert_eq!(piece_cells(&b), piece_cells(&fresh));
    assert_eq!(b.falling().center, fresh.falling().center);
}

#[test]
fn game_over_zeroes_the_score_earned_on_the_same_step() {
    let mut b = Board::with_piece(10, 20, Shape::I);
    for c in 0..10 {
        if c != 5 {
            assert!(b.set_tile(30 + c, TileType::Green));
        }
    }
    for r in 4..20 {
        for c in 1..10 {
            assert!(b.set_tile(r * 10 + c, TileType::Blue));
        }
    }
    assert!(b.step_with(Shape::I));
    assert_eq!(b.score(), 0);
    assert_eq!(b.tiles(), Board::with_piece(10, 20, Shape::I).tiles());
}

#[test]
fn reset_with_clears_everything() {
    let mut b = Board::with_piece(10, 20, Shape::I);
    assert!(b.set_tile(150, TileType::Red));
    b.reset_with(Shape::Z);
    let fresh = Board::with_piece(10, 20, Shape::Z);
    assert_eq!(b.tiles(), fresh.tiles());
    assert_eq!(piece_cells(&b), [4, 5, 15, 16]);
    assert_eq!(b.score(), 0);
}

#[test]
fn fall_keeps_pending_intents() {
    let mut b = Board::with_piece(10, 20, Shape::O);
    b.move_right();
    b.rotate();
    assert!(!b.fall_with(Shape::O));
    assert_eq!(piece_cells(&b), [15, 16, 25, 26]);
    assert_eq!(b.falling().uncommited_change.x, 1);
    assert!(b.falling().rotate_this_frame);
}

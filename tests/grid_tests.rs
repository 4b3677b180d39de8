use tetris_core::{Grid, TileType};

fn grid_from(width: usize, height: usize, cells: &[TileType]) -> Grid {
    let mut g = Grid::new(width, height);
    for (i, t) in cells.iter().enumerate() {
        g.set(i, *t);
    }
    g
}

fn cells_of(g: &Grid) -> Vec<TileType> {
    (0..g.size()).map(|i| g.get(i)).collect()
}

use TileType::{Blue, Empty, Green, Orange, Purple, Red, Yellow};

#[test]
fn new_grid_is_empty() {
    let g = Grid::new(4, 5);
    assert_eq!(g.width(), 4);
    assert_eq!(g.height(), 5);
    assert_eq!(g.size(), 20);
    assert!(cells_of(&g).iter().all(|t| *t == Empty));
}

#[test]
fn set_then_get() {
    let mut g = Grid::new(3, 3);
    g.set(4, Red);
    assert_eq!(g.get(4), Red);
    assert_eq!(g.get(3), Empty);
    g.clear();
    assert_eq!(g.get(4), Empty);
}

#[test]
fn row_completeness() {
    let g = grid_from(3, 2, &[Red, Red, Empty, Blue, Green, Yellow]);
    assert!(!g.is_row_complete(0));
    assert!(g.is_row_complete(1));
}

#[test]
fn single_full_row_is_cleared_and_rows_above_drop() {
    let g0 = [
        Red, Empty, Empty, //
        Empty, Blue, Empty, //
        Green, Green, Green, //
        Empty, Empty, Yellow,
    ];
    let mut g = grid_from(3, 4, &g0);
    assert_eq!(g.clear_and_compact(), 1);
    assert_eq!(
        cells_of(&g),
        vec![
            Empty, Empty, Empty, //
            Red, Empty, Empty, //
            Empty, Blue, Empty, //
            Empty, Empty, Yellow,
        ]
    );
}

#[test]
fn top_row_full_becomes_empty() {
    let mut g = grid_from(2, 3, &[Red, Red, Blue, Empty, Empty, Green]);
    assert_eq!(g.clear_and_compact(), 1);
    assert_eq!(cells_of(&g), vec![Empty, Empty, Blue, Empty, Empty, Green]);
}

#[test]
fn two_full_rows_collapse() {
    let g0 = [
        Red, Empty, Empty, //
        Blue, Blue, Blue, //
        Empty, Green, Empty, //
        Orange, Orange, Orange, //
        Empty, Empty, Purple,
    ];
    let mut g = grid_from(3, 5, &g0);
    assert_eq!(g.clear_and_compact(), 2);
    assert_eq!(
        cells_of(&g),
        vec![
            Empty, Empty, Empty, //
            Empty, Empty, Empty, //
            Red, Empty, Empty, //
            Empty, Green, Empty, //
            Empty, Empty, Purple,
        ]
    );
}

#[test]
fn adjacent_full_rows_collapse() {
    let g0 = [
        Empty, Red, //
        Blue, Blue, //
        Green, Green, //
        Yellow, Empty,
    ];
    let mut g = grid_from(2, 4, &g0);
    assert_eq!(g.clear_and_compact(), 2);
    assert_eq!(cells_of(&g), vec![Empty, Empty, Empty, Empty, Empty, Red, Yellow, Empty]);
}

#[test]
fn no_full_row_changes_nothing() {
    let g0 = [Red, Empty, Empty, Blue, Green, Empty];
    let mut g = grid_from(3, 2, &g0);
    assert_eq!(g.clear_and_compact(), 0);
    assert_eq!(cells_of(&g), g0.to_vec());
}

#[test]
fn whole_grid_full_clears_everything() {
    let mut g = grid_from(2, 2, &[Red, Blue, Green, Yellow]);
    assert_eq!(g.clear_and_compact(), 2);
    assert_eq!(cells_of(&g), vec![Empty; 4]);
}

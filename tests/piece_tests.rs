use tetris_core::{FallingTile, Shape, TileChange, TileType};

const ALL: [Shape; 7] = [Shape::I, Shape::J, Shape::L, Shape::O, Shape::S, Shape::T, Shape::Z];

#[test]
fn catalog_order() {
    for (n, s) in ALL.iter().enumerate() {
        assert_eq!(Shape::from_index(n as u32), Some(*s));
    }
    assert_eq!(Shape::from_index(7), None);
    assert_eq!(Shape::from_index(u32::MAX), None);
}

#[test]
fn shape_colors() {
    assert_eq!(Shape::I.tile_type(), TileType::Turquoise);
    assert_eq!(Shape::J.tile_type(), TileType::Blue);
    assert_eq!(Shape::L.tile_type(), TileType::Orange);
    assert_eq!(Shape::O.tile_type(), TileType::Yellow);
    assert_eq!(Shape::S.tile_type(), TileType::Green);
    assert_eq!(Shape::T.tile_type(), TileType::Purple);
    assert_eq!(Shape::Z.tile_type(), TileType::Red);
}

#[test]
fn spawn_positions_on_width_ten() {
    let expected: [([usize; 4], usize); 7] = [
        ([5, 15, 25, 35], 15),
        ([5, 15, 24, 25], 15),
        ([5, 15, 25, 26], 15),
        ([5, 6, 15, 16], 15),
        ([5, 6, 15, 14], 15),
        ([5, 14, 15, 16], 15),
        ([4, 5, 15, 16], 5),
    ];
    for (s, (cells, center)) in ALL.iter().zip(expected.iter()) {
        let t = FallingTile::spawn(*s, 10);
        assert_eq!(t.indexes, *cells);
        assert_eq!(t.center, *center);
        assert_eq!(t.tile_type, s.tile_type());
        assert_eq!(t.uncommited_change, TileChange::new());
        assert!(!t.rotate_this_frame);
    }
}

#[test]
fn spawn_centering_on_narrow_and_odd_widths() {
    let t = FallingTile::spawn(Shape::I, 3);
    assert_eq!(t.indexes, [1, 4, 7, 10]);
    let t = FallingTile::spawn(Shape::T, 7);
    assert_eq!(t.indexes, [3, 9, 10, 11]);
    assert_eq!(t.center, 10);
}

#[test]
fn random_spawn_is_a_catalog_piece() {
    for _ in 0..20 {
        let t = FallingTile::new(10);
        assert!(ALL.iter().any(|s| {
            let e = FallingTile::spawn(*s, 10);
            e.indexes == t.indexes && e.center == t.center && e.tile_type == t.tile_type
        }));
    }
}

#[test]
fn tile_change_reset() {
    let mut c = TileChange { x: -1, y: 1, rot_degree: 90 };
    c.reset();
    assert_eq!(c, TileChange { x: 0, y: 0, rot_degree: 0 });
    assert_eq!(TileChange::new(), c);
}

#[test]
fn rotate_specific_quarter_turns() {
    let t = FallingTile::spawn(Shape::T, 10);
    assert_eq!(t.rotate_specific(0, 90, 10), 16);
    assert_eq!(t.rotate_specific(1, 90, 10), 5);
    assert_eq!(t.rotate_specific(2, 90, 10), 15);
    assert_eq!(t.rotate_specific(3, 90, 10), 25);
    assert_eq!(t.rotate_specific(0, -90, 10), 14);
    assert_eq!(t.rotate_specific(3, 0, 10), 16);
}

#[test]
fn rotate_specific_can_leave_the_grid() {
    let t = FallingTile::spawn(Shape::I, 10);
    // the top cell of a vertical bar turned the other way ends left of the pivot
    assert_eq!(t.rotate_specific(3, 90, 10), 13);
    let z = FallingTile::spawn(Shape::Z, 10);
    // a cell left of a pivot on row 0 turns to the row above: off the grid
    assert_eq!(z.rotate_specific(0, 90, 10), -5);
}

#[test]
fn as_virtual_applies_turn_then_translation() {
    let mut t = FallingTile::spawn(Shape::T, 10);
    t.uncommited_change = TileChange { x: -1, y: 1, rot_degree: 90 };
    assert_eq!(t.as_virtual(0, 10), 25);
    assert_eq!(t.as_virtual(2, 10), 24);
}

#[test]
fn commit_changes_moves_cells_and_pivot() {
    let mut t = FallingTile::spawn(Shape::T, 10);
    t.uncommited_change = TileChange { x: 1, y: 1, rot_degree: 0 };
    t.commit_changes(10);
    assert_eq!(t.indexes, [16, 25, 26, 27]);
    assert_eq!(t.center, 26);
    assert_eq!(t.uncommited_change, TileChange::new());
}

#[test]
fn commit_matches_virtual_positions() {
    let mut t = FallingTile::spawn(Shape::L, 10);
    t.uncommited_change = TileChange { x: 1, y: 2, rot_degree: -90 };
    let expected: Vec<i64> = (0..4).map(|k| t.as_virtual(k, 10)).collect();
    t.commit_changes(10);
    let got: Vec<i64> = t.indexes.iter().map(|i| *i as i64).collect();
    assert_eq!(got, expected);
    assert_eq!(t.center, 15 + 1 + 20);
}

#[test]
fn rotate_accumulates_and_undoes() {
    let mut t = FallingTile::spawn(Shape::S, 10);
    t.rotate(90);
    assert_eq!(t.uncommited_change.rot_degree, 90);
    t.rotate(-90);
    assert_eq!(t.uncommited_change.rot_degree, 0);
}

#[test]
fn four_quarter_turns_restore_every_shape() {
    for s in ALL.iter() {
        let start = FallingTile::spawn(*s, 10);
        let mut t = start;
        // move away from the top edge first so no turn leaves the grid
        t.uncommited_change = TileChange { x: 0, y: 5, rot_degree: 0 };
        t.commit_changes(10);
        let before = t;
        for _ in 0..4 {
            t.rotate(90);
            t.commit_changes(10);
        }
        assert_eq!(t.indexes, before.indexes);
        assert_eq!(t.center, before.center);
    }
}

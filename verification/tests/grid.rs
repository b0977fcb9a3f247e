use bevycraft::grid::Grid;
use bevycraft::position::Position;

#[test]
fn new_grid_needs_positive_dimensions() {
    assert!(Grid::new(0, 5).is_none());
    assert!(Grid::new(5, 0).is_none());
    assert!(Grid::new(-3, 4).is_none());
    let grid = Grid::new(80, 48).unwrap();
    assert_eq!(grid.width, 80);
    assert_eq!(grid.height, 48);
    assert_eq!(grid.len(), 3840);
}

#[test]
fn in_bounds_is_the_rectangle() {
    let grid = Grid::new(4, 3).unwrap();
    for x in -2..7 {
        for y in -2..6 {
            let expected = 0 <= x && x < 4 && 0 <= y && y < 3;
            assert_eq!(grid.in_bounds(Position::new(x, y)), expected);
        }
    }
}

#[test]
fn index_is_row_major() {
    let grid = Grid::new(4, 3).unwrap();
    assert_eq!(grid.point2d_to_index(Position::new(0, 0)), 0);
    assert_eq!(grid.point2d_to_index(Position::new(3, 0)), 3);
    assert_eq!(grid.point2d_to_index(Position::new(0, 1)), 4);
    assert_eq!(grid.point2d_to_index(Position::new(2, 2)), 10);
}

#[test]
fn index_without_bounds_check_aliases() {
    let grid = Grid::new(4, 3).unwrap();
    // one column behind the east edge of row 0 is the first tile of row 1
    assert_eq!(grid.point2d_to_index(Position::new(4, 0)), 4);
}

#[test]
fn index_and_position_round_trip() {
    let grid = Grid::new(7, 5).unwrap();
    for y in 0..5 {
        for x in 0..7 {
            let p = Position::new(x, y);
            let idx = grid.point2d_to_index(p);
            assert_eq!(grid.index_to_point2d(idx), p);
        }
    }
    for idx in 0..35usize {
        assert_eq!(grid.point2d_to_index(grid.index_to_point2d(idx)), idx);
    }
}

#[test]
fn try_idx_rejects_what_is_off_the_grid() {
    let grid = Grid::new(4, 3).unwrap();
    assert_eq!(grid.try_idx(Position::new(1, 2)), Some(9));
    assert_eq!(grid.try_idx(Position::new(4, 0)), None);
    assert_eq!(grid.try_idx(Position::new(-1, 0)), None);
    assert_eq!(grid.try_idx(Position::new(0, 3)), None);
}

#[test]
fn dimensions_are_width_and_height() {
    let grid = Grid::new(4, 3).unwrap();
    assert_eq!(grid.dimensions(), Position::new(4, 3));
}

#[test]
fn position_distances() {
    let a = Position::new(1, 2);
    let b = Position::new(4, 6);
    assert_eq!(a.distance_squared(b), 25);
    assert_eq!(b.distance_squared(a), 25);
    assert_eq!(a.distance_squared(a), 0);
    let far = Position::new(i32::MIN, i32::MIN).distance_squared(Position::new(i32::MAX, i32::MAX));
    assert_eq!(far, 2 * (u32::MAX as u128) * (u32::MAX as u128));
}

#[test]
fn position_to_tile_pos() {
    assert_eq!(Position::new(3, 4).to_tile_pos(), Some((3, 4)));
    assert_eq!(Position::new(-1, 4).to_tile_pos(), None);
    assert_eq!(Position::new(3, -4).to_tile_pos(), None);
    assert_eq!(Position::from_tile_pos(3, 4), Some(Position::new(3, 4)));
    assert_eq!(Position::from_tile_pos(u32::MAX, 0), None);
    assert_eq!(Position::default(), Position::new(0, 0));
}

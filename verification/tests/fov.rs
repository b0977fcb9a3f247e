use bevycraft::fov::{field_of_view_set, line_is_clear, FieldOfView};
use bevycraft::grid::Grid;
use bevycraft::map::{MapAdapter, TileMapQuery, TileType};
use bevycraft::position::Position;

fn parse(rows: &[&str]) -> MapAdapter {
    let height = rows.len() as i32;
    let width = rows[0].len() as i32;
    let mut tiles = Vec::new();
    for row in rows {
        for c in row.chars() {
            tiles.push(if c == '.' { TileType::Floor } else { TileType::Wall });
        }
    }
    let grid = Grid::new(width, height).unwrap();
    MapAdapter::new(TileMapQuery::new(grid, tiles).unwrap())
}

fn open(width: i32, height: i32) -> MapAdapter {
    let grid = Grid::new(width, height).unwrap();
    MapAdapter::new(TileMapQuery::new(grid, vec![TileType::Floor; (width * height) as usize]).unwrap())
}

fn sees(visible: &Vec<Position>, x: i32, y: i32) -> bool {
    visible.contains(&Position::new(x, y))
}

#[test]
fn observer_sees_its_own_tile() {
    let map = open(5, 5);
    for r in -3..4 {
        let visible = field_of_view_set(Position::new(2, 2), r, &map);
        assert!(sees(&visible, 2, 2));
    }
    let walled = parse(&["###", "###", "###"]);
    assert_eq!(field_of_view_set(Position::new(1, 1), 0, &walled), vec![Position::new(1, 1)]);
}

#[test]
fn radius_zero_sees_the_observer_only() {
    let map = open(5, 5);
    assert_eq!(field_of_view_set(Position::new(2, 2), 0, &map), vec![Position::new(2, 2)]);
}

#[test]
fn negative_radius_sees_the_observer_only() {
    let map = open(5, 5);
    assert_eq!(field_of_view_set(Position::new(2, 2), -1, &map), vec![Position::new(2, 2)]);
    assert_eq!(
        field_of_view_set(Position::new(2, 2), i32::MIN, &map),
        vec![Position::new(2, 2)]
    );
    let mut fov = FieldOfView::new(-3);
    fov.update(Position::new(1, 4), &map);
    assert!(fov.can_see(Position::new(1, 4)));
    assert_eq!(fov.visible_tiles.len(), 1);
}

#[test]
fn open_grid_shows_the_disc() {
    let map = open(11, 11);
    let center = Position::new(5, 5);
    let visible = field_of_view_set(center, 3, &map);
    for y in 0..11 {
        for x in 0..11 {
            let inside = (x - 5) * (x - 5) + (y - 5) * (y - 5) <= 9;
            assert_eq!(sees(&visible, x, y), inside);
        }
    }
}

#[test]
fn nothing_beyond_the_radius() {
    let map = parse(&[
        ".......",
        "..#....",
        ".......",
        "....#..",
        ".......",
    ]);
    let center = Position::new(3, 2);
    for r in 0..6 {
        let visible = field_of_view_set(center, r, &map);
        for t in &visible {
            assert!(center.distance_squared(*t) <= (r * r) as u128);
        }
    }
    for r in -6..0 {
        assert_eq!(field_of_view_set(center, r, &map), vec![center]);
    }
}

#[test]
fn no_tile_is_listed_twice() {
    let map = open(9, 9);
    let visible = field_of_view_set(Position::new(4, 4), 4, &map);
    for (i, a) in visible.iter().enumerate() {
        for b in &visible[i + 1..] {
            assert_ne!(a, b);
        }
    }
}

#[test]
fn wall_is_seen_and_hides_what_is_behind() {
    let map = parse(&["...#..."]);
    let visible = field_of_view_set(Position::new(0, 0), 6, &map);
    assert!(sees(&visible, 1, 0));
    assert!(sees(&visible, 2, 0));
    assert!(sees(&visible, 3, 0));
    assert!(!sees(&visible, 4, 0));
    assert!(!sees(&visible, 5, 0));
    assert!(!sees(&visible, 6, 0));
}

#[test]
fn putting_a_wall_in_between_hides_the_farther_tile() {
    let before = open(7, 3);
    let observer = Position::new(1, 1);
    let seen = field_of_view_set(observer, 5, &before);
    assert!(sees(&seen, 5, 1));
    assert!(sees(&seen, 2, 1));
    let after = parse(&[
        ".......",
        "...#...",
        ".......",
    ]);
    let seen = field_of_view_set(observer, 5, &after);
    assert!(!sees(&seen, 5, 1));
    assert!(!sees(&seen, 4, 1));
    assert!(sees(&seen, 3, 1));
    assert!(sees(&seen, 2, 1));
    assert!(sees(&seen, 1, 0));
    assert!(sees(&seen, 2, 2));
}

#[test]
fn clipped_at_the_edge_of_the_grid() {
    let map = open(3, 3);
    let visible = field_of_view_set(Position::new(0, 0), 10, &map);
    assert_eq!(visible.len(), 9);
    for t in &visible {
        assert!(map.in_bounds(*t));
    }
}

#[test]
fn observer_off_the_grid() {
    let map = open(3, 3);
    let visible = field_of_view_set(Position::new(-1, 1), 2, &map);
    assert!(sees(&visible, -1, 1));
    assert!(sees(&visible, 0, 1));
    assert!(sees(&visible, 1, 1));
    assert!(!sees(&visible, 2, 1));
    let far = field_of_view_set(Position::new(-5, 1), 8, &map);
    assert_eq!(far, vec![Position::new(-5, 1)]);
}

#[test]
fn diagonal_line_of_sight() {
    let map = parse(&[
        "....",
        ".#..",
        "....",
        "....",
    ]);
    let o = Position::new(0, 0);
    assert!(line_is_clear(&map, o, Position::new(1, 1)));
    assert!(!line_is_clear(&map, o, Position::new(2, 2)));
    assert!(!line_is_clear(&map, o, Position::new(3, 3)));
    assert!(line_is_clear(&map, o, Position::new(3, 0)));
    assert!(line_is_clear(&map, o, Position::new(0, 3)));
    assert!(line_is_clear(&map, o, o));
}

#[test]
fn line_rounds_to_the_nearest_tile() {
    // from (0,0) to (4,1): after two of four steps the line is at y = 0.5,
    // which rounds away from zero, to the row 1
    let map = parse(&[
        "..#..",
        ".....",
    ]);
    assert!(line_is_clear(&map, Position::new(0, 0), Position::new(4, 1)));
    let map = parse(&[
        ".....",
        "..#..",
    ]);
    assert!(!line_is_clear(&map, Position::new(0, 0), Position::new(4, 1)));
}

#[test]
fn field_of_view_component() {
    let map = parse(&["...#..."]);
    let mut fov = FieldOfView::new(3);
    assert_eq!(fov.radius, 3);
    assert!(fov.visible_tiles.is_empty());
    assert!(!fov.can_see(Position::new(0, 0)));
    fov.update(Position::new(1, 0), &map);
    assert_eq!(fov.radius, 3);
    assert!(fov.can_see(Position::new(1, 0)));
    assert!(fov.can_see(Position::new(0, 0)));
    assert!(fov.can_see(Position::new(3, 0)));
    assert!(!fov.can_see(Position::new(4, 0)));
    fov.update(Position::new(5, 0), &map);
    assert!(!fov.can_see(Position::new(1, 0)));
    assert!(fov.can_see(Position::new(6, 0)));
    assert!(fov.can_see(Position::new(3, 0)));
}
